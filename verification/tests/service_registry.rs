use rost::service_registry::{
    lookup, register, trim_name, unregister_all, unregister_pid, ServiceRegistry,
};

#[test]
fn test_register_and_lookup() {
    let mut reg = ServiceRegistry::new();
    let name = b"svc_reg_t01\0\0\0\0\0";
    assert!(register(&mut reg, name, 101), "register must succeed for a new name");
    assert_eq!(lookup(&reg, name), Some(101), "lookup must return the registered PID");
    unregister_pid(&mut reg, 101);
}

#[test]
fn test_lookup_nonexistent_returns_none() {
    let mut reg = ServiceRegistry::new();
    let name = b"svc_noent_t02\0\0\0";
    unregister_pid(&mut reg, 99999);
    assert_eq!(lookup(&reg, name), None, "unknown name must return None");
}

#[test]
fn test_register_overwrites_existing() {
    let mut reg = ServiceRegistry::new();
    let name = b"svc_overw_t03\0\0\0";
    assert!(register(&mut reg, name, 201));
    assert!(register(&mut reg, name, 202));
    assert_eq!(lookup(&reg, name), Some(202), "second register must overwrite the first PID");
    unregister_pid(&mut reg, 202);
}

#[test]
fn test_unregister_makes_lookup_return_none() {
    let mut reg = ServiceRegistry::new();
    let name = b"svc_unreg_t04\0\0\0";
    assert!(register(&mut reg, name, 301));
    assert!(unregister_pid(&mut reg, 301), "unregister must return true when entry exists");
    assert_eq!(lookup(&reg, name), None, "lookup must return None after unregister");
}

#[test]
fn test_unregister_nonexistent_returns_false() {
    let mut reg = ServiceRegistry::new();
    assert!(
        !unregister_pid(&mut reg, 99998),
        "unregister of a non-existent PID must return false"
    );
}

#[test]
fn test_trim_name_stops_at_nul() {
    let mut reg = ServiceRegistry::new();
    let name_with_nul = b"hello\0world\0\0\0\0\0";
    let name_prefix = b"hello\0\0\0\0\0\0\0\0\0\0\0";
    assert!(register(&mut reg, name_with_nul, 401));
    assert_eq!(
        lookup(&reg, name_prefix),
        Some(401),
        "lookup with matching prefix must find the entry"
    );
    unregister_pid(&mut reg, 401);
}

#[test]
fn test_lookup_is_case_sensitive() {
    let mut reg = ServiceRegistry::new();
    let lower = b"svc_case_t06\0\0\0\0";
    let upper = b"SVC_CASE_T06\0\0\0\0";
    assert!(register(&mut reg, lower, 501));
    assert_eq!(lookup(&reg, upper), None, "lookup must be case-sensitive");
    unregister_pid(&mut reg, 501);
}

#[test]
fn names_end_at_the_first_nul() {
    assert_eq!(trim_name(b"ab\0c"), b"ab");
    assert_eq!(trim_name(b"abc"), b"abc");
    assert_eq!(trim_name(b"\0abc"), b"");
}

#[test]
fn full_registry_refuses_new_names_only() {
    let mut reg = ServiceRegistry::new();
    let mut n: u32 = 0;
    while register(&mut reg, format!("svc{n}").as_bytes(), n + 1) {
        n += 1;
    }
    assert!(n > 0);
    assert_eq!(lookup(&reg, format!("svc{n}").as_bytes()), None);
    assert!(register(&mut reg, b"svc0", 77));
    assert_eq!(lookup(&reg, b"svc0"), Some(77));
    // Other names are not affected, and a free slot can be used again.
    assert_eq!(lookup(&reg, b"svc1"), Some(2));
    assert!(unregister_pid(&mut reg, 2));
    assert!(register(&mut reg, b"late", 99));
    assert_eq!(lookup(&reg, b"late"), Some(99));
}

#[test]
fn only_the_first_service_of_a_process_is_removed() {
    let mut reg = ServiceRegistry::new();
    assert!(register(&mut reg, b"one", 5));
    assert!(register(&mut reg, b"two", 5));
    assert!(unregister_pid(&mut reg, 5));
    assert_eq!(lookup(&reg, b"one"), None);
    assert_eq!(lookup(&reg, b"two"), Some(5));
}

#[test]
fn all_services_of_a_process_can_be_removed() {
    let mut reg = ServiceRegistry::new();
    assert!(register(&mut reg, b"one", 5));
    assert!(register(&mut reg, b"other", 6));
    assert!(register(&mut reg, b"two", 5));
    unregister_all(&mut reg, 5);
    assert_eq!(lookup(&reg, b"one"), None);
    assert_eq!(lookup(&reg, b"two"), None);
    assert_eq!(lookup(&reg, b"other"), Some(6));
    assert!(!unregister_pid(&mut reg, 5));
}
