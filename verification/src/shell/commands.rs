//! Commands of the emergency console.

use vstd::prelude::*;
use vstd::slice::slice_subrange;

use crate::service_registry::same_bytes;

verus! {

/// What the console does after a command.
#[derive(Copy, Clone, Debug, PartialEq, Eq, Structural)]
pub enum Action {
    Continue,
    Halt,
}

/// `halt`
pub const CMD_HALT: [u8; 4] = [104, 97, 108, 116];

/// `help`
pub const CMD_HELP: [u8; 4] = [104, 101, 108, 112];

/// `info`
pub const CMD_INFO: [u8; 4] = [105, 110, 102, 111];

pub const SPACE: u8 = 0x20;

/// Position of the first byte of `s` from `i` on that is not a space.
pub open spec fn text_start(s: Seq<u8>, i: int) -> int
    decreases s.len() - i,
{
    if i >= s.len() || s[i] != SPACE {
        i
    } else {
        text_start(s, i + 1)
    }
}

/// Position after the last byte of `s` before `i` that is not a space.
pub open spec fn text_end(s: Seq<u8>, i: int) -> int
    decreases i,
{
    if i <= 0 || s[i - 1] != SPACE {
        i
    } else {
        text_end(s, i - 1)
    }
}

/// `s` without the spaces at its start and end.
pub open spec fn stripped(s: Seq<u8>) -> Seq<u8> {
    let start = text_start(s, 0);
    let end = text_end(s, s.len() as int);
    if start >= end {
        Seq::empty()
    } else {
        s.subrange(start, end)
    }
}

/// What the help command prints.
pub open spec fn help_text() -> Seq<char> {
    "Kernel Emergency Console [ring-0]\n  help   show this message\n  halt   halt the system\n  info   show kernel build info\nNOTE: full shell is servers/rost-shell (ring-3)\n"@
}

/// What the info command prints.
pub open spec fn info_text() -> Seq<char> {
    "Rost microkernel \u{2014} x86_64 / UEFI\nRing-0 emergency console \u{2014} no IPC, no scheduling\n"@
}

/// What is printed for the command `cmd`.
pub open spec fn output(cmd: Seq<u8>) -> Seq<u8> {
    if cmd.len() == 0 || cmd == CMD_HALT@ {
        Seq::empty()
    } else if cmd == CMD_HELP@ {
        vstd::utf8::encode_utf8(help_text())
    } else if cmd == CMD_INFO@ {
        vstd::utf8::encode_utf8(info_text())
    } else {
        vstd::utf8::encode_utf8("[kec] unknown command: "@) + cmd + vstd::utf8::encode_utf8(
            " (try: help halt info)\n"@,
        )
    }
}

/// `line` without the spaces at its start and end.
pub fn trim(line: &[u8]) -> (r: &[u8])
    ensures
        r@ == stripped(line@),
{
    let mut start: usize = 0;
    while start < line.len() && line[start] == SPACE
        invariant
            start <= line@.len(),
            text_start(line@, 0) == text_start(line@, start as int),
        decreases line@.len() - start,
    {
        start = start + 1;
    }
    let mut end: usize = line.len();
    while end > 0 && line[end - 1] == SPACE
        invariant
            end <= line@.len(),
            text_end(line@, line@.len() as int) == text_end(line@, end as int),
        decreases end,
    {
        end = end - 1;
    }
    if start >= end {
        let r = slice_subrange(line, 0, 0);
        assert(r@ =~= Seq::<u8>::empty());
        r
    } else {
        slice_subrange(line, start, end)
    }
}

/// Carries out the command in `line` and gives what it prints.
pub fn dispatch(line: &[u8]) -> (r: (Action, Vec<u8>))
    ensures
        r.0 == if stripped(line@) == CMD_HALT@ {
            Action::Halt
        } else {
            Action::Continue
        },
        r.1@ == output(stripped(line@)),
{
    let cmd = trim(line);
    let mut out: Vec<u8> = Vec::new();
    if cmd.len() == 0 {
        return (Action::Continue, out);
    }
    if same_bytes(cmd, &CMD_HALT) {
        return (Action::Halt, out);
    }
    if same_bytes(cmd, &CMD_HELP) {
        let text = "Kernel Emergency Console [ring-0]\n  help   show this message\n  halt   halt the system\n  info   show kernel build info\nNOTE: full shell is servers/rost-shell (ring-3)\n";
        out.extend_from_slice(text.as_bytes());
    } else if same_bytes(cmd, &CMD_INFO) {
        let text = "Rost microkernel \u{2014} x86_64 / UEFI\nRing-0 emergency console \u{2014} no IPC, no scheduling\n";
        out.extend_from_slice(text.as_bytes());
    } else {
        out.extend_from_slice("[kec] unknown command: ".as_bytes());
        out.extend_from_slice(cmd);
        out.extend_from_slice(" (try: help halt info)\n".as_bytes());
    }
    assert(out@ =~= output(cmd@));
    (Action::Continue, out)
}

proof fn lemma_text_start(s: Seq<u8>, i: int)
    requires
        0 <= i <= s.len(),
    ensures
        i <= text_start(s, i) <= s.len(),
        forall|k: int| i <= k < text_start(s, i) ==> s[k] == 32,
        text_start(s, i) < s.len() ==> s[text_start(s, i)] != 32,
    decreases s.len() - i,
{
    if i < s.len() && s[i] == SPACE {
        lemma_text_start(s, i + 1);
    }
}

proof fn lemma_text_end(s: Seq<u8>, i: int)
    requires
        0 <= i <= s.len(),
    ensures
        0 <= text_end(s, i) <= i,
        forall|k: int| text_end(s, i) <= k < i ==> s[k] == 32,
        text_end(s, i) > 0 ==> s[text_end(s, i) - 1] != 32,
    decreases i,
{
    if i > 0 && s[i - 1] == SPACE {
        lemma_text_end(s, i - 1);
    }
}

/// Stripping a line takes away spaces at its start and end and nothing else, and
/// leaves none there.
pub proof fn law_stripping_takes_only_spaces(s: Seq<u8>) -> (start: int)
    ensures
        0 <= start,
        start + stripped(s).len() <= s.len(),
        stripped(s) == s.subrange(start, start + stripped(s).len()),
        forall|k: int| 0 <= k < s.len() && !(start <= k < start + stripped(s).len()) ==> s[k] == 32,
        stripped(s).len() > 0 ==> stripped(s)[0] != 32 && stripped(s).last() != 32,
{
    let a = text_start(s, 0);
    let b = text_end(s, s.len() as int);
    lemma_text_start(s, 0);
    lemma_text_end(s, s.len() as int);
    if a >= b {
        assert(stripped(s) =~= s.subrange(0, 0));
        0
    } else {
        a
    }
}

/// A command other than the three known ones is repeated in the answer, and only
/// an empty line and the halt command print nothing.
pub proof fn law_unknown_command_is_repeated(cmd: Seq<u8>)
    requires
        cmd.len() > 0,
        cmd != seq![104u8, 97u8, 108u8, 116u8],
        cmd != seq![104u8, 101u8, 108u8, 112u8],
        cmd != seq![105u8, 110u8, 102u8, 111u8],
    ensures
        exists|before: Seq<u8>, after: Seq<u8>| output(cmd) == #[trigger] ((before + cmd) + after),
{
    assert(CMD_HALT@ =~= seq![104u8, 97u8, 108u8, 116u8]);
    assert(CMD_HELP@ =~= seq![104u8, 101u8, 108u8, 112u8]);
    assert(CMD_INFO@ =~= seq![105u8, 110u8, 102u8, 111u8]);
    let before = vstd::utf8::encode_utf8("[kec] unknown command: "@);
    let after = vstd::utf8::encode_utf8(" (try: help halt info)\n"@);
    assert(output(cmd) == (before + cmd) + after);
}

} // verus!
