//! Register dumps.

use vstd::prelude::*;

use crate::interrupts::handlers::ExceptionFrame;
use crate::uart::print_hex;

verus! {

/// A label and the value behind it.
pub open spec fn field(label: Seq<char>, value: u64) -> Seq<u8> {
    vstd::utf8::encode_utf8(label) + crate::uart::hex_text(value)
}

/// The labelled values on one line.
pub open spec fn line(fields: Seq<(Seq<char>, u64)>) -> Seq<u8> {
    fields_text(fields) + vstd::utf8::encode_utf8("\n"@)
}

/// The labelled values one after the other.
pub open spec fn fields_text(fields: Seq<(Seq<char>, u64)>) -> Seq<u8>
    decreases fields.len(),
{
    if fields.len() == 0 {
        Seq::empty()
    } else {
        fields_text(fields.drop_last()) + field(fields.last().0, fields.last().1)
    }
}

/// The registers in a frame, on five lines.
pub open spec fn dump_text(f: ExceptionFrame) -> Seq<u8> {
    line(
        seq![
            ("  rax="@, f.rax),
            ("  rbx="@, f.rbx),
            ("  rcx="@, f.rcx),
            ("  rdx="@, f.rdx),
        ],
    ) +     line(
        seq![
            ("  rsi="@, f.rsi),
            ("  rdi="@, f.rdi),
            ("  rbp="@, f.rbp),
        ],
    ) +     line(
        seq![
            ("  r8 ="@, f.r8),
            ("  r9 ="@, f.r9),
            ("  r10="@, f.r10),
            ("  r11="@, f.r11),
        ],
    ) +     line(
        seq![
            ("  r12="@, f.r12),
            ("  r13="@, f.r13),
            ("  r14="@, f.r14),
            ("  r15="@, f.r15),
        ],
    ) +     line(
        seq![
            ("  rip="@, f.rip),
            ("  rfl="@, f.rflags),
            ("  err="@, f.error_code),
        ],
    )
}

/// A row of labels with values.
fn put_line(out: &mut Vec<u8>, fields: &[(&str, u64)])
    ensures
        final(out)@ == old(out)@ + line(texts(fields@)),
{
    let mut i: usize = 0;
    assert(out@ =~= old(out)@ + fields_text(texts(fields@.take(0))));
    while i < fields.len()
        invariant
            i <= fields@.len(),
            out@ == old(out)@ + fields_text(texts(fields@.take(i as int))),
        decreases fields@.len() - i,
    {
        let (label, value) = fields[i];
        let ghost before = texts(fields@.take(i as int));
        let ghost after = texts(fields@.take(i + 1));
        assert(after.drop_last() =~= before);
        assert(after.last() == (label@, value));
        out.extend_from_slice(label.as_bytes());
        let mut hex = print_hex(value);
        out.append(&mut hex);
        assert(out@ =~= old(out)@ + fields_text(after));
        i = i + 1;
    }
    assert(fields@.take(fields@.len() as int) =~= fields@);
    out.extend_from_slice("\n".as_bytes());
    assert(out@ =~= old(out)@ + line(texts(fields@)));
}

/// The labels as character sequences.
pub open spec fn texts(fields: Seq<(&str, u64)>) -> Seq<(Seq<char>, u64)> {
    Seq::new(fields.len(), |i: int| (fields[i].0@, fields[i].1))
}

/// The registers in a frame as text.
pub fn dump_registers(f: &ExceptionFrame) -> (r: Vec<u8>)
    ensures
        r@ == dump_text(*f),
{
    let mut out: Vec<u8> = Vec::new();
    let row0: [(&str, u64); 4] = [("  rax=", f.rax), ("  rbx=", f.rbx), ("  rcx=", f.rcx), ("  rdx=", f.rdx)];
    assert(texts(row0@) =~= seq![("  rax="@, f.rax), ("  rbx="@, f.rbx), ("  rcx="@, f.rcx), ("  rdx="@, f.rdx)]);
    put_line(&mut out, &row0);
    let row1: [(&str, u64); 3] = [("  rsi=", f.rsi), ("  rdi=", f.rdi), ("  rbp=", f.rbp)];
    assert(texts(row1@) =~= seq![("  rsi="@, f.rsi), ("  rdi="@, f.rdi), ("  rbp="@, f.rbp)]);
    put_line(&mut out, &row1);
    let row2: [(&str, u64); 4] = [("  r8 =", f.r8), ("  r9 =", f.r9), ("  r10=", f.r10), ("  r11=", f.r11)];
    assert(texts(row2@) =~= seq![("  r8 ="@, f.r8), ("  r9 ="@, f.r9), ("  r10="@, f.r10), ("  r11="@, f.r11)]);
    put_line(&mut out, &row2);
    let row3: [(&str, u64); 4] = [("  r12=", f.r12), ("  r13=", f.r13), ("  r14=", f.r14), ("  r15=", f.r15)];
    assert(texts(row3@) =~= seq![("  r12="@, f.r12), ("  r13="@, f.r13), ("  r14="@, f.r14), ("  r15="@, f.r15)]);
    put_line(&mut out, &row3);
    let row4: [(&str, u64); 3] = [("  rip=", f.rip), ("  rfl=", f.rflags), ("  err=", f.error_code)];
    assert(texts(row4@) =~= seq![("  rip="@, f.rip), ("  rfl="@, f.rflags), ("  err="@, f.error_code)]);
    put_line(&mut out, &row4);
    assert(out@ =~= dump_text(*f));
    out
}

/// `part` stands somewhere in `text`.
pub open spec fn says(text: Seq<u8>, part: Seq<u8>) -> bool {
    exists|a: Seq<u8>, b: Seq<u8>| text == #[trigger] (a + part + b)
}

proof fn lemma_says_in(before: Seq<u8>, text: Seq<u8>, after: Seq<u8>, part: Seq<u8>)
    requires
        says(text, part),
    ensures
        says(before + text + after, part),
{
    let (a, b) = choose|a: Seq<u8>, b: Seq<u8>| text == #[trigger] (a + part + b);
    assert(before + text + after =~= (before + a) + part + (b + after));
}

proof fn lemma_line_says(fields: Seq<(Seq<char>, u64)>, i: int)
    requires
        0 <= i < fields.len(),
    ensures
        says(fields_text(fields), field(fields[i].0, fields[i].1)),
        says(line(fields), field(fields[i].0, fields[i].1)),
    decreases fields.len(),
{
    let part = field(fields[i].0, fields[i].1);
    let rest = fields_text(fields.drop_last());
    let last = field(fields.last().0, fields.last().1);
    let none = Seq::<u8>::empty();
    if i < fields.len() - 1 {
        lemma_line_says(fields.drop_last(), i);
        lemma_says_in(none, rest, last, part);
        assert(none + rest + last =~= fields_text(fields));
    } else {
        assert(fields_text(fields) =~= rest + part + none);
    }
    let end = vstd::utf8::encode_utf8("\n"@);
    lemma_says_in(none, fields_text(fields), end, part);
    assert(none + fields_text(fields) + end =~= line(fields));
}

/// A dump tells every register, each behind its own name.
pub proof fn law_dump_tells_every_register(f: ExceptionFrame)
    ensures
        says(dump_text(f), field("  rax="@, f.rax)),
        says(dump_text(f), field("  rbx="@, f.rbx)),
        says(dump_text(f), field("  rcx="@, f.rcx)),
        says(dump_text(f), field("  rdx="@, f.rdx)),
        says(dump_text(f), field("  rsi="@, f.rsi)),
        says(dump_text(f), field("  rdi="@, f.rdi)),
        says(dump_text(f), field("  rbp="@, f.rbp)),
        says(dump_text(f), field("  r8 ="@, f.r8)),
        says(dump_text(f), field("  r9 ="@, f.r9)),
        says(dump_text(f), field("  r10="@, f.r10)),
        says(dump_text(f), field("  r11="@, f.r11)),
        says(dump_text(f), field("  r12="@, f.r12)),
        says(dump_text(f), field("  r13="@, f.r13)),
        says(dump_text(f), field("  r14="@, f.r14)),
        says(dump_text(f), field("  r15="@, f.r15)),
        says(dump_text(f), field("  rip="@, f.rip)),
        says(dump_text(f), field("  rfl="@, f.rflags)),
        says(dump_text(f), field("  err="@, f.error_code)),
{
    let f0 = seq![("  rax="@, f.rax), ("  rbx="@, f.rbx), ("  rcx="@, f.rcx), ("  rdx="@, f.rdx)];
    let f1 = seq![("  rsi="@, f.rsi), ("  rdi="@, f.rdi), ("  rbp="@, f.rbp)];
    let f2 = seq![("  r8 ="@, f.r8), ("  r9 ="@, f.r9), ("  r10="@, f.r10), ("  r11="@, f.r11)];
    let f3 = seq![("  r12="@, f.r12), ("  r13="@, f.r13), ("  r14="@, f.r14), ("  r15="@, f.r15)];
    let f4 = seq![("  rip="@, f.rip), ("  rfl="@, f.rflags), ("  err="@, f.error_code)];
    let (l0, l1, l2, l3, l4) = (line(f0), line(f1), line(f2), line(f3), line(f4));
    let none = Seq::<u8>::empty();
    lemma_row_says(none, f0, l1 + l2 + l3 + l4, 4);
    lemma_row_says(l0, f1, l2 + l3 + l4, 3);
    lemma_row_says(l0 + l1, f2, l3 + l4, 4);
    lemma_row_says(l0 + l1 + l2, f3, l4, 4);
    lemma_row_says(l0 + l1 + l2 + l3, f4, none, 3);
    let d = dump_text(f);
    assert(d =~= none + l0 + (l1 + l2 + l3 + l4));
    assert(d =~= l0 + l1 + (l2 + l3 + l4));
    assert(d =~= (l0 + l1) + l2 + (l3 + l4));
    assert(d =~= (l0 + l1 + l2) + l3 + l4);
    assert(d =~= (l0 + l1 + l2 + l3) + l4 + none);
}

proof fn lemma_row_says(before: Seq<u8>, fields: Seq<(Seq<char>, u64)>, after: Seq<u8>, n: nat)
    requires
        fields.len() == n,
        3 <= n <= 4,
    ensures
        says(before + line(fields) + after, field(fields[0].0, fields[0].1)),
        says(before + line(fields) + after, field(fields[1].0, fields[1].1)),
        says(before + line(fields) + after, field(fields[2].0, fields[2].1)),
        n == 4 ==> says(before + line(fields) + after, field(fields[3].0, fields[3].1)),
{
    lemma_line_says(fields, 0);
    lemma_line_says(fields, 1);
    lemma_line_says(fields, 2);
    lemma_says_in(before, line(fields), after, field(fields[0].0, fields[0].1));
    lemma_says_in(before, line(fields), after, field(fields[1].0, fields[1].1));
    lemma_says_in(before, line(fields), after, field(fields[2].0, fields[2].1));
    if n == 4 {
        lemma_line_says(fields, 3);
        lemma_says_in(before, line(fields), after, field(fields[3].0, fields[3].1));
    }
}

} // verus!
