//! The emergency console.

use vstd::prelude::*;
use vstd::slice::slice_subrange;

use crate::shell::commands::{dispatch, Action};

verus! {

/// Bytes of a command line.
pub const CONSOLE_LINE_MAX: usize = 128;

/// The line that is being typed.
#[derive(Debug)]
pub struct Console {
    pub buf: [u8; CONSOLE_LINE_MAX],
    pub pos: usize,
}

impl View for Console {
    type V = Seq<u8>;

    open spec fn view(&self) -> Seq<u8> {
        self.buf@.take(self.pos as int)
    }
}

/// What the console prints at the start.
pub open spec fn banner() -> Seq<u8> {
    vstd::utf8::encode_utf8(
        "\n\x1b[1;33mKernel Emergency Console\x1b[0m [ring-0]\nType \x1b[1mhelp\x1b[0m for available commands.\n"@,
    )
}

/// The prompt.
pub open spec fn prompt() -> Seq<u8> {
    vstd::utf8::encode_utf8("\r\n[kec]# "@)
}

/// The line after one more byte, what is printed, and whether the system halts.
pub open spec fn typed(line: Seq<u8>, byte: u8) -> (Seq<u8>, Seq<u8>, bool) {
    if byte == 0x0D || byte == 0x0A {
        let cmd = crate::shell::commands::stripped(line);
        if cmd == crate::shell::commands::CMD_HALT@ {
            (
                line,
                vstd::utf8::encode_utf8("\n"@) + vstd::utf8::encode_utf8("System halting...\n"@),
                true,
            )
        } else {
            (
                Seq::empty(),
                vstd::utf8::encode_utf8("\n"@) + crate::shell::commands::output(cmd) + prompt(),
                false,
            )
        }
    } else if byte == 0x08 || byte == 0x7F {
        if line.len() > 0 {
            (line.drop_last(), vstd::utf8::encode_utf8("\x08 \x08"@), false)
        } else {
            (line, Seq::empty(), false)
        }
    } else if 0x20 <= byte <= 0x7E && line.len() < CONSOLE_LINE_MAX {
        (line.push(byte), seq![byte], false)
    } else {
        (line, Seq::empty(), false)
    }
}

impl Console {
    pub open spec fn wf(&self) -> bool {
        self.pos <= CONSOLE_LINE_MAX
    }

    pub fn new() -> (r: Self)
        ensures
            r.wf(),
            r@ == Seq::<u8>::empty(),
            forall|i: int| 0 <= i < CONSOLE_LINE_MAX ==> #[trigger] r.buf@[i] == 0,
    {
        let r = Console { buf: [0;CONSOLE_LINE_MAX], pos: 0 };
        assert(r@ =~= Seq::<u8>::empty());
        r
    }

    /// What the console prints at the start.
    pub fn greeting(&self) -> (r: Vec<u8>)
        ensures
            r@ == banner() + prompt(),
    {
        let mut out: Vec<u8> = Vec::new();
        let text = "\n\x1b[1;33mKernel Emergency Console\x1b[0m [ring-0]\nType \x1b[1mhelp\x1b[0m for available commands.\n";
        out.extend_from_slice(text.as_bytes());
        out.extend_from_slice("\r\n[kec]# ".as_bytes());
        assert(out@ =~= banner() + prompt());
        out
    }

    /// Takes one byte from the terminal. Gives what to print, and whether the
    /// system is to halt.
    pub fn feed(&mut self, byte: u8) -> (r: (Vec<u8>, bool))
        requires
            old(self).wf(),
        ensures
            final(self).wf(),
            (final(self)@, r.0@, r.1) == typed(old(self)@, byte),
    {
        let mut out: Vec<u8> = Vec::new();
        if byte == 0x0D || byte == 0x0A {
            out.extend_from_slice("\n".as_bytes());
            let (action, mut printed) = dispatch(slice_subrange(&self.buf, 0, self.pos));
            match action {
                Action::Halt => {
                    out.extend_from_slice("System halting...\n".as_bytes());
                    assert(out@ =~= typed(old(self)@, byte).1);
                    return (out, true);
                },
                Action::Continue => {},
            }
            out.append(&mut printed);
            out.extend_from_slice("\r\n[kec]# ".as_bytes());
            self.pos = 0;
            assert(self@ =~= Seq::<u8>::empty());
            assert(out@ =~= typed(old(self)@, byte).1);
        } else if byte == 0x08 || byte == 0x7F {
            if self.pos > 0 {
                self.pos = self.pos - 1;
                out.extend_from_slice("\x08 \x08".as_bytes());
                assert(self@ =~= old(self)@.drop_last());
                assert(out@ =~= typed(old(self)@, byte).1);
            }
        } else if byte >= 0x20 && byte <= 0x7E {
            if self.pos < CONSOLE_LINE_MAX {
                let at: usize = self.pos;
                self.buf[at] = byte;
                self.pos = at + 1;
                out.push(byte);
                assert(self@ =~= old(self)@.push(byte));
                assert(out@ =~= seq![byte]);
            }
        }
        (out, false)
    }
}

/// A printable byte is put at the end of the line and echoed as long as there is
/// room for it, and a backspace takes it away again.
pub proof fn law_backspace_takes_back_a_byte(line: Seq<u8>, byte: u8, erase: u8)
    requires
        line.len() < 128,
        32 <= byte <= 126,
        erase == 8 || erase == 127,
    ensures
        typed(line, byte) == (line.push(byte), seq![byte], false),
        typed(typed(line, byte).0, erase).0 == line,
        !typed(typed(line, byte).0, erase).2,
{
    assert(line.push(byte).drop_last() =~= line);
}

/// A line end carries out the line: the system halts exactly if the line says
/// `halt`, and the next line starts empty otherwise. No other byte halts.
pub proof fn law_line_end_carries_out_the_line(line: Seq<u8>, byte: u8)
    ensures
        typed(line, byte).2 <==> (byte == 13 || byte == 10)
            && crate::shell::commands::stripped(line) == seq![104u8, 97u8, 108u8, 116u8],
        (byte == 13 || byte == 10) && !typed(line, byte).2 ==> typed(line, byte).0
            == Seq::<u8>::empty(),
        line.len() <= 128 ==> typed(line, byte).0.len() <= 128,
        byte < 32 && byte != 13 && byte != 10 && byte != 8 ==> typed(line, byte) == (
            line,
            Seq::<u8>::empty(),
            false,
        ),
{
    assert(crate::shell::commands::CMD_HALT@ =~= seq![104u8, 97u8, 108u8, 116u8]);
}

} // verus!
