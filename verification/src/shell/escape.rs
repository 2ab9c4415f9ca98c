//! Recognising keys in the bytes of a terminal.

use vstd::prelude::*;

verus! {

/// A key.
#[derive(Debug, Clone, Copy, PartialEq, Eq, Structural)]
pub enum Key {
    Char(u8),
    Enter,
    Backspace,
    Delete,
    Tab,
    ArrowUp,
    ArrowDown,
    ArrowLeft,
    ArrowRight,
    Home,
    End,
    CtrlC,
    CtrlL,
}

/// How much of an escape sequence has been seen.
#[derive(Debug, Clone, Copy, PartialEq, Eq, Structural)]
pub enum State {
    /// Nothing.
    Normal,
    /// `ESC`
    Esc,
    /// `ESC [`
    EscBracket,
    /// `ESC [` and a digit
    EscParam(u8),
}

/// Parser for the keys of a terminal, fed one byte at a time.
#[derive(Debug)]
pub struct EscapeParser {
    pub state: State,
}

/// The key a single byte stands for.
pub open spec fn plain_key(byte: u8) -> Option<Key> {
    if byte == 0x0D || byte == 0x0A {
        Some(Key::Enter)
    } else if byte == 0x08 || byte == 0x7F {
        Some(Key::Backspace)
    } else if byte == 0x09 {
        Some(Key::Tab)
    } else if byte == 0x03 {
        Some(Key::CtrlC)
    } else if byte == 0x0C {
        Some(Key::CtrlL)
    } else if byte >= 0x20 {
        Some(Key::Char(byte))
    } else {
        None
    }
}

/// The key that `ESC [` and a letter stand for.
pub open spec fn letter_key(letter: u8) -> Option<Key> {
    if letter == 0x41 {
        Some(Key::ArrowUp)
    } else if letter == 0x42 {
        Some(Key::ArrowDown)
    } else if letter == 0x43 {
        Some(Key::ArrowRight)
    } else if letter == 0x44 {
        Some(Key::ArrowLeft)
    } else if letter == 0x48 {
        Some(Key::Home)
    } else if letter == 0x46 {
        Some(Key::End)
    } else {
        None
    }
}

/// The key that `ESC [`, a digit and `~` stand for.
pub open spec fn digit_key(digit: u8) -> Option<Key> {
    if digit == 1 || digit == 7 {
        Some(Key::Home)
    } else if digit == 3 {
        Some(Key::Delete)
    } else if digit == 4 || digit == 8 {
        Some(Key::End)
    } else {
        None
    }
}

/// State and key after one more byte.
pub open spec fn step(state: State, byte: u8) -> (State, Option<Key>) {
    match state {
        State::Normal => if byte == 0x1B {
            (State::Esc, None)
        } else {
            (State::Normal, plain_key(byte))
        },
        State::Esc => if byte == 0x5B {
            (State::EscBracket, None)
        } else {
            (State::Normal, None)
        },
        State::EscBracket => if 0x31 <= byte <= 0x39 {
            (State::EscParam((byte - 0x30) as u8), None)
        } else {
            (State::Normal, letter_key(byte))
        },
        State::EscParam(digit) => if byte == 0x7E {
            (State::Normal, digit_key(digit))
        } else {
            (State::Normal, None)
        },
    }
}

/// State and keys after the bytes `bytes`.
pub open spec fn parse(state: State, bytes: Seq<u8>) -> (State, Seq<Key>)
    decreases bytes.len(),
{
    if bytes.len() == 0 {
        (state, Seq::empty())
    } else {
        let (before, keys) = parse(state, bytes.drop_last());
        let (after, key) = step(before, bytes.last());
        (
            after,
            match key {
                Some(k) => keys.push(k),
                None => keys,
            },
        )
    }
}

/// Printable bytes and bytes above ASCII come out one for one.
pub proof fn law_text_passes_through(text: Seq<u8>)
    requires
        forall|i: int| 0 <= i < text.len() ==> 0x20 <= (#[trigger] text[i]) && text[i] != 0x7F,
    ensures
        parse(State::Normal, text).0 is Normal,
        parse(State::Normal, text).1.len() == text.len(),
        forall|i: int|
            0 <= i < text.len() ==> parse(State::Normal, text).1[i] == Key::Char(
                #[trigger] text[i],
            ),
    decreases text.len(),
{
    if text.len() > 0 {
        let init = text.drop_last();
        law_text_passes_through(init);
        assert forall|i: int| 0 <= i < text.len() implies parse(State::Normal, text).1[i]
            == Key::Char(#[trigger] text[i]) by {
            if i < text.len() - 1 {
                assert(init[i] == text[i]);
            }
        }
    }
}

/// An escape sequence with a letter is one key, and text after it is read as text.
pub proof fn law_letter_sequence(letter: u8)
    requires
        letter_key(letter) is Some,
    ensures
        parse(State::Normal, seq![0x1Bu8, 0x5B, letter]) == (
            State::Normal,
            seq![letter_key(letter)->0],
        ),
{
    let s = seq![0x1Bu8, 0x5B, letter];
    assert(s.drop_last() =~= seq![0x1Bu8, 0x5B]);
    assert(s.drop_last().drop_last() =~= seq![0x1Bu8]);
    assert(s.drop_last().drop_last().drop_last() =~= Seq::<u8>::empty());
    reveal_with_fuel(parse, 4);
    assert(parse(State::Normal, s).1 =~= seq![letter_key(letter)->0]);
}

/// An escape sequence with a digit is one key, and text after it is read as text.
pub proof fn law_digit_sequence(digit: u8)
    requires
        digit_key(digit) is Some,
    ensures
        parse(State::Normal, seq![0x1Bu8, 0x5B, (digit + 0x30) as u8, 0x7E]) == (
            State::Normal,
            seq![digit_key(digit)->0],
        ),
{
    let c = (digit + 0x30) as u8;
    let s = seq![0x1Bu8, 0x5B, c, 0x7E];
    assert(s.drop_last() =~= seq![0x1Bu8, 0x5B, c]);
    assert(s.drop_last().drop_last() =~= seq![0x1Bu8, 0x5B]);
    assert(s.drop_last().drop_last().drop_last() =~= seq![0x1Bu8]);
    assert(s.drop_last().drop_last().drop_last().drop_last() =~= Seq::<u8>::empty());
    reveal_with_fuel(parse, 5);
    assert(parse(State::Normal, s).1 =~= seq![digit_key(digit)->0]);
}

impl EscapeParser {
    pub fn new() -> (r: Self)
        ensures
            r.state is Normal,
    {
        EscapeParser { state: State::Normal }
    }

    /// Takes one byte and gives the key it completes, if any.
    pub fn feed(&mut self, byte: u8) -> (r: Option<Key>)
        ensures
            (final(self).state, r) == step(old(self).state, byte),
    {
        match self.state {
            State::Normal => match byte {
                0x1B => {
                    self.state = State::Esc;
                    None
                },
                0x0D | 0x0A => Some(Key::Enter),
                0x08 | 0x7F => Some(Key::Backspace),
                0x09 => Some(Key::Tab),
                0x03 => Some(Key::CtrlC),
                0x0C => Some(Key::CtrlL),
                b => {
                    if b >= 0x20 {
                        Some(Key::Char(b))
                    } else {
                        None
                    }
                },
            },
            State::Esc => {
                self.state = if byte == 0x5B {
                    State::EscBracket
                } else {
                    State::Normal
                };
                None
            },
            State::EscBracket => {
                self.state = State::Normal;
                match byte {
                    0x41 => Some(Key::ArrowUp),
                    0x42 => Some(Key::ArrowDown),
                    0x43 => Some(Key::ArrowRight),
                    0x44 => Some(Key::ArrowLeft),
                    0x48 => Some(Key::Home),
                    0x46 => Some(Key::End),
                    b => {
                        if b >= 0x31 && b <= 0x39 {
                            self.state = State::EscParam(b - 0x30);
                        }
                        None
                    },
                }
            },
            State::EscParam(n) => {
                self.state = State::Normal;
                if byte == 0x7E {
                    match n {
                        1 | 7 => Some(Key::Home),
                        3 => Some(Key::Delete),
                        4 | 8 => Some(Key::End),
                        _ => None,
                    }
                } else {
                    None
                }
            },
        }
    }
}

/// The keys that single bytes stand for: line ends, the two kinds of backspace,
/// tab, and the two control keys. All other printable bytes stand for
/// themselves, and nothing is lost by a byte that is no key.
pub proof fn law_single_byte_keys(byte: u8)
    requires
        byte != 0x1B,
    ensures
        step(State::Normal, byte).0 is Normal,
        step(State::Normal, byte).1 == Some(Key::Enter) <==> byte == 13 || byte == 10,
        step(State::Normal, byte).1 == Some(Key::Backspace) <==> byte == 8 || byte == 127,
        step(State::Normal, byte).1 == Some(Key::Tab) <==> byte == 9,
        step(State::Normal, byte).1 == Some(Key::CtrlC) <==> byte == 3,
        step(State::Normal, byte).1 == Some(Key::CtrlL) <==> byte == 12,
        step(State::Normal, byte).1 == Some(Key::Char(byte)) <==> byte >= 32 && byte != 127,
        step(State::Normal, byte).1 is None ==> byte < 32,
{
}

/// The keys that `ESC [` and one more byte stand for. A byte other than a digit
/// from 1 to 9 ends the sequence, whether or not it is known.
pub proof fn law_letter_keys(byte: u8)
    ensures
        step(State::EscBracket, byte).1 == Some(Key::ArrowUp) <==> byte == 65,
        step(State::EscBracket, byte).1 == Some(Key::ArrowDown) <==> byte == 66,
        step(State::EscBracket, byte).1 == Some(Key::ArrowRight) <==> byte == 67,
        step(State::EscBracket, byte).1 == Some(Key::ArrowLeft) <==> byte == 68,
        step(State::EscBracket, byte).1 == Some(Key::Home) <==> byte == 72,
        step(State::EscBracket, byte).1 == Some(Key::End) <==> byte == 70,
        step(State::EscBracket, byte).0 is Normal <==> !(49 <= byte <= 57),
        step(State::Esc, byte) == (
            if byte == 91 {
                State::EscBracket
            } else {
                State::Normal
            },
            None::<Key>,
        ),
{
}

/// The keys that `ESC [`, a digit and one more byte stand for: there is one only
/// if that byte is `~`, and the sequence ends in any case.
pub proof fn law_digit_keys(c: u8, last: u8)
    requires
        49 <= c <= 57,
    ensures
        ({
            let (after, key) = step(step(State::EscBracket, c).0, last);
            &&& after is Normal
            &&& key == Some(Key::Home) <==> last == 126 && (c == 49 || c == 55)
            &&& key == Some(Key::Delete) <==> last == 126 && c == 51
            &&& key == Some(Key::End) <==> last == 126 && (c == 52 || c == 56)
            &&& key is Some ==> key == Some(Key::Home) || key == Some(Key::Delete) || key == Some(
                Key::End,
            )
        }),
{
}

} // verus!
