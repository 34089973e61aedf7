//! Commands: single lines of text bound for the device.

use vstd::prelude::*;
use vstd::utf8::*;

verus! {

/// Carriage return, the byte that ends a request on the serial link.
pub const CR: u8 = 13u8;

/// Line feed, the byte that ends a response on the serial link.
pub const LF: u8 = 10u8;

/// Why a raw line was not accepted as a command.
#[derive(Clone, Copy, Debug, PartialEq, Eq, Structural)]
pub enum ValidationError {
    /// The line is empty or holds a carriage return or a line feed.
    InvalidCommand,
}

/// A character that ends a line on either side of the relay.
pub open spec fn is_line_terminator(c: char) -> bool {
    c == '\r' || c == '\n'
}

/// A byte that ends a line on either side of the relay.
pub open spec fn is_terminator_byte(b: u8) -> bool {
    b == CR || b == LF
}

/// No character of `text` ends a line.
pub open spec fn terminator_free(text: Seq<char>) -> bool {
    forall|i: int| 0 <= i < text.len() ==> !is_line_terminator(#[trigger] text[i])
}

/// No byte of `bytes` ends a line.
pub open spec fn terminator_free_bytes(bytes: Seq<u8>) -> bool {
    forall|i: int| 0 <= i < bytes.len() ==> !is_terminator_byte(#[trigger] bytes[i])
}

/// What makes a line of text a command: it is not empty and stays on one line.
pub open spec fn is_well_formed(text: Seq<char>) -> bool {
    text.len() > 0 && terminator_free(text)
}

/// The encoding of one character holds a line terminator exactly when the
/// character is one.
pub proof fn lemma_scalar_terminators(c: char)
    ensures
        encode_scalar(c as u32).len() > 0,
        is_line_terminator(c) <==> !terminator_free_bytes(encode_scalar(c as u32)),
{
    let s = c as u32;
    let enc = encode_scalar(s);
    assert(is_line_terminator(c) <==> (s == 13 || s == 10));
    if has_width_1_encoding(s) {
        assert(leading_byte_width_1(s) == s) by (bit_vector)
            requires
                s <= 0x7F,
        ;
        assert(enc[0] == s);
        if is_line_terminator(c) {
            assert(is_terminator_byte(enc[0]));
        }
    } else {
        assert(leading_byte_width_2(s) >= 0x80 && leading_byte_width_3(s) >= 0x80
            && leading_byte_width_4(s) >= 0x80 && last_continuation_byte(s) >= 0x80
            && second_last_continuation_byte(s) >= 0x80 && third_last_continuation_byte(s)
            >= 0x80) by (bit_vector);
        assert forall|i: int| 0 <= i < enc.len() implies !is_terminator_byte(#[trigger] enc[i]) by {
            assert(enc[i] >= 0x80);
        }
    }
}

/// A text is free of line terminators exactly when its UTF-8 encoding is.
pub proof fn lemma_terminator_free_encoding(text: Seq<char>)
    ensures
        terminator_free(text) <==> terminator_free_bytes(encode_utf8(text)),
        text.len() == 0 <==> encode_utf8(text).len() == 0,
    decreases text.len(),
{
    if text.len() > 0 {
        let head = encode_scalar(text[0] as u32);
        let rest = text.drop_first();
        let tail = encode_utf8(rest);
        lemma_scalar_terminators(text[0]);
        lemma_terminator_free_encoding(rest);
        assert(encode_utf8(text) == head + tail);
        if terminator_free(text) {
            assert forall|i: int| 0 <= i < rest.len() implies !is_line_terminator(
                #[trigger] rest[i],
            ) by {
                assert(rest[i] == text[i + 1]);
            }
            assert forall|j: int| 0 <= j < (head + tail).len() implies !is_terminator_byte(
                #[trigger] (head + tail)[j],
            ) by {
                if j < head.len() {
                    assert((head + tail)[j] == head[j]);
                } else {
                    assert((head + tail)[j] == tail[j - head.len()]);
                }
            }
        }
        if terminator_free_bytes(head + tail) {
            assert forall|j: int| 0 <= j < head.len() implies !is_terminator_byte(
                #[trigger] head[j],
            ) by {
                assert(head[j] == (head + tail)[j]);
            }
            assert forall|j: int| 0 <= j < tail.len() implies !is_terminator_byte(
                #[trigger] tail[j],
            ) by {
                assert(tail[j] == (head + tail)[j + head.len()]);
            }
            assert forall|i: int| 0 <= i < text.len() implies !is_line_terminator(
                #[trigger] text[i],
            ) by {
                if i > 0 {
                    assert(text[i] == rest[i - 1]);
                }
            }
        }
    }
}

/// One validated line of text for the device.
#[derive(Debug, PartialEq, Eq)]
pub struct Command {
    text: String,
}

impl View for Command {
    type V = Seq<char>;

    closed spec fn view(&self) -> Seq<char> {
        self.text@
    }
}

impl Clone for Command {
    fn clone(&self) -> (c: Self)
        ensures
            c@ == self@,
    {
        proof {
            use_type_invariant(self);
        }
        Command { text: self.text.clone() }
    }
}

impl Command {
    /// Every command is a well-formed line; nothing else can be built.
    #[verifier::type_invariant]
    pub open spec fn well_formed(self) -> bool {
        is_well_formed(self@)
    }

    /// Accepts `raw` as a command if it is well formed, and rejects it
    /// otherwise.
    pub fn parse(raw: String) -> (r: Result<Command, ValidationError>)
        ensures
            is_well_formed(raw@) ==> r is Ok && r->Ok_0@ == raw@,
            !is_well_formed(raw@) ==> r == Err::<Command, ValidationError>(
                ValidationError::InvalidCommand,
            ),
    {
        if check_line(raw.as_str()) {
            Ok(Command { text: raw })
        } else {
            Err(ValidationError::InvalidCommand)
        }
    }

    /// The text of the command, which is always well formed.
    pub fn as_str(&self) -> (s: &str)
        ensures
            s@ == self@,
            is_well_formed(s@),
    {
        proof {
            use_type_invariant(self);
        }
        self.text.as_str()
    }

    /// Gives the text back as an owned string.
    pub fn into_string(self) -> (s: String)
        ensures
            s@ == self@,
            is_well_formed(s@),
    {
        proof {
            use_type_invariant(&self);
        }
        self.text
    }
}

/// Tells whether `raw` is well formed.
pub fn check_line(raw: &str) -> (ok: bool)
    ensures
        ok == is_well_formed(raw@),
{
    let bytes = raw.as_bytes();
    proof {
        lemma_terminator_free_encoding(raw@);
    }
    if bytes.len() == 0 {
        return false;
    }
    let mut i: usize = 0;
    while i < bytes.len()
        invariant
            i <= bytes.len(),
            raw@.len() > 0,
            terminator_free(raw@) <==> terminator_free_bytes(bytes@),
            forall|j: int| 0 <= j < i ==> !is_terminator_byte(#[trigger] bytes@[j]),
        decreases bytes.len() - i,
    {
        if bytes[i] == CR || bytes[i] == LF {
            assert(is_terminator_byte(bytes@[i as int]));
            return false;
        }
        i += 1;
    }
    true
}

} // verus!
