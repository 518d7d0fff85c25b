//! The cartridge's text encoding: one byte for each character.

use crate::bytes::{find_byte, first_index_of, lemma_first_index_of};
use crate::error::Error;
use vstd::prelude::*;

verus! {

/// The byte that ends a string, and that pads a name to its field's width.
pub const TERMINATOR: u8 = 0x50;

/// The character that stands for a byte without a meaning in the encoding.
pub const UNKNOWN: char = '\u{FFFD}';

/// The character that a byte stands for.
///
/// `0x4E` and `0x4F` break the line, `0x51` ends the paragraph. Letters,
/// digits and punctuation follow the cartridge's character set. Every other
/// byte stands for [`UNKNOWN`].
pub open spec fn spec_decode_byte(b: u8) -> char {
    if 0x80 <= b <= 0x99 {
        (b - 0x80 + 0x41) as char
    } else if 0xA0 <= b <= 0xB9 {
        (b - 0xA0 + 0x61) as char
    } else if 0xF6 <= b {
        (b - 0xF6 + 0x30) as char
    } else if b == 0x4E {
        '\r'
    } else if b == 0x4F {
        '\n'
    } else if b == 0x51 {
        '\u{C}'
    } else if b == 0x7F {
        ' '
    } else if b == 0x9A {
        '('
    } else if b == 0x9B {
        ')'
    } else if b == 0x9C {
        ':'
    } else if b == 0x9D {
        ';'
    } else if b == 0x9E {
        '['
    } else if b == 0x9F {
        ']'
    } else if b == 0xBA {
        'é'
    } else if b == 0xE0 {
        '\''
    } else if b == 0xE3 {
        '-'
    } else if b == 0xE6 {
        '?'
    } else if b == 0xE7 {
        '!'
    } else if b == 0xE8 {
        '.'
    } else if b == 0xEF {
        '♂'
    } else if b == 0xF0 {
        '¥'
    } else if b == 0xF1 {
        '×'
    } else if b == 0xF3 {
        '/'
    } else if b == 0xF4 {
        ','
    } else if b == 0xF5 {
        '♀'
    } else {
        UNKNOWN
    }
}

/// The byte that stands for a character, if the encoding has one.
pub open spec fn spec_encode_char(c: char) -> Option<u8> {
    if 'A' <= c <= 'Z' {
        Some((c as u32 - 0x41 + 0x80) as u8)
    } else if 'a' <= c <= 'z' {
        Some((c as u32 - 0x61 + 0xA0) as u8)
    } else if '0' <= c <= '9' {
        Some((c as u32 - 0x30 + 0xF6) as u8)
    } else if c == '\r' {
        Some(0x4Eu8)
    } else if c == '\n' {
        Some(0x4Fu8)
    } else if c == '\u{C}' {
        Some(0x51u8)
    } else if c == ' ' {
        Some(0x7Fu8)
    } else if c == '(' {
        Some(0x9Au8)
    } else if c == ')' {
        Some(0x9Bu8)
    } else if c == ':' {
        Some(0x9Cu8)
    } else if c == ';' {
        Some(0x9Du8)
    } else if c == '[' {
        Some(0x9Eu8)
    } else if c == ']' {
        Some(0x9Fu8)
    } else if c == 'é' {
        Some(0xBAu8)
    } else if c == '\'' {
        Some(0xE0u8)
    } else if c == '-' {
        Some(0xE3u8)
    } else if c == '?' {
        Some(0xE6u8)
    } else if c == '!' {
        Some(0xE7u8)
    } else if c == '.' {
        Some(0xE8u8)
    } else if c == '♂' {
        Some(0xEFu8)
    } else if c == '¥' {
        Some(0xF0u8)
    } else if c == '×' {
        Some(0xF1u8)
    } else if c == '/' {
        Some(0xF3u8)
    } else if c == ',' {
        Some(0xF4u8)
    } else if c == '♀' {
        Some(0xF5u8)
    } else {
        None
    }
}

/// The bytes of `s` before its first terminator: all of `s` where it has none.
pub open spec fn text_part(s: Seq<u8>) -> Seq<u8> {
    match first_index_of(s, TERMINATOR) {
        Some(i) => s.take(i),
        None => s,
    }
}

/// The text that `bytes` stand for: one character for each byte before the
/// first terminator.
pub open spec fn spec_decode(bytes: Seq<u8>) -> Seq<char> {
    text_part(bytes).map_values(|b: u8| spec_decode_byte(b))
}

/// Whether the encoding has a byte for every character of `s`.
pub open spec fn representable(s: Seq<char>) -> bool {
    forall|i: int| 0 <= i < s.len() ==> (#[trigger] spec_encode_char(s[i])) is Some
}

/// The bytes that stand for `s`, or the first character of `s` that the
/// encoding has no byte for.
pub open spec fn spec_encode(s: Seq<char>) -> Result<Seq<u8>, Error>
    decreases s.len(),
{
    if s.len() == 0 {
        Ok(Seq::empty())
    } else {
        match spec_encode(s.drop_last()) {
            Err(e) => Err(e),
            Ok(bytes) => match spec_encode_char(s.last()) {
                Some(b) => Ok(bytes.push(b)),
                None => Err(Error::UnsupportedCharacter(s.last())),
            },
        }
    }
}

/// The character that `b` stands for.
pub fn decode_byte(b: u8) -> (c: char)
    ensures
        c == spec_decode_byte(b),
{
    if 0x80 <= b && b <= 0x99 {
        (b - 0x80 + 0x41) as char
    } else if 0xA0 <= b && b <= 0xB9 {
        (b - 0xA0 + 0x61) as char
    } else if 0xF6 <= b {
        (b - 0xF6 + 0x30) as char
    } else {
        match b {
            0x4E => '\r',
            0x4F => '\n',
            0x51 => '\u{C}',
            0x7F => ' ',
            0x9A => '(',
            0x9B => ')',
            0x9C => ':',
            0x9D => ';',
            0x9E => '[',
            0x9F => ']',
            0xBA => 'é',
            0xE0 => '\'',
            0xE3 => '-',
            0xE6 => '?',
            0xE7 => '!',
            0xE8 => '.',
            0xEF => '♂',
            0xF0 => '¥',
            0xF1 => '×',
            0xF3 => '/',
            0xF4 => ',',
            0xF5 => '♀',
            _ => UNKNOWN,
        }
    }
}

/// The byte that stands for `c`, if the encoding has one.
pub fn encode_char(c: char) -> (r: Option<u8>)
    ensures
        r == spec_encode_char(c),
{
    if 'A' <= c && c <= 'Z' {
        Some((c as u32 - 0x41 + 0x80) as u8)
    } else if 'a' <= c && c <= 'z' {
        Some((c as u32 - 0x61 + 0xA0) as u8)
    } else if '0' <= c && c <= '9' {
        Some((c as u32 - 0x30 + 0xF6) as u8)
    } else {
        match c {
            '\r' => Some(0x4E),
            '\n' => Some(0x4F),
            '\u{C}' => Some(0x51),
            ' ' => Some(0x7F),
            '(' => Some(0x9A),
            ')' => Some(0x9B),
            ':' => Some(0x9C),
            ';' => Some(0x9D),
            '[' => Some(0x9E),
            ']' => Some(0x9F),
            'é' => Some(0xBA),
            '\'' => Some(0xE0),
            '-' => Some(0xE3),
            '?' => Some(0xE6),
            '!' => Some(0xE7),
            '.' => Some(0xE8),
            '♂' => Some(0xEF),
            '¥' => Some(0xF0),
            '×' => Some(0xF1),
            '/' => Some(0xF3),
            ',' => Some(0xF4),
            '♀' => Some(0xF5),
            _ => None,
        }
    }
}

/// No character is encoded as the terminator, and the byte of a character
/// decodes to that character.
pub proof fn lemma_encode_char_inverse(c: char)
    ensures
        match spec_encode_char(c) {
            Some(b) => b != TERMINATOR && spec_decode_byte(b) == c,
            None => true,
        },
{
}

/// Encoding keeps the length and encodes character by character.
pub proof fn lemma_encode_ok(s: Seq<char>)
    ensures
        match spec_encode(s) {
            Ok(bytes) => {
                &&& representable(s)
                &&& bytes.len() == s.len()
                &&& forall|i: int|
                    0 <= i < s.len() ==> spec_encode_char(s[i]) == Some(#[trigger] bytes[i])
            },
            Err(e) => exists|i: int|
                0 <= i < s.len() && (#[trigger] spec_encode_char(s[i])) is None && e
                    == Error::UnsupportedCharacter(s[i]) && representable(s.take(i)),
        },
    decreases s.len(),
{
    if s.len() > 0 {
        let t = s.drop_last();
        lemma_encode_ok(t);
        match spec_encode(t) {
            Ok(bytes) => {
                match spec_encode_char(s.last()) {
                    Some(b) => {
                        assert forall|i: int| 0 <= i < s.len() implies (
                        #[trigger] spec_encode_char(s[i])) is Some by {
                            if i < t.len() {
                                assert(s[i] == t[i]);
                            }
                        }
                    },
                    None => {
                        let i = s.len() - 1;
                        assert(s.take(i) =~= t);
                        assert(spec_encode_char(s[i]) is None);
                    },
                }
            },
            Err(e) => {
                let i = choose|i: int|
                    0 <= i < t.len() && (#[trigger] spec_encode_char(t[i])) is None && e
                        == Error::UnsupportedCharacter(t[i]) && representable(t.take(i));
                assert(s[i] == t[i]);
                assert(s.take(i) =~= t.take(i));
                assert(spec_encode_char(s[i]) is None);
            },
        }
    }
}

/// Decoding what encoding produced gives the text back: for every text that
/// the encoding can represent, `decode(encode(s)) == s`.
pub proof fn text_decode_inverts_encode(s: Seq<char>)
    requires
        representable(s),
    ensures
        spec_encode(s) is Ok,
        spec_decode(spec_encode(s)->Ok_0) == s,
{
    lemma_encode_ok(s);
    if let Err(e) = spec_encode(s) {
        let i = choose|i: int|
            0 <= i < s.len() && (#[trigger] spec_encode_char(s[i])) is None && e
                == Error::UnsupportedCharacter(s[i]) && representable(s.take(i));
        assert(false);
    }
    let bytes = spec_encode(s)->Ok_0;
    lemma_first_index_of(bytes, TERMINATOR);
    assert forall|i: int| 0 <= i < bytes.len() implies bytes[i] != TERMINATOR
        && spec_decode_byte(bytes[i]) == s[i] by {
        lemma_encode_char_inverse(s[i]);
    }
    assert(first_index_of(bytes, TERMINATOR) is None);
    assert(spec_decode(bytes) =~= s);
}

/// `String::push`: appends one character to the string.
#[verifier::external_body]
pub(crate) fn string_push(s: &mut String, c: char)
    ensures
        final(s)@ == old(s)@.push(c),
{
    s.push(c)
}

/// A string in the cartridge's encoding.
#[derive(Debug, PartialEq)]
pub struct ROMString {
    pub value: Vec<u8>,
}

impl View for ROMString {
    type V = Seq<u8>;

    open spec fn view(&self) -> Seq<u8> {
        self.value@
    }
}

impl Clone for ROMString {
    fn clone(&self) -> (r: Self)
        ensures
            r@ == self@,
    {
        ROMString { value: self.value.clone() }
    }
}

impl ROMString {
    /// The string that holds `chars` as they are.
    pub fn new(chars: &[u8]) -> (r: ROMString)
        ensures
            r@ == chars@,
    {
        ROMString { value: vstd::slice::slice_to_vec(chars) }
    }

    /// The encoding of `string`, or `UnsupportedCharacter` with the first
    /// character that the encoding has no byte for.
    pub fn from(string: &str) -> (r: Result<ROMString, Error>)
        ensures
            match r {
                Ok(s) => spec_encode(string@) == Ok::<Seq<u8>, Error>(s@),
                Err(e) => spec_encode(string@) == Err::<Seq<u8>, Error>(e),
            },
    {
        let n = string.unicode_len();
        let mut value: Vec<u8> = Vec::new();
        let mut i: usize = 0;
        proof {
            assert(string@.take(0) =~= Seq::<char>::empty());
        }
        while i < n
            invariant
                i <= n == string@.len(),
                spec_encode(string@.take(i as int)) == Ok::<Seq<u8>, Error>(value@),
            decreases n - i,
        {
            let c = string.get_char(i);
            proof {
                let t = string@.take(i + 1);
                assert(t.drop_last() =~= string@.take(i as int));
                assert(t.last() == c);
                if spec_encode_char(c) is None {
                    lemma_encode_prefix_error(string@, i + 1);
                }
            }
            match encode_char(c) {
                Some(b) => {
                    value.push(b);
                },
                None => {
                    return Err(Error::UnsupportedCharacter(c));
                },
            }
            i += 1;
        }
        proof {
            assert(string@.take(n as int) =~= string@);
        }
        Ok(ROMString { value })
    }

    /// The text that the string stands for, up to its first terminator.
    pub fn to_string(&self) -> (r: String)
        ensures
            r@ == spec_decode(self@),
    {
        let len = self.value.len();
        let end = match find_byte(&self.value, 0, len, TERMINATOR) {
            Some(i) => i,
            None => len,
        };
        proof {
            assert(self.value@.subrange(0, len as int) =~= self@);
            lemma_first_index_of(self@, TERMINATOR);
        }
        let ghost text = text_part(self@);
        let mut out = String::new();
        let mut i: usize = 0;
        while i < end
            invariant
                i <= end <= self.value@.len(),
                text == self@.take(end as int),
                out@ == text.take(i as int).map_values(|b: u8| spec_decode_byte(b)),
            decreases end - i,
        {
            let c = decode_byte(self.value[i]);
            string_push(&mut out, c);
            i += 1;
            proof {
                assert(out@ =~= text.take(i as int).map_values(|b: u8| spec_decode_byte(b)));
            }
        }
        proof {
            assert(text.take(end as int) =~= text);
        }
        out
    }

    /// The number of bytes in the string.
    pub fn len(&self) -> (n: usize)
        ensures
            n == self@.len(),
    {
        self.value.len()
    }
}

/// An error in encoding a prefix of a text is the error in encoding the text.
pub proof fn lemma_encode_prefix_error(s: Seq<char>, n: int)
    requires
        0 <= n <= s.len(),
        spec_encode(s.take(n)) is Err,
    ensures
        spec_encode(s) == spec_encode(s.take(n)),
    decreases s.len() - n,
{
    if n < s.len() {
        assert(s.take(n + 1).drop_last() =~= s.take(n));
        lemma_encode_prefix_error(s, n + 1);
    } else {
        assert(s.take(n) =~= s);
    }
}

} // verus!
