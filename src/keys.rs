use vstd::prelude::*;
use vstd::slice::slice_subrange;
use vstd::string::StrSliceExecFns;
use vstd::utf8::*;

use crate::text::utf8_text;

verus! {

/// A key event decoded from the raw bytes of a keyboard stream.
#[derive(Debug, Clone, Copy, PartialEq, Eq, Structural)]
pub enum KeyCode {
    ArrowUp,
    ArrowDown,
    ArrowLeft,
    ArrowRight,
    Char(char),
    Esc,
    Unknown,
}

pub const ESC: u8 = 0x1B;

pub const CSI_BRACKET: u8 = 0x5B;

/// The arrow that the final byte of `ESC [ x` stands for, if any.
pub open spec fn arrow_of(byte: u8) -> Option<KeyCode> {
    if byte == 0x41 {
        Some(KeyCode::ArrowUp)
    } else if byte == 0x42 {
        Some(KeyCode::ArrowDown)
    } else if byte == 0x43 {
        Some(KeyCode::ArrowRight)
    } else if byte == 0x44 {
        Some(KeyCode::ArrowLeft)
    } else {
        None
    }
}

/// The event that a single non-escape byte decodes to: the character it
/// encodes when it is a complete UTF-8 sequence on its own, else `Unknown`.
pub open spec fn byte_key(byte: u8) -> KeyCode {
    let bytes = seq![byte];
    if valid_utf8(bytes) {
        let chars = decode_utf8(bytes);
        KeyCode::Char(if chars.len() > 0 { chars[0] } else { '?' })
    } else {
        KeyCode::Unknown
    }
}

/// The event produced by an escape byte at `i`, and how many bytes it uses.
pub open spec fn escape_at(b: Seq<u8>, i: int) -> (KeyCode, int) {
    if i + 2 < b.len() && b[i + 1] == CSI_BRACKET && arrow_of(b[i + 2]) is Some {
        (arrow_of(b[i + 2])->0, 3)
    } else {
        (KeyCode::Esc, 1)
    }
}

/// The events that the bytes of `b` from position `i` on decode to.
pub open spec fn decode_from(b: Seq<u8>, i: int) -> Seq<KeyCode>
    decreases b.len() - i,
{
    if i < 0 || i >= b.len() {
        seq![]
    } else if b[i] == ESC {
        let (k, n) = escape_at(b, i);
        seq![k] + decode_from(b, i + n)
    } else {
        seq![byte_key(b[i])] + decode_from(b, i + 1)
    }
}

/// The events that a whole chunk of bytes decodes to.
pub open spec fn decode(b: Seq<u8>) -> Seq<KeyCode> {
    decode_from(b, 0)
}

/// How an event is written out: its character, or the name of the key.
pub open spec fn key_text(k: KeyCode) -> Seq<char> {
    match k {
        KeyCode::ArrowUp => seq!['U', 'p'],
        KeyCode::ArrowDown => seq!['D', 'o', 'w', 'n'],
        KeyCode::ArrowLeft => seq!['L', 'e', 'f', 't'],
        KeyCode::ArrowRight => seq!['R', 'i', 'g', 'h', 't'],
        KeyCode::Char(c) => seq![c],
        KeyCode::Esc => seq!['E', 's', 'c'],
        KeyCode::Unknown => seq!['U', 'n', 'k', 'n', 'o', 'w', 'n'],
    }
}

impl KeyCode {
    /// The text that stands for this event on a display.
    pub fn text(&self) -> (r: Vec<char>)
        ensures
            r@ == key_text(*self),
    {
        let r = match *self {
            KeyCode::ArrowUp => vec!['U', 'p'],
            KeyCode::ArrowDown => vec!['D', 'o', 'w', 'n'],
            KeyCode::ArrowLeft => vec!['L', 'e', 'f', 't'],
            KeyCode::ArrowRight => vec!['R', 'i', 'g', 'h', 't'],
            KeyCode::Char(c) => vec![c],
            KeyCode::Esc => vec!['E', 's', 'c'],
            KeyCode::Unknown => vec!['U', 'n', 'k', 'n', 'o', 'w', 'n'],
        };
        assert(r@ =~= key_text(*self));
        r
    }
}

/// Decodes the escape sequence whose escape byte stands at `*cursor` and
/// moves the cursor past the bytes it uses; bytes of a sequence that is not
/// recognised are left for the next event.
pub fn parse_escaped(buf: &[u8], cursor: &mut usize) -> (r: KeyCode)
    requires
        *old(cursor) < usize::MAX,
    ensures
        (r, *final(cursor) - *old(cursor)) == escape_at(buf@, *old(cursor) as int),
{
    let c = *cursor;
    if c + 1 < buf.len() && buf[c + 1] == CSI_BRACKET {
        if c + 2 < buf.len() {
            let byte = buf[c + 2];
            *cursor = c + 3;
            if byte == 0x41 {
                KeyCode::ArrowUp
            } else if byte == 0x44 {
                KeyCode::ArrowLeft
            } else if byte == 0x42 {
                KeyCode::ArrowDown
            } else if byte == 0x43 {
                KeyCode::ArrowRight
            } else {
                *cursor = c + 1;
                KeyCode::Esc
            }
        } else {
            *cursor = c + 1;
            KeyCode::Esc
        }
    } else {
        *cursor = c + 1;
        KeyCode::Esc
    }
}

fn plain_key(buf: &[u8], at: usize) -> (r: KeyCode)
    requires
        at < buf@.len(),
    ensures
        r == byte_key(buf@[at as int]),
{
    let len = buf.len();
    assert(at < len);
    let one = slice_subrange(buf, at, at + 1);
    assert(one@ =~= seq![buf@[at as int]]);
    match utf8_text(one) {
        Some(s) => {
            let text = s.as_str();
            if text.unicode_len() > 0 {
                KeyCode::Char(text.get_char(0))
            } else {
                KeyCode::Char('?')
            }
        },
        None => KeyCode::Unknown,
    }
}

/// Decodes a chunk of keyboard bytes into key events, in order.
pub fn parse_ansi(buf: &[u8]) -> (codes: Vec<KeyCode>)
    ensures
        codes@ == decode(buf@),
{
    let mut codes: Vec<KeyCode> = Vec::new();
    let mut cursor: usize = 0;
    while cursor < buf.len()
        invariant
            cursor <= buf@.len(),
            codes@ + decode_from(buf@, cursor as int) == decode(buf@),
        decreases buf@.len() - cursor,
    {
        let ghost before = cursor as int;
        if buf[cursor] == ESC {
            let k = parse_escaped(buf, &mut cursor);
            proof {
                assert(decode_from(buf@, before) == seq![k] + decode_from(buf@, cursor as int));
            }
            codes.push(k);
        } else {
            let k = plain_key(buf, cursor);
            cursor = cursor + 1;
            proof {
                assert(decode_from(buf@, before) == seq![k] + decode_from(buf@, cursor as int));
            }
            codes.push(k);
        }
        proof {
            assert(codes@ + decode_from(buf@, cursor as int) =~= decode(buf@));
        }
    }
    codes
}


/// Whether an event is a character or an undecodable byte.
pub open spec fn is_plain_event(k: KeyCode) -> bool {
    k is Char || k is Unknown
}

/// From position `i` on, bytes that hold no escape byte decode one event per
/// byte, each the plain event of that byte.
pub proof fn lemma_plain_bytes_from(b: Seq<u8>, i: int)
    requires
        0 <= i <= b.len(),
        forall|j: int| i <= j < b.len() ==> b[j] != ESC,
    ensures
        decode_from(b, i) == Seq::new((b.len() - i) as nat, |j: int| byte_key(b[i + j])),
    decreases b.len() - i,
{
    if i < b.len() {
        lemma_plain_bytes_from(b, i + 1);
        assert(decode_from(b, i) =~= Seq::new((b.len() - i) as nat, |j: int| byte_key(b[i + j])));
    } else {
        assert(decode_from(b, i) =~= Seq::new((b.len() - i) as nat, |j: int| byte_key(b[i + j])));
    }
}

/// Bytes without an escape byte decode to exactly one character or unknown
/// event per byte, in the order of the bytes.
pub proof fn lemma_plain_bytes(b: Seq<u8>)
    requires
        forall|j: int| 0 <= j < b.len() ==> b[j] != ESC,
    ensures
        decode(b).len() == b.len(),
        forall|j: int| 0 <= j < b.len() ==> #[trigger] decode(b)[j] == byte_key(b[j]),
        forall|j: int| 0 <= j < b.len() ==> is_plain_event(#[trigger] decode(b)[j]),
{
    lemma_plain_bytes_from(b, 0);
}

/// An escape byte that ends the input is decoded as a final `Esc` event,
/// whatever precedes it.
pub proof fn lemma_trailing_escape_from(b: Seq<u8>, i: int)
    requires
        0 <= i < b.len(),
        b[b.len() - 1] == ESC,
    ensures
        decode_from(b, i).len() > 0,
        decode_from(b, i).last() == KeyCode::Esc,
    decreases b.len() - i,
{
    if i == b.len() - 1 {
        assert(decode_from(b, i + 1) == Seq::<KeyCode>::empty());
    } else if b[i] == ESC {
        let (k, n) = escape_at(b, i);
        lemma_trailing_escape_from(b, i + n);
    } else {
        lemma_trailing_escape_from(b, i + 1);
    }
}

/// A chunk that ends on a bare escape byte yields a trailing `Esc` event, and
/// that event is the last one: nothing past the end is read.
pub proof fn lemma_trailing_escape(b: Seq<u8>)
    requires
        b.len() > 0,
        b.last() == ESC,
    ensures
        decode(b).len() > 0,
        decode(b).last() == KeyCode::Esc,
{
    lemma_trailing_escape_from(b, 0);
}

} // verus!
