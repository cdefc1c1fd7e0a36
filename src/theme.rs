use vstd::prelude::*;
use vstd::utf8::*;

use ratatui::style::Color;
use std::str::FromStr;

use crate::fields::{chars_of, has_prefix, holds_pieces, split, split_on, starts_with};
use crate::text::utf8_text;

verus! {

#[verifier::external_type_specification]
pub struct ExColor(ratatui::style::Color);

/// The color that ratatui's parser reads from a color name.
pub uninterp spec fn named_color(name: Seq<char>) -> Option<Color>;

/// Relies on `<ratatui::style::Color as FromStr>::from_str`: the color that a
/// name such as `red`, `light-blue`, `10` or `#ff0000` denotes, if any. Its
/// result depends on the name alone.
#[verifier::external_body]
fn color_from_name(name: &Vec<char>) -> (r: Option<Color>)
    ensures
        r == named_color(name@),
{
    Color::from_str(&name.iter().collect::<String>()).ok()
}

/// How an entry for `key` begins: the key, a colon and a space.
pub open spec fn entry_head(key: Seq<char>) -> Seq<char> {
    key + seq![':', ' ']
}

/// The color of the first entry for `key` whose last space-separated word is
/// a color name, looking from entry `i` on. Entries of other keys, including
/// keys that merely begin with `key`, are passed over.
pub open spec fn first_color(entries: Seq<Seq<char>>, key: Seq<char>, i: int) -> Option<Color>
    decreases entries.len() - i,
{
    if i < 0 || i >= entries.len() {
        None
    } else if starts_with(entries[i], entry_head(key)) && named_color(split(entries[i], ' ').last()) is Some {
        named_color(split(entries[i], ' ').last())
    } else {
        first_color(entries, key, i + 1)
    }
}

/// The color that a theme document gives to `key`: entries are separated by
/// tabs and read `<key>: <color>`. A document that is empty or not UTF-8
/// gives none, and so does a document without an entry for `key`.
pub open spec fn document_color(doc: Seq<u8>, key: Seq<char>) -> Option<Color> {
    if doc.len() > 0 && valid_utf8(doc) {
        first_color(split(decode_utf8(doc), '\t'), key, 0)
    } else {
        None
    }
}

/// The color of `key`, or its default where the document gives none.
pub open spec fn color_or(doc: Seq<u8>, key: Seq<char>, default: Color) -> Color {
    match document_color(doc, key) {
        Some(c) => c,
        None => default,
    }
}

/// The text that begins an entry for `key`.
fn key_head(key: &Vec<char>) -> (r: Vec<char>)
    ensures
        r@ == entry_head(key@),
{
    let mut r: Vec<char> = Vec::new();
    let mut i: usize = 0;
    while i < key.len()
        invariant
            i <= key@.len(),
            r@ == key@.take(i as int),
        decreases key@.len() - i,
    {
        r.push(key[i]);
        i = i + 1;
        assert(r@ =~= key@.take(i as int));
    }
    assert(key@.take(key@.len() as int) =~= key@);
    r.push(':');
    r.push(' ');
    assert(r@ =~= entry_head(key@));
    r
}

/// The display colors of the terminal, read from a small theme document.
pub struct Config {
    pub document: Vec<u8>,
}

impl Config {
    /// A theme over the bytes of a theme document.
    pub fn new(document: Vec<u8>) -> (r: Config)
        ensures
            r.document@ == document@,
    {
        Config { document }
    }

    /// The background color; black by default.
    pub fn bg(&self) -> (r: Color)
        ensures
            r == color_or(self.document@, seq!['b', 'g'], Color::Black),
    {
        let key = vec!['b', 'g'];
        match self.parse_item(&key) {
            Some(c) => c,
            None => Color::Black,
        }
    }

    /// The border color; white by default.
    pub fn border(&self) -> (r: Color)
        ensures
            r == color_or(self.document@, seq!['b', 'o', 'r', 'd', 'e', 'r'], Color::White),
    {
        let key = vec!['b', 'o', 'r', 'd', 'e', 'r'];
        match self.parse_item(&key) {
            Some(c) => c,
            None => Color::White,
        }
    }

    /// The text color; white by default.
    pub fn text(&self) -> (r: Color)
        ensures
            r == color_or(self.document@, seq!['t', 'e', 'x', 't'], Color::White),
    {
        let key = vec!['t', 'e', 'x', 't'];
        match self.parse_item(&key) {
            Some(c) => c,
            None => Color::White,
        }
    }

    /// The title color; green by default.
    pub fn title(&self) -> (r: Color)
        ensures
            r == color_or(self.document@, seq!['t', 'i', 't', 'l', 'e'], Color::Green),
    {
        let key = vec!['t', 'i', 't', 'l', 'e'];
        match self.parse_item(&key) {
            Some(c) => c,
            None => Color::Green,
        }
    }

    /// The color that the document gives to `name`, if any entry does.
    pub fn parse_item(&self, name: &Vec<char>) -> (r: Option<Color>)
        ensures
            r == document_color(self.document@, name@),
    {
        if self.document.len() == 0 {
            return None;
        }
        let text = match utf8_text(self.document.as_slice()) {
            Some(t) => t,
            None => return None,
        };
        let chars = chars_of(text.as_str());
        let head = key_head(name);
        let entries = split_on(&chars, '\t');
        let ghost pieces = split(chars@, '\t');
        let mut i: usize = 0;
        while i < entries.len()
            invariant
                holds_pieces(entries@, pieces),
                self.document@.len() > 0,
                valid_utf8(self.document@),
                pieces == split(decode_utf8(self.document@), '\t'),
                i <= entries@.len(),
                head@ == entry_head(name@),
                first_color(pieces, name@, 0) == first_color(pieces, name@, i as int),
            decreases entries@.len() - i,
        {
            let entry = &entries[i];
            assert(entry@ == pieces[i as int]);
            if has_prefix(entry, &head) {
                let words = split_on(entry, ' ');
                proof {
                    crate::fields::lemma_split_nonempty(entry@, ' ');
                }
                let last = &words[words.len() - 1];
                assert(last@ == split(entry@, ' ').last());
                let c = color_from_name(last);
                if c.is_some() {
                    assert(first_color(pieces, name@, i as int) == c);
                    return c;
                }
            }
            i = i + 1;
        }
        None
    }
}

} // verus!
