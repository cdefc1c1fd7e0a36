use vstd::prelude::*;
use vstd::utf8::*;

use crate::fields::{chars_of, holds_pieces, split, split_on};
use crate::keys::KeyCode;
use crate::text::utf8_text;

verus! {

/// The directory that every command name is resolved in.
pub open spec fn bin_prefix() -> Seq<char> {
    seq!['/', 'r', 'a', 'm', '/', 'b', 'i', 'n', '/']
}

/// The command names of a directory listing: names end in a tab each, so the
/// piece after the last tab is not a name.
pub open spec fn registry_of(listing: Seq<char>) -> Seq<Seq<char>> {
    split(listing, '\t').drop_last()
}

/// The characters typed in a run of events, in order; keys that are not
/// characters are left out.
pub open spec fn typed_chars(events: Seq<KeyCode>) -> Seq<char>
    decreases events.len(),
{
    if events.len() == 0 {
        Seq::empty()
    } else {
        match events.last() {
            KeyCode::Char(c) => typed_chars(events.drop_last()).push(c),
            _ => typed_chars(events.drop_last()),
        }
    }
}

/// The position of the first newline event at or after `i`, if any.
pub open spec fn newline_from(events: Seq<KeyCode>, i: int) -> Option<int>
    decreases events.len() - i,
{
    if i < 0 || i >= events.len() {
        None
    } else if events[i] == KeyCode::Char('\n') {
        Some(i)
    } else {
        newline_from(events, i + 1)
    }
}

/// What the shell does next.
pub enum ShellAction {
    /// Start the program at this path and wait for it to exit.
    Spawn(Vec<char>),
    /// No program has this name: report it and prompt again.
    Missing(Vec<char>),
    /// No complete command is pending: read more input.
    AwaitInput,
}

/// The command shell's state: the names it can run and the key events typed
/// since the last command.
pub struct Shell {
    registry: Vec<Vec<char>>,
    line: Vec<KeyCode>,
}

impl Shell {
    /// The command names that the shell knows.
    pub closed spec fn names(&self) -> Seq<Seq<char>> {
        self.registry@.map_values(|v: Vec<char>| v@)
    }

    /// The key events typed and not yet consumed by a command.
    pub closed spec fn pending(&self) -> Seq<KeyCode> {
        self.line@
    }

    /// A shell over a listing of the binary directory. A listing that is not
    /// valid UTF-8 gives no shell.
    pub fn new(listing: &[u8]) -> (r: Option<Shell>)
        ensures
            r is Some <==> valid_utf8(listing@),
            r matches Some(sh) ==> sh.names() == registry_of(decode_utf8(listing@)) && sh.pending()
                == Seq::<KeyCode>::empty(),
    {
        let text = match utf8_text(listing) {
            Some(t) => t,
            None => return None,
        };
        let chars = chars_of(text.as_str());
        let mut registry = split_on(&chars, '\t');
        proof {
            crate::fields::lemma_split_nonempty(chars@, '\t');
        }
        registry.pop();
        let sh = Shell { registry, line: Vec::new() };
        assert(sh.names() =~= registry_of(chars@));
        assert(sh.pending() =~= Seq::<KeyCode>::empty());
        Some(sh)
    }

    /// Whether `name` is a command that the shell knows.
    pub fn knows(&self, name: &Vec<char>) -> (r: bool)
        ensures
            r == self.names().contains(name@),
    {
        let mut i: usize = 0;
        while i < self.registry.len()
            invariant
                i <= self.registry@.len(),
                forall|j: int| 0 <= j < i ==> self.registry@[j]@ != name@,
            decreases self.registry@.len() - i,
        {
            if same_chars(&self.registry[i], name) {
                assert(self.names()[i as int] == name@);
                return true;
            }
            i = i + 1;
        }
        assert(!self.names().contains(name@)) by {
            if self.names().contains(name@) {
                let j = choose|j: int| 0 <= j < self.names().len() && self.names()[j] == name@;
                assert(self.registry@[j]@ == name@);
            }
        }
        false
    }

    /// Takes a chunk of decoded key events: they join the pending line, and
    /// the characters among them are returned to be echoed.
    pub fn feed(&mut self, events: &Vec<KeyCode>) -> (echo: Vec<char>)
        ensures
            final(self).pending() == old(self).pending() + events@,
            final(self).names() == old(self).names(),
            echo@ == typed_chars(events@),
    {
        let mut echo: Vec<char> = Vec::new();
        let mut i: usize = 0;
        let ghost start = self.line@;
        let ghost reg = self.registry@;
        while i < events.len()
            invariant
                self.registry@ == reg,
                i <= events@.len(),
                self.line@ == start + events@.take(i as int),
                echo@ == typed_chars(events@.take(i as int)),
            decreases events@.len() - i,
        {
            let k = events[i];
            proof {
                assert(events@.take(i + 1).drop_last() =~= events@.take(i as int));
            }
            if let KeyCode::Char(c) = k {
                echo.push(c);
            }
            self.line.push(k);
            i = i + 1;
            assert(self.line@ =~= start + events@.take(i as int));
        }
        assert(events@.take(events@.len() as int) =~= events@);
        echo
    }

    /// Decides the next step. When a newline is pending, the characters typed
    /// before it form a command name; the events up to and including the
    /// newline leave the line, and everything after it stays for the next
    /// command. A known name is spawned from the binary directory; an unknown
    /// one is reported. Without a newline the shell waits for input.
    pub fn next_action(&mut self) -> (r: ShellAction)
        ensures
            final(self).names() == old(self).names(),
            match newline_from(old(self).pending(), 0) {
                None => r is AwaitInput && final(self).pending() == old(self).pending(),
                Some(k) => {
                    let name = typed_chars(old(self).pending().take(k));
                    &&& final(self).pending() == old(self).pending().skip(k + 1)
                    &&& old(self).names().contains(name) ==> (r matches ShellAction::Spawn(p)
                        && p@ == bin_prefix() + name)
                    &&& !old(self).names().contains(name) ==> (r matches ShellAction::Missing(n)
                        && n@ == name)
                },
            },
    {
        let mut k: usize = 0;
        while k < self.line.len() && self.line[k] != KeyCode::Char('\n')
            invariant
                k <= self.line@.len(),
                newline_from(self.line@, 0) == newline_from(self.line@, k as int),
            decreases self.line@.len() - k,
        {
            k = k + 1;
        }
        if k == self.line.len() {
            assert(newline_from(self.line@, k as int) is None);
            return ShellAction::AwaitInput;
        }
        let ghost old_line = self.line@;
        assert(newline_from(old_line, 0) == Some(k as int));
        let mut name: Vec<char> = Vec::new();
        let mut i: usize = 0;
        while i < k
            invariant
                k < self.line@.len(),
                self.line@ == old_line,
                i <= k,
                name@ == typed_chars(self.line@.take(i as int)),
            decreases k - i,
        {
            proof {
                assert(self.line@.take(i + 1).drop_last() =~= self.line@.take(i as int));
            }
            if let KeyCode::Char(c) = self.line[i] {
                name.push(c);
            }
            i = i + 1;
        }
        let mut rest: Vec<KeyCode> = Vec::new();
        let mut j: usize = k + 1;
        while j < self.line.len()
            invariant
                k < j <= self.line@.len(),
                self.line@ == old_line,
                rest@ == self.line@.subrange(k + 1, j as int),
            decreases self.line@.len() - j,
        {
            rest.push(self.line[j]);
            j = j + 1;
            assert(rest@ =~= self.line@.subrange(k + 1, j as int));
        }
        self.line = rest;
        assert(self.line@ =~= old_line.skip(k + 1));
        if self.knows(&name) {
            let mut path = vec!['/', 'r', 'a', 'm', '/', 'b', 'i', 'n', '/'];
            let mut t: usize = 0;
            let ghost base = path@;
            assert(base =~= bin_prefix());
            while t < name.len()
                invariant
                    t <= name@.len(),
                    path@ == base + name@.take(t as int),
                decreases name@.len() - t,
            {
                path.push(name[t]);
                t = t + 1;
                assert(path@ =~= base + name@.take(t as int));
            }
            assert(name@.take(name@.len() as int) =~= name@);
            ShellAction::Spawn(path)
        } else {
            ShellAction::Missing(name)
        }
    }
}

/// Whether two character vectors hold the same characters.
fn same_chars(a: &Vec<char>, b: &Vec<char>) -> (r: bool)
    ensures
        r == (a@ == b@),
{
    if a.len() != b.len() {
        return false;
    }
    let mut i: usize = 0;
    while i < a.len()
        invariant
            a@.len() == b@.len(),
            i <= a@.len(),
            forall|j: int| 0 <= j < i ==> a@[j] == b@[j],
        decreases a@.len() - i,
    {
        if a[i] != b[i] {
            return false;
        }
        i = i + 1;
    }
    assert(a@ =~= b@);
    true
}

/// A pending line that holds a newline is exactly the events before it, the
/// newline, and the events after it: consuming a command drops nothing that
/// was typed after its newline.
pub proof fn lemma_line_split_keeps_rest(line: Seq<KeyCode>, k: int)
    requires
        newline_from(line, 0) == Some(k),
    ensures
        0 <= k < line.len(),
        line == line.take(k) + seq![KeyCode::Char('\n')] + line.skip(k + 1),
        forall|j: int| 0 <= j < k ==> line[j] != KeyCode::Char('\n'),
{
    lemma_newline_from(line, 0);
    assert(line =~= line.take(k) + seq![KeyCode::Char('\n')] + line.skip(k + 1));
}

proof fn lemma_newline_from(line: Seq<KeyCode>, i: int)
    requires
        0 <= i,
    ensures
        newline_from(line, i) matches Some(k) ==> i <= k < line.len() && line[k] == KeyCode::Char(
            '\n',
        ) && forall|j: int| i <= j < k ==> line[j] != KeyCode::Char('\n'),
    decreases line.len() - i,
{
    if i < line.len() {
        lemma_newline_from(line, i + 1);
    }
}

} // verus!
