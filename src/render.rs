use vstd::prelude::*;
use vstd::slice::slice_subrange;
use vstd::utf8::*;

use crate::text::utf8_text;

verus! {

/// How many bytes of child output the display window holds before it wraps.
pub const FRAME_CAPACITY: usize = 1024;

/// The display window after `chunk` arrives in a window that held `w`: the
/// bytes are kept until they reach the capacity, and then all are dropped.
pub open spec fn window_step(w: Seq<u8>, chunk: Seq<u8>) -> Seq<u8> {
    if w.len() + chunk.len() >= FRAME_CAPACITY {
        Seq::empty()
    } else {
        w + chunk
    }
}

/// The window after the chunks arrive one by one in a fresh window.
pub open spec fn window_of(chunks: Seq<Seq<u8>>) -> Seq<u8>
    decreases chunks.len(),
{
    if chunks.len() == 0 {
        Seq::empty()
    } else {
        window_step(window_of(chunks.drop_last()), chunks.last())
    }
}

/// All bytes of the chunks, in order.
pub open spec fn all_bytes(chunks: Seq<Seq<u8>>) -> Seq<u8>
    decreases chunks.len(),
{
    if chunks.len() == 0 {
        Seq::empty()
    } else {
        all_bytes(chunks.drop_last()) + chunks.last()
    }
}

/// The text a repaint shows once `chunk` has arrived in a window that held
/// `w`, when those bytes are valid UTF-8.
pub open spec fn frame_text(w: Seq<u8>, chunk: Seq<u8>) -> Option<Seq<char>> {
    if valid_utf8(w + chunk) {
        Some(decode_utf8(w + chunk))
    } else {
        None
    }
}

/// A fixed-capacity byte window over the output of the child process. Bytes
/// are appended at the cursor; once the cursor reaches the capacity the window
/// is cleared and starts again at zero.
pub struct RenderWindow {
    buf: Vec<u8>,
    cursor: usize,
    history: Ghost<Seq<Seq<u8>>>,
}

impl View for RenderWindow {
    type V = Seq<u8>;

    /// The bytes received since the window was last cleared.
    closed spec fn view(&self) -> Seq<u8> {
        self.buf@.take(self.cursor as int)
    }
}

impl RenderWindow {
    pub closed spec fn wf(&self) -> bool {
        &&& self.buf@.len() == FRAME_CAPACITY
        &&& self.cursor < FRAME_CAPACITY
        &&& self@ == window_of(self.history@)
    }

    /// Every chunk the window has taken since it was made, in order.
    pub closed spec fn received(&self) -> Seq<Seq<u8>> {
        self.history@
    }

    /// The free space of the window, as a length.
    pub closed spec fn spec_room(&self) -> nat {
        (FRAME_CAPACITY - self.cursor) as nat
    }

    /// An empty window.
    pub fn new() -> (r: RenderWindow)
        ensures
            r.wf(),
            r@ == Seq::<u8>::empty(),
            r.received() == Seq::<Seq<u8>>::empty(),
            r.spec_room() == FRAME_CAPACITY,
    {
        let mut buf: Vec<u8> = Vec::new();
        let mut i: usize = 0;
        while i < FRAME_CAPACITY
            invariant
                i <= FRAME_CAPACITY,
                buf@.len() == i,
            decreases FRAME_CAPACITY - i,
        {
            buf.push(0);
            i = i + 1;
        }
        let r = RenderWindow { buf, cursor: 0, history: Ghost(Seq::empty()) };
        assert(r@ =~= Seq::<u8>::empty());
        r
    }

    /// How many bytes the next read may deliver into the window.
    pub fn room(&self) -> (r: usize)
        requires
            self.wf(),
        ensures
            r == self.spec_room(),
            0 < r <= FRAME_CAPACITY,
            r as int == FRAME_CAPACITY - self@.len(),
    {
        FRAME_CAPACITY - self.cursor
    }

    /// Where the next byte goes.
    pub fn cursor(&self) -> (r: usize)
        requires
            self.wf(),
        ensures
            r as int == self@.len(),
            r < FRAME_CAPACITY,
    {
        self.cursor
    }

    /// Takes a chunk that was read from the child's output. Returns the text
    /// to repaint, which is the whole window up to the end of the chunk, or
    /// `None` when those bytes are not valid UTF-8 and the frame stays as it
    /// is. The cursor advances by the chunk's length in either case, and the
    /// window is cleared when it reaches the capacity.
    pub fn on_read(&mut self, chunk: &[u8]) -> (r: Option<String>)
        requires
            old(self).wf(),
            chunk@.len() <= old(self).spec_room(),
        ensures
            final(self).wf(),
            final(self)@ == window_step(old(self)@, chunk@),
            final(self).received() == old(self).received().push(chunk@),
            r is Some <==> frame_text(old(self)@, chunk@) is Some,
            r matches Some(s) ==> frame_text(old(self)@, chunk@) == Some(s@),
    {
        let ghost before = self.buf@;
        let ghost seen = self.history@;
        let start = self.cursor;
        let n = chunk.len();
        let mut i: usize = 0;
        while i < n
            invariant
                start == self.cursor,
                start < FRAME_CAPACITY,
                n == chunk@.len(),
                start + n <= FRAME_CAPACITY,
                i <= n,
                self.buf@.len() == FRAME_CAPACITY,
                forall|j: int| 0 <= j < start ==> self.buf@[j] == before[j],
                forall|j: int| 0 <= j < i ==> self.buf@[start + j] == chunk@[j],
            decreases n - i,
        {
            self.buf.set(start + i, chunk[i]);
            i = i + 1;
        }
        let end = start + n;
        let shown = slice_subrange(self.buf.as_slice(), 0, end);
        assert(shown@ =~= before.take(start as int) + chunk@);
        let r = utf8_text(shown);
        if end >= FRAME_CAPACITY {
            let mut j: usize = 0;
            while j < FRAME_CAPACITY
                invariant
                    j <= FRAME_CAPACITY,
                    self.buf@.len() == FRAME_CAPACITY,
                decreases FRAME_CAPACITY - j,
            {
                self.buf.set(j, 0);
                j = j + 1;
            }
            self.cursor = 0;
            assert(self@ =~= Seq::<u8>::empty());
        } else {
            self.cursor = end;
            assert(self@ =~= before.take(start as int) + chunk@);
        }
        self.history = Ghost(seen.push(chunk@));
        assert(seen.push(chunk@).drop_last() =~= seen);
        r
    }
}

/// Whatever a window has taken, it holds exactly the bytes of the chunks that
/// came after its last clearing; once those chunks together reach the
/// capacity, it has been cleared at least once.
pub proof fn lemma_window_since_clear(w: &RenderWindow) -> (k: int)
    requires
        w.wf(),
    ensures
        0 <= k <= w.received().len(),
        w@ == all_bytes(w.received().subrange(k, w.received().len() as int)),
        all_bytes(w.received()).len() >= FRAME_CAPACITY ==> k > 0,
{
    lemma_window_holds_bytes_since_clear(w.received())
}

/// The window after any run of chunks holds exactly the bytes of the chunks
/// that came after the last clearing, and once the chunks together reach the
/// capacity, at least one clearing has happened.
pub proof fn lemma_window_holds_bytes_since_clear(chunks: Seq<Seq<u8>>) -> (k: int)
    ensures
        0 <= k <= chunks.len(),
        window_of(chunks) == all_bytes(chunks.subrange(k, chunks.len() as int)),
        window_of(chunks).len() < FRAME_CAPACITY,
        all_bytes(chunks).len() >= FRAME_CAPACITY ==> k > 0,
    decreases chunks.len(),
{
    let n = chunks.len() as int;
    if n == 0 {
        assert(chunks.subrange(0, 0) =~= Seq::<Seq<u8>>::empty());
        0
    } else {
        let prev = chunks.drop_last();
        let k0 = lemma_window_holds_bytes_since_clear(prev);
        let c = chunks.last();
        if window_of(prev).len() + c.len() >= FRAME_CAPACITY {
            assert(chunks.subrange(n, n) =~= Seq::<Seq<u8>>::empty());
            n
        } else {
            let tail = chunks.subrange(k0, n);
            assert(tail.drop_last() =~= prev.subrange(k0, n - 1));
            assert(tail.last() == c);
            if k0 == 0 {
                assert(tail =~= chunks);
            }
            k0
        }
    }
}

} // verus!
