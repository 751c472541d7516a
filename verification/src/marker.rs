use vstd::prelude::*;
use crate::error::{ErrorCode, OperationError, fails_as};

verus! {

pub const MAX_MARKER_BYTES: usize = 256;

/// `m` occurs in `s` as a contiguous run of bytes.
pub open spec fn occurs_in(s: Seq<u8>, m: Seq<u8>) -> bool {
    exists|i: int| 0 <= i && i + m.len() <= s.len() && #[trigger] s.subrange(i, i + m.len()) == m
}

/// The last `n` bytes of `s` (all of `s` when it is shorter).
pub open spec fn last_bytes(s: Seq<u8>, n: int) -> Seq<u8> {
    if s.len() <= n {
        s
    } else {
        s.skip(s.len() - n)
    }
}

/// Watches a UART stream, chunk by chunk, for a marker that may straddle
/// chunk boundaries.
pub struct MarkerDetector {
    marker: Vec<u8>,
    tail: Vec<u8>,
    matched: bool,
    received: Ghost<Seq<u8>>,
}

impl MarkerDetector {
    /// The marker searched for.
    pub closed spec fn marker(&self) -> Seq<u8> {
        self.marker@
    }

    /// Every byte fed so far, in order.
    pub closed spec fn received(&self) -> Seq<u8> {
        self.received@
    }

    /// The detector is consistent: a marker of 1 to 256 bytes, `matched`
    /// agrees with the bytes received, and the kept tail is their last bytes.
    pub closed spec fn wf(&self) -> bool {
        &&& 1 <= self.marker@.len() <= MAX_MARKER_BYTES
        &&& self.matched == occurs_in(self.received@, self.marker@)
        &&& !self.matched ==> self.tail@ == last_bytes(self.received@, self.marker@.len() - 1)
    }

    /// A consistent detector's marker has 1 to 256 bytes.
    pub proof fn lemma_marker_len(&self)
        requires
            self.wf(),
        ensures
            1 <= self.marker().len() <= MAX_MARKER_BYTES,
    {
    }

    /// A detector for a marker of 1 to 256 bytes that has seen nothing yet.
    pub fn new(marker: &[u8]) -> (r: Result<MarkerDetector, OperationError>)
        ensures
            (r is Ok) == (1 <= marker@.len() <= MAX_MARKER_BYTES),
            r matches Ok(d) ==> d.wf() && d.marker() == marker@ && d.received() == Seq::<u8>::empty(),
            r matches Err(e) ==> fails_as(
                e,
                (ErrorCode::PackageInvalid, "UART-маркер должен занимать от 1 до 256 байт"@),
            ) && e.detail is None,
    {
        if marker.len() == 0 || marker.len() > MAX_MARKER_BYTES {
            return Err(
                OperationError::new(
                    ErrorCode::PackageInvalid,
                    "UART-маркер должен занимать от 1 до 256 байт",
                ),
            );
        }
        let mut copy: Vec<u8> = Vec::new();
        let mut i: usize = 0;
        while i < marker.len()
            invariant
                i <= marker@.len(),
                copy@ == marker@.take(i as int),
            decreases marker@.len() - i,
        {
            copy.push(marker[i]);
            assert(copy@ =~= marker@.take(i + 1));
            i = i + 1;
        }
        assert(marker@.take(i as int) =~= marker@);
        let ghost empty: Seq<u8> = Seq::empty();
        assert(!occurs_in(empty, marker@));
        assert(last_bytes(empty, marker@.len() - 1) =~= empty);
        Ok(MarkerDetector { marker: copy, tail: Vec::new(), matched: false, received: Ghost(empty) })
    }

    /// Feeds the next chunk; true when the marker occurs anywhere in all the
    /// bytes fed so far.
    pub fn feed(&mut self, chunk: &[u8]) -> (r: bool)
        requires
            old(self).wf(),
        ensures
            final(self).wf(),
            final(self).marker() == old(self).marker(),
            final(self).received() == old(self).received() + chunk@,
            r == occurs_in(final(self).received(), final(self).marker()),
    {
        if self.matched {
            proof {
                let old_received = self.received@;
                let i = choose|i: int|
                    0 <= i && i + self.marker@.len() <= old_received.len()
                        && #[trigger] old_received.subrange(i, i + self.marker@.len()) == self.marker@;
                let all = old_received + chunk@;
                assert(all.subrange(i, i + self.marker@.len()) =~= old_received.subrange(
                    i,
                    i + self.marker@.len(),
                ));
                self.received = Ghost(all);
            }
            return true;
        }
        let mut window: Vec<u8> = Vec::new();
        let mut i: usize = 0;
        while i < self.tail.len()
            invariant
                i <= self.tail@.len(),
                window@ == self.tail@.take(i as int),
            decreases self.tail@.len() - i,
        {
            window.push(self.tail[i]);
            assert(window@ =~= self.tail@.take(i + 1));
            i = i + 1;
        }
        assert(self.tail@.take(i as int) =~= self.tail@);
        let mut j: usize = 0;
        while j < chunk.len()
            invariant
                j <= chunk@.len(),
                window@ == self.tail@ + chunk@.take(j as int),
            decreases chunk@.len() - j,
        {
            window.push(chunk[j]);
            assert(window@ =~= self.tail@ + chunk@.take(j + 1));
            j = j + 1;
        }
        assert(chunk@.take(j as int) =~= chunk@);
        let found = contains_run(window.as_slice(), self.marker.as_slice());
        let ghost old_received = self.received@;
        let ghost all = old_received + chunk@;
        proof {
            lemma_window_search(old_received, self.tail@, chunk@, self.marker@);
        }
        let m = self.marker.len();
        let keep = if m - 1 < window.len() { m - 1 } else { window.len() };
        let start = window.len() - keep;
        let mut tail: Vec<u8> = Vec::new();
        let mut k: usize = start;
        while k < window.len()
            invariant
                start <= k <= window@.len(),
                tail@ == window@.subrange(start as int, k as int),
            decreases window@.len() - k,
        {
            tail.push(window[k]);
            assert(tail@ =~= window@.subrange(start as int, k + 1));
            k = k + 1;
        }
        proof {
            lemma_tail_of_window(old_received, self.tail@, chunk@, (m - 1) as int);
            assert(tail@ =~= last_bytes(all, m - 1));
        }
        self.tail = tail;
        self.matched = found;
        proof {
            self.received = Ghost(all);
        }
        found
    }

    /// Whether the marker has occurred in the bytes fed so far.
    pub fn matched(&self) -> (r: bool)
        requires
            self.wf(),
        ensures
            r == occurs_in(self.received(), self.marker()),
    {
        self.matched
    }
}

/// Whether `m` occurs in `s`.
pub fn contains_run(s: &[u8], m: &[u8]) -> (r: bool)
    requires
        m@.len() >= 1,
    ensures
        r == occurs_in(s@, m@),
{
    if m.len() > s.len() {
        return false;
    }
    let n = s.len();
    let last = n - m.len();
    let end = last + 1;
    let mut i: usize = 0;
    while i < end
        invariant
            n == s@.len(),
            m@.len() <= s@.len(),
            last == s@.len() - m@.len(),
            end == last + 1,
            i <= end,
            forall|p: int| 0 <= p < i ==> #[trigger] s@.subrange(p, p + m@.len()) != m@,
        decreases end - i,
    {
        let mut j: usize = 0;
        let mut same = true;
        while j < m.len()
            invariant
                n == s@.len(),
                m@.len() <= s@.len(),
                i <= last,
                last == s@.len() - m@.len(),
                j <= m@.len(),
                same == (forall|q: int| 0 <= q < j ==> s@[i + q] == m@[q]),
            decreases m@.len() - j,
        {
            if s[i + j] != m[j] {
                same = false;
            }
            j = j + 1;
        }
        if same {
            assert(s@.subrange(i as int, i + m@.len()) =~= m@);
            return true;
        }
        proof {
            if s@.subrange(i as int, i + m@.len()) == m@ {
                assert forall|q: int| 0 <= q < m@.len() implies s@[i + q] == m@[q] by {
                    assert(s@.subrange(i as int, i + m@.len())[q] == s@[i + q]);
                }
            }
        }
        i = i + 1;
    }
    false
}

/// A run found in the tail and the new chunk is a run of everything fed, and
/// a run that is not wholly in the old bytes starts within the tail.
proof fn lemma_window_search(old: Seq<u8>, tail: Seq<u8>, chunk: Seq<u8>, m: Seq<u8>)
    requires
        1 <= m.len(),
        tail == last_bytes(old, m.len() - 1),
        !occurs_in(old, m),
    ensures
        occurs_in(tail + chunk, m) == occurs_in(old + chunk, m),
{
    let all = old + chunk;
    let window = tail + chunk;
    let off = old.len() - tail.len();
    assert(all.skip(off) =~= window);
    if occurs_in(window, m) {
        let i = choose|i: int| 0 <= i && i + m.len() <= window.len() && #[trigger] window.subrange(i, i + m.len()) == m;
        assert(all.subrange(off + i, off + i + m.len()) =~= window.subrange(i, i + m.len()));
    }
    if occurs_in(all, m) {
        let i = choose|i: int| 0 <= i && i + m.len() <= all.len() && #[trigger] all.subrange(i, i + m.len()) == m;
        if i + m.len() <= old.len() {
            assert(old.subrange(i, i + m.len()) =~= all.subrange(i, i + m.len()));
            assert(occurs_in(old, m));
        } else {
            assert(i >= off);
            assert(window.subrange(i - off, i - off + m.len()) =~= all.subrange(i, i + m.len()));
        }
    }
}

/// The last bytes of the window are the last bytes of everything fed.
proof fn lemma_tail_of_window(old: Seq<u8>, tail: Seq<u8>, chunk: Seq<u8>, n: int)
    requires
        0 <= n,
        tail == last_bytes(old, n),
    ensures
        last_bytes(tail + chunk, n) == last_bytes(old + chunk, n),
{
    let all = old + chunk;
    let window = tail + chunk;
    let off = old.len() - tail.len();
    assert(all.skip(off) =~= window);
    if window.len() > n {
        assert(all.skip(all.len() - n) =~= window.skip(window.len() - n));
    } else {
        if all.len() > n {
            assert(all.skip(all.len() - n) =~= window);
        }
    }
}

} // verus!
