//! The daemon's log, kept in memory for clients to read back by absolute
//! offset.

use vstd::prelude::*;

verus! {

/// The most bytes of log kept.
pub const MAX_RING_BYTES: usize = 1_000_000;

/// The log as a ring: the most recent bytes written, with offsets counted
/// from the first byte ever written.
pub struct RingWriter {
    buf: Vec<u8>,
    total_written: u64,
    total_trimmed: u64,
    /// Every byte ever written.
    written: Ghost<Seq<u8>>,
}

/// What a read returns.
pub struct LogChunk {
    pub bytes: Vec<u8>,
    /// The offset to read from next: the number of bytes written so far.
    pub next_offset: u64,
    /// Whether the offset asked for was older than the oldest byte kept, so
    /// that the read began at the oldest byte kept.
    pub truncated: bool,
}

/// The first newline at or after `from`, if any.
pub open spec fn newline_from(b: Seq<u8>, from: int) -> Option<int> {
    if exists|i: int| from <= i < b.len() && b[i] == 10u8 {
        Some(choose|i: int| from <= i < b.len() && b[i] == 10u8 && forall|j: int| from <= j < i ==> b[j] != 10u8)
    } else {
        None
    }
}

/// How much of an over-full buffer to cut: the excess, extended to just
/// past the next newline when there is one.
pub open spec fn cut_point(b: Seq<u8>) -> int {
    let excess = b.len() - MAX_RING_BYTES;
    match newline_from(b, excess) {
        Some(p) => p + 1,
        None => excess,
    }
}

impl RingWriter {
    /// All bytes ever written.
    pub closed spec fn history(&self) -> Seq<u8> {
        self.written@
    }

    /// The number of bytes dropped from the front so far.
    pub closed spec fn trimmed(&self) -> int {
        self.total_trimmed as int
    }

    /// The bytes kept.
    pub closed spec fn kept(&self) -> Seq<u8> {
        self.buf@
    }

    /// The bytes kept are the history without its first `trimmed` bytes.
    pub closed spec fn wf(&self) -> bool {
        &&& self.total_written as int == self.written@.len()
        &&& self.total_trimmed <= self.total_written
        &&& self.buf@ == self.written@.skip(self.total_trimmed as int)
        &&& self.buf@.len() <= MAX_RING_BYTES
    }

    pub fn new() -> (r: RingWriter)
        ensures
            r.wf(),
            r.history() == Seq::<u8>::empty(),
            r.trimmed() == 0,
            r.kept() == Seq::<u8>::empty(),
    {
        let r = RingWriter { buf: Vec::new(), total_written: 0, total_trimmed: 0, written: Ghost(Seq::empty()) };
        assert(r.written@.skip(0) =~= r.buf@);
        r
    }

    pub fn total_written(&self) -> (r: u64)
        requires
            self.wf(),
        ensures
            r == self.history().len(),
    {
        self.total_written
    }

    pub fn total_trimmed(&self) -> (r: u64)
        ensures
            r == self.trimmed(),
    {
        self.total_trimmed
    }

    /// The number of bytes kept.
    pub fn buffered_len(&self) -> (r: usize)
        requires
            self.wf(),
        ensures
            r == self.history().len() - self.trimmed(),
    {
        self.buf.len()
    }

    /// Appends to the log. When more than `MAX_RING_BYTES` are kept, the
    /// oldest are dropped: the excess, and up to the next newline when there
    /// is one, so that the log tends to begin with a whole line.
    #[verifier::loop_isolation(false)]
    pub fn write_all(&mut self, data: &[u8]) -> (r: Result<(), ()>)
        requires
            old(self).wf(),
            old(self).history().len() + data@.len() <= u64::MAX,
        ensures
            r is Ok,
            final(self).wf(),
            final(self).history() == old(self).history() + data@,
            ({
                let all = old(self).kept() + data@;
                if all.len() > MAX_RING_BYTES {
                    final(self).trimmed() == old(self).trimmed() + cut_point(all)
                } else {
                    final(self).trimmed() == old(self).trimmed()
                }
            }),
    {
        let ghost before = self.buf@;
        let mut i: usize = 0;
        while i < data.len()
            invariant
                i <= data@.len(),
                self.buf@ == before + data@.subrange(0, i as int),
                self.total_written == old(self).total_written,
                self.total_trimmed == old(self).total_trimmed,
                self.written == old(self).written,
            decreases data@.len() - i,
        {
            self.buf.push(data[i]);
            assert(data@.subrange(0, i + 1) =~= data@.subrange(0, i as int).push(data@[i as int]));
            i = i + 1;
        }
        assert(data@.subrange(0, data@.len() as int) =~= data@);
        let ghost all = self.buf@;
        self.total_written = self.total_written + data.len() as u64;
        self.written = Ghost(self.written@ + data@);
        proof {
            assert(self.written@.skip(self.total_trimmed as int) =~= all);
        }
        if self.buf.len() > MAX_RING_BYTES {
            let excess = self.buf.len() - MAX_RING_BYTES;
            let mut p = excess;
            while p < self.buf.len() && self.buf[p] != 10u8
                invariant
                    excess <= p <= self.buf@.len(),
                    self.buf@ == all,
                    forall|j: int| excess <= j < p ==> all[j] != 10u8,
                decreases self.buf@.len() - p,
            {
                p = p + 1;
            }
            let cut = if p < self.buf.len() {
                p + 1
            } else {
                excess
            };
            proof {
                if p < all.len() {
                    assert(all[p as int] == 10u8);
                    let q = choose|q: int| excess <= q < all.len() && all[q] == 10u8 && forall|j: int| excess <= j < q ==> all[j] != 10u8;
                    assert(q == p) by {
                        if q < p {
                            assert(all[q] != 10u8);
                        } else if q > p {
                            assert(all[p as int] != 10u8);
                        }
                    }
                } else {
                    assert(newline_from(all, excess as int) is None);
                }
            }
            let mut kept: Vec<u8> = Vec::new();
            let mut k: usize = cut;
            while k < self.buf.len()
                invariant
                    cut <= k <= self.buf@.len(),
                    self.buf@ == all,
                    kept@ == all.subrange(cut as int, k as int),
                decreases self.buf@.len() - k,
            {
                kept.push(self.buf[k]);
                assert(all.subrange(cut as int, k + 1) =~= all.subrange(cut as int, k as int).push(all[k as int]));
                k = k + 1;
            }
            self.buf = kept;
            self.total_trimmed = self.total_trimmed + cut as u64;
            proof {
                assert(self.written@.skip(self.total_trimmed as int) =~= all.subrange(cut as int, all.len() as int));
            }
        }
        Ok(())
    }

    proof fn lemma_wf_facts(&self)
        requires
            self.wf(),
        ensures
            0 <= self.trimmed() <= self.history().len(),
            self.kept() == self.history().skip(self.trimmed()),
            self.kept().len() <= MAX_RING_BYTES,
    {
    }

    /// `io::Write::write`: appends all of `data` (see `write_all`) and
    /// reports its length.
    pub fn write(&mut self, data: &[u8]) -> (r: Result<usize, ()>)
        requires
            old(self).wf(),
            old(self).history().len() + data@.len() <= u64::MAX,
        ensures
            r matches Ok(n) && n == data@.len(),
            final(self).wf(),
            final(self).history() == old(self).history() + data@,
            final(self).kept() == final(self).history().skip(final(self).trimmed()),
            final(self).kept().len() <= MAX_RING_BYTES,
            ({
                let all = old(self).kept() + data@;
                if all.len() > MAX_RING_BYTES {
                    final(self).trimmed() == old(self).trimmed() + cut_point(all)
                } else {
                    final(self).trimmed() == old(self).trimmed()
                }
            }),
    {
        let _ = self.write_all(data);
        proof {
            self.lemma_wf_facts();
        }
        Ok(data.len())
    }

    /// The bytes written since absolute offset `abs_offset`: none when the
    /// offset is at or past the end; all bytes kept, marked truncated, when
    /// it is older than the oldest kept; otherwise exactly those written
    /// from it on.
    #[verifier::loop_isolation(false)]
    pub fn read_since(&self, abs_offset: u64) -> (r: LogChunk)
        requires
            self.wf(),
        ensures
            r.next_offset == self.history().len(),
            abs_offset >= self.history().len() ==> r.bytes@ == Seq::<u8>::empty() && !r.truncated,
            abs_offset < self.trimmed() ==> r.bytes@ == self.kept() && r.truncated,
            self.trimmed() <= abs_offset < self.history().len() ==> r.bytes@ == self.history().subrange(
                abs_offset as int,
                self.history().len() as int,
            ) && !r.truncated,
    {
        if abs_offset >= self.total_written {
            return LogChunk { bytes: Vec::new(), next_offset: self.total_written, truncated: false };
        }
        let start: usize = if abs_offset < self.total_trimmed {
            0
        } else {
            (abs_offset - self.total_trimmed) as usize
        };
        let mut bytes: Vec<u8> = Vec::new();
        let mut k: usize = start;
        while k < self.buf.len()
            invariant
                start <= k <= self.buf@.len(),
                bytes@ == self.buf@.subrange(start as int, k as int),
            decreases self.buf@.len() - k,
        {
            bytes.push(self.buf[k]);
            assert(self.buf@.subrange(start as int, k + 1) =~= self.buf@.subrange(start as int, k as int).push(
                self.buf@[k as int],
            ));
            k = k + 1;
        }
        proof {
            assert(self.buf@.subrange(0, self.buf@.len() as int) =~= self.buf@);
            if abs_offset >= self.total_trimmed {
                assert(self.buf@.subrange(start as int, self.buf@.len() as int) =~= self.written@.subrange(
                    abs_offset as int,
                    self.written@.len() as int,
                ));
            }
        }
        LogChunk { bytes, next_offset: self.total_written, truncated: abs_offset < self.total_trimmed }
    }
}


/// What well-formedness says: the bytes kept are the history without its
/// first `trimmed()` bytes, and there are at most `MAX_RING_BYTES`.
pub proof fn lemma_kept(w: RingWriter)
    requires
        w.wf(),
    ensures
        0 <= w.trimmed() <= w.history().len(),
        w.kept() == w.history().skip(w.trimmed()),
        w.kept().len() <= MAX_RING_BYTES,
{
    w.lemma_wf_facts();
}

/// A reader that reads from the offset the last read returned gets exactly
/// the bytes written since, as long as they are still kept: after
/// `write_all(data)`, the history is the old history followed by `data`,
/// and `read_since(old length)` returns the history from that offset on.
pub proof fn lemma_read_follows_write(before: RingWriter, after: RingWriter, data: Seq<u8>)
    requires
        after.history() == before.history() + data,
        after.trimmed() <= before.history().len(),
    ensures
        after.history().subrange(before.history().len() as int, after.history().len() as int) == data,
{
    assert(after.history().subrange(before.history().len() as int, after.history().len() as int) =~= data);
}

/// The pieces written, one after another.
pub open spec fn joined_writes(ds: Seq<Seq<u8>>) -> Seq<u8>
    decreases ds.len(),
{
    if ds.len() == 0 {
        Seq::empty()
    } else {
        joined_writes(ds.drop_last()) + ds.last()
    }
}

/// After a run of writes from a new writer (`ws[0]`, then `ws[i + 1]` is
/// `ws[i]` after writing `ds[i]`), the history is every piece in order, its
/// length is the offset a reader resumes from, and the bytes kept are a
/// suffix of it: the history without its first `trimmed()` bytes, at most
/// `MAX_RING_BYTES` of them.
pub proof fn lemma_writes_accumulate(ws: Seq<RingWriter>, ds: Seq<Seq<u8>>)
    requires
        ws.len() == ds.len() + 1,
        ws[0].history() == Seq::<u8>::empty(),
        forall|i: int| 0 <= i < ws.len() ==> (#[trigger] ws[i]).wf(),
        forall|i: int| 0 <= i < ds.len() ==> #[trigger] ws[i + 1].history() == ws[i].history() + ds[i],
    ensures
        ws.last().history() == joined_writes(ds),
        0 <= ws.last().trimmed() <= joined_writes(ds).len(),
        ws.last().kept() == joined_writes(ds).skip(ws.last().trimmed()),
        ws.last().kept().len() <= MAX_RING_BYTES,
    decreases ds.len(),
{
    if ds.len() > 0 {
        let n = ds.len() - 1;
        lemma_writes_accumulate(ws.drop_last(), ds.drop_last());
        assert(ws.drop_last().last() == ws[n]);
        assert(ws[n + 1].history() == ws[n].history() + ds[n]);
        assert(ws.last() == ws[n + 1]);
    }
    lemma_kept(ws.last());
}

} // verus!
