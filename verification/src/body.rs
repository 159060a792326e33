//! A request body that can be sent again: the chunks read from the wire are
//! kept, up to a capacity, so that a retry replays them.
use vstd::prelude::*;

verus! {

/// The chunks joined.
pub open spec fn flatten(bufs: Seq<Seq<u8>>) -> Seq<u8>
    decreases bufs.len(),
{
    if bufs.len() == 0 {
        Seq::<u8>::empty()
    } else {
        flatten(bufs.drop_last()) + bufs.last()
    }
}

pub open spec fn chunks_view(v: Seq<Vec<u8>>) -> Seq<Seq<u8>> {
    v.map_values(|b: Vec<u8>| b@)
}

/// The bytes kept for replay, and the capacity left.
#[derive(Debug, Clone, Default)]
pub struct InnerBuffer {
    pub bufs: Vec<Vec<u8>>,
    pub capacity: usize,
}

/// The buffer reached its capacity, so the body cannot be replayed.
#[derive(Debug, Clone, Copy, PartialEq, Eq)]
pub struct ReachMaxCapacityError;

impl ReachMaxCapacityError {
    /// `buffered body reach max capacity.`
    pub fn to_string(&self) -> (s: &'static str)
        ensures
            s@ == "buffered body reach max capacity."@,
    {
        "buffered body reach max capacity."
    }
}

proof fn lemma_flatten_push(bufs: Seq<Seq<u8>>, b: Seq<u8>)
    ensures
        flatten(bufs.push(b)) == flatten(bufs) + b,
{
    assert(bufs.push(b).drop_last() =~= bufs);
}

/// Joining the chunks after the first is joining them all without the
/// first.
proof fn lemma_flatten_front(bufs: Seq<Seq<u8>>)
    requires
        bufs.len() > 0,
    ensures
        flatten(bufs) == bufs[0] + flatten(bufs.drop_first()),
    decreases bufs.len(),
{
    if bufs.len() == 1 {
        assert(bufs.drop_first() =~= Seq::<Seq<u8>>::empty());
        assert(bufs.drop_last() =~= Seq::<Seq<u8>>::empty());
        assert(bufs[0] + Seq::<u8>::empty() =~= bufs[0]);
        assert(Seq::<u8>::empty() + bufs.last() =~= bufs[0]);
    } else {
        lemma_flatten_front(bufs.drop_last());
        assert(bufs.drop_last().drop_first() =~= bufs.drop_first().drop_last());
        assert(bufs.drop_first().last() == bufs.last());
        assert(bufs[0] + (flatten(bufs.drop_first().drop_last()) + bufs.last()) =~= (bufs[0] + flatten(bufs.drop_first().drop_last())) + bufs.last());
    }
}

proof fn lemma_skip_concat(a: Seq<u8>, b: Seq<u8>, k: int)
    requires
        0 <= k <= a.len(),
    ensures
        (a + b).skip(k) == a.skip(k) + b,
{
    assert((a + b).skip(k) =~= a.skip(k) + b);
}

proof fn lemma_skip_skip(s: Seq<u8>, i: int, j: int)
    requires
        0 <= i,
        0 <= j,
        i + j <= s.len(),
    ensures
        s.skip(i).skip(j) == s.skip(i + j),
{
    assert(s.skip(i).skip(j) =~= s.skip(i + j));
}

/// A copy of the bytes of `v` from `from` on.
fn tail_of(v: &Vec<u8>, from: usize) -> (r: Vec<u8>)
    requires
        from <= v@.len(),
    ensures
        r@ == v@.skip(from as int),
{
    let mut r: Vec<u8> = Vec::new();
    let mut i: usize = from;
    while i < v.len()
        invariant
            from <= i <= v@.len(),
            r@ == v@.subrange(from as int, i as int),
        decreases v@.len() - i,
    {
        r.push(v[i]);
        i = i + 1;
        assert(r@ =~= v@.subrange(from as int, i as int));
    }
    assert(r@ =~= v@.skip(from as int));
    r
}

impl InnerBuffer {
    /// A buffer holding nothing, with `capacity` bytes to fill.
    pub fn new(capacity: usize) -> (b: InnerBuffer)
        ensures
            b.bufs@.len() == 0,
            b.capacity == capacity,
    {
        InnerBuffer { bufs: Vec::new(), capacity }
    }

    /// Keeps `bytes` and gives them back.
    pub fn push_bytes(&mut self, bytes: Vec<u8>) -> (r: Vec<u8>)
        ensures
            r@ == bytes@,
            chunks_view(final(self).bufs@) == chunks_view(old(self).bufs@).push(bytes@),
            final(self).capacity == old(self).capacity,
    {
        let ghost before = chunks_view(self.bufs@);
        let kept = copy_bytes(&bytes);
        self.bufs.push(kept);
        assert(chunks_view(self.bufs@) =~= before.push(bytes@));
        bytes
    }

    /// Whether no capacity is left.
    pub fn is_capped(&self) -> (b: bool)
        ensures
            b == (self.capacity == 0),
    {
        self.capacity == 0
    }

    /// The number of bytes kept.
    pub fn remaining(&self) -> (n: usize)
        requires
            flatten(chunks_view(self.bufs@)).len() <= usize::MAX,
        ensures
            n == flatten(chunks_view(self.bufs@)).len(),
    {
        let ghost cs = chunks_view(self.bufs@);
        let mut n: usize = 0;
        let mut i: usize = 0;
        assert(cs.take(0) =~= Seq::<Seq<u8>>::empty());
        while i < self.bufs.len()
            invariant
                cs == chunks_view(self.bufs@),
                i <= self.bufs@.len(),
                n == flatten(cs.take(i as int)).len(),
                flatten(cs).len() <= usize::MAX,
            decreases self.bufs@.len() - i,
        {
            proof {
                assert(cs.take(i + 1) =~= cs.take(i as int).push(cs[i as int]));
                lemma_flatten_push(cs.take(i as int), cs[i as int]);
                lemma_flatten_prefix_len(cs, i + 1);
            }
            n = n + self.bufs[i].len();
            i = i + 1;
        }
        assert(cs.take(self.bufs@.len() as int) =~= cs);
        n
    }

    /// Whether some byte is kept.
    pub fn has_remaining(&self) -> (b: bool)
        ensures
            b == (flatten(chunks_view(self.bufs@)).len() > 0),
    {
        let ghost cs = chunks_view(self.bufs@);
        let mut i: usize = 0;
        assert(cs.take(0) =~= Seq::<Seq<u8>>::empty());
        while i < self.bufs.len()
            invariant
                cs == chunks_view(self.bufs@),
                i <= self.bufs@.len(),
                flatten(cs.take(i as int)).len() == 0,
            decreases self.bufs@.len() - i,
        {
            proof {
                assert(cs.take(i + 1) =~= cs.take(i as int).push(cs[i as int]));
                lemma_flatten_push(cs.take(i as int), cs[i as int]);
            }
            if self.bufs[i].len() > 0 {
                proof {
                    lemma_flatten_prefix_len(cs, i + 1);
                }
                return true;
            }
            i = i + 1;
        }
        assert(cs.take(self.bufs@.len() as int) =~= cs);
        false
    }

    /// The first chunk, or nothing.
    pub fn chunk(&self) -> (r: Vec<u8>)
        ensures
            r@ == (if self.bufs@.len() > 0 {
                self.bufs@[0]@
            } else {
                Seq::<u8>::empty()
            }),
    {
        if self.bufs.len() > 0 {
            copy_bytes(&self.bufs[0])
        } else {
            Vec::new()
        }
    }

    /// Drops the first `cnt` kept bytes (all of them when fewer are kept).
    pub fn advance(&mut self, cnt: usize)
        ensures
            flatten(chunks_view(final(self).bufs@)) == flatten(chunks_view(old(self).bufs@)).skip(
                if cnt <= flatten(chunks_view(old(self).bufs@)).len() { cnt as int } else { flatten(chunks_view(old(self).bufs@)).len() as int },
            ),
            final(self).capacity == old(self).capacity,
    {
        let ghost orig = flatten(chunks_view(self.bufs@));
        let ghost cnt0: int = cnt as int;
        let mut cnt = cnt;
        let ghost done: int = 0;
        loop
            invariant
                orig == flatten(chunks_view(old(self).bufs@)),
                self.capacity == old(self).capacity,
                0 <= done <= orig.len(),
                flatten(chunks_view(self.bufs@)) == orig.skip(done),
                done + cnt == cnt0,
            ensures
                flatten(chunks_view(self.bufs@)) == orig.skip(
                    if cnt0 <= orig.len() { cnt0 } else { orig.len() as int },
                ),
                self.capacity == old(self).capacity,
            decreases cnt, self.bufs@.len(),
        {
            if cnt == 0 || self.bufs.len() == 0 {
                proof {
                    if self.bufs.len() == 0 {
                        assert(chunks_view(self.bufs@).len() == 0);
                        assert(orig.skip(done).len() == 0);
                    }
                }
                break;
            }
            let ghost cs = chunks_view(self.bufs@);
            proof {
                lemma_flatten_front(cs);
            }
            let first_remaining = self.bufs[0].len();
            if first_remaining > cnt {
                let t = tail_of(&self.bufs[0], cnt);
                self.bufs.set(0, t);
                proof {
                    let ns = chunks_view(self.bufs@);
                    assert(ns =~= cs.update(0, cs[0].skip(cnt as int)));
                    lemma_flatten_front(ns);
                    assert(ns.drop_first() =~= cs.drop_first());
                    lemma_skip_concat(cs[0], flatten(cs.drop_first()), cnt as int);
                    lemma_skip_skip(orig, done, cnt as int);
                    assert(flatten(ns) =~= orig.skip(done + cnt as int));
                    done = done + cnt as int;
                }
                cnt = 0;
                break;
            }
            let _ = self.bufs.remove(0);
            proof {
                assert(chunks_view(self.bufs@) =~= cs.drop_first());
                assert(cs[0].len() == first_remaining);
                lemma_skip_concat(cs[0], flatten(cs.drop_first()), first_remaining as int);
                assert(cs[0].skip(first_remaining as int) + flatten(cs.drop_first()) =~= flatten(cs.drop_first()));
                lemma_skip_skip(orig, done, first_remaining as int);
                assert(flatten(chunks_view(self.bufs@)) =~= orig.skip(done + first_remaining as int));
                done = done + first_remaining as int;
            }
            cnt = cnt - first_remaining;
        }
    }

    /// Takes the first `len` kept bytes (all of them when fewer are kept).
    pub fn copy_to_bytes(&mut self, len: usize) -> (r: Vec<u8>)
        ensures
            ({
                let f = flatten(chunks_view(old(self).bufs@));
                let k = if len <= f.len() { len as int } else { f.len() as int };
                &&& r@ == f.take(k)
                &&& flatten(chunks_view(final(self).bufs@)) == f.skip(k)
            }),
            final(self).capacity == old(self).capacity,
    {
        let ghost f = flatten(chunks_view(self.bufs@));
        let mut out: Vec<u8> = Vec::new();
        let mut got: usize = 0;
        while got < len && self.bufs.len() > 0
            invariant
                f == flatten(chunks_view(old(self).bufs@)),
                self.capacity == old(self).capacity,
                got <= len,
                got <= f.len(),
                out@ == f.take(got as int),
                flatten(chunks_view(self.bufs@)) == f.skip(got as int),
            decreases len - got, self.bufs@.len(),
        {
            let ghost cs = chunks_view(self.bufs@);
            proof {
                lemma_flatten_front(cs);
            }
            if self.bufs[0].len() == 0 {
                let _ = self.bufs.remove(0);
                assert(chunks_view(self.bufs@) =~= cs.drop_first());
                assert(cs[0] =~= Seq::<u8>::empty());
                assert(flatten(chunks_view(self.bufs@)) =~= f.skip(got as int));
            } else {
                let b = self.bufs[0][0];
                proof {
                    assert(cs[0][0] == b);
                    assert((cs[0] + flatten(cs.drop_first()))[0] == b);
                    assert(f.skip(got as int).len() > 0);
                    assert(f.skip(got as int)[0] == f[got as int]);
                }
                out.push(b);
                let t = tail_of(&self.bufs[0], 1);
                self.bufs.set(0, t);
                proof {
                    let ns = chunks_view(self.bufs@);
                    assert(ns =~= cs.update(0, cs[0].skip(1)));
                    lemma_flatten_front(ns);
                    assert(ns.drop_first() =~= cs.drop_first());
                    assert(f.skip(got as int)[0] == b);
                    assert(f[got as int] == b);
                    assert(out@ =~= f.take(got + 1));
                    lemma_skip_concat(cs[0], flatten(cs.drop_first()), 1);
                    lemma_skip_skip(f, got as int, 1);
                    assert(flatten(ns) =~= f.skip(got + 1));
                }
                got = got + 1;
            }
        }
        proof {
            if got < len {
                assert(chunks_view(self.bufs@) =~= Seq::<Seq<u8>>::empty());
                assert(f.skip(got as int).len() == 0);
            }
        }
        out
    }
}

/// A copy of the bytes.
pub fn copy_bytes(v: &Vec<u8>) -> (r: Vec<u8>)
    ensures
        r@ == v@,
{
    let r = tail_of(v, 0);
    assert(v@.skip(0) =~= v@);
    r
}

proof fn lemma_flatten_prefix_len(cs: Seq<Seq<u8>>, k: int)
    requires
        0 <= k <= cs.len(),
    ensures
        flatten(cs.take(k)).len() <= flatten(cs).len(),
    decreases cs.len() - k,
{
    if k < cs.len() {
        lemma_flatten_prefix_len(cs, k + 1);
        assert(cs.take(k + 1) =~= cs.take(k).push(cs[k]));
        lemma_flatten_push(cs.take(k), cs[k]);
    } else {
        assert(cs.take(k) =~= cs);
    }
}

} // verus!

verus! {

/// What a read of the body does next, decided before the wire is polled.
#[derive(Debug)]
pub enum DataStep {
    /// Hand out the kept chunks again (a replica's first read).
    Replay(InnerBuffer),
    /// The kept bytes were dropped at the capacity: the body cannot be replayed.
    Capped,
    /// The body is over.
    End,
    /// Read the next chunk from the wire and pass it to `on_chunk`.
    Poll,
}

/// What a read of the trailers does next.
#[derive(Debug, Clone, Copy, PartialEq, Eq)]
pub enum TrailerStep {
    /// Hand out the kept trailers again.
    Replay,
    /// Read the trailers from the wire and pass them to `on_trailers`.
    Poll,
    /// There are no trailers.
    Done,
}

/// The part of a body that passes from one copy to the next: the kept
/// bytes and whether trailers were kept. While a copy reads, it holds this
/// part; when it is dropped, the part goes back to the slot the copies
/// share, and the next copy to read takes it from there.
#[derive(Debug)]
pub struct OwnedBufferedBody {
    pub buf: InnerBuffer,
    pub has_trailers: bool,
}

/// The decisions of a body that can be read again: it keeps what it reads,
/// up to a capacity, and a replica first replays what was kept by the time
/// it reads.
#[derive(Debug)]
pub struct BufferedBody {
    pub owned: Option<OwnedBufferedBody>,
    pub replay_body: bool,
    pub replay_trailers: bool,
    pub is_empty: bool,
}

/// The part a copy reads with: its own, or else the one in the shared slot.
pub open spec fn owned_part(b: BufferedBody, shared: Option<OwnedBufferedBody>) -> OwnedBufferedBody {
    match b.owned {
        Some(o) => o,
        None => shared->0,
    }
}

impl InnerBuffer {
    /// A copy of the kept chunks and the capacity.
    pub fn copy(&self) -> (b: InnerBuffer)
        ensures
            chunks_view(b.bufs@) == chunks_view(self.bufs@),
            b.capacity == self.capacity,
    {
        let mut bufs: Vec<Vec<u8>> = Vec::new();
        let mut i: usize = 0;
        while i < self.bufs.len()
            invariant
                i <= self.bufs@.len(),
                bufs@.len() == i,
                chunks_view(bufs@) == chunks_view(self.bufs@).take(i as int),
            decreases self.bufs@.len() - i,
        {
            let c = copy_bytes(&self.bufs[i]);
            proof {
                assert(c@ == chunks_view(self.bufs@)[i as int]);
            }
            bufs.push(c);
            proof {
                assert(chunks_view(bufs@)[i as int] == c@);
            }
            i = i + 1;
            assert(chunks_view(bufs@) =~= chunks_view(self.bufs@).take(i as int));
        }
        assert(chunks_view(self.bufs@).take(i as int) =~= chunks_view(self.bufs@));
        InnerBuffer { bufs, capacity: self.capacity }
    }
}

/// What is kept, and the capacity left, after `chunk` is read with `kept`
/// kept and `cap` left: the capacity goes down by the chunk's length (not
/// below zero); while some is left the chunk is kept, and once none is left
/// all kept bytes are dropped.
pub open spec fn keep_step(kept: Seq<Seq<u8>>, cap: nat, chunk: Seq<u8>) -> (Seq<Seq<u8>>, nat) {
    let left: nat = if cap >= chunk.len() { (cap - chunk.len()) as nat } else { 0 };
    if left > 0 {
        (kept.push(chunk), left)
    } else if flatten(kept).len() > 0 {
        (Seq::<Seq<u8>>::empty(), 0)
    } else {
        (kept, 0)
    }
}

/// What is kept, and the capacity left, after `chunks` are read, in order,
/// by a body made with capacity `cap`.
pub open spec fn keep_all(cap: nat, chunks: Seq<Seq<u8>>) -> (Seq<Seq<u8>>, nat)
    decreases chunks.len(),
{
    if chunks.len() == 0 {
        (Seq::<Seq<u8>>::empty(), cap)
    } else {
        let prev = keep_all(cap, chunks.drop_last());
        keep_step(prev.0, prev.1, chunks.last())
    }
}

proof fn lemma_keep_all(cap: nat, chunks: Seq<Seq<u8>>)
    ensures
        keep_all(cap, chunks).1 == (if cap >= flatten(chunks).len() {
            (cap - flatten(chunks).len()) as nat
        } else {
            0
        }),
        keep_all(cap, chunks).1 > 0 ==> keep_all(cap, chunks).0 == chunks,
        keep_all(cap, chunks).1 == 0 ==> flatten(keep_all(cap, chunks).0).len() == 0,
    decreases chunks.len(),
{
    if chunks.len() == 0 {
        assert(flatten(Seq::<Seq<u8>>::empty()).len() == 0);
    } else {
        lemma_keep_all(cap, chunks.drop_last());
        assert(chunks.drop_last().push(chunks.last()) =~= chunks);
    }
}

/// What the copies of a body made with capacity `cap` keep once `chunks`
/// were read: a replica, which takes the shared part at its first read
/// (`begin_data`), replays exactly the bytes read by then, as long as they
/// stayed under the capacity; once they reach it, nothing is kept, no
/// capacity is left, and a replica's first read fails.
pub proof fn law_replay_keeps_what_was_read(cap: nat, chunks: Seq<Seq<u8>>)
    ensures
        flatten(chunks).len() < cap ==> flatten(keep_all(cap, chunks).0) == flatten(chunks)
            && keep_all(cap, chunks).1 > 0,
        flatten(chunks).len() >= cap ==> keep_all(cap, chunks).1 == 0 && flatten(
            keep_all(cap, chunks).0,
        ).len() == 0,
{
    lemma_keep_all(cap, chunks);
}

/// What a read of a copy does first, as a value: replay these bytes, fail
/// for the capacity, end, or poll the wire.
pub ghost enum DataStepView {
    Replay(Seq<u8>),
    Capped,
    End,
    Poll,
}

/// The value of a step.
pub open spec fn data_step_view(step: DataStep) -> DataStepView {
    match step {
        DataStep::Replay(b) => DataStepView::Replay(flatten(chunks_view(b.bufs@))),
        DataStep::Capped => DataStepView::Capped,
        DataStep::End => DataStepView::End,
        DataStep::Poll => DataStepView::Poll,
    }
}

/// The first thing a read of `b` does, with `shared` in the slot the copies
/// share: a copy that is to replay replays what the part it reads with has
/// kept, or fails when that part kept nothing and has no capacity left;
/// otherwise it ends on an empty wire and polls the wire else.
pub open spec fn next_data_step(b: BufferedBody, shared: Option<OwnedBufferedBody>) -> DataStepView {
    let o = owned_part(b, shared);
    let kept = flatten(chunks_view(o.buf.bufs@));
    if b.replay_body && kept.len() > 0 {
        DataStepView::Replay(kept)
    } else if b.replay_body && o.buf.capacity == 0 {
        DataStepView::Capped
    } else if b.is_empty {
        DataStepView::End
    } else {
        DataStepView::Poll
    }
}

/// The replica of `b`: no part of its own, the body and trailers to replay.
pub open spec fn replica_of(b: BufferedBody) -> BufferedBody {
    BufferedBody { owned: None, replay_body: true, replay_trailers: true, is_empty: b.is_empty }
}

impl BufferedBody {
    /// A body that keeps up to `capacity` bytes; `is_empty` tells that the
    /// wire holds nothing.
    pub fn new(is_empty: bool, capacity: usize) -> (b: BufferedBody)
        ensures
            b.owned matches Some(o) && o.buf.bufs@.len() == 0 && o.buf.capacity == capacity
                && !o.has_trailers,
            !b.replay_body,
            !b.replay_trailers,
            b.is_empty == is_empty,
    {
        BufferedBody {
            owned: Some(OwnedBufferedBody { buf: InnerBuffer::new(capacity), has_trailers: false }),
            replay_body: false,
            replay_trailers: false,
            is_empty,
        }
    }

    /// A replica: it holds no part of its own (it takes the shared one when
    /// it first reads) and first replays the body and the trailers.
    pub fn replica(&self) -> (b: BufferedBody)
        ensures
            b == replica_of(*self),
            b.owned is None,
            b.replay_body,
            b.replay_trailers,
            b.is_empty == self.is_empty,
    {
        BufferedBody { owned: None, replay_body: true, replay_trailers: true, is_empty: self.is_empty }
    }

    /// The copy is dropped: its part, if it holds one, goes to the shared
    /// slot.
    pub fn release(&mut self, shared: &mut Option<OwnedBufferedBody>)
        ensures
            final(self).owned is None,
            old(self).owned is Some ==> *final(shared) == old(self).owned,
            old(self).owned is None ==> *final(shared) == *old(shared),
            final(self).replay_body == old(self).replay_body,
            final(self).replay_trailers == old(self).replay_trailers,
            final(self).is_empty == old(self).is_empty,
    {
        let mut mine: Option<OwnedBufferedBody> = None;
        std::mem::swap(&mut mine, &mut self.owned);
        if mine.is_some() {
            *shared = mine;
        }
    }

    /// Takes the shared part when the copy holds none. The copy must hold
    /// a part, or the slot must.
    fn acquire(&mut self, shared: &mut Option<OwnedBufferedBody>)
        requires
            old(self).owned is Some || *old(shared) is Some,
        ensures
            final(self).owned == Some(owned_part(*old(self), *old(shared))),
            old(self).owned is Some ==> *final(shared) == *old(shared),
            old(self).owned is None ==> *final(shared) is None,
            final(self).replay_body == old(self).replay_body,
            final(self).replay_trailers == old(self).replay_trailers,
            final(self).is_empty == old(self).is_empty,
    {
        if self.owned.is_none() {
            let mut taken: Option<OwnedBufferedBody> = None;
            std::mem::swap(&mut taken, shared);
            self.owned = taken;
        }
    }

    /// The decision of a read before the wire is polled. A copy that holds
    /// no part first takes the shared one, so a replica replays what the
    /// other copies kept by the time it reads. The copy must hold a part, or
    /// the shared slot must.
    pub fn begin_data(&mut self, shared: &mut Option<OwnedBufferedBody>) -> (step: DataStep)
        requires
            old(self).owned is Some || *old(shared) is Some,
        ensures
            final(self).owned == Some(owned_part(*old(self), *old(shared))),
            old(self).owned is Some ==> *final(shared) == *old(shared),
            old(self).owned is None ==> *final(shared) is None,
            !final(self).replay_body,
            final(self).replay_trailers == old(self).replay_trailers,
            final(self).is_empty == old(self).is_empty,
            data_step_view(step) == next_data_step(*old(self), *old(shared)),
            ({
                let o = owned_part(*old(self), *old(shared));
                let kept = flatten(chunks_view(o.buf.bufs@));
                match step {
                    DataStep::Replay(b) => old(self).replay_body && kept.len() > 0
                        && chunks_view(b.bufs@) == chunks_view(o.buf.bufs@)
                        && b.capacity == o.buf.capacity,
                    DataStep::Capped => old(self).replay_body && kept.len() == 0
                        && o.buf.capacity == 0,
                    DataStep::End => !(old(self).replay_body && (kept.len() > 0
                        || o.buf.capacity == 0)) && old(self).is_empty,
                    DataStep::Poll => !(old(self).replay_body && (kept.len() > 0
                        || o.buf.capacity == 0)) && !old(self).is_empty,
                }
            }),
    {
        self.acquire(shared);
        if self.replay_body {
            self.replay_body = false;
            match &self.owned {
                Some(o) => {
                    if o.buf.has_remaining() {
                        return DataStep::Replay(o.buf.copy());
                    }
                    if o.buf.is_capped() {
                        return DataStep::Capped;
                    }
                },
                None => {},
            }
        }
        if self.is_empty {
            DataStep::End
        } else {
            DataStep::Poll
        }
    }

    /// The wire is over.
    pub fn on_end(&mut self)
        ensures
            final(self).is_empty,
            final(self).owned == old(self).owned,
            final(self).replay_body == old(self).replay_body,
            final(self).replay_trailers == old(self).replay_trailers,
    {
        self.is_empty = true;
    }

    /// A chunk came from the wire: it is kept while capacity is left, and
    /// all that was kept is dropped once the capacity is used up. The chunk
    /// is handed on unchanged. The copy must hold its part (it has read).
    pub fn on_chunk(&mut self, chunk: Vec<u8>) -> (r: Vec<u8>)
        requires
            old(self).owned is Some,
        ensures
            r@ == chunk@,
            final(self).owned matches Some(o) && (chunks_view(o.buf.bufs@), o.buf.capacity as nat)
                == keep_step(
                chunks_view(old(self).owned->0.buf.bufs@),
                old(self).owned->0.buf.capacity as nat,
                chunk@,
            ) && o.has_trailers == old(self).owned->0.has_trailers,
            final(self).replay_body == old(self).replay_body,
            final(self).replay_trailers == old(self).replay_trailers,
            final(self).is_empty == old(self).is_empty,
    {
        let mut slot: Option<OwnedBufferedBody> = None;
        std::mem::swap(&mut slot, &mut self.owned);
        let mut o = slot.unwrap();
        let len = chunk.len();
        o.buf.capacity = o.buf.capacity.saturating_sub(len);
        let r = if o.buf.is_capped() {
            if o.buf.has_remaining() {
                o.buf.bufs = Vec::new();
                assert(chunks_view(o.buf.bufs@) =~= Seq::<Seq<u8>>::empty());
            }
            chunk
        } else {
            o.buf.push_bytes(chunk)
        };
        self.owned = Some(o);
        r
    }

    /// The decision of a read of the trailers before the wire is polled;
    /// `wire_ended` tells that the wire has no more to give. A copy that
    /// holds no part first takes the shared one. The copy must hold a part,
    /// or the shared slot must.
    pub fn begin_trailers(&mut self, shared: &mut Option<OwnedBufferedBody>, wire_ended: bool) -> (step: TrailerStep)
        requires
            old(self).owned is Some || *old(shared) is Some,
        ensures
            final(self).owned == Some(owned_part(*old(self), *old(shared))),
            old(self).owned is Some ==> *final(shared) == *old(shared),
            old(self).owned is None ==> *final(shared) is None,
            !final(self).replay_trailers,
            final(self).replay_body == old(self).replay_body,
            final(self).is_empty == old(self).is_empty,
            step == (if old(self).replay_trailers && owned_part(*old(self), *old(shared)).has_trailers {
                TrailerStep::Replay
            } else if !wire_ended {
                TrailerStep::Poll
            } else {
                TrailerStep::Done
            }),
    {
        self.acquire(shared);
        if self.replay_trailers {
            self.replay_trailers = false;
            let kept = match &self.owned {
                Some(o) => o.has_trailers,
                None => false,
            };
            if kept {
                return TrailerStep::Replay;
            }
        }
        if !wire_ended {
            TrailerStep::Poll
        } else {
            TrailerStep::Done
        }
    }

    /// Trailers came from the wire (`got` tells whether there were any); they
    /// are kept for a replica. The copy must hold its part.
    pub fn on_trailers(&mut self, got: bool)
        requires
            old(self).owned is Some,
        ensures
            final(self).owned matches Some(o) && o.has_trailers == got && o.buf == old(self).owned->0.buf,
            final(self).replay_body == old(self).replay_body,
            final(self).replay_trailers == old(self).replay_trailers,
            final(self).is_empty == old(self).is_empty,
    {
        let mut slot: Option<OwnedBufferedBody> = None;
        std::mem::swap(&mut slot, &mut self.owned);
        let mut o = slot.unwrap();
        o.has_trailers = got;
        self.owned = Some(o);
    }

    /// Whether nothing more will be read; `wire_ended` tells that the wire
    /// has no more to give (it counts only for a copy that holds its part).
    pub fn is_end_stream(&self, wire_ended: bool) -> (b: bool)
        ensures
            b == (self.is_empty || (!self.replay_body && !self.replay_trailers && self.owned is Some
                && wire_ended)),
    {
        if self.is_empty {
            return true;
        }
        !self.replay_body && !self.replay_trailers && self.owned.is_some() && wire_ended
    }
}

/// A body made with capacity `cap` whose wire gives the chunks `chunks`
/// (`on_chunk` each, in order) keeps the part `keep_all(cap, chunks)`; once
/// that part is in the shared slot (the body was dropped, `release`), the
/// first read of a replica of the body replays exactly the bytes read, when
/// they add up to less than the capacity, and fails for the capacity
/// otherwise.
pub proof fn law_replica_replays_the_reads(
    body: BufferedBody,
    part: OwnedBufferedBody,
    cap: nat,
    chunks: Seq<Seq<u8>>,
)
    requires
        (chunks_view(part.buf.bufs@), part.buf.capacity as nat) == keep_all(cap, chunks),
        flatten(chunks).len() > 0,
    ensures
        flatten(chunks).len() < cap ==> next_data_step(replica_of(body), Some(part))
            == DataStepView::Replay(flatten(chunks)),
        flatten(chunks).len() >= cap ==> next_data_step(replica_of(body), Some(part))
            == DataStepView::Capped,
{
    law_replay_keeps_what_was_read(cap, chunks);
}

} // verus!
