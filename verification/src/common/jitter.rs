//! Fixed-depth jitter buffer for decoded frames.

use vstd::prelude::*;

verus! {

/// Four slots hold 80 ms at 20 ms per frame.
pub const DEFAULT_JITTER_DEPTH: usize = 4;

/// How far `seq` lies ahead of `from`, modulo 2^32.
pub open spec fn seq_distance(seq: u32, from: u32) -> nat {
    ((seq - from) % 0x1_0000_0000) as nat
}

/// The sequence number `n` places after `seq`, modulo 2^32.
pub open spec fn seq_plus(seq: u32, n: nat) -> u32 {
    ((seq + n) % 0x1_0000_0000) as u32
}

/// What a jitter buffer holds.
pub struct JitterView<F> {
    /// Number of slots.
    pub depth: nat,
    /// The sequence number that is delivered next.
    pub read_seq: u32,
    /// Whether any frame was ever offered.
    pub initialized: bool,
    /// Stored frames by sequence number.
    pub frames: Map<u32, F>,
}

impl<F> JitterView<F> {
    pub open spec fn empty(depth: nat) -> Self {
        JitterView { depth, read_seq: 0, initialized: false, frames: Map::empty() }
    }

    /// The first frame ever offered sets the read position.
    pub open spec fn started(self, seq: u32) -> Self {
        if self.initialized {
            self
        } else {
            JitterView { read_seq: seq, initialized: true, ..self }
        }
    }

    /// A frame is accepted unless it lies in the half of the number circle that
    /// counts as behind the read position.
    pub open spec fn accepts(self, seq: u32) -> bool {
        seq_distance(seq, self.started(seq).read_seq) <= 0x7fff_ffff
    }

    /// Where the read position is after a frame was accepted. One that lies
    /// beyond the window moves it up so that the frame is the window's last.
    pub open spec fn moved_to(self, seq: u32) -> u32 {
        let from = self.started(seq).read_seq;
        if seq_distance(seq, from) >= self.depth {
            ((seq - (self.depth - 1)) % 0x1_0000_0000) as u32
        } else {
            from
        }
    }

    /// The frames of the window that starts at `from`.
    pub open spec fn within(self, from: u32) -> Map<u32, F> {
        self.frames.restrict(Set::new(|k: u32| seq_distance(k, from) < self.depth))
    }

    /// The frames after one was accepted: it, in place of one with its number,
    /// and those that still lie in the window.
    pub open spec fn stored(self, seq: u32, frame: F) -> Map<u32, F> {
        Map::new(
            |k: u32|
                k == seq || (self.frames.contains_key(k) && seq_distance(k, self.moved_to(seq))
                    < self.depth),
            |k: u32| if k == seq { frame } else { self.frames[k] },
        )
    }

    /// The buffer after offering a frame.
    pub open spec fn inserted(self, seq: u32, frame: F) -> Self {
        let s = self.started(seq);
        if !self.accepts(seq) {
            s
        } else {
            JitterView {
                read_seq: self.moved_to(seq),
                frames: self.stored(seq, frame),
                ..s
            }
        }
    }

    /// The frame that is delivered next, if it is there.
    pub open spec fn next(self) -> Option<F> {
        if self.initialized && self.frames.contains_key(self.read_seq) {
            Some(self.frames[self.read_seq])
        } else {
            None
        }
    }

    /// The buffer after one delivery: the read position moves on, found or not.
    pub open spec fn popped(self) -> Self {
        if self.initialized {
            JitterView {
                read_seq: seq_plus(self.read_seq, 1),
                frames: self.frames.remove(self.read_seq),
                ..self
            }
        } else {
            self
        }
    }

    /// The buffer after `n` deliveries.
    pub open spec fn popped_n(self, n: nat) -> Self
        decreases n,
    {
        if n == 0 {
            self
        } else {
            self.popped_n((n - 1) as nat).popped()
        }
    }
}

/// Moving the origin up by `n` shortens a distance by `n`, around the circle.
pub proof fn lemma_distance_from_later(seq: u32, from: u32, n: nat)
    requires
        n < 0x1_0000_0000,
    ensures
        seq_distance(seq, seq_plus(from, n)) == (if n <= seq_distance(seq, from) {
            seq_distance(seq, from) - n
        } else {
            seq_distance(seq, from) - n + 0x1_0000_0000
        }),
{
}

/// Where a window has to start so that `seq` is in it, and how far ahead it then is.
proof fn lemma_top_of_window(seq: u32, from: u32, depth: nat)
    requires
        depth > 0,
    ensures
        ({
            let ahead = seq_distance(seq, from);
            let start = if ahead >= depth {
                seq_plus(from, (ahead - (depth - 1)) as nat)
            } else {
                from
            };
            &&& ahead >= depth ==> start == (seq - (depth - 1)) % 0x1_0000_0000
            &&& seq_plus(start, if ahead >= depth {
                (depth - 1) as nat
            } else {
                ahead
            }) == seq
        }),
{
}

/// The slot `n` places after slot `head` of a ring of `depth` slots.
spec fn slot_after(head: int, n: int, depth: int) -> int {
    if head + n < depth {
        head + n
    } else {
        head + n - depth
    }
}

/// A circular buffer that reorders frames by sequence number. Slots are counted
/// from the read position, so the numbers of a window never share one, wherever
/// they wrap around.
pub struct JitterBuffer<F> {
    slots: Vec<Option<F>>,
    depth: usize,
    /// The slot of the number that is delivered next.
    head: usize,
    read_seq: u32,
    initialized: bool,
}

impl<F> JitterBuffer<F> {
    /// The slot of the number `n` places after the read position.
    spec fn at(self, n: int) -> Option<F> {
        self.slots@[slot_after(self.head as int, n, self.depth as int)]
    }

    /// A filled slot is at most half the number circle ahead, and a buffer that
    /// was never offered a frame has none.
    pub closed spec fn wf(self) -> bool {
        &&& self.depth > 0
        &&& self.slots@.len() == self.depth
        &&& self.head < self.depth
        &&& forall|n: int|
            0 <= n < self.depth && #[trigger] self.at(n) is Some ==> n <= 0x7fff_ffff
                && self.initialized
    }

    spec fn holds(self, seq: u32) -> bool {
        let n = seq_distance(seq, self.read_seq) as int;
        n < self.depth && self.at(n) is Some
    }

    pub closed spec fn view(self) -> JitterView<F> {
        JitterView {
            depth: self.depth as nat,
            read_seq: self.read_seq,
            initialized: self.initialized,
            frames: Map::new(
                |k: u32| self.holds(k),
                |k: u32| self.at(seq_distance(k, self.read_seq) as int)->Some_0,
            ),
        }
    }

    pub fn new(depth: usize) -> (r: Self)
        requires
            depth > 0,
        ensures
            r.wf(),
            r@ == JitterView::<F>::empty(depth as nat),
    {
        let mut slots: Vec<Option<F>> = Vec::new();
        let mut i: usize = 0;
        while i < depth
            invariant
                i <= depth,
                slots@.len() == i,
                forall|j: int| 0 <= j < i ==> slots@[j] is None,
            decreases depth - i,
        {
            slots.push(None);
            i += 1;
        }
        let r = JitterBuffer { slots, depth, head: 0, read_seq: 0, initialized: false };
        assert(r@.frames =~= Map::empty());
        r
    }

    /// The slot `n` places after the head.
    fn slot(&self, n: usize) -> (r: usize)
        requires
            self.head < self.depth,
            n < self.depth,
        ensures
            r == slot_after(self.head as int, n as int, self.depth as int),
            r < self.depth,
    {
        if n < self.depth - self.head {
            self.head + n
        } else {
            n - (self.depth - self.head)
        }
    }

    /// Moves the read position up by `n`, and forgets the frames it passes.
    fn skip(&mut self, n: u32)
        requires
            old(self).wf(),
            old(self).initialized,
            n <= 0x7fff_ffff,
        ensures
            final(self).wf(),
            final(self).initialized,
            final(self).depth == old(self).depth,
            final(self).read_seq == seq_plus(old(self).read_seq, n as nat),
            forall|i: int|
                0 <= i < old(self).depth ==> #[trigger] final(self).at(i) == (if i + n < old(
                    self,
                ).depth {
                    old(self).at(i + n)
                } else {
                    None
                }),
    {
        let count: usize = if (n as usize) < self.depth {
            n as usize
        } else {
            self.depth
        };
        let ghost before = *self;
        let mut i: usize = 0;
        while i < count
            invariant
                i <= count <= self.depth,
                self.slots@.len() == self.depth,
                self.head < self.depth,
                self.depth == before.depth,
                self.head == before.head,
                self.read_seq == before.read_seq,
                self.initialized == before.initialized,
                forall|k: int|
                    0 <= k < self.depth ==> #[trigger] self.at(k) == (if k < i {
                        None
                    } else {
                        before.at(k)
                    }),
            decreases count - i,
        {
            let idx: usize = self.slot(i);
            let ghost mid = *self;
            self.slots.set(idx, None);
            assert forall|k: int| 0 <= k < self.depth implies #[trigger] self.at(k) == (if k < i
                + 1 {
                None
            } else {
                before.at(k)
            }) by {
                assert(mid.at(k) == (if k < i {
                    None
                } else {
                    before.at(k)
                }));
            }
            i = i + 1;
        }
        let ghost cleared = *self;
        if count < self.depth {
            self.head = self.slot(count);
        }
        self.read_seq = self.read_seq.wrapping_add(n);
        proof {
            let d = self.depth as int;
            assert forall|k: int| 0 <= k < d implies #[trigger] self.at(k) == (if k + n < d {
                before.at(k + n)
            } else {
                None
            }) by {
                if count < d {
                    if k + n < d {
                        assert(self.at(k) == cleared.at(k + n));
                    } else {
                        assert(self.at(k) == cleared.at(k + n - d));
                    }
                } else {
                    assert(self.at(k) == cleared.at(k));
                }
            }
        }
    }

    /// Skipping less than half the number circle leaves the frames of the window
    /// that starts at the new read position.
    proof fn lemma_skipped(before: Self, after: Self, n: int)
        requires
            before.wf(),
            0 <= n <= 0x7fff_ffff,
            before.depth <= 0x7fff_ffff,
            after.depth == before.depth,
            after.read_seq == seq_plus(before.read_seq, n as nat),
            forall|i: int|
                0 <= i < before.depth ==> #[trigger] after.at(i) == (if i + n < before.depth {
                    before.at(i + n)
                } else {
                    None
                }),
        ensures
            after@.frames == before@.within(after.read_seq),
    {
        assert forall|k: u32| after.holds(k) implies #[trigger] before.holds(k) && after@.frames[k]
            == before@.frames[k] by {
            lemma_distance_from_later(k, before.read_seq, n as nat);
            let i = seq_distance(k, after.read_seq) as int;
            assert(after.at(i) == before.at(i + n));
        }
        assert forall|k: u32|
            before.holds(k) && seq_distance(k, after.read_seq) < before.depth implies
            #[trigger] after.holds(k) by {
            lemma_distance_from_later(k, before.read_seq, n as nat);
            let i = seq_distance(k, after.read_seq) as int;
            let m = seq_distance(k, before.read_seq) as int;
            assert(before.at(m) is Some);
            assert(after.at(i) == before.at(i + n));
        }
        assert(after@.frames =~= before@.within(after.read_seq));
    }

    /// The first frame ever offered sets the read position.
    fn start(&mut self, seq: u32)
        requires
            old(self).wf(),
        ensures
            final(self).wf(),
            final(self).initialized,
            final(self)@ == old(self)@.started(seq),
    {
        if !self.initialized {
            self.read_seq = seq;
            self.initialized = true;
            proof {
                assert forall|n: int| 0 <= n < self.depth implies #[trigger] self.at(n) is None by {
                    assert(old(self).at(n) == self.at(n));
                }
                assert(self@.frames =~= Map::empty());
                assert(old(self)@.frames =~= Map::empty());
            }
        }
    }

    /// Fills the slot `n` places ahead.
    fn put(&mut self, n: usize, frame: F)
        requires
            old(self).wf(),
            old(self).initialized,
            n < old(self).depth,
            n <= 0x7fff_ffff,
        ensures
            final(self).wf(),
            final(self)@ == (JitterView {
                frames: old(self)@.frames.insert(
                    seq_plus(old(self)@.read_seq, n as nat),
                    frame,
                ),
                ..old(self)@
            }),
    {
        let ghost before = *self;
        let idx: usize = self.slot(n);
        self.slots.set(idx, Some(frame));
        proof {
            assert forall|i: int| 0 <= i < self.depth implies #[trigger] self.at(i) == (if i == n {
                Some(frame)
            } else {
                before.at(i)
            }) by {}
            let seq = seq_plus(before.read_seq, n as nat);
            assert forall|k: u32| seq_distance(k, self.read_seq) == n <==> k == seq by {}
            assert(self@.frames =~= before@.frames.insert(seq, frame));
        }
    }

    /// Offers a frame. Returns `false` if it came too late.
    #[verifier::spinoff_prover]
    pub fn insert(&mut self, seq: u32, frame: F) -> (r: bool)
        requires
            old(self).wf(),
        ensures
            final(self).wf(),
            r == old(self)@.accepts(seq),
            final(self)@ == old(self)@.inserted(seq, frame),
    {
        self.start(seq);
        let diff: u32 = seq.wrapping_sub(self.read_seq);
        assert(diff == seq_distance(seq, self.read_seq));
        if diff > u32::MAX / 2 {
            return false;
        }
        let ghost started = self@;
        let mut ahead: usize = diff as usize;
        if ahead >= self.depth {
            let last: usize = self.depth - 1;
            let over: u32 = (ahead - last) as u32;
            let ghost before = *self;
            self.skip(over);
            proof {
                Self::lemma_skipped(before, *self, over as int);
            }
            ahead = last;
        }
        proof {
            lemma_top_of_window(seq, started.read_seq, started.depth);
        }
        assert(self@.read_seq == old(self)@.moved_to(seq));
        self.put(ahead, frame);
        assert(self@.frames =~= old(self)@.stored(seq, frame));
        true
    }

    /// Delivers the next expected frame; `None` on underrun, which the caller
    /// conceals.
    pub fn pop(&mut self) -> (r: Option<F>)
        requires
            old(self).wf(),
        ensures
            final(self).wf(),
            r == old(self)@.next(),
            final(self)@ == old(self)@.popped(),
    {
        if !self.initialized {
            return None;
        }
        let ghost before = *self;
        let head: usize = self.head;
        let mut frame: Option<F> = None;
        std::mem::swap(&mut frame, &mut self.slots[head]);
        let ghost taken = *self;
        assert(before.at(0) == frame);
        assert forall|n: int| 0 <= n < self.depth implies #[trigger] taken.at(n) == (if n == 0 {
            None
        } else {
            before.at(n)
        }) by {}
        assert(taken.wf()) by {
            assert forall|n: int| 0 <= n < taken.depth && #[trigger] taken.at(n) is Some implies n
                <= 0x7fff_ffff by {
                assert(before.at(n) is Some);
            }
        }
        self.skip(1);
        proof {
            let d = self.depth as int;
            let v = before@;
            assert(v.frames.contains_key(v.read_seq) == before.holds(before.read_seq));
            assert forall|k: u32|
                #![trigger self.holds(k)]
                self.holds(k) == v.frames.remove(v.read_seq).contains_key(k) && (self.holds(k)
                    ==> self.at(seq_distance(k, self.read_seq) as int)->Some_0 == v.frames[k]) by {
                let n = seq_distance(k, self.read_seq) as int;
                let m = seq_distance(k, before.read_seq) as int;
                assert(v.frames.contains_key(k) == before.holds(k));
                if n < d {
                    assert(self.at(n) == (if n + 1 < d {
                        taken.at(n + 1)
                    } else {
                        None
                    }));
                }
                if m < d {
                    assert(taken.at(m) == (if m == 0 {
                        None
                    } else {
                        before.at(m)
                    }));
                    if before.at(m) is Some {
                        assert(m <= 0x7fff_ffff);
                    }
                }
            }
            assert(self@.frames =~= v.frames.remove(v.read_seq));
        }
        frame
    }

    /// Whether any frame was ever offered.
    pub fn is_initialized(&self) -> (r: bool)
        ensures
            r == self@.initialized,
    {
        self.initialized
    }

    pub fn depth(&self) -> (r: usize)
        ensures
            r == self@.depth,
    {
        self.depth
    }
}

// ---------------------------------------------------------------------------
// Laws
// ---------------------------------------------------------------------------

/// The window: an accepted frame always lies less than `depth` places ahead of
/// the read position.
pub proof fn lemma_accepted_frame_is_in_window<F>(v: JitterView<F>, seq: u32, frame: F)
    requires
        v.depth > 0,
        v.accepts(seq),
    ensures
        seq_distance(seq, v.inserted(seq, frame).read_seq) < v.depth,
        v.inserted(seq, frame).frames.contains_key(seq),
        v.inserted(seq, frame).frames[seq] == frame,
{
}

/// A packet that came too late leaves a running buffer as it was.
pub proof fn lemma_late_frame_changes_nothing<F>(v: JitterView<F>, seq: u32, frame: F)
    requires
        v.initialized,
        !v.accepts(seq),
    ensures
        v.inserted(seq, frame) == v,
{
}

/// Deliveries walk the sequence numbers in order, wrapping past 2^32 - 1, and
/// take nothing but the numbers they have passed.
pub proof fn lemma_pops_walk_in_order<F>(v: JitterView<F>, n: nat)
    requires
        v.initialized,
    ensures
        v.popped_n(n).initialized,
        v.popped_n(n).depth == v.depth,
        v.popped_n(n).read_seq == seq_plus(v.read_seq, n),
        forall|k: u32|
            n <= seq_distance(k, v.read_seq) ==> (v.popped_n(n).frames.contains_key(k)
                <==> v.frames.contains_key(k)),
        forall|k: u32|
            n <= seq_distance(k, v.read_seq) && v.frames.contains_key(k) ==> (#[trigger] v.popped_n(
                n,
            ).frames[k]) == v.frames[k],
    decreases n,
{
    if n > 0 {
        lemma_pops_walk_in_order(v, (n - 1) as nat);
        let before = v.popped_n((n - 1) as nat);
        assert forall|k: u32| n <= seq_distance(k, v.read_seq) implies k != before.read_seq by {}
    }
}

/// A frame `n` places ahead of the read position is what the delivery after
/// `n` others returns, if it is stored, and that delivery misses otherwise.
pub proof fn lemma_delivery_in_sequence_order<F>(v: JitterView<F>, seq: u32)
    requires
        v.initialized,
    ensures
        v.popped_n(seq_distance(seq, v.read_seq)).next() == (if v.frames.contains_key(seq) {
            Some(v.frames[seq])
        } else {
            None
        }),
{
    let n = seq_distance(seq, v.read_seq);
    lemma_pops_walk_in_order(v, n);
    assert(v.popped_n(n).read_seq == seq);
}

/// What was put in comes out: an accepted frame is delivered after fewer than
/// `depth` other deliveries.
pub proof fn lemma_accepted_frame_is_delivered<F>(v: JitterView<F>, seq: u32, frame: F)
    requires
        v.depth > 0,
        v.accepts(seq),
    ensures
        ({
            let w = v.inserted(seq, frame);
            let n = seq_distance(seq, w.read_seq);
            n < v.depth && w.popped_n(n).next() == Some(frame)
        }),
{
    let w = v.inserted(seq, frame);
    lemma_delivery_in_sequence_order(w, seq);
}

/// A delivered frame is gone: no later delivery or lookup finds it again.
pub proof fn lemma_delivered_once<F>(v: JitterView<F>)
    ensures
        v.initialized ==> !v.popped().frames.contains_key(v.read_seq),
{
}

/// A resync keeps what still fits: a frame stored for a number of the new window
/// stays, wherever the window wraps around.
pub proof fn lemma_window_frames_survive_insert<F>(v: JitterView<F>, seq: u32, frame: F, k: u32)
    requires
        v.depth > 0,
        v.accepts(seq),
        k != seq,
        v.frames.contains_key(k),
        seq_distance(k, v.inserted(seq, frame).read_seq) < v.depth,
    ensures
        v.inserted(seq, frame).frames.contains_key(k),
        v.inserted(seq, frame).frames[k] == v.frames[k],
{
}

/// A new buffer holds nothing and waits for its first frame.
pub proof fn lemma_new_buffer<F>(depth: usize, jb: JitterBuffer<F>, k: u32)
    requires
        call_ensures(JitterBuffer::<F>::new, (depth,), jb),
        depth > 0,
    ensures
        jb@.depth == depth,
        !jb@.initialized,
        jb@.read_seq == 0,
        !jb@.frames.contains_key(k),
{
}

/// Where a frame goes. The first one sets the read position. A frame that lies in
/// the half of the number circle behind the read position is refused. Any other is
/// kept; one beyond the window moves the window up until the frame is its last,
/// and what then lies outside the window is dropped, and nothing else.
pub proof fn lemma_insert_keeps_the_window<F>(
    jb: &mut JitterBuffer<F>,
    seq: u32,
    frame: F,
    kept: bool,
    k: u32,
)
    requires
        call_ensures(JitterBuffer::<F>::insert, (jb, seq, frame), kept),
        old(jb).wf(),
    ensures
        ({
            let was = old(jb)@;
            let now = final(jb)@;
            let from = if was.initialized {
                was.read_seq
            } else {
                seq
            };
            let ahead = (seq - from) % 0x1_0000_0000;
            &&& now.initialized
            &&& now.depth == was.depth
            &&& kept <==> ahead < 0x8000_0000
            &&& !kept ==> now.read_seq == from && now.frames == was.frames
            &&& kept && ahead < was.depth ==> now.read_seq == from
            &&& kept && ahead >= was.depth ==> now.read_seq == (seq - (was.depth - 1))
                % 0x1_0000_0000
            &&& kept ==> {
                &&& now.frames.contains_key(k) <==> k == seq || (was.frames.contains_key(k) && (k
                    - now.read_seq) % 0x1_0000_0000 < was.depth)
                &&& now.frames[seq] == frame
                &&& k != seq && now.frames.contains_key(k) ==> now.frames[k] == was.frames[k]
            }
        }),
{
}

/// A pop delivers the frame that is due, or nothing where it is missing, and moves
/// on by one either way. Before the first frame it does nothing.
pub proof fn lemma_pop_delivers_what_is_due<F>(jb: &mut JitterBuffer<F>, r: Option<F>, k: u32)
    requires
        call_ensures(JitterBuffer::<F>::pop, (jb,), r),
        old(jb).wf(),
    ensures
        ({
            let was = old(jb)@;
            let now = final(jb)@;
            &&& now.depth == was.depth
            &&& now.initialized == was.initialized
            &&& !was.initialized ==> r is None && now == was
            &&& was.initialized ==> {
                &&& now.read_seq == (was.read_seq + 1) % 0x1_0000_0000
                &&& r is Some <==> was.frames.contains_key(was.read_seq)
                &&& r is Some ==> r->Some_0 == was.frames[was.read_seq]
                &&& now.frames.contains_key(k) <==> was.frames.contains_key(k) && k != was.read_seq
                &&& now.frames.contains_key(k) ==> now.frames[k] == was.frames[k]
            }
        }),
{
}

/// A buffer tells its number of slots, and whether a first frame has come.
pub proof fn lemma_buffer_is_asked<F>(
    jb: &JitterBuffer<F>,
    depth: usize,
    initialized: bool,
)
    requires
        call_ensures(JitterBuffer::<F>::depth, (jb,), depth),
        call_ensures(JitterBuffer::<F>::is_initialized, (jb,), initialized),
    ensures
        depth == jb@.depth,
        initialized == jb@.initialized,
{
}

} // verus!
