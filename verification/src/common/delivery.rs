//! What a jitter buffer delivers over any list of inserts and pops.

use vstd::prelude::*;

use crate::common::jitter::{lemma_distance_from_later, seq_distance, seq_plus, JitterView};

verus! {

/// One operation on a jitter buffer.
pub enum JitterStep<F> {
    Insert { seq: u32, frame: F },
    Pop,
}

impl<F> JitterView<F> {
    /// The buffer after one operation.
    pub open spec fn after(self, step: JitterStep<F>) -> Self {
        match step {
            JitterStep::Insert { seq, frame } => self.inserted(seq, frame),
            JitterStep::Pop => self.popped(),
        }
    }

    /// How far one operation moves the read position.
    pub open spec fn advance(self, step: JitterStep<F>) -> nat {
        match step {
            JitterStep::Insert { seq, frame } => seq_distance(
                self.inserted(seq, frame).read_seq,
                self.started(seq).read_seq,
            ),
            JitterStep::Pop => if self.initialized {
                1
            } else {
                0
            },
        }
    }

    /// Every stored frame lies in the window, less than half the number circle
    /// ahead, and there is none before the first offer.
    pub open spec fn valid(self) -> bool {
        &&& self.depth > 0
        &&& forall|k: u32| #[trigger]
            self.frames.contains_key(k) ==> self.initialized && seq_distance(k, self.read_seq)
                < self.depth && seq_distance(k, self.read_seq) <= 0x7fff_ffff
    }
}

/// A new buffer of `depth` slots after the first `i` of the operations.
pub open spec fn buffer_at<F>(depth: nat, steps: Seq<JitterStep<F>>, i: nat) -> JitterView<F>
    decreases i,
{
    if i == 0 {
        JitterView::empty(depth)
    } else {
        buffer_at(depth, steps, (i - 1) as nat).after(steps[i - 1])
    }
}

/// How far the read position has moved over the first `i` operations. Unlike a
/// sequence number it does not wrap around.
pub open spec fn place_at<F>(depth: nat, steps: Seq<JitterStep<F>>, i: nat) -> nat
    decreases i,
{
    if i == 0 {
        0
    } else {
        place_at(depth, steps, (i - 1) as nat) + buffer_at(depth, steps, (i - 1) as nat).advance(
            steps[i - 1],
        )
    }
}

/// Operation `i` is a pop that returns `frame`.
pub open spec fn delivers<F>(depth: nat, steps: Seq<JitterStep<F>>, i: nat, frame: F) -> bool {
    &&& i < steps.len()
    &&& steps[i as int] is Pop
    &&& buffer_at(depth, steps, i).next() == Some(frame)
}

/// Operation `j` is an insert that is accepted.
pub open spec fn takes_in<F>(depth: nat, steps: Seq<JitterStep<F>>, j: nat) -> bool {
    &&& j < steps.len()
    &&& steps[j as int] is Insert
    &&& buffer_at(depth, steps, j).accepts(steps[j as int]->seq)
}

/// The place of the frame that operation `j` inserts.
pub open spec fn lands_at<F>(depth: nat, steps: Seq<JitterStep<F>>, j: nat) -> nat {
    place_at(depth, steps, j + 1) + seq_distance(
        steps[j as int]->seq,
        buffer_at(depth, steps, j + 1).read_seq,
    )
}

/// Operation `j` inserts `frame` under the number `seq`, and puts it at `place`.
pub open spec fn puts<F>(
    depth: nat,
    steps: Seq<JitterStep<F>>,
    j: nat,
    seq: u32,
    frame: F,
    place: nat,
) -> bool {
    &&& takes_in(depth, steps, j)
    &&& steps[j as int]->seq == seq
    &&& steps[j as int]->frame == frame
    &&& lands_at(depth, steps, j) == place
}

// ---------------------------------------------------------------------------
// Laws
// ---------------------------------------------------------------------------

/// An operation keeps the window, the depth and, once set, the start, and moves
/// the read position up by its advance.
pub proof fn lemma_step_keeps_window<F>(v: JitterView<F>, step: JitterStep<F>)
    requires
        v.valid(),
    ensures
        v.after(step).valid(),
        v.after(step).depth == v.depth,
        v.initialized ==> v.after(step).initialized,
        v.initialized ==> v.after(step).read_seq == seq_plus(v.read_seq, v.advance(step)),
{
    let w = v.after(step);
    assert forall|k: u32| #[trigger] w.frames.contains_key(k) implies w.initialized
        && seq_distance(k, w.read_seq) < w.depth && seq_distance(k, w.read_seq) <= 0x7fff_ffff by {
        match step {
            JitterStep::Insert { seq, frame } => {
                if k != seq {
                    assert(v.frames.contains_key(k));
                }
            },
            JitterStep::Pop => {
                assert(v.frames.contains_key(k));
            },
        }
    }
}

/// Numbers add up around the circle.
proof fn lemma_plus_adds(seq: u32, a: nat, b: nat)
    ensures
        seq_plus(seq_plus(seq, a), b) == seq_plus(seq, a + b),
{
}

/// Only a number itself is no distance away.
proof fn lemma_no_distance(seq: u32, from: u32)
    requires
        seq_distance(seq, from) == 0,
    ensures
        seq == from,
{
}

/// An operation moves the read position by less than half the number circle, and
/// an insert moves it only where the window is shorter than that.
proof fn lemma_advance_bound<F>(v: JitterView<F>, step: JitterStep<F>)
    requires
        v.depth > 0,
    ensures
        v.advance(step) <= 0x7fff_ffff,
        step is Insert && v.advance(step) > 0 ==> v.depth <= 0x7fff_ffff,
{
}

/// A frame that is stored after an operation, and was not put there by it, was
/// stored before, as much further ahead as the read position has moved.
#[verifier::spinoff_prover]
proof fn lemma_step_adds_nothing<F>(v: JitterView<F>, step: JitterStep<F>, k: u32)
    requires
        v.valid(),
        v.after(step).frames.contains_key(k),
        !(step is Insert && step->seq == k && v.accepts(k)),
    ensures
        v.frames.contains_key(k),
        v.after(step).frames[k] == v.frames[k],
        v.advance(step) + seq_distance(k, v.after(step).read_seq) == seq_distance(k, v.read_seq),
{
    lemma_step_keeps_window(v, step);
    assert(v.frames.contains_key(k));
    assert(v.after(step).frames[k] == v.frames[k]);
    lemma_advance_bound(v, step);
    lemma_distance_from_later(k, v.read_seq, v.advance(step));
    if step is Pop && seq_distance(k, v.read_seq) == 0 {
        lemma_no_distance(k, v.read_seq);
    }
}

/// A stored frame that the read position does not pass stays stored, and is
/// closer by as much as it has moved.
proof fn lemma_step_drops_only_passed<F>(v: JitterView<F>, step: JitterStep<F>, k: u32)
    requires
        v.valid(),
        v.frames.contains_key(k),
        v.advance(step) <= seq_distance(k, v.read_seq),
    ensures
        v.after(step).frames.contains_key(k),
        v.advance(step) + seq_distance(k, v.after(step).read_seq) == seq_distance(k, v.read_seq),
        !(step is Insert && step->seq == k) ==> v.after(step).frames[k] == v.frames[k],
{
    lemma_step_keeps_window(v, step);
    lemma_advance_bound(v, step);
    lemma_distance_from_later(k, v.read_seq, v.advance(step));
}

/// Whatever the operations, the buffer's window holds, and its depth stays.
pub proof fn lemma_buffer_stays_valid<F>(depth: nat, steps: Seq<JitterStep<F>>, i: nat)
    requires
        depth > 0,
    ensures
        buffer_at(depth, steps, i).valid(),
        buffer_at(depth, steps, i).depth == depth,
    decreases i,
{
    if i > 0 {
        lemma_buffer_stays_valid(depth, steps, (i - 1) as nat);
        lemma_step_keeps_window(buffer_at(depth, steps, (i - 1) as nat), steps[i - 1]);
    }
}

/// The read position never goes back, and the number it shows is the one that
/// many places on, around the circle.
#[verifier::spinoff_prover]
pub proof fn lemma_read_position_only_advances<F>(
    depth: nat,
    steps: Seq<JitterStep<F>>,
    i: nat,
    j: nat,
)
    requires
        depth > 0,
        i <= j,
    ensures
        place_at(depth, steps, i) <= place_at(depth, steps, j),
        buffer_at(depth, steps, i).initialized ==> {
            &&& buffer_at(depth, steps, j).initialized
            &&& buffer_at(depth, steps, j).read_seq == seq_plus(
                buffer_at(depth, steps, i).read_seq,
                (place_at(depth, steps, j) - place_at(depth, steps, i)) as nat,
            )
        },
    decreases j,
{
    if i < j {
        lemma_read_position_only_advances(depth, steps, i, (j - 1) as nat);
        lemma_buffer_stays_valid(depth, steps, (j - 1) as nat);
        lemma_step_keeps_window(buffer_at(depth, steps, (j - 1) as nat), steps[j - 1]);
        lemma_plus_adds(
            buffer_at(depth, steps, i).read_seq,
            (place_at(depth, steps, (j - 1) as nat) - place_at(depth, steps, i)) as nat,
            buffer_at(depth, steps, (j - 1) as nat).advance(steps[j - 1]),
        );
    }
}

/// Before the first frame is offered every pop returns `None` and leaves the
/// buffer as it was made.
pub proof fn lemma_nothing_before_the_first_insert<F>(
    depth: nat,
    steps: Seq<JitterStep<F>>,
    i: nat,
)
    requires
        i <= steps.len(),
        forall|j: int| 0 <= j < i ==> #[trigger] steps[j] is Pop,
    ensures
        buffer_at(depth, steps, i) == JitterView::<F>::empty(depth),
        buffer_at(depth, steps, i).next() is None,
        place_at(depth, steps, i) == 0,
    decreases i,
{
    if i > 0 {
        lemma_nothing_before_the_first_insert(depth, steps, (i - 1) as nat);
        assert(steps[i - 1] is Pop);
    }
}

/// Every pop after the first offer moves on by one place, whether the frame that
/// was due is there or not; where it is not, the pop returns `None`.
pub proof fn lemma_every_pop_moves_on<F>(depth: nat, steps: Seq<JitterStep<F>>, i: nat)
    requires
        i < steps.len(),
        steps[i as int] is Pop,
        buffer_at(depth, steps, i).initialized,
    ensures
        place_at(depth, steps, i + 1) == place_at(depth, steps, i) + 1,
        buffer_at(depth, steps, i + 1).read_seq == seq_plus(
            buffer_at(depth, steps, i).read_seq,
            1,
        ),
        buffer_at(depth, steps, i).next() is None <==> !buffer_at(
            depth,
            steps,
            i,
        ).frames.contains_key(buffer_at(depth, steps, i).read_seq),
{
}

/// Delivery order: of two pops that return a frame, the later one's lies
/// further on, so no place is delivered twice and none after a later one.
pub proof fn lemma_deliveries_in_order<F>(
    depth: nat,
    steps: Seq<JitterStep<F>>,
    i: nat,
    j: nat,
    first: F,
    second: F,
)
    requires
        depth > 0,
        i < j,
        delivers(depth, steps, i, first),
        delivers(depth, steps, j, second),
    ensures
        place_at(depth, steps, i) < place_at(depth, steps, j),
        buffer_at(depth, steps, j).read_seq == seq_plus(
            buffer_at(depth, steps, i).read_seq,
            (place_at(depth, steps, j) - place_at(depth, steps, i)) as nat,
        ),
{
    lemma_every_pop_moves_on(depth, steps, i);
    lemma_read_position_only_advances(depth, steps, i + 1, j);
    lemma_read_position_only_advances(depth, steps, i, j);
}

/// Every stored frame was put there by an earlier insert of its number.
#[verifier::spinoff_prover]
proof fn lemma_stored_was_inserted<F>(depth: nat, steps: Seq<JitterStep<F>>, i: nat, k: u32)
    requires
        depth > 0,
        i <= steps.len(),
        buffer_at(depth, steps, i).frames.contains_key(k),
    ensures
        exists|j: nat|
            j < i && #[trigger] puts(
                depth,
                steps,
                j,
                k,
                buffer_at(depth, steps, i).frames[k],
                place_at(depth, steps, i) + seq_distance(k, buffer_at(depth, steps, i).read_seq),
            ),
    decreases i,
{
    let p = (i - 1) as nat;
    let v = buffer_at(depth, steps, p);
    let w = buffer_at(depth, steps, i);
    let place = place_at(depth, steps, i) + seq_distance(k, w.read_seq);
    lemma_buffer_stays_valid(depth, steps, p);
    if steps[p as int] is Insert && steps[p as int]->seq == k && v.accepts(k) {
        assert(puts(depth, steps, p, k, w.frames[k], place));
    } else {
        lemma_step_adds_nothing(v, steps[p as int], k);
        lemma_stored_was_inserted(depth, steps, p, k);
        assert(place == place_at(depth, steps, p) + seq_distance(k, v.read_seq));
        let j = choose|j: nat|
            j < p && #[trigger] puts(
                depth,
                steps,
                j,
                k,
                v.frames[k],
                place_at(depth, steps, p) + seq_distance(k, v.read_seq),
            );
        assert(puts(depth, steps, j, k, w.frames[k], place));
    }
}

/// Nothing is made up: what a pop returns was inserted before, under the number
/// that was due, and stood at the place the pop delivers.
pub proof fn lemma_delivery_was_inserted<F>(
    depth: nat,
    steps: Seq<JitterStep<F>>,
    i: nat,
    frame: F,
)
    requires
        depth > 0,
        delivers(depth, steps, i, frame),
    ensures
        exists|j: nat|
            j < i && #[trigger] puts(
                depth,
                steps,
                j,
                buffer_at(depth, steps, i).read_seq,
                frame,
                place_at(depth, steps, i),
            ),
{
    lemma_stored_was_inserted(depth, steps, i, buffer_at(depth, steps, i).read_seq);
}

/// No repetition: one insert is the source of at most one delivery.
pub proof fn lemma_insert_delivered_at_most_once<F>(
    depth: nat,
    steps: Seq<JitterStep<F>>,
    source: nat,
    i: nat,
    j: nat,
    first: F,
    second: F,
)
    requires
        depth > 0,
        delivers(depth, steps, i, first),
        delivers(depth, steps, j, second),
        lands_at(depth, steps, source) == place_at(depth, steps, i),
        lands_at(depth, steps, source) == place_at(depth, steps, j),
    ensures
        i == j,
{
    if i < j {
        lemma_deliveries_in_order(depth, steps, i, j, first, second);
    } else if j < i {
        lemma_deliveries_in_order(depth, steps, j, i, second, first);
    }
}

/// Nothing is lost early: until the read position passes it, a frame that was
/// taken in is stored at its place, or a later one of the same number is.
#[verifier::spinoff_prover]
pub proof fn lemma_inserted_frame_waits<F>(depth: nat, steps: Seq<JitterStep<F>>, j: nat, i: nat)
    requires
        depth > 0,
        takes_in(depth, steps, j),
        j < i <= steps.len(),
        place_at(depth, steps, i) <= lands_at(depth, steps, j),
    ensures
        buffer_at(depth, steps, i).initialized,
        buffer_at(depth, steps, i).frames.contains_key(steps[j as int]->seq),
        place_at(depth, steps, i) + seq_distance(
            steps[j as int]->seq,
            buffer_at(depth, steps, i).read_seq,
        ) == lands_at(depth, steps, j),
        (forall|m: int|
            j < m < i && #[trigger] steps[m] is Insert ==> steps[m]->seq != steps[j as int]->seq)
            ==> buffer_at(depth, steps, i).frames[steps[j as int]->seq] == steps[j as int]->frame,
    decreases i,
{
    let seq = steps[j as int]->seq;
    lemma_buffer_stays_valid(depth, steps, j);
    if i > j + 1 {
        let p = (i - 1) as nat;
        let v = buffer_at(depth, steps, p);
        lemma_read_position_only_advances(depth, steps, p, i);
        lemma_inserted_frame_waits(depth, steps, j, p);
        lemma_buffer_stays_valid(depth, steps, p);
        lemma_step_drops_only_passed(v, steps[p as int], seq);
    }
}

/// In sequence, and nothing skipped: a pop at the place of a frame that was
/// taken in returns it, unless one of the same number replaced it.
#[verifier::spinoff_prover]
pub proof fn lemma_inserted_frame_is_delivered<F>(
    depth: nat,
    steps: Seq<JitterStep<F>>,
    j: nat,
    i: nat,
)
    requires
        depth > 0,
        takes_in(depth, steps, j),
        j < i < steps.len(),
        steps[i as int] is Pop,
        place_at(depth, steps, i) == lands_at(depth, steps, j),
        forall|m: int|
            j < m < i && #[trigger] steps[m] is Insert ==> steps[m]->seq != steps[j as int]->seq,
    ensures
        delivers(depth, steps, i, steps[j as int]->frame),
{
    lemma_inserted_frame_waits(depth, steps, j, i);
    lemma_no_distance(steps[j as int]->seq, buffer_at(depth, steps, i).read_seq);
}

/// A copy of a delivered frame is refused, as long as the read position is at
/// most half the number circle on.
#[verifier::spinoff_prover]
pub proof fn lemma_delivered_number_is_refused<F>(
    depth: nat,
    steps: Seq<JitterStep<F>>,
    i: nat,
    j: nat,
    frame: F,
)
    requires
        depth > 0,
        i < j,
        delivers(depth, steps, i, frame),
        place_at(depth, steps, j) - place_at(depth, steps, i) <= 0x8000_0000,
    ensures
        !buffer_at(depth, steps, j).accepts(buffer_at(depth, steps, i).read_seq),
{
    let seq = buffer_at(depth, steps, i).read_seq;
    let n = (place_at(depth, steps, j) - place_at(depth, steps, i)) as nat;
    lemma_every_pop_moves_on(depth, steps, i);
    lemma_read_position_only_advances(depth, steps, i + 1, j);
    lemma_read_position_only_advances(depth, steps, i, j);
    assert(seq_distance(seq, seq) == 0);
    lemma_distance_from_later(seq, seq, n);
}

} // verus!
