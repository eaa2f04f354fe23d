use vstd::prelude::*;
use vstd::arithmetic::div_mod::{
    lemma_div_by_multiple, lemma_div_is_ordered, lemma_fundamental_div_mod, lemma_mod_pos_bound,
};

verus! {

/// Number of extra samples a frame slot may take after its first one came out black.
pub const MAX_ATTEMPTS: u64 = 5;

/// How far each retry moves past the previous sample, in milliseconds.
pub const RETRY_STEP_MS: u64 = 2000;

/// Where slot `i` of `total` is first sampled, for a video of `duration_us` microseconds:
/// `interval * i` with `interval = duration / total`, rounded to the nearest millisecond
/// (halves upward). Flooring to whole microseconds first changes nothing, as 500 is whole.
pub open spec fn base_timestamp_ms(duration_us: nat, total: nat, i: nat) -> nat {
    (duration_us * i / total + 500) / 1000
}

/// Where the sample of slot `i` is taken after `attempt` black frames.
pub open spec fn retry_timestamp_ms(duration_us: nat, total: nat, i: nat, attempt: nat) -> nat {
    base_timestamp_ms(duration_us, total, i) + (RETRY_STEP_MS as nat) * attempt
}

proof fn lemma_scaled_index_below(d: nat, t: nat, i: nat)
    requires
        t >= 1,
        i < t,
    ensures
        d * i / t <= d,
        base_timestamp_ms(d, t, i) * 1000 <= d * i / t + 500,
{
    assert(d * i <= d * t) by (nonlinear_arith)
        requires
            i < t,
    ;
    lemma_div_is_ordered((d * i) as int, (d * t) as int, t as int);
    lemma_div_by_multiple(d as int, t as int);
    let x = (d * i / t + 500) as int;
    lemma_fundamental_div_mod(x, 1000);
    lemma_mod_pos_bound(x, 1000);
}

/// First sampling point of slot `index`, in milliseconds.
pub fn frame_timestamp_ms(duration_us: u64, total_frames: u64, index: u64) -> (r: u64)
    requires
        total_frames >= 1,
        index < total_frames,
    ensures
        r == base_timestamp_ms(duration_us as nat, total_frames as nat, index as nat),
        r * 1000 <= duration_us + 500,
{
    proof {
        lemma_scaled_index_below(duration_us as nat, total_frames as nat, index as nat);
        assert((duration_us as nat) * (index as nat) <= 0xffff_ffff_ffff_ffffnat
            * 0xffff_ffff_ffff_ffffnat) by (nonlinear_arith)
            requires
                duration_us <= 0xffff_ffff_ffff_ffffnat,
                index <= 0xffff_ffff_ffff_ffffnat,
        ;
    }
    let scaled: u128 = (duration_us as u128) * (index as u128) / (total_frames as u128);
    ((scaled + 500) / 1000) as u64
}

/// The first sampling points of all slots, in slot order.
pub fn frame_timestamps_ms(duration_us: u64, total_frames: u64) -> (r: Vec<u64>)
    requires
        total_frames >= 1,
    ensures
        r@.len() == total_frames,
        forall|i: int|
            0 <= i < total_frames ==> #[trigger] r@[i] == base_timestamp_ms(
                duration_us as nat,
                total_frames as nat,
                i as nat,
            ),
{
    let mut r: Vec<u64> = Vec::new();
    let mut i: u64 = 0;
    while i < total_frames
        invariant
            total_frames >= 1,
            i <= total_frames,
            r@.len() == i,
            forall|k: int|
                0 <= k < i ==> #[trigger] r@[k] == base_timestamp_ms(
                    duration_us as nat,
                    total_frames as nat,
                    k as nat,
                ),
        decreases total_frames - i,
    {
        let t = frame_timestamp_ms(duration_us, total_frames, i);
        r.push(t);
        i += 1;
    }
    r
}

/// First sampling points never decrease with the slot index, and, while the interval
/// between them is above half a millisecond, all fall inside the video.
pub proof fn lemma_timestamps_ordered_and_inside(duration_us: nat, total: nat, i: nat, j: nat)
    requires
        total >= 1,
        i <= j,
        j < total,
    ensures
        base_timestamp_ms(duration_us, total, i) <= base_timestamp_ms(duration_us, total, j),
        duration_us > 500 * total ==> base_timestamp_ms(duration_us, total, j) * 1000
            < duration_us,
{
    let d = duration_us;
    assert(d * i <= d * j) by (nonlinear_arith)
        requires
            i <= j,
    ;
    lemma_div_is_ordered((d * i) as int, (d * j) as int, total as int);
    lemma_div_is_ordered((d * i / total + 500) as int, (d * j / total + 500) as int, 1000);
    lemma_scaled_index_below(d, total, j);
    if d > 500 * total {
        let a = (d * j) as int;
        let q = a / (total as int);
        lemma_fundamental_div_mod(a, total as int);
        lemma_mod_pos_bound(a, total as int);
        assert(a < (d - 500) * total) by (nonlinear_arith)
            requires
                a == d * j,
                j + 1 <= total,
                d > 500 * total,
        ;
        assert(q < d - 500) by (nonlinear_arith)
            requires
                a == total * q + a % (total as int),
                a % (total as int) >= 0,
                a < (d - 500) * total,
                total >= 1,
        ;
    }
}

/// What the pipeline does next while sampling frames.
pub enum SampleStep {
    /// Extract the frame of slot `index` at `timestamp_ms` and check it for blackness.
    Extract { index: u64, timestamp_ms: u64 },
    /// Every slot holds an accepted frame.
    Finished,
}

/// Decisions of the frame sampler: which slot is being filled and how many black
/// frames it has seen so far.
pub struct FrameSampler {
    pub duration_us: u64,
    pub total_frames: u64,
    pub index: u64,
    pub attempt: u64,
}

impl FrameSampler {
    pub open spec fn wf(&self) -> bool {
        &&& self.total_frames >= 1
        &&& self.index <= self.total_frames
        &&& self.attempt <= MAX_ATTEMPTS
    }

    /// The timestamp of the sample now due, in milliseconds.
    pub open spec fn due_ms(&self) -> nat {
        retry_timestamp_ms(
            self.duration_us as nat,
            self.total_frames as nat,
            self.index as nat,
            self.attempt as nat,
        )
    }

    /// The state after the frame of the current slot was reported black or not: a black
    /// frame with retries left is sampled again; otherwise the next slot begins.
    pub open spec fn after_check(&self, is_black: bool) -> FrameSampler {
        if is_black && self.attempt < MAX_ATTEMPTS {
            FrameSampler { attempt: (self.attempt + 1) as u64, ..*self }
        } else {
            FrameSampler { index: (self.index + 1) as u64, attempt: 0, ..*self }
        }
    }

    /// The state after the checks `blacks` were reported one after another.
    pub open spec fn run_checks(&self, blacks: Seq<bool>) -> FrameSampler
        decreases blacks.len(),
    {
        if blacks.len() == 0 {
            *self
        } else {
            self.after_check(blacks[0]).run_checks(blacks.drop_first())
        }
    }

    pub fn new(duration_us: u64, total_frames: u64) -> (r: FrameSampler)
        requires
            total_frames >= 1,
        ensures
            r.wf(),
            r.duration_us == duration_us,
            r.total_frames == total_frames,
            r.index == 0,
            r.attempt == 0,
    {
        FrameSampler { duration_us, total_frames, index: 0, attempt: 0 }
    }

    /// The next action: the sample due for the current slot, or the end.
    pub fn next_step(&self) -> (r: SampleStep)
        requires
            self.wf(),
        ensures
            self.index < self.total_frames ==> r == (SampleStep::Extract {
                index: self.index,
                timestamp_ms: self.due_ms() as u64,
            }),
            self.index < self.total_frames ==> self.due_ms() <= u64::MAX,
            self.index == self.total_frames ==> r == SampleStep::Finished,
    {
        if self.index < self.total_frames {
            let base = frame_timestamp_ms(self.duration_us, self.total_frames, self.index);
            assert(base <= u64::MAX / 1000 + 1);
            let t = base + RETRY_STEP_MS * self.attempt;
            SampleStep::Extract { index: self.index, timestamp_ms: t }
        } else {
            SampleStep::Finished
        }
    }

    /// Takes in whether the frame just extracted for the current slot is black: a black
    /// frame is sampled again later while retries remain; otherwise the frame is
    /// accepted (a black one too, once retries are spent) and the next slot begins.
    pub fn record_check(&mut self, is_black: bool)
        requires
            old(self).wf(),
            old(self).index < old(self).total_frames,
        ensures
            final(self).wf(),
            *final(self) == old(self).after_check(is_black),
    {
        if is_black && self.attempt < MAX_ATTEMPTS {
            self.attempt = self.attempt + 1;
        } else {
            self.index = self.index + 1;
            self.attempt = 0;
        }
    }
}

/// Each retry of a slot is taken 2 s after the previous sample, the k-th sample of a
/// slot (from zero) 2 s per black frame after its first point, and once `MAX_ATTEMPTS`
/// retries are spent the next report moves on to the next slot.
pub proof fn lemma_retry_step(s: FrameSampler, is_black: bool)
    requires
        s.wf(),
        s.index < s.total_frames,
    ensures
        s.due_ms() == base_timestamp_ms(s.duration_us as nat, s.total_frames as nat, s.index as nat)
            + 2000 * s.attempt,
        s.after_check(is_black).index == s.index ==> s.after_check(is_black).due_ms()
            == s.due_ms() + 2000,
        s.attempt == MAX_ATTEMPTS ==> s.after_check(is_black).index == s.index + 1,
{
}

/// Samples a slot takes once it has seen `attempt` black frames, when its coming checks
/// report `blacks` in turn: as `record_check` moves, a black report with retries left
/// leads to one more sample, anything else ends the slot.
pub open spec fn slot_sample_count(attempt: nat, blacks: Seq<bool>) -> nat
    decreases blacks.len(),
{
    if blacks.len() > 0 && blacks[0] && attempt < MAX_ATTEMPTS {
        1 + slot_sample_count(attempt + 1, blacks.drop_first())
    } else {
        1
    }
}

/// Whatever the checks report, a slot that has seen `attempt` black frames takes at most
/// `MAX_ATTEMPTS + 1 - attempt` more samples; a fresh slot at most `MAX_ATTEMPTS + 1`.
pub proof fn lemma_slot_sample_count_bounded(attempt: nat, blacks: Seq<bool>)
    requires
        attempt <= MAX_ATTEMPTS,
    ensures
        slot_sample_count(attempt, blacks) <= MAX_ATTEMPTS + 1 - attempt,
    decreases blacks.len(),
{
    if blacks.len() > 0 && blacks[0] && attempt < MAX_ATTEMPTS {
        lemma_slot_sample_count_bounded(attempt + 1, blacks.drop_first());
    }
}

/// Run from a slot's current state, `record_check` keeps the slot for exactly
/// `slot_sample_count(attempt, blacks)` reports: before the k-th of them the slot is
/// still current with `attempt + k` black frames seen (so its sample is due 2 s per
/// black frame later), and that report moves on to the next slot.
pub proof fn lemma_slot_run(s: FrameSampler, blacks: Seq<bool>)
    requires
        s.wf(),
        s.index < s.total_frames,
        blacks.len() >= slot_sample_count(s.attempt as nat, blacks),
    ensures
        ({
            let n = slot_sample_count(s.attempt as nat, blacks);
            &&& s.run_checks(blacks.take(n as int)).index == s.index + 1
            &&& s.run_checks(blacks.take(n as int)).attempt == 0
            &&& forall|k: int|
                0 <= k < n ==> {
                    &&& (#[trigger] s.run_checks(blacks.take(k))).index == s.index
                    &&& s.run_checks(blacks.take(k)).attempt == s.attempt + k
                }
        }),
    decreases blacks.len(),
{
    let n = slot_sample_count(s.attempt as nat, blacks);
    assert(blacks.take(0) =~= Seq::<bool>::empty());
    if blacks.len() > 0 && blacks[0] && s.attempt < MAX_ATTEMPTS {
        let s1 = s.after_check(blacks[0]);
        let rest = blacks.drop_first();
        lemma_slot_run(s1, rest);
        let n1 = slot_sample_count(s1.attempt as nat, rest);
        assert(n == 1 + n1);
        assert(blacks.take(n as int).drop_first() =~= rest.take(n1 as int));
        assert(blacks.take(n as int)[0] == blacks[0]);
        assert(s.run_checks(blacks.take(n as int)) == s1.run_checks(rest.take(n1 as int)));
        assert forall|k: int| 0 <= k < n implies {
            &&& (#[trigger] s.run_checks(blacks.take(k))).index == s.index
            &&& s.run_checks(blacks.take(k)).attempt == s.attempt + k
        } by {
            if k > 0 {
                assert(blacks.take(k).drop_first() =~= rest.take(k - 1));
                assert(blacks.take(k)[0] == blacks[0]);
                assert(s.run_checks(blacks.take(k)) == s1.run_checks(rest.take(k - 1)));
                assert(s1.run_checks(rest.take(k - 1)).index == s1.index);
            }
        }
    } else {
        assert(blacks.take(1).drop_first() =~= Seq::<bool>::empty());
        assert(blacks.take(1)[0] == blacks[0]);
        let s1 = s.after_check(blacks[0]);
        assert(s1.run_checks(Seq::<bool>::empty()) == s1);
        assert(s.run_checks(blacks.take(1)) == s1);
        assert forall|k: int| 0 <= k < n implies {
            &&& (#[trigger] s.run_checks(blacks.take(k))).index == s.index
            &&& s.run_checks(blacks.take(k)).attempt == s.attempt + k
        } by {
            assert(k == 0);
        }
    }
}

} // verus!
