//! Adapting propagated states into predicted entries.
use crate::dynamics::prev_index;
use crate::entry::{SP3Entry, Vector3D};
use crate::errors::PredictionError;
use crate::record::{distinct_epochs, upsert, SP3Key, SP3};
use crate::timeshift::{epoch_of_fields, epoch_of_fields_exec, scale_code, scale_code_exec};
use crate::types::{Epoch, TimeScale, SV};
use vstd::prelude::*;

verus! {

/// Calendar date and time, in the timescale of code `code`, of the instant
/// `offset_ns` nanoseconds after `e` (read in that timescale).
pub uninterp spec fn shifted_of(e: Epoch, code: u8, offset_ns: i128) -> Option<(i32, u8, u8, u8, u8, u8, u32)>;

/// Relies on hifitime's `Epoch::maybe_from_gregorian` (which refuses an
/// invalid date), `Duration::from_total_nanoseconds`, `Epoch + Duration` and
/// `Epoch::to_gregorian`: the calendar reading of an epoch moved by a
/// duration, in its own timescale. The result depends on the arguments alone.
#[verifier::external_body]
fn shift_calendar(e: &Epoch, code: u8, offset_ns: i128) -> (r: Option<(i32, u8, u8, u8, u8, u8, u32)>)
    ensures
        r == shifted_of(*e, code, offset_ns),
{
    let ts = hifitime::TimeScale::from(code);
    hifitime::Epoch::maybe_from_gregorian(
        e.year as i32, e.month, e.day, e.hour, e.minute, e.second, e.nanos, ts,
    ).ok().map(|x| (x + hifitime::Duration::from_total_nanoseconds(offset_ns)).to_gregorian(ts))
}

/// Number of samples of a prediction over `duration_ns` at `period_ns`.
pub open spec fn sample_count(duration_ns: int, period_ns: int) -> int {
    (if duration_ns >= 0 {
        duration_ns
    } else {
        -duration_ns
    }) / period_ns
}

/// Offset of sample `k` (from 0): `k + 1` periods after the start, or before
/// it when the duration is negative.
pub open spec fn sample_offset(duration_ns: int, period_ns: int, k: int) -> int {
    if duration_ns >= 0 {
        (k + 1) * period_ns
    } else {
        -((k + 1) * period_ns)
    }
}

/// Epoch of sample `k`, when it is a valid date.
pub open spec fn sample_epoch(start: Epoch, duration_ns: int, period_ns: int, k: int) -> Option<Epoch> {
    match shifted_of(start, scale_code(start.timescale), sample_offset(duration_ns, period_ns, k) as i128) {
        Some(c) => epoch_of_fields(c, start.timescale),
        None => None,
    }
}

/// The epochs at which a propagated trajectory is sampled: every sampling
/// period after `start` (before it for a negative duration), up to
/// `duration_ns` away, `start` itself excluded. `None` when one of them is
/// not a valid date.
pub fn prediction_epochs(start: &Epoch, duration_ns: i64, period_ns: u64) -> (r: Option<Vec<Epoch>>)
    requires
        period_ns > 0,
    ensures
        r is Some <==> forall|k: int|
            0 <= k < sample_count(duration_ns as int, period_ns as int) ==> #[trigger] sample_epoch(
                *start,
                duration_ns as int,
                period_ns as int,
                k,
            ) is Some,
        r matches Some(v) ==> v@.len() == sample_count(duration_ns as int, period_ns as int)
            && forall|k: int|
            0 <= k < v@.len() ==> sample_epoch(*start, duration_ns as int, period_ns as int, k)
                == Some(#[trigger] v@[k]),
{
    let magnitude: u64 = if duration_ns >= 0 {
        duration_ns as u64
    } else {
        (-(duration_ns as i128)) as u64
    };
    let n = magnitude / period_ns;
    let code = scale_code_exec(start.timescale);
    let mut out: Vec<Epoch> = Vec::new();
    let mut k: u64 = 0;
    while k < n
        invariant
            k <= n,
            period_ns > 0,
            n == magnitude / period_ns,
            magnitude as int == (if duration_ns >= 0 {
                duration_ns as int
            } else {
                -duration_ns
            }),
            n == sample_count(duration_ns as int, period_ns as int),
            code == scale_code(start.timescale),
            out@.len() == k,
            forall|j: int|
                0 <= j < k ==> sample_epoch(*start, duration_ns as int, period_ns as int, j) == Some(
                    #[trigger] out@[j],
                ),
        decreases n - k,
    {
        proof {
            assert((k + 1) * period_ns <= n * period_ns) by (nonlinear_arith)
                requires
                    k < n,
            ;
            assert(n * period_ns <= magnitude) by (nonlinear_arith)
                requires
                    n == magnitude / period_ns,
                    period_ns > 0,
            ;
        }
        let step = (k as i128 + 1) * period_ns as i128;
        let offset = if duration_ns >= 0 {
            step
        } else {
            -step
        };
        let e = match shift_calendar(start, code, offset) {
            Some(c) => epoch_of_fields_exec(c, start.timescale),
            None => None,
        };
        match e {
            Some(e) => out.push(e),
            None => {
                assert(sample_epoch(*start, duration_ns as int, period_ns as int, k as int) is None);
                return None;
            },
        }
        k = k + 1;
    }
    assert forall|j: int|
        0 <= j < sample_count(duration_ns as int, period_ns as int) implies #[trigger] sample_epoch(
        *start,
        duration_ns as int,
        period_ns as int,
        j,
    ) is Some by {
        assert(sample_epoch(*start, duration_ns as int, period_ns as int, j) == Some(out@[j]));
    }
    Some(out)
}

/// Last state of `sv` in `s`, when it carries a velocity: epoch, position, velocity.
pub open spec fn initial_state(s: Seq<(SP3Key, SP3Entry)>, sv: SV) -> Option<(Epoch, Vector3D, Vector3D)> {
    match prev_index(s, sv, s.len() as int) {
        Some(j) => match s[j].1.velocity {
            Some(v) => Some((s[j].0.epoch, s[j].1.position_mm, v)),
            None => None,
        },
        None => None,
    }
}

/// Initial states of the satellites `sats` that have one, in that order.
pub open spec fn initial_states(s: Seq<(SP3Key, SP3Entry)>, sats: Seq<SV>) -> Seq<(SV, Epoch, Vector3D, Vector3D)>
    decreases sats.len(),
{
    if sats.len() == 0 {
        Seq::empty()
    } else {
        let p = initial_states(s, sats.drop_last());
        match initial_state(s, sats.last()) {
            Some((e, x, v)) => p.push((sats.last(), e, x, v)),
            None => p,
        }
    }
}

/// `s` with a predicted entry (position and velocity) for each state of `sv`.
pub open spec fn with_predictions(s: Seq<(SP3Key, SP3Entry)>, sv: SV, states: Seq<(Epoch, Vector3D, Vector3D)>) -> Seq<(SP3Key, SP3Entry)>
    decreases states.len(),
{
    if states.len() == 0 {
        s
    } else {
        let (e, x, v) = states.last();
        upsert(
            with_predictions(s, sv, states.drop_last()),
            SP3Key { sv, epoch: e },
            SP3Entry {
                position_mm: x,
                velocity: Some(v),
                predicted_orbit: true,
                maneuver: false,
                clock_event: false,
                predicted_clock: false,
                clock_ps: None,
                clock_drift: None,
            },
        )
    }
}

impl SP3 {
    /// The states a propagator starts from: for each satellite of the header,
    /// its last entry when that entry carries a velocity. Satellites without
    /// one are skipped; when none is left the prediction cannot start.
    pub fn prediction_initial_states(&self) -> (r: Result<Vec<(SV, Epoch, Vector3D, Vector3D)>, PredictionError>)
        ensures
            initial_states(self.data@, self.header.satellites@).len() == 0 ==> r == Err::<
                Vec<(SV, Epoch, Vector3D, Vector3D)>,
                PredictionError,
            >(PredictionError::UndeterminedInitialState),
            initial_states(self.data@, self.header.satellites@).len() > 0 ==> (r matches Ok(v) && v@
                == initial_states(self.data@, self.header.satellites@)),
    {
        let sats = &self.header.satellites;
        let mut out: Vec<(SV, Epoch, Vector3D, Vector3D)> = Vec::new();
        let mut i: usize = 0;
        while i < sats.len()
            invariant
                0 <= i <= sats@.len(),
                sats@ == self.header.satellites@,
                out@ == initial_states(self.data@, sats@.subrange(0, i as int)),
            decreases sats.len() - i,
        {
            let sv = sats[i];
            let ghost p = sats@.subrange(0, i + 1);
            assert(p.drop_last() =~= sats@.subrange(0, i as int));
            let mut j = self.data.len();
            while j > 0 && !self.data[j - 1].0.sv.same(&sv)
                invariant
                    j <= self.data@.len(),
                    prev_index(self.data@, sv, self.data@.len() as int) == prev_index(
                        self.data@,
                        sv,
                        j as int,
                    ),
                decreases j,
            {
                j = j - 1;
            }
            if j > 0 {
                let (k, e) = self.data[j - 1];
                match e.velocity {
                    Some(v) => out.push((sv, k.epoch, e.position_mm, v)),
                    None => {},
                }
            }
            i = i + 1;
        }
        assert(sats@.subrange(0, sats@.len() as int) =~= sats@);
        if out.len() == 0 {
            Err(PredictionError::UndeterminedInitialState)
        } else {
            Ok(out)
        }
    }

    /// Inserts the propagated states of `sv` as predicted entries (position
    /// and velocity, in place of what stood at those epochs), and sets the
    /// header's number of epochs to the number of distinct epochs.
    pub fn insert_predictions(&mut self, sv: SV, states: &Vec<(Epoch, Vector3D, Vector3D)>)
        requires
            old(self).wf(),
        ensures
            final(self).wf(),
            final(self).data@ == with_predictions(old(self).data@, sv, states@),
            final(self).header.num_epochs == distinct_epochs(final(self).data@).len(),
            final(self).header.satellites == old(self).header.satellites,
            final(self).comments == old(self).comments,
    {
        let ghost s0 = self.data@;
        let mut i: usize = 0;
        while i < states.len()
            invariant
                0 <= i <= states@.len(),
                self.wf(),
                self.header == old(self).header,
                self.comments == old(self).comments,
                self.data@ == with_predictions(s0, sv, states@.subrange(0, i as int)),
            decreases states.len() - i,
        {
            let (e, x, v) = states[i];
            let ghost p = states@.subrange(0, i + 1);
            assert(p.drop_last() =~= states@.subrange(0, i as int));
            self.insert(SP3Key { sv, epoch: e }, SP3Entry::from_predicted_position_velocity(x, v));
            i = i + 1;
        }
        assert(states@.subrange(0, states@.len() as int) =~= states@);
        let n = self.total_epochs();
        self.header.num_epochs = n as u64;
    }
}

} // verus!
