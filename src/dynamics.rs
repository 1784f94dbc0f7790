//! Velocities and clock drifts derived from successive samples of a satellite.
use crate::entry::{SP3Entry, Vector3D, CLOCK_SENTINEL};
use crate::algebra::{same_context, same_notes};
use crate::header::{Header, HeaderView};
use crate::numeric::{valid_coord, COORD_LIMIT};
use crate::record::{entries_wf, SP3Key, SP3};
use crate::timeshift::{scale_code, scale_code_exec};
use crate::types::{DataType, Epoch, SV};
use hifitime::{Epoch as HEpoch, TimeScale as HScale};
use vstd::prelude::*;

verus! {

/// Ratio between a difference of field units per nanosecond and the rate field:
/// millimetres per nanosecond to 10⁻⁷ m/s, and picoseconds per nanosecond to 10⁻¹⁶ s/s.
pub const RATE_SCALE: i128 = 10_000_000_000_000;

/// `n / d` rounded to the nearest integer, halves away from zero (`d > 0`).
pub open spec fn div_round(n: int, d: int) -> int {
    if n >= 0 {
        (n + d / 2) / d
    } else {
        -((-n + d / 2) / d)
    }
}

/// Rate of change of `delta` field units over `dt` nanoseconds, in rate units.
pub open spec fn rate(delta: int, dt: int) -> int {
    div_round(delta * RATE_SCALE, dt)
}

/// Nanoseconds elapsed from `a` (read in the timescale of code `ca`) to `b`
/// (read in the timescale of code `cb`), leap seconds included; `None` when
/// either is not a valid date.
pub uninterp spec fn elapsed_of(a: Epoch, ca: u8, b: Epoch, cb: u8) -> Option<i128>;

/// Relies on hifitime's `Epoch::maybe_from_gregorian` (which refuses an
/// invalid date), `Epoch::to_time_scale` (into TAI, where leap seconds
/// count), `Epoch - Epoch` and `Duration::total_nanoseconds`: the time
/// elapsed between two calendar readings. The result depends on the
/// arguments alone.
#[verifier::external_body]
fn elapsed_ns(a: &Epoch, ca: u8, b: &Epoch, cb: u8) -> (r: Option<i128>)
    ensures
        r == elapsed_of(*a, ca, *b, cb),
{
    let x = HEpoch::maybe_from_gregorian(a.year as i32, a.month, a.day, a.hour, a.minute, a.second, a.nanos, HScale::from(ca));
    let y = HEpoch::maybe_from_gregorian(b.year as i32, b.month, b.day, b.hour, b.minute, b.second, b.nanos, HScale::from(cb));
    match (x, y) {
        (Ok(x), Ok(y)) => Some((y.to_time_scale(HScale::TAI) - x.to_time_scale(HScale::TAI)).total_nanoseconds()),
        _ => None,
    }
}

/// Nanoseconds elapsed from `a` to `b`, each read in its own timescale.
pub fn elapsed(a: &Epoch, b: &Epoch) -> (r: Option<i128>)
    ensures
        r == elapsed_of(*a, scale_code(a.timescale), *b, scale_code(b.timescale)),
{
    elapsed_ns(a, scale_code_exec(a.timescale), b, scale_code_exec(b.timescale))
}

/// Longest elapsed time (exclusive) over which a rate is derived, in nanoseconds.
pub const MAX_DT_NS: i128 = 1_000_000_000_000_000_000_000_000;

/// Nanoseconds from key `a` to key `b`, when both epochs are valid dates.
pub open spec fn dt_ns(a: SP3Key, b: SP3Key) -> Option<i128> {
    elapsed_of(a.epoch, scale_code(a.epoch.timescale), b.epoch, scale_code(b.epoch.timescale))
}

/// A positive elapsed time, short enough for a rate.
pub open spec fn usable_dt(dt: Option<i128>) -> bool {
    dt matches Some(d) && 0 < d < MAX_DT_NS
}

/// Index of the last entry before `j` of satellite `sv`.
pub open spec fn prev_index(s: Seq<(SP3Key, SP3Entry)>, sv: SV, j: int) -> Option<int>
    decreases j,
{
    if j <= 0 {
        None
    } else if s[j - 1].0.sv == sv {
        Some(j - 1)
    } else {
        prev_index(s, sv, j - 1)
    }
}

/// Index of the last entry before `j` of satellite `sv` with a known clock.
pub open spec fn prev_clock_index(s: Seq<(SP3Key, SP3Entry)>, sv: SV, j: int) -> Option<int>
    decreases j,
{
    if j <= 0 {
        None
    } else if s[j - 1].0.sv == sv && s[j - 1].1.clock_ps is Some {
        Some(j - 1)
    } else {
        prev_clock_index(s, sv, j - 1)
    }
}

/// First difference of positions from entry `j` to entry `i`, when the time
/// between them is positive and the result fits the field.
pub open spec fn velocity_between(s: Seq<(SP3Key, SP3Entry)>, j: int, i: int) -> Option<Vector3D> {
    let d = dt_ns(s[j].0, s[i].0);
    let dt = d->Some_0 as int;
    let a = s[j].1.position_mm;
    let b = s[i].1.position_mm;
    let vx = rate(b.x - a.x, dt);
    let vy = rate(b.y - a.y, dt);
    let vz = rate(b.z - a.z, dt);
    if usable_dt(d) && valid_coord(vx) && valid_coord(vy) && valid_coord(vz) {
        Some(Vector3D { x: vx as i64, y: vy as i64, z: vz as i64 })
    } else {
        None
    }
}

/// First difference of clocks from entry `j` to entry `i`, when both are
/// known, the time between them is positive and the result fits the field.
pub open spec fn drift_between(s: Seq<(SP3Key, SP3Entry)>, j: int, i: int) -> Option<i64> {
    let t = dt_ns(s[j].0, s[i].0);
    let dt = t->Some_0 as int;
    match (s[j].1.clock_ps, s[i].1.clock_ps) {
        (Some(a), Some(b)) => {
            let d = rate(b - a, dt);
            if usable_dt(t) && valid_coord(d) && d != CLOCK_SENTINEL {
                Some(d as i64)
            } else {
                None
            }
        },
        _ => None,
    }
}

/// Velocity derivable for entry `i` from the previous sample of its satellite.
pub open spec fn derived_velocity(s: Seq<(SP3Key, SP3Entry)>, i: int) -> Option<Vector3D> {
    match prev_index(s, s[i].0.sv, i) {
        Some(j) => velocity_between(s, j, i),
        None => None,
    }
}

/// Drift derivable for entry `i` from the previous known clock of its satellite.
pub open spec fn derived_drift(s: Seq<(SP3Key, SP3Entry)>, i: int) -> Option<i64> {
    match prev_clock_index(s, s[i].0.sv, i) {
        Some(j) => drift_between(s, j, i),
        None => None,
    }
}

/// Drift derivable for entry `i` from the previous sample of its satellite.
pub open spec fn derived_drift_any(s: Seq<(SP3Key, SP3Entry)>, i: int) -> Option<i64> {
    match prev_index(s, s[i].0.sv, i) {
        Some(j) => drift_between(s, j, i),
        None => None,
    }
}

pub open spec fn velocity_resolvable(s: Seq<(SP3Key, SP3Entry)>, i: int) -> bool {
    s[i].1.velocity is None && derived_velocity(s, i) is Some
}

pub open spec fn drift_resolvable(s: Seq<(SP3Key, SP3Entry)>, i: int) -> bool {
    s[i].1.clock_drift is None && derived_drift(s, i) is Some
}

pub open spec fn drift_any_resolvable(s: Seq<(SP3Key, SP3Entry)>, i: int) -> bool {
    s[i].1.clock_drift is None && derived_drift_any(s, i) is Some
}

/// Entries with each missing velocity derived where possible.
pub open spec fn resolved_velocities(s: Seq<(SP3Key, SP3Entry)>) -> Seq<(SP3Key, SP3Entry)> {
    Seq::new(
        s.len(),
        |i: int|
            if velocity_resolvable(s, i) {
                (s[i].0, SP3Entry { velocity: derived_velocity(s, i), ..s[i].1 })
            } else {
                s[i]
            },
    )
}

/// Entries with each missing drift derived where possible.
pub open spec fn resolved_drifts(s: Seq<(SP3Key, SP3Entry)>) -> Seq<(SP3Key, SP3Entry)> {
    Seq::new(
        s.len(),
        |i: int|
            if drift_resolvable(s, i) {
                (s[i].0, SP3Entry { clock_drift: derived_drift(s, i), ..s[i].1 })
            } else {
                s[i]
            },
    )
}

/// Entries with missing velocities and drifts derived from the previous sample.
pub open spec fn resolved_dynamics(s: Seq<(SP3Key, SP3Entry)>) -> Seq<(SP3Key, SP3Entry)> {
    Seq::new(
        s.len(),
        |i: int|
            (
                s[i].0,
                SP3Entry {
                    velocity: if velocity_resolvable(s, i) {
                        derived_velocity(s, i)
                    } else {
                        s[i].1.velocity
                    },
                    clock_drift: if drift_any_resolvable(s, i) {
                        derived_drift_any(s, i)
                    } else {
                        s[i].1.clock_drift
                    },
                    ..s[i].1
                },
            ),
    )
}

pub open spec fn any_velocity_resolvable(s: Seq<(SP3Key, SP3Entry)>) -> bool {
    exists|i: int| 0 <= i < s.len() && velocity_resolvable(s, i)
}

pub open spec fn any_dynamics_resolvable(s: Seq<(SP3Key, SP3Entry)>) -> bool {
    exists|i: int| 0 <= i < s.len() && (velocity_resolvable(s, i) || drift_any_resolvable(s, i))
}

// ------------------------------------------------------------ exec
fn div_round_exec(n: i128, d: i128) -> (r: i128)
    requires
        d > 0,
        -1_000_000_000_000_000_000_000_000_000 < n < 1_000_000_000_000_000_000_000_000_000,
        d < 1_000_000_000_000_000_000_000_000_000,
    ensures
        r == div_round(n as int, d as int),
{
    if n >= 0 {
        (n + d / 2) / d
    } else {
        -((-n + d / 2) / d)
    }
}

/// Rate of `delta` over `dt`, when `dt > 0` and it fits the field.
fn rate_exec(delta: i128, dt: i128) -> (r: Option<i64>)
    requires
        -2 * COORD_LIMIT < delta < 2 * COORD_LIMIT,
        dt > 0,
        dt < 1_000_000_000_000_000_000_000_000,
    ensures
        r matches Some(v) ==> valid_coord(rate(delta as int, dt as int)) && v == rate(
            delta as int,
            dt as int,
        ),
        r is None ==> !valid_coord(rate(delta as int, dt as int)),
{
    let v = div_round_exec(delta * RATE_SCALE, dt);
    if -1_000_000_000_000 < v && v < 1_000_000_000_000 {
        Some(v as i64)
    } else {
        None
    }
}

/// The index of the last entry before `i` of the same satellite.
fn find_prev(data: &Vec<(SP3Key, SP3Entry)>, i: usize) -> (r: Option<usize>)
    requires
        i < data@.len(),
    ensures
        r matches Some(j) ==> j < i && prev_index(data@, data@[i as int].0.sv, i as int) == Some(j as int),
        r is None ==> prev_index(data@, data@[i as int].0.sv, i as int) is None,
{
    let sv = data[i].0.sv;
    let mut j = i;
    while j > 0
        invariant
            j <= i < data@.len(),
            sv == data@[i as int].0.sv,
            prev_index(data@, sv, i as int) == prev_index(data@, sv, j as int),
        decreases j,
    {
        if data[j - 1].0.sv.same(&sv) {
            return Some(j - 1);
        }
        j = j - 1;
    }
    None
}

/// The index of the last entry before `i` of the same satellite with a known clock.
fn find_prev_clock(data: &Vec<(SP3Key, SP3Entry)>, i: usize) -> (r: Option<usize>)
    requires
        i < data@.len(),
    ensures
        r matches Some(j) ==> j < i && prev_clock_index(data@, data@[i as int].0.sv, i as int)
            == Some(j as int),
        r is None ==> prev_clock_index(data@, data@[i as int].0.sv, i as int) is None,
{
    let sv = data[i].0.sv;
    let mut j = i;
    while j > 0
        invariant
            j <= i < data@.len(),
            sv == data@[i as int].0.sv,
            prev_clock_index(data@, sv, i as int) == prev_clock_index(data@, sv, j as int),
        decreases j,
    {
        if data[j - 1].0.sv.same(&sv) && data[j - 1].1.clock_ps.is_some() {
            return Some(j - 1);
        }
        j = j - 1;
    }
    None
}

fn key_elapsed(data: &Vec<(SP3Key, SP3Entry)>, j: usize, i: usize) -> (r: Option<i128>)
    requires
        j < data@.len(),
        i < data@.len(),
    ensures
        r == dt_ns(data@[j as int].0, data@[i as int].0),
{
    let a = data[j].0.epoch;
    let b = data[i].0.epoch;
    elapsed_ns(&a, scale_code_exec(a.timescale), &b, scale_code_exec(b.timescale))
}

fn velocity_between_exec(data: &Vec<(SP3Key, SP3Entry)>, j: usize, i: usize) -> (r: Option<Vector3D>)
    requires
        j < data@.len(),
        i < data@.len(),
        entries_wf(data@),
    ensures
        r == velocity_between(data@, j as int, i as int),
{
    proof {
        assert(data@[i as int].1.wf() && data@[j as int].1.wf());
    }
    let dt = match key_elapsed(data, j, i) {
        Some(d) => if 0 < d && d < MAX_DT_NS {
            d
        } else {
            return None
        },
        None => return None,
    };
    let a = data[j].1.position_mm;
    let b = data[i].1.position_mm;
    let vx = rate_exec(b.x as i128 - a.x as i128, dt);
    let vy = rate_exec(b.y as i128 - a.y as i128, dt);
    let vz = rate_exec(b.z as i128 - a.z as i128, dt);
    match (vx, vy, vz) {
        (Some(x), Some(y), Some(z)) => Some(Vector3D { x, y, z }),
        _ => None,
    }
}

fn drift_between_exec(data: &Vec<(SP3Key, SP3Entry)>, j: usize, i: usize) -> (r: Option<i64>)
    requires
        j < data@.len(),
        i < data@.len(),
        entries_wf(data@),
    ensures
        r == drift_between(data@, j as int, i as int),
{
    proof {
        assert(data@[i as int].1.wf() && data@[j as int].1.wf());
    }
    match (data[j].1.clock_ps, data[i].1.clock_ps) {
        (Some(a), Some(b)) => {
            let dt = match key_elapsed(data, j, i) {
                Some(d) => if 0 < d && d < MAX_DT_NS {
                    d
                } else {
                    return None
                },
                None => return None,
            };
            match rate_exec(b as i128 - a as i128, dt) {
                Some(d) => if d != CLOCK_SENTINEL {
                    Some(d)
                } else {
                    None
                },
                None => None,
            }
        },
        _ => None,
    }
}

impl SP3 {
    /// Derives each missing velocity from the previous sample of the same
    /// satellite (first difference of positions over the elapsed time); the
    /// first sample of a satellite, a non-positive elapsed time or a result
    /// outside the field leave it unknown. Any derived velocity turns the
    /// data type to velocity.
    pub fn resolve_velocities_mut(&mut self)
        requires
            entries_wf(old(self).data@),
        ensures
            final(self).data@ == resolved_velocities(old(self).data@),
            entries_wf(final(self).data@),
            final(self).header == (Header {
                data_type: if any_velocity_resolvable(old(self).data@) {
                    DataType::Velocity
                } else {
                    old(self).header.data_type
                },
                ..old(self).header
            }),
            final(self).comments == old(self).comments,
            final(self).prod_attributes == old(self).prod_attributes,
    {
        let ghost s = self.data@;
        let mut out: Vec<(SP3Key, SP3Entry)> = Vec::new();
        let mut success = false;
        let mut i: usize = 0;
        while i < self.data.len()
            invariant
                0 <= i <= self.data@.len(),
                s == self.data@,
                entries_wf(s),
                out@ == resolved_velocities(s).subrange(0, i as int),
                success == exists|k: int| 0 <= k < i && velocity_resolvable(s, k),
            decreases self.data.len() - i,
        {
            let (k, e) = self.data[i];
            let derived = match find_prev(&self.data, i) {
                Some(j) => velocity_between_exec(&self.data, j, i),
                None => None,
            };
            assert(derived == derived_velocity(s, i as int));
            assert(s[i as int] == (k, e));
            assert(velocity_resolvable(s, i as int) == (e.velocity.is_none() && derived.is_some()));
            let mut item = (k, e);
            if e.velocity.is_none() && derived.is_some() {
                item = (k, SP3Entry { velocity: derived, ..e });
                success = true;
            }
            out.push(item);
            i = i + 1;
            assert(out@ =~= resolved_velocities(s).subrange(0, i as int));
        }
        assert(resolved_velocities(s).subrange(0, s.len() as int) =~= resolved_velocities(s));
        proof {
            lemma_resolved_velocities_wf(s);
        }
        self.data = out;
        if success {
            self.header.data_type = DataType::Velocity;
        }
    }

    /// Derives each missing clock drift from the previous known clock of the
    /// same satellite (first difference of clocks over the elapsed time), for
    /// entries with a known clock.
    pub fn resolve_clock_drift_mut(&mut self)
        requires
            entries_wf(old(self).data@),
        ensures
            final(self).data@ == resolved_drifts(old(self).data@),
            entries_wf(final(self).data@),
            final(self).header == old(self).header,
            final(self).comments == old(self).comments,
            final(self).prod_attributes == old(self).prod_attributes,
    {
        let ghost s = self.data@;
        let mut out: Vec<(SP3Key, SP3Entry)> = Vec::new();
        let mut i: usize = 0;
        while i < self.data.len()
            invariant
                0 <= i <= self.data@.len(),
                s == self.data@,
                entries_wf(s),
                out@ == resolved_drifts(s).subrange(0, i as int),
            decreases self.data.len() - i,
        {
            let (k, e) = self.data[i];
            let mut item = (k, e);
            if e.clock_drift.is_none() {
                match find_prev_clock(&self.data, i) {
                    Some(j) => match drift_between_exec(&self.data, j, i) {
                        Some(d) => {
                            item = (k, SP3Entry { clock_drift: Some(d), ..e });
                        },
                        None => {},
                    },
                    None => {},
                }
            }
            out.push(item);
            i = i + 1;
            assert(out@ =~= resolved_drifts(s).subrange(0, i as int));
        }
        assert(resolved_drifts(s).subrange(0, s.len() as int) =~= resolved_drifts(s));
        proof {
            lemma_resolved_drifts_wf(s);
        }
        self.data = out;
    }

    /// Derives missing velocities and drifts in one walk, both from the
    /// previous sample of the same satellite. Any derived value turns the data
    /// type to velocity.
    pub fn resolve_dynamics_mut(&mut self)
        requires
            entries_wf(old(self).data@),
        ensures
            final(self).data@ == resolved_dynamics(old(self).data@),
            final(self).header == (Header {
                data_type: if any_dynamics_resolvable(old(self).data@) {
                    DataType::Velocity
                } else {
                    old(self).header.data_type
                },
                ..old(self).header
            }),
            final(self).comments == old(self).comments,
            final(self).prod_attributes == old(self).prod_attributes,
    {
        let ghost s = self.data@;
        let mut out: Vec<(SP3Key, SP3Entry)> = Vec::new();
        let mut success = false;
        let mut i: usize = 0;
        while i < self.data.len()
            invariant
                0 <= i <= self.data@.len(),
                s == self.data@,
                entries_wf(s),
                out@ == resolved_dynamics(s).subrange(0, i as int),
                success == exists|k: int|
                    0 <= k < i && (velocity_resolvable(s, k) || drift_any_resolvable(s, k)),
            decreases self.data.len() - i,
        {
            let (k, e) = self.data[i];
            let (dv, dd) = match find_prev(&self.data, i) {
                Some(j) => (velocity_between_exec(&self.data, j, i), drift_between_exec(&self.data, j, i)),
                None => (None, None),
            };
            assert(s[i as int] == (k, e));
            assert(dv == derived_velocity(s, i as int));
            assert(dd == derived_drift_any(s, i as int));
            assert(velocity_resolvable(s, i as int) == (e.velocity.is_none() && dv.is_some()));
            assert(drift_any_resolvable(s, i as int) == (e.clock_drift.is_none() && dd.is_some()));
            let mut item = e;
            if e.velocity.is_none() && dv.is_some() {
                item = SP3Entry { velocity: dv, ..item };
                success = true;
            }
            if e.clock_drift.is_none() && dd.is_some() {
                item = SP3Entry { clock_drift: dd, ..item };
                success = true;
            }
            out.push((k, item));
            i = i + 1;
            assert(out@ =~= resolved_dynamics(s).subrange(0, i as int));
        }
        assert(resolved_dynamics(s).subrange(0, s.len() as int) =~= resolved_dynamics(s));
        self.data = out;
        if success {
            self.header.data_type = DataType::Velocity;
        }
    }
}

impl SP3 {
    /// A copy with derived velocities, see [`SP3::resolve_velocities_mut`].
    pub fn resolve_velocities(&self) -> (r: SP3)
        requires
            entries_wf(self.data@),
        ensures
            r.data@ == resolved_velocities(self.data@),
            r.header@ == (HeaderView {
                data_type: if any_velocity_resolvable(self.data@) {
                    DataType::Velocity
                } else {
                    self.header.data_type
                },
                ..self.header@
            }),
            same_notes(&r, self),
    {
        let mut s = self.copy();
        s.resolve_velocities_mut();
        s
    }

    /// A copy with derived clock drifts, see [`SP3::resolve_clock_drift_mut`].
    pub fn resolve_clock_drift(&self) -> (r: SP3)
        requires
            entries_wf(self.data@),
        ensures
            r.data@ == resolved_drifts(self.data@),
            same_context(&r, self),
    {
        let mut s = self.copy();
        s.resolve_clock_drift_mut();
        s
    }

    /// A copy with derived velocities and drifts, see [`SP3::resolve_dynamics_mut`].
    pub fn resolve_dynamics(&self) -> (r: SP3)
        requires
            entries_wf(self.data@),
        ensures
            r.data@ == resolved_dynamics(self.data@),
            r.header@ == (HeaderView {
                data_type: if any_dynamics_resolvable(self.data@) {
                    DataType::Velocity
                } else {
                    self.header.data_type
                },
                ..self.header@
            }),
            same_notes(&r, self),
    {
        let mut s = self.copy();
        s.resolve_dynamics_mut();
        s
    }
}

proof fn lemma_resolved_velocities_wf(s: Seq<(SP3Key, SP3Entry)>)
    requires
        entries_wf(s),
    ensures
        entries_wf(resolved_velocities(s)),
{
    let r = resolved_velocities(s);
    assert forall|i: int| 0 <= i < r.len() implies (#[trigger] r[i]).1.wf() && r[i].0.sv.prn
        < 100 by {
        assert(s[i].1.wf());
    }
}

proof fn lemma_resolved_drifts_wf(s: Seq<(SP3Key, SP3Entry)>)
    requires
        entries_wf(s),
    ensures
        entries_wf(resolved_drifts(s)),
{
    let r = resolved_drifts(s);
    assert forall|i: int| 0 <= i < r.len() implies (#[trigger] r[i]).1.wf() && r[i].0.sv.prn
        < 100 by {
        assert(s[i].1.wf());
    }
}

/// Same keys, positions and clocks.
pub open spec fn same_samples(a: Seq<(SP3Key, SP3Entry)>, b: Seq<(SP3Key, SP3Entry)>) -> bool {
    a.len() == b.len() && forall|m: int|
        0 <= m < a.len() ==> (#[trigger] a[m]).0 == b[m].0 && a[m].1.position_mm
            == b[m].1.position_mm && a[m].1.clock_ps == b[m].1.clock_ps
}

proof fn lemma_prev_same(a: Seq<(SP3Key, SP3Entry)>, b: Seq<(SP3Key, SP3Entry)>, sv: SV, j: int)
    requires
        same_samples(a, b),
        j <= a.len(),
    ensures
        prev_index(a, sv, j) == prev_index(b, sv, j),
        prev_clock_index(a, sv, j) == prev_clock_index(b, sv, j),
    decreases j,
{
    if j > 0 {
        assert(a[j - 1].0 == b[j - 1].0);
        lemma_prev_same(a, b, sv, j - 1);
    }
}

proof fn lemma_derived_same(a: Seq<(SP3Key, SP3Entry)>, b: Seq<(SP3Key, SP3Entry)>, i: int)
    requires
        same_samples(a, b),
        0 <= i < a.len(),
    ensures
        derived_velocity(a, i) == derived_velocity(b, i),
        derived_drift(a, i) == derived_drift(b, i),
{
    assert(a[i].0 == b[i].0);
    lemma_prev_same(a, b, a[i].0.sv, i);
    lemma_prev_index_range(a, a[i].0.sv, i);
    lemma_prev_clock_index_range(a, a[i].0.sv, i);
    if let Some(j) = prev_index(a, a[i].0.sv, i) {
        assert(a[j].0 == b[j].0);
    }
    if let Some(j) = prev_clock_index(a, a[i].0.sv, i) {
        assert(a[j].0 == b[j].0);
    }
}

proof fn lemma_prev_index_range(s: Seq<(SP3Key, SP3Entry)>, sv: SV, j: int)
    ensures
        prev_index(s, sv, j) matches Some(m) ==> 0 <= m < j,
    decreases j,
{
    if j > 0 {
        lemma_prev_index_range(s, sv, j - 1);
    }
}

proof fn lemma_prev_clock_index_range(s: Seq<(SP3Key, SP3Entry)>, sv: SV, j: int)
    ensures
        prev_clock_index(s, sv, j) matches Some(m) ==> 0 <= m < j,
    decreases j,
{
    if j > 0 {
        lemma_prev_clock_index_range(s, sv, j - 1);
    }
}

/// Deriving velocities a second time changes nothing: every velocity that
/// can be derived was derived by the first pass, so the entries stay the same
/// and no further derivation (hence no data-type change) happens. With the
/// contract of [`SP3::resolve_velocities`] (comments and attributes kept),
/// a second pass returns the record of the first.
pub proof fn lemma_resolve_velocities_idempotent(s: Seq<(SP3Key, SP3Entry)>)
    ensures
        resolved_velocities(resolved_velocities(s)) == resolved_velocities(s),
        !any_velocity_resolvable(resolved_velocities(s)),
{
    let r = resolved_velocities(s);
    assert(same_samples(r, s));
    assert forall|i: int| 0 <= i < r.len() implies !velocity_resolvable(r, i) by {
        lemma_derived_same(r, s, i);
    }
    assert(resolved_velocities(r) =~= r);
}

/// Deriving clock drifts a second time changes nothing.
pub proof fn lemma_resolve_clock_drift_idempotent(s: Seq<(SP3Key, SP3Entry)>)
    ensures
        resolved_drifts(resolved_drifts(s)) == resolved_drifts(s),
{
    let r = resolved_drifts(s);
    assert(same_samples(r, s));
    assert forall|i: int| 0 <= i < r.len() implies !drift_resolvable(r, i) by {
        lemma_derived_same(r, s, i);
    }
    assert(resolved_drifts(r) =~= r);
}

} // verus!
