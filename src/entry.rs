//! Per-satellite, per-epoch states and their `P` / `V` lines.
use crate::errors::{slice_to_vec, ParsingError};
use crate::numeric::{
    coord_field, parse_fixed, parse_fixed_field, push_coord_field, push_spaces, spaces, trim,
    trim_bounds, trim_end, valid_coord, COORD_LIMIT,
};
use crate::types::{sv_from_field, sv_text, SV};
use vstd::prelude::*;

verus! {

/// Clock value written in place of an unknown clock (`999999.999999`).
pub const CLOCK_SENTINEL: i64 = 999_999_999_999;

/// A three-component vector of fixed-point values.
#[derive(Clone, Copy, Debug, PartialEq, Eq, Structural)]
pub struct Vector3D {
    pub x: i64,
    pub y: i64,
    pub z: i64,
}

impl Vector3D {
    pub fn new(x: i64, y: i64, z: i64) -> (r: Vector3D)
        ensures
            r == (Vector3D { x, y, z }),
    {
        Vector3D { x, y, z }
    }
}

pub open spec fn valid_vector(v: Vector3D) -> bool {
    valid_coord(v.x as int) && valid_coord(v.y as int) && valid_coord(v.z as int)
}

/// State of one satellite at one epoch. All values are fixed point with the
/// resolution of the file's last digit.
#[derive(Clone, Copy, Debug, PartialEq, Eq, Structural)]
pub struct SP3Entry {
    /// Position in millimetres (kilometres with six decimals).
    pub position_mm: Vector3D,
    /// Velocity in units of 10⁻⁷ m/s (decimetres per second with six decimals).
    pub velocity: Option<Vector3D>,
    /// True when the state vector is predicted.
    pub predicted_orbit: bool,
    /// True when the vehicle is being maneuvered.
    pub maneuver: bool,
    /// Discontinuity in the satellite clock correction.
    pub clock_event: bool,
    /// True when the clock state is predicted.
    pub predicted_clock: bool,
    /// Clock offset in picoseconds (microseconds with six decimals).
    pub clock_ps: Option<i64>,
    /// Clock drift in units of 10⁻¹⁶ s/s (tenths of nanoseconds per second with six decimals).
    pub clock_drift: Option<i64>,
}

impl SP3Entry {
    /// Every value fits its 14-character field, and a known clock is not the sentinel.
    pub open spec fn wf(self) -> bool {
        &&& valid_vector(self.position_mm)
        &&& (self.velocity matches Some(v) ==> valid_vector(v))
        &&& (self.clock_ps matches Some(c) ==> valid_coord(c as int) && c != CLOCK_SENTINEL)
        &&& (self.clock_drift matches Some(c) ==> valid_coord(c as int) && c != CLOCK_SENTINEL)
    }

    /// A measured position; everything else unknown.
    pub fn from_position_mm(position_mm: Vector3D) -> (r: SP3Entry)
        ensures
            r == (SP3Entry {
                position_mm,
                velocity: None,
                predicted_orbit: false,
                maneuver: false,
                clock_event: false,
                predicted_clock: false,
                clock_ps: None,
                clock_drift: None,
            }),
    {
        SP3Entry {
            position_mm,
            velocity: None,
            predicted_orbit: false,
            maneuver: false,
            clock_event: false,
            predicted_clock: false,
            clock_ps: None,
            clock_drift: None,
        }
    }

    /// A predicted position; everything else unknown.
    pub fn from_predicted_position_mm(position_mm: Vector3D) -> (r: SP3Entry)
        ensures
            r == (SP3Entry { predicted_orbit: true, ..SP3Entry::spec_from_position(position_mm) }),
    {
        SP3Entry { predicted_orbit: true, ..SP3Entry::from_position_mm(position_mm) }
    }

    pub open spec fn spec_from_position(position_mm: Vector3D) -> SP3Entry {
        SP3Entry {
            position_mm,
            velocity: None,
            predicted_orbit: false,
            maneuver: false,
            clock_event: false,
            predicted_clock: false,
            clock_ps: None,
            clock_drift: None,
        }
    }

    /// A measured position and velocity; everything else unknown.
    pub fn from_position_velocity(position_mm: Vector3D, velocity: Vector3D) -> (r: SP3Entry)
        ensures
            r == (SP3Entry {
                velocity: Some(velocity),
                ..SP3Entry::spec_from_position(position_mm)
            }),
    {
        SP3Entry { velocity: Some(velocity), ..SP3Entry::from_position_mm(position_mm) }
    }

    /// A predicted position and velocity; everything else unknown.
    pub fn from_predicted_position_velocity(position_mm: Vector3D, velocity: Vector3D) -> (r:
        SP3Entry)
        ensures
            r == (SP3Entry {
                velocity: Some(velocity),
                predicted_orbit: true,
                ..SP3Entry::spec_from_position(position_mm)
            }),
    {
        SP3Entry {
            velocity: Some(velocity),
            predicted_orbit: true,
            ..SP3Entry::from_position_mm(position_mm)
        }
    }

    /// Copy with a measured position.
    pub fn with_position_mm(&self, position_mm: Vector3D) -> (r: SP3Entry)
        ensures
            r == (SP3Entry { position_mm, predicted_orbit: false, ..*self }),
    {
        SP3Entry { position_mm, predicted_orbit: false, ..*self }
    }

    /// Copy with a predicted position.
    pub fn with_predicted_position_mm(&self, position_mm: Vector3D) -> (r: SP3Entry)
        ensures
            r == (SP3Entry { position_mm, predicted_orbit: true, ..*self }),
    {
        SP3Entry { position_mm, predicted_orbit: true, ..*self }
    }

    /// Copy with a measured velocity.
    pub fn with_velocity(&self, velocity: Vector3D) -> (r: SP3Entry)
        ensures
            r == (SP3Entry { velocity: Some(velocity), predicted_orbit: false, ..*self }),
    {
        SP3Entry { velocity: Some(velocity), predicted_orbit: false, ..*self }
    }

    /// Copy with a predicted velocity.
    pub fn with_predicted_velocity(&self, velocity: Vector3D) -> (r: SP3Entry)
        ensures
            r == (SP3Entry { velocity: Some(velocity), predicted_orbit: true, ..*self }),
    {
        SP3Entry { velocity: Some(velocity), predicted_orbit: true, ..*self }
    }

    /// Copy with a measured clock offset, in picoseconds.
    pub fn with_clock_offset_ps(&self, clock_ps: i64) -> (r: SP3Entry)
        ensures
            r == (SP3Entry { clock_ps: Some(clock_ps), predicted_clock: false, ..*self }),
    {
        SP3Entry { clock_ps: Some(clock_ps), predicted_clock: false, ..*self }
    }

    /// Copy with a predicted clock offset, in picoseconds.
    pub fn with_predicted_clock_offset_ps(&self, clock_ps: i64) -> (r: SP3Entry)
        ensures
            r == (SP3Entry { clock_ps: Some(clock_ps), predicted_clock: true, ..*self }),
    {
        SP3Entry { clock_ps: Some(clock_ps), predicted_clock: true, ..*self }
    }

    /// Copy with a clock drift, in units of 10⁻¹⁶ s/s.
    pub fn with_clock_drift(&self, clock_drift: i64) -> (r: SP3Entry)
        ensures
            r == (SP3Entry { clock_drift: Some(clock_drift), ..*self }),
    {
        SP3Entry { clock_drift: Some(clock_drift), ..*self }
    }
}

// ------------------------------------------------------------ subtraction
/// Component-wise difference: optional values only where both sides have them;
/// flags from the left side.
pub open spec fn entry_sub(a: SP3Entry, b: SP3Entry) -> SP3Entry {
    SP3Entry {
        position_mm: Vector3D {
            x: (a.position_mm.x - b.position_mm.x) as i64,
            y: (a.position_mm.y - b.position_mm.y) as i64,
            z: (a.position_mm.z - b.position_mm.z) as i64,
        },
        velocity: match (a.velocity, b.velocity) {
            (Some(x), Some(y)) => Some(
                Vector3D { x: (x.x - y.x) as i64, y: (x.y - y.y) as i64, z: (x.z - y.z) as i64 },
            ),
            _ => None,
        },
        clock_ps: match (a.clock_ps, b.clock_ps) {
            (Some(x), Some(y)) => Some((x - y) as i64),
            _ => None,
        },
        clock_drift: match (a.clock_drift, b.clock_drift) {
            (Some(x), Some(y)) => Some((x - y) as i64),
            _ => None,
        },
        ..a
    }
}

/// Values of well-formed entries can be subtracted without overflow.
pub open spec fn sub_fits(a: SP3Entry, b: SP3Entry) -> bool {
    a.wf() && b.wf()
}

fn vec_sub(a: Vector3D, b: Vector3D) -> (r: Vector3D)
    requires
        valid_vector(a),
        valid_vector(b),
    ensures
        r.x == a.x - b.x,
        r.y == a.y - b.y,
        r.z == a.z - b.z,
{
    Vector3D { x: a.x - b.x, y: a.y - b.y, z: a.z - b.z }
}

impl SP3Entry {
    /// Component-wise difference, see [`entry_sub`].
    pub fn sub(&self, rhs: &SP3Entry) -> (r: SP3Entry)
        requires
            sub_fits(*self, *rhs),
        ensures
            r == entry_sub(*self, *rhs),
            r.position_mm.x == self.position_mm.x - rhs.position_mm.x,
            r.position_mm.y == self.position_mm.y - rhs.position_mm.y,
            r.position_mm.z == self.position_mm.z - rhs.position_mm.z,
    {
        let velocity = match (self.velocity, rhs.velocity) {
            (Some(x), Some(y)) => Some(vec_sub(x, y)),
            _ => None,
        };
        let clock_ps = match (self.clock_ps, rhs.clock_ps) {
            (Some(x), Some(y)) => Some(x - y),
            _ => None,
        };
        let clock_drift = match (self.clock_drift, rhs.clock_drift) {
            (Some(x), Some(y)) => Some(x - y),
            _ => None,
        };
        SP3Entry {
            position_mm: vec_sub(self.position_mm, rhs.position_mm),
            velocity,
            clock_ps,
            clock_drift,
            ..*self
        }
    }
}

/// In-place difference: the position always, each optional value where both
/// sides have it (otherwise the left value stays as it was); flags unchanged.
pub open spec fn entry_sub_assign(a: SP3Entry, b: SP3Entry) -> SP3Entry {
    SP3Entry {
        position_mm: Vector3D {
            x: (a.position_mm.x - b.position_mm.x) as i64,
            y: (a.position_mm.y - b.position_mm.y) as i64,
            z: (a.position_mm.z - b.position_mm.z) as i64,
        },
        velocity: match (a.velocity, b.velocity) {
            (Some(x), Some(y)) => Some(
                Vector3D { x: (x.x - y.x) as i64, y: (x.y - y.y) as i64, z: (x.z - y.z) as i64 },
            ),
            _ => a.velocity,
        },
        clock_ps: match (a.clock_ps, b.clock_ps) {
            (Some(x), Some(y)) => Some((x - y) as i64),
            _ => a.clock_ps,
        },
        clock_drift: match (a.clock_drift, b.clock_drift) {
            (Some(x), Some(y)) => Some((x - y) as i64),
            _ => a.clock_drift,
        },
        ..a
    }
}

impl SP3Entry {
    /// Subtracts `rhs` in place, see [`entry_sub_assign`].
    pub fn sub_assign(&mut self, rhs: &SP3Entry)
        requires
            sub_fits(*old(self), *rhs),
        ensures
            *final(self) == entry_sub_assign(*old(self), *rhs),
    {
        let velocity = match (self.velocity, rhs.velocity) {
            (Some(x), Some(y)) => Some(vec_sub(x, y)),
            _ => self.velocity,
        };
        let clock_ps = match (self.clock_ps, rhs.clock_ps) {
            (Some(x), Some(y)) => Some(x - y),
            _ => self.clock_ps,
        };
        let clock_drift = match (self.clock_drift, rhs.clock_drift) {
            (Some(x), Some(y)) => Some(x - y),
            _ => self.clock_drift,
        };
        self.position_mm = vec_sub(self.position_mm, rhs.position_mm);
        self.velocity = velocity;
        self.clock_ps = clock_ps;
        self.clock_drift = clock_drift;
    }
}

// ------------------------------------------------------------ text
/// Three coordinate fields.
pub open spec fn coords_text(v: Vector3D) -> Seq<u8> {
    coord_field(v.x as int) + coord_field(v.y as int) + coord_field(v.z as int)
}

/// The clock field: the value, or 14 spaces when unknown.
pub open spec fn clock_text(c: Option<i64>) -> Seq<u8> {
    match c {
        Some(c) => coord_field(c as int),
        None => spaces(14),
    }
}

/// Flag columns `E` (col 75), `P` (col 76), `M` (col 79) and `P` (col 80).
pub open spec fn flags_text(e: SP3Entry) -> Seq<u8> {
    seq![
        if e.clock_event {
            69u8
        } else {
            32u8
        },
        if e.predicted_clock {
            80u8
        } else {
            32u8
        },
        32u8,
        32u8,
        if e.maneuver {
            77u8
        } else {
            32u8
        },
    ] + if e.predicted_orbit {
        seq![80u8]
    } else {
        Seq::<u8>::empty()
    }
}

/// The `P` line of an entry before trailing spaces are trimmed: type letter,
/// satellite, three coordinates, clock, 14 spaces, then the flags.
pub open spec fn position_line_raw(sv: SV, e: SP3Entry) -> Seq<u8> {
    seq![80u8] + sv_text(sv) + coords_text(e.position_mm) + clock_text(e.clock_ps) + spaces(14)
        + flags_text(e)
}

/// The `P` line of an entry, trailing spaces trimmed.
pub open spec fn position_line(sv: SV, e: SP3Entry) -> Seq<u8> {
    trim_end(position_line_raw(sv, e))
}

/// The `V` line of an entry with a velocity: velocity, then the drift when known.
pub open spec fn velocity_line(sv: SV, v: Vector3D, drift: Option<i64>) -> Seq<u8> {
    seq![86u8] + sv_text(sv) + coords_text(v) + match drift {
        Some(d) => coord_field(d as int),
        None => Seq::<u8>::empty(),
    }
}

/// The lines of an entry, each ended by a line feed: the `P` line, and the
/// `V` line when the velocity is known.
pub open spec fn entry_text(sv: SV, e: SP3Entry) -> Seq<u8> {
    position_line(sv, e) + seq![10u8] + match e.velocity {
        Some(v) => velocity_line(sv, v, e.clock_drift) + seq![10u8],
        None => Seq::<u8>::empty(),
    }
}

/// Trailing-space trimming of what was appended after `start`.
fn trim_end_from(out: &mut Vec<u8>, start: usize)
    requires
        start <= old(out).len(),
    ensures
        final(out)@ == old(out)@.subrange(0, start as int) + trim_end(
            old(out)@.subrange(start as int, old(out)@.len() as int),
        ),
{
    let ghost o = out@;
    while out.len() > start && out[out.len() - 1] == 32
        invariant
            start <= out.len() <= o.len(),
            out@ == o.subrange(0, out.len() as int),
            trim_end(o.subrange(start as int, o.len() as int)) == trim_end(
                out@.subrange(start as int, out.len() as int),
            ),
        decreases out.len(),
    {
        let ghost before = out@;
        out.pop();
        assert(before.subrange(start as int, before.len() as int).drop_last() =~= out@.subrange(
            start as int,
            out.len() as int,
        ));
        assert(out@ =~= o.subrange(0, out.len() as int));
    }
    assert(out@ =~= o.subrange(0, start as int) + out@.subrange(start as int, out.len() as int));
}

fn push_coords(out: &mut Vec<u8>, v: &Vector3D)
    requires
        valid_vector(*v),
    ensures
        final(out)@ == old(out)@ + coords_text(*v),
{
    let ghost o = out@;
    push_coord_field(out, v.x);
    push_coord_field(out, v.y);
    push_coord_field(out, v.z);
    assert(out@ =~= o + coords_text(*v));
}

fn push_flags(out: &mut Vec<u8>, e: &SP3Entry)
    ensures
        final(out)@ == old(out)@ + flags_text(*e),
{
    let ghost o = out@;
    out.push(if e.clock_event {
        69u8
    } else {
        32u8
    });
    out.push(if e.predicted_clock {
        80u8
    } else {
        32u8
    });
    out.push(32u8);
    out.push(32u8);
    out.push(if e.maneuver {
        77u8
    } else {
        32u8
    });
    if e.predicted_orbit {
        out.push(80u8);
    }
    assert(out@ =~= o + flags_text(*e));
}

fn push_position_line_raw(out: &mut Vec<u8>, sv: &SV, e: &SP3Entry)
    requires
        e.wf(),
        sv.prn < 100,
    ensures
        final(out)@ == old(out)@ + position_line_raw(*sv, *e),
{
    let ghost o = out@;
    out.push(80u8);
    sv.push_text(out);
    push_coords(out, &e.position_mm);
    match e.clock_ps {
        Some(c) => push_coord_field(out, c),
        None => push_spaces(out, 14),
    }
    let ghost m = out@;
    assert(m =~= o + (seq![80u8] + sv_text(*sv) + coords_text(e.position_mm) + clock_text(
        e.clock_ps,
    )));
    push_spaces(out, 14);
    push_flags(out, e);
    assert(out@ =~= o + position_line_raw(*sv, *e));
}

impl SP3Entry {
    /// Appends the lines of this entry for satellite `sv`, see [`entry_text`].
    pub fn format_into(&self, sv: &SV, out: &mut Vec<u8>)
        requires
            self.wf(),
            sv.prn < 100,
        ensures
            final(out)@ == old(out)@ + entry_text(*sv, *self),
    {
        let ghost o = out@;
        let start = out.len();
        push_position_line_raw(out, sv, self);
        assert(out@.subrange(start as int, out@.len() as int) =~= position_line_raw(*sv, *self));
        assert(out@.subrange(0, start as int) =~= o);
        trim_end_from(out, start);
        out.push(10u8);
        let ghost p = out@;
        assert(p =~= o + position_line(*sv, *self) + seq![10u8]);
        match self.velocity {
            Some(v) => {
                let ghost q = out@;
                out.push(86u8);
                sv.push_text(out);
                push_coords(out, &v);
                match self.clock_drift {
                    Some(d) => push_coord_field(out, d),
                    None => {},
                }
                assert(out@ =~= q + velocity_line(*sv, v, self.clock_drift));
                out.push(10u8);
                assert(out@ =~= p + (velocity_line(*sv, v, self.clock_drift) + seq![10u8]));
            },
            None => {},
        }
        assert(out@ =~= o + entry_text(*sv, *self));
    }

    /// The lines of this entry for satellite `sv`, see [`entry_text`].
    pub fn format(&self, sv: &SV) -> (r: Vec<u8>)
        requires
            self.wf(),
            sv.prn < 100,
        ensures
            r@ == entry_text(*sv, *self),
    {
        let mut out: Vec<u8> = Vec::new();
        self.format_into(sv, &mut out);
        assert(out@ =~= entry_text(*sv, *self));
        out
    }
}

// ------------------------------------------------------------ parsing
/// True for a `P` line.
pub fn position_entry(line: &[u8]) -> (r: bool)
    ensures
        r == (line@.len() > 0 && line@[0] == 80),
{
    line.len() > 0 && line[0] == 80
}

/// True for a `V` line.
pub fn velocity_entry(line: &[u8]) -> (r: bool)
    ensures
        r == (line@.len() > 0 && line@[0] == 86),
{
    line.len() > 0 && line[0] == 86
}

/// What a `P` line holds.
#[derive(Clone, Copy, Debug, PartialEq, Eq, Structural)]
pub struct PositionEntry {
    pub sv: SV,
    pub x_mm: i64,
    pub y_mm: i64,
    pub z_mm: i64,
    pub clock_ps: Option<i64>,
    pub clock_event: bool,
    pub clock_prediction: bool,
    pub maneuver: bool,
    pub orbit_prediction: bool,
}

/// What a `V` line holds: velocity in 10⁻⁷ m/s, drift in 10⁻¹⁶ s/s.
#[derive(Clone, Copy, Debug, PartialEq, Eq, Structural)]
pub struct VelocityEntry {
    pub sv: SV,
    pub velocity: Vector3D,
    pub clock_drift: Option<i64>,
}

impl VelocityEntry {
    pub fn to_parts(&self) -> (r: (SV, Vector3D, Option<i64>))
        ensures
            r == (self.sv, self.velocity, self.clock_drift),
    {
        (self.sv, self.velocity, self.clock_drift)
    }
}

/// A 14-character fixed-point field read as a value within the coordinate range.
pub open spec fn coord_value(f: Seq<u8>) -> Option<i64> {
    match parse_fixed(f, 6) {
        Some(v) => if valid_coord(v) {
            Some(v as i64)
        } else {
            None::<i64>
        },
        None => None,
    }
}

/// An optional clock field: blank or the sentinel mean unknown.
pub open spec fn clock_value(f: Seq<u8>) -> Result<Option<i64>, ()> {
    if trim(f).len() == 0 {
        Ok(None)
    } else {
        match parse_fixed(f, 6) {
            Some(v) => if v == CLOCK_SENTINEL {
                Ok(None)
            } else if valid_coord(v) {
                Ok(Some(v as i64))
            } else {
                Err(())
            },
            None => Err(()),
        }
    }
}

pub open spec fn flag_at(line: Seq<u8>, i: int, c: u8) -> bool {
    line.len() > i && line[i] == c
}

/// Which field of a data line could not be read.
#[derive(Clone, Copy, Debug, PartialEq, Eq, Structural)]
pub enum LineFault {
    SV,
    X,
    Y,
    Z,
    Clock,
}

/// `e` reports fault `f` of `line`, with the offending field.
pub open spec fn fault_error(e: ParsingError, f: LineFault, line: Seq<u8>) -> bool {
    match f {
        LineFault::SV => e matches ParsingError::SV(v) && v@ == line.subrange(1, 4),
        LineFault::X => e matches ParsingError::Coordinates(v) && v@ == line.subrange(4, 18),
        LineFault::Y => e matches ParsingError::Coordinates(v) && v@ == line.subrange(18, 32),
        LineFault::Z => e matches ParsingError::Coordinates(v) && v@ == line.subrange(32, 46),
        LineFault::Clock => e matches ParsingError::Clock(v) && v@ == line.subrange(46, 60),
    }
}

/// Reading of a `P` line of at least 60 characters; revision `a` lines carry
/// no constellation letter (`letter` false).
pub open spec fn parse_position_line(line: Seq<u8>, letter: bool) -> Result<PositionEntry, LineFault> {
    let svf = line.subrange(1, 4);
    let xf = line.subrange(4, 18);
    let yf = line.subrange(18, 32);
    let zf = line.subrange(32, 46);
    let cf = line.subrange(46, 60);
    if sv_from_field(svf, letter).is_none() {
        Err(LineFault::SV)
    } else if coord_value(xf).is_none() {
        Err(LineFault::X)
    } else if coord_value(yf).is_none() {
        Err(LineFault::Y)
    } else if coord_value(zf).is_none() {
        Err(LineFault::Z)
    } else if clock_value(cf).is_err() {
        Err(LineFault::Clock)
    } else {
        Ok(
            PositionEntry {
                sv: sv_from_field(svf, letter).unwrap(),
                x_mm: coord_value(xf).unwrap(),
                y_mm: coord_value(yf).unwrap(),
                z_mm: coord_value(zf).unwrap(),
                clock_ps: clock_value(cf).unwrap(),
                clock_event: flag_at(line, 74, 69),
                clock_prediction: flag_at(line, 75, 80),
                maneuver: flag_at(line, 78, 77),
                orbit_prediction: flag_at(line, 79, 80),
            },
        )
    }
}

/// Reading of a `V` line of at least 60 characters.
pub open spec fn parse_velocity_line(line: Seq<u8>, letter: bool) -> Result<VelocityEntry, LineFault> {
    let svf = line.subrange(1, 4);
    let xf = line.subrange(4, 18);
    let yf = line.subrange(18, 32);
    let zf = line.subrange(32, 46);
    let cf = line.subrange(46, 60);
    if sv_from_field(svf, letter).is_none() {
        Err(LineFault::SV)
    } else if coord_value(xf).is_none() {
        Err(LineFault::X)
    } else if coord_value(yf).is_none() {
        Err(LineFault::Y)
    } else if coord_value(zf).is_none() {
        Err(LineFault::Z)
    } else if clock_value(cf).is_err() {
        Err(LineFault::Clock)
    } else {
        Ok(
            VelocityEntry {
                sv: sv_from_field(svf, letter).unwrap(),
                velocity: Vector3D {
                    x: coord_value(xf).unwrap(),
                    y: coord_value(yf).unwrap(),
                    z: coord_value(zf).unwrap(),
                },
                clock_drift: clock_value(cf).unwrap(),
            },
        )
    }
}

fn coord_exec(s: &[u8], a: usize) -> (r: Option<i64>)
    requires
        a + 14 <= s.len(),
    ensures
        r == coord_value(s@.subrange(a as int, a + 14)),
{
    match parse_fixed_field(s, a, a + 14, 6) {
        Some(v) => if -COORD_LIMIT < v && v < COORD_LIMIT {
            Some(v)
        } else {
            None
        },
        None => None,
    }
}

fn clock_exec(s: &[u8], a: usize) -> (r: Result<Option<i64>, ()>)
    requires
        a + 14 <= s.len(),
    ensures
        r == clock_value(s@.subrange(a as int, a + 14)),
{
    let (i, j) = trim_bounds(s, a, a + 14);
    if i == j {
        return Ok(None);
    }
    match parse_fixed_field(s, a, a + 14, 6) {
        Some(v) => if v == CLOCK_SENTINEL {
            Ok(None)
        } else if -COORD_LIMIT < v && v < COORD_LIMIT {
            Ok(Some(v))
        } else {
            Err(())
        },
        None => Err(()),
    }
}

impl PositionEntry {
    /// Reads a `P` line, see [`parse_position_line`].
    pub fn parse(line: &[u8], letter: bool) -> (r: Result<PositionEntry, ParsingError>)
        requires
            line@.len() >= 60,
        ensures
            r.is_ok() == parse_position_line(line@, letter).is_ok(),
            r matches Ok(p) ==> parse_position_line(line@, letter) == Ok::<PositionEntry, LineFault>(p),
            r matches Err(e) ==> fault_error(e, parse_position_line(line@, letter)->Err_0, line@),
    {
        let sv = match SV::from_field(line, 1, letter) {
            Some(sv) => sv,
            None => return Err(ParsingError::SV(slice_to_vec(line, 1, 4))),
        };
        let x = match coord_exec(line, 4) {
            Some(v) => v,
            None => return Err(ParsingError::Coordinates(slice_to_vec(line, 4, 18))),
        };
        let y = match coord_exec(line, 18) {
            Some(v) => v,
            None => return Err(ParsingError::Coordinates(slice_to_vec(line, 18, 32))),
        };
        let z = match coord_exec(line, 32) {
            Some(v) => v,
            None => return Err(ParsingError::Coordinates(slice_to_vec(line, 32, 46))),
        };
        let clock_ps = match clock_exec(line, 46) {
            Ok(c) => c,
            Err(_) => return Err(ParsingError::Clock(slice_to_vec(line, 46, 60))),
        };
        let n = line.len();
        Ok(
            PositionEntry {
                sv,
                x_mm: x,
                y_mm: y,
                z_mm: z,
                clock_ps,
                clock_event: n > 74 && line[74] == 69,
                clock_prediction: n > 75 && line[75] == 80,
                maneuver: n > 78 && line[78] == 77,
                orbit_prediction: n > 79 && line[79] == 80,
            },
        )
    }
}

impl VelocityEntry {
    /// Reads a `V` line, see [`parse_velocity_line`].
    pub fn parse(line: &[u8], letter: bool) -> (r: Result<VelocityEntry, ParsingError>)
        requires
            line@.len() >= 60,
        ensures
            r.is_ok() == parse_velocity_line(line@, letter).is_ok(),
            r matches Ok(p) ==> parse_velocity_line(line@, letter) == Ok::<VelocityEntry, LineFault>(p),
            r matches Err(e) ==> fault_error(e, parse_velocity_line(line@, letter)->Err_0, line@),
    {
        let sv = match SV::from_field(line, 1, letter) {
            Some(sv) => sv,
            None => return Err(ParsingError::SV(slice_to_vec(line, 1, 4))),
        };
        let x = match coord_exec(line, 4) {
            Some(v) => v,
            None => return Err(ParsingError::Coordinates(slice_to_vec(line, 4, 18))),
        };
        let y = match coord_exec(line, 18) {
            Some(v) => v,
            None => return Err(ParsingError::Coordinates(slice_to_vec(line, 18, 32))),
        };
        let z = match coord_exec(line, 32) {
            Some(v) => v,
            None => return Err(ParsingError::Coordinates(slice_to_vec(line, 32, 46))),
        };
        let clock_drift = match clock_exec(line, 46) {
            Ok(c) => c,
            Err(_) => return Err(ParsingError::Clock(slice_to_vec(line, 46, 60))),
        };
        Ok(VelocityEntry { sv, velocity: Vector3D { x, y, z }, clock_drift })
    }
}

proof fn lemma_trim_end_prefix(s: Seq<u8>)
    ensures
        trim_end(s).len() <= s.len(),
        trim_end(s) == s.subrange(0, trim_end(s).len() as int),
        forall|i: int| 0 <= i < s.len() && s[i] != 32 ==> i < trim_end(s).len(),
    decreases s.len(),
{
    if s.len() > 0 && s.last() == 32 {
        let t = s.drop_last();
        lemma_trim_end_prefix(t);
        assert(trim_end(s) == trim_end(t));
        assert(t.subrange(0, trim_end(t).len() as int) =~= s.subrange(0, trim_end(t).len() as int));
        assert forall|i: int| 0 <= i < s.len() && s[i] != 32 implies i < trim_end(s).len() by {
            assert(i < s.len() - 1);
            assert(t[i] == s[i]);
        }
    } else {
        assert(s.subrange(0, s.len() as int) =~= s);
    }
}

/// What the `P` line of an entry says.
pub open spec fn position_line_content(sv: SV, e: SP3Entry) -> PositionEntry {
    PositionEntry {
        sv,
        x_mm: e.position_mm.x,
        y_mm: e.position_mm.y,
        z_mm: e.position_mm.z,
        clock_ps: e.clock_ps,
        clock_event: e.clock_event,
        clock_prediction: e.predicted_clock,
        maneuver: e.maneuver,
        orbit_prediction: e.predicted_orbit,
    }
}

proof fn lemma_coord_value_round_trip(v: i64)
    requires
        valid_coord(v as int),
    ensures
        coord_field(v as int).len() == 14,
        coord_value(coord_field(v as int)) == Some(v),
{
    crate::numeric::lemma_coord_field_len(v as int);
    crate::numeric::lemma_coord_field_round_trip(v as int);
}

proof fn lemma_clock_value_round_trip(c: i64)
    requires
        valid_coord(c as int),
        c != CLOCK_SENTINEL,
    ensures
        clock_value(coord_field(c as int)) == Ok::<Option<i64>, ()>(Some(c)),
        coord_field(c as int).last() != 32,
{
    lemma_coord_value_round_trip(c);
    crate::numeric::lemma_fixed_text_round_trip(c as int, 6);
    crate::numeric::lemma_trim_right_aligned(crate::numeric::fixed_text(c as int, 6), 14);
    let f = crate::numeric::fixed_text(c as int, 6);
    if f.len() < 14 {
        assert(coord_field(c as int).last() == f.last());
    }
}

proof fn lemma_position_raw_layout(sv: SV, e: SP3Entry)
    requires
        e.wf(),
        sv.prn < 100,
        e.clock_ps is Some,
    ensures
        ({
            let raw = position_line_raw(sv, e);
            let fl = flags_text(e);
            &&& raw.len() == 74 + fl.len()
            &&& raw.subrange(1, 4) == sv_text(sv)
            &&& raw.subrange(4, 18) == coord_field(e.position_mm.x as int)
            &&& raw.subrange(18, 32) == coord_field(e.position_mm.y as int)
            &&& raw.subrange(32, 46) == coord_field(e.position_mm.z as int)
            &&& raw.subrange(46, 60) == coord_field(e.clock_ps->Some_0 as int)
            &&& raw[59] != 32
            &&& raw[74] == fl[0] && raw[75] == fl[1] && raw[78] == fl[4]
            &&& (e.predicted_orbit ==> raw[79] == fl[5])
        }),
{
    let raw = position_line_raw(sv, e);
    let fl = flags_text(e);
    let c = e.clock_ps->Some_0;
    lemma_coord_value_round_trip(e.position_mm.x);
    lemma_coord_value_round_trip(e.position_mm.y);
    lemma_coord_value_round_trip(e.position_mm.z);
    lemma_clock_value_round_trip(c);
    crate::numeric::lemma_zero_padded_props(sv.prn as nat, 2);
    let head = seq![80u8] + sv_text(sv);
    let co = coords_text(e.position_mm);
    let ck = clock_text(e.clock_ps);
    assert(head.len() == 4);
    assert(co.len() == 42);
    assert(e.clock_ps == Some(c));
    lemma_coord_value_round_trip(c);
    assert(ck == coord_field(c as int));
    assert(ck.len() == 14);
    assert(raw =~= head + co + ck + spaces(14) + fl);
    assert(raw.subrange(1, 4) =~= sv_text(sv));
    assert(raw.subrange(4, 18) =~= coord_field(e.position_mm.x as int));
    assert(raw.subrange(18, 32) =~= coord_field(e.position_mm.y as int));
    assert(raw.subrange(32, 46) =~= coord_field(e.position_mm.z as int));
    assert(raw.subrange(46, 60) =~= coord_field(c as int));
    assert(raw[59] == coord_field(c as int).last());
}

/// A `P` line with a known clock reads back as what it was written from.
pub proof fn lemma_position_line_round_trip(sv: SV, e: SP3Entry)
    requires
        e.wf(),
        sv.prn < 100,
        e.clock_ps is Some,
    ensures
        position_line(sv, e).len() >= 60,
        parse_position_line(position_line(sv, e), true) == Ok::<PositionEntry, LineFault>(
            position_line_content(sv, e),
        ),
{
    let raw = position_line_raw(sv, e);
    let line = position_line(sv, e);
    let c = e.clock_ps->Some_0;
    let fl = flags_text(e);
    lemma_position_raw_layout(sv, e);
    lemma_coord_value_round_trip(e.position_mm.x);
    lemma_coord_value_round_trip(e.position_mm.y);
    lemma_coord_value_round_trip(e.position_mm.z);
    lemma_clock_value_round_trip(c);
    crate::types::lemma_sv_round_trip(sv);
    lemma_trim_end_prefix(raw);
    assert(line.len() >= 60);
    assert(line.subrange(1, 4) =~= raw.subrange(1, 4));
    assert(line.subrange(4, 18) =~= raw.subrange(4, 18));
    assert(line.subrange(18, 32) =~= raw.subrange(18, 32));
    assert(line.subrange(32, 46) =~= raw.subrange(32, 46));
    assert(line.subrange(46, 60) =~= raw.subrange(46, 60));
    assert(flag_at(line, 74, 69) == e.clock_event);
    assert(flag_at(line, 75, 80) == e.predicted_clock);
    assert(flag_at(line, 78, 77) == e.maneuver);
    assert(flag_at(line, 79, 80) == e.predicted_orbit) by {
        if !e.predicted_orbit {
            assert(raw.len() == 79);
        }
    }
}

/// A `V` line with a known drift reads back as what it was written from.
pub proof fn lemma_velocity_line_round_trip(sv: SV, v: Vector3D, d: i64)
    requires
        valid_vector(v),
        valid_coord(d as int),
        d != CLOCK_SENTINEL,
        sv.prn < 100,
    ensures
        velocity_line(sv, v, Some(d)).len() == 60,
        parse_velocity_line(velocity_line(sv, v, Some(d)), true) == Ok::<VelocityEntry, LineFault>(
            VelocityEntry { sv, velocity: v, clock_drift: Some(d) },
        ),
{
    let line = velocity_line(sv, v, Some(d));
    lemma_coord_value_round_trip(v.x);
    lemma_coord_value_round_trip(v.y);
    lemma_coord_value_round_trip(v.z);
    lemma_coord_value_round_trip(d);
    lemma_clock_value_round_trip(d);
    crate::numeric::lemma_zero_padded_props(sv.prn as nat, 2);
    crate::types::lemma_sv_round_trip(sv);
    let head = seq![86u8] + sv_text(sv);
    let co = coords_text(v);
    assert(head.len() == 4);
    assert(co.len() == 42);
    assert(line =~= head + co + coord_field(d as int));
    assert(line.subrange(1, 4) =~= sv_text(sv));
    assert(line.subrange(4, 18) =~= coord_field(v.x as int));
    assert(line.subrange(18, 32) =~= coord_field(v.y as int));
    assert(line.subrange(32, 46) =~= coord_field(v.z as int));
    assert(line.subrange(46, 60) =~= coord_field(d as int));
}

/// What a `P` line holds fits the fields of an entry.
pub proof fn lemma_parsed_position_fits(t: Seq<u8>, letter: bool)
    requires
        t.len() >= 60,
    ensures
        parse_position_line(t, letter) matches Ok(p) ==> {
            &&& valid_coord(p.x_mm as int) && valid_coord(p.y_mm as int) && valid_coord(p.z_mm as int)
            &&& p.sv.prn < 100
            &&& (p.clock_ps matches Some(c) ==> valid_coord(c as int) && c != CLOCK_SENTINEL)
        },
{
    crate::types::lemma_sv_field_prn(t.subrange(1, 4), letter);
}

/// What a `V` line holds fits the fields of an entry.
pub proof fn lemma_parsed_velocity_fits(t: Seq<u8>, letter: bool)
    requires
        t.len() >= 60,
    ensures
        parse_velocity_line(t, letter) matches Ok(v) ==> {
            &&& valid_vector(v.velocity)
            &&& v.sv.prn < 100
            &&& (v.clock_drift matches Some(c) ==> valid_coord(c as int) && c != CLOCK_SENTINEL)
        },
{
    crate::types::lemma_sv_field_prn(t.subrange(1, 4), letter);
}

} // verus!
