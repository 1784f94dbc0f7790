//! File header: the two `#` lines and the `%c` descriptor lines.
use crate::errors::{slice_to_vec, ParsingError};
use crate::numeric::{
    spaces,
    digits, fixed_text, is_token, lemma_digits_props, lemma_fixed_text_round_trip,
    lemma_pow10_monotone, lemma_pow10_values, lemma_trim_left_aligned, lemma_trim_right_aligned,
    lemma_uint_field_round_trip, lemma_zero_padded_props, lemma_zero_padded_round_trip,
    left_aligned, parse_fixed, parse_fixed_field, parse_uint, parse_uint_field, pow10,
    push_bytes, push_left_aligned, push_right_aligned, push_uint_field, push_unsigned_fixed_field,
    push_zero_padded, right_aligned, trim, trim_bounds, zero_padded,
};
use crate::types::{
    epoch_from_text, epoch_text, lemma_epoch_round_trip, parse_epoch_text, push_epoch_text,
    Constellation, DataType, Epoch, OrbitType, TimeScale, Version, SV,
};
use vstd::prelude::*;

verus! {

/// True for the first header line (`#`).
pub fn is_header_line1(line: &[u8]) -> (r: bool)
    ensures
        r == (line@.len() > 0 && line@[0] == 35),
{
    line.len() > 0 && line[0] == 35
}

/// True for the second header line (`##`).
pub fn is_header_line2(line: &[u8]) -> (r: bool)
    ensures
        r == (line@.len() > 1 && line@[0] == 35 && line@[1] == 35),
{
    line.len() > 1 && line[0] == 35 && line[1] == 35
}

/// First header line: revision, data type, release epoch, number of epochs,
/// observables, coordinate system, orbit type and agency.
#[derive(Clone, Debug, PartialEq)]
pub struct Line1 {
    pub version: Version,
    pub data_type: DataType,
    pub epoch: Epoch,
    pub fit_type: Vec<u8>,
    pub num_epochs: u64,
    pub coord_system: Vec<u8>,
    pub orbit_type: OrbitType,
    pub agency: Vec<u8>,
}

/// Contents of a first header line, with texts as sequences.
pub struct Line1View {
    pub version: Version,
    pub data_type: DataType,
    pub epoch: Epoch,
    pub fit_type: Seq<u8>,
    pub num_epochs: u64,
    pub coord_system: Seq<u8>,
    pub orbit_type: OrbitType,
    pub agency: Seq<u8>,
}

impl View for Line1 {
    type V = Line1View;

    open spec fn view(&self) -> Line1View {
        Line1View {
            version: self.version,
            data_type: self.data_type,
            epoch: self.epoch,
            fit_type: self.fit_type@,
            num_epochs: self.num_epochs,
            coord_system: self.coord_system@,
            orbit_type: self.orbit_type,
            agency: self.agency@,
        }
    }
}

/// `#`, revision, data type, epoch, number of epochs (7 wide), observables
/// (left aligned, 5 wide), coordinate system (right aligned, 6 wide), orbit
/// type (right aligned, 4 wide), two spaces and the agency.
pub open spec fn line1_text(l: Line1View) -> Seq<u8> {
    line1_head(l) + line1_tail(l)
}

pub open spec fn line1_head(l: Line1View) -> Seq<u8> {
    seq![35u8, l.version.spec_code(), l.data_type.spec_code()] + epoch_text(l.epoch) + seq![32u8]
        + right_aligned(digits(l.num_epochs as nat), 7) + seq![32u8]
}

pub open spec fn line1_tail(l: Line1View) -> Seq<u8> {
    left_aligned(l.fit_type, 5) + right_aligned(l.coord_system, 6) + right_aligned(
        l.orbit_type.spec_text(),
        4,
    ) + seq![32u8, 32u8] + l.agency
}

pub open spec fn version_of(c: u8) -> Option<Version> {
    if c == 97 {
        Some(Version::A)
    } else if c == 98 {
        Some(Version::B)
    } else if c == 99 {
        Some(Version::C)
    } else if c == 100 {
        Some(Version::D)
    } else {
        None
    }
}

pub open spec fn data_type_of(c: u8) -> Option<DataType> {
    if c == 80 {
        Some(DataType::Position)
    } else if c == 86 {
        Some(DataType::Velocity)
    } else {
        None
    }
}

pub open spec fn orbit_type_of(s: Seq<u8>) -> Option<OrbitType> {
    if exists|o: OrbitType| #[trigger] o.spec_text() == s {
        Some(choose|o: OrbitType| #[trigger] o.spec_text() == s)
    } else {
        None
    }
}

/// Reading of a first header line. The epoch is in UTC.
pub open spec fn parse_line1(line: Seq<u8>) -> Result<Line1View, ParsingError> {
    if line.len() < 59 {
        Err(ParsingError::MalformedH1)
    } else if epoch_from_text(line.subrange(3, 31), TimeScale::UTC).is_none() {
        Err(ParsingError::Epoch)
    } else if parse_uint(line.subrange(32, 40)).is_none() {
        Err(ParsingError::Epoch)
    } else if version_of(line[1]).is_none() {
        Err(ParsingError::NonSupportedRevision)
    } else if data_type_of(line[2]).is_none() {
        Err(ParsingError::UnknownDataType)
    } else if orbit_type_of(trim(line.subrange(51, 55))).is_none() {
        Err(ParsingError::UnknownOrbitType)
    } else {
        Ok(
            Line1View {
                version: version_of(line[1]).unwrap(),
                data_type: data_type_of(line[2]).unwrap(),
                epoch: epoch_from_text(line.subrange(3, 31), TimeScale::UTC).unwrap(),
                fit_type: trim(line.subrange(40, 45)),
                num_epochs: parse_uint(line.subrange(32, 40)).unwrap() as u64,
                coord_system: trim(line.subrange(45, 51)),
                orbit_type: orbit_type_of(trim(line.subrange(51, 55))).unwrap(),
                agency: trim(line.subrange(55, line.len() as int)),
            },
        )
    }
}

/// A first header line that reads back as itself.
pub open spec fn line1_wf(l: Line1View) -> bool {
    &&& l.epoch.wf()
    &&& l.epoch.nanos % 10 == 0
    &&& l.epoch.timescale == TimeScale::UTC
    &&& l.num_epochs < 10_000_000
    &&& is_token(l.fit_type) && l.fit_type.len() <= 5
    &&& is_token(l.coord_system) && l.coord_system.len() <= 6
    &&& is_token(l.agency) && l.agency.len() >= 2
}

fn trimmed_copy(s: &[u8], a: usize, b: usize) -> (r: Vec<u8>)
    requires
        a <= b <= s.len(),
    ensures
        r@ == trim(s@.subrange(a as int, b as int)),
{
    let (i, j) = trim_bounds(s, a, b);
    slice_to_vec(s, i, j)
}

impl Line1 {
    /// Reads a first header line, see [`parse_line1`].
    pub fn parse(line: &[u8]) -> (r: Result<Line1, ParsingError>)
        ensures
            r.is_ok() == parse_line1(line@).is_ok(),
            r matches Ok(l) ==> parse_line1(line@) == Ok::<Line1View, ParsingError>(l@),
            r matches Err(e) ==> parse_line1(line@) == Err::<Line1View, ParsingError>(e),
    {
        if line.len() < 59 {
            return Err(ParsingError::MalformedH1);
        }
        let epoch = match parse_epoch_text(line, 3, TimeScale::UTC) {
            Some(e) => e,
            None => return Err(ParsingError::Epoch),
        };
        let num_epochs = match parse_uint_field(line, 32, 40) {
            Some(n) => n,
            None => return Err(ParsingError::Epoch),
        };
        let version = match Version::from_code(line[1]) {
            Ok(v) => v,
            Err(e) => {
                assert(Version::A.spec_code() != line@[1] && Version::B.spec_code() != line@[1]
                    && Version::C.spec_code() != line@[1] && Version::D.spec_code() != line@[1]);
                return Err(e);
            },
        };
        let data_type = match DataType::from_code(line[2]) {
            Ok(v) => v,
            Err(e) => {
                assert(DataType::Position.spec_code() != line@[2] && DataType::Velocity.spec_code()
                    != line@[2]);
                return Err(e);
            },
        };
        let ot = trimmed_copy(line, 51, 55);
        let orbit_type = match OrbitType::from_bytes(ot.as_slice()) {
            Ok(o) => o,
            Err(e) => return Err(e),
        };
        let l = Line1 {
            version,
            data_type,
            epoch,
            fit_type: trimmed_copy(line, 40, 45),
            num_epochs,
            coord_system: trimmed_copy(line, 45, 51),
            orbit_type,
            agency: trimmed_copy(line, 55, line.len()),
        };
        proof {
            let o = choose|o: OrbitType| #[trigger] o.spec_text() == trim(line@.subrange(51, 55));
            assert(o == orbit_type);
        }
        Ok(l)
    }

    pub fn to_parts(&self) -> (r: (Version, DataType, Vec<u8>, OrbitType, Vec<u8>))
        ensures
            r.0 == self.version,
            r.1 == self.data_type,
            r.2@ == self.coord_system@,
            r.3 == self.orbit_type,
            r.4@ == self.agency@,
    {
        (self.version, self.data_type, self.coord_system.clone(), self.orbit_type, self.agency.clone())
    }

    /// Appends the text of this line, see [`line1_text`].
    pub fn format_into(&self, out: &mut Vec<u8>)
        ensures
            final(out)@ == old(out)@ + line1_text(self@),
    {
        let ghost o = out@;
        out.push(35u8);
        out.push(self.version.code());
        out.push(self.data_type.code());
        push_epoch_text(out, &self.epoch);
        out.push(32u8);
        push_uint_field(out, self.num_epochs, 7);
        out.push(32u8);
        let ghost m = out@;
        assert(m =~= o + line1_head(self@));
        push_left_aligned(out, self.fit_type.as_slice(), 5);
        push_right_aligned(out, self.coord_system.as_slice(), 6);
        let t = self.orbit_type.text();
        push_right_aligned(out, t.as_slice(), 4);
        out.push(32u8);
        out.push(32u8);
        push_bytes(out, self.agency.as_slice());
        assert(out@ =~= m + line1_tail(self@));
        assert(out@ =~= o + line1_text(self@));
    }

    /// The text of this line, see [`line1_text`].
    pub fn format(&self) -> (r: Vec<u8>)
        ensures
            r@ == line1_text(self@),
    {
        let mut out: Vec<u8> = Vec::new();
        self.format_into(&mut out);
        assert(out@ =~= line1_text(self@));
        out
    }
}

impl std::str::FromStr for Line1 {
    type Err = ParsingError;

    fn from_str(s: &str) -> Result<Line1, ParsingError> {
        Line1::parse(s.as_bytes())
    }
}

/// A well-formed first header line reads back as itself.
pub proof fn lemma_line1_round_trip(l: Line1View)
    requires
        line1_wf(l),
    ensures
        parse_line1(line1_text(l)) == Ok::<Line1View, ParsingError>(l),
{
    let t = line1_text(l);
    let h = line1_head(l);
    let u = line1_tail(l);
    lemma_line1_head(l);
    lemma_line1_tail(l);
    assert(t.subrange(0, 40) =~= h);
    assert(t.subrange(3, 31) =~= h.subrange(3, 31));
    assert(t.subrange(32, 40) =~= h.subrange(32, 40));
    assert(t.subrange(40, 45) =~= u.subrange(0, 5));
    assert(t.subrange(45, 51) =~= u.subrange(5, 11));
    assert(t.subrange(51, 55) =~= u.subrange(11, 15));
    assert(t.subrange(55, t.len() as int) =~= u.subrange(15, u.len() as int));
    assert(t[1] == l.version.spec_code());
    assert(t[2] == l.data_type.spec_code());
    let o = choose|o: OrbitType| #[trigger] o.spec_text() == l.orbit_type.spec_text();
    assert(o == l.orbit_type);
}

proof fn lemma_line1_head(l: Line1View)
    requires
        line1_wf(l),
    ensures
        line1_head(l).len() == 40,
        epoch_from_text(line1_head(l).subrange(3, 31), TimeScale::UTC) == Some(l.epoch),
        parse_uint(line1_head(l).subrange(32, 40)) == Some(l.num_epochs as nat),
{
    let h = line1_head(l);
    lemma_epoch_round_trip(l.epoch);
    lemma_digits_props(l.num_epochs as nat);
    lemma_pow10_values();
    assert(pow10(7) == 10_000_000) by {
        reveal_with_fuel(pow10, 8);
    }
    if digits(l.num_epochs as nat).len() > 7 {
        lemma_pow10_monotone(7, (digits(l.num_epochs as nat).len() - 1) as nat);
    }
    let d = digits(l.num_epochs as nat);
    let n7 = right_aligned(d, 7);
    assert(n7.len() == 7);
    assert(h.len() == 40);
    assert(h.subrange(3, 31) =~= epoch_text(l.epoch));
    assert(h.subrange(32, 40) =~= spaces((7 - d.len()) as nat) + d + spaces(1));
    crate::numeric::lemma_trim_padded((7 - d.len()) as nat, d, 1);
}

proof fn lemma_line1_tail(l: Line1View)
    requires
        line1_wf(l),
    ensures
        line1_tail(l).len() == 17 + l.agency.len(),
        trim(line1_tail(l).subrange(0, 5)) == l.fit_type,
        trim(line1_tail(l).subrange(5, 11)) == l.coord_system,
        trim(line1_tail(l).subrange(11, 15)) == l.orbit_type.spec_text(),
        trim(line1_tail(l).subrange(15, line1_tail(l).len() as int)) == l.agency,
{
    let u = line1_tail(l);
    let ft = left_aligned(l.fit_type, 5);
    let cs = right_aligned(l.coord_system, 6);
    let ot = right_aligned(l.orbit_type.spec_text(), 4);
    assert(ft.len() == 5 && cs.len() == 6 && ot.len() == 4);
    assert(u.subrange(0, 5) =~= ft);
    assert(u.subrange(5, 11) =~= cs);
    assert(u.subrange(11, 15) =~= ot);
    assert(u.subrange(15, u.len() as int) =~= seq![32u8, 32u8] + l.agency);
    lemma_trim_left_aligned(l.fit_type, 5);
    lemma_trim_right_aligned(l.coord_system, 6);
    lemma_trim_right_aligned(l.orbit_type.spec_text(), 4);
    assert(seq![32u8, 32u8] + l.agency =~= right_aligned(l.agency, l.agency.len() + 2));
    lemma_trim_right_aligned(l.agency, l.agency.len() + 2);
}

// ------------------------------------------------------------ line 2
/// Second header line: GNSS week, time of week, sampling period and MJD.
#[derive(Clone, Copy, Debug, PartialEq, Eq, Structural)]
pub struct Line2 {
    pub week: u32,
    /// Nanoseconds into the week.
    pub week_nanos: u64,
    /// Modified Julian day.
    pub mjd: u32,
    /// Fraction of the day, in units of 10⁻¹³ day.
    pub mjd_fraction: u64,
    /// Sampling period in nanoseconds.
    pub sampling_period_ns: u64,
}

/// `##`, week (5 wide), seconds of week with 8 decimals (16 wide), sampling
/// seconds with 8 decimals (15 wide), zero-padded MJD (5 wide) and the day
/// fraction with 13 decimals.
pub open spec fn line2_text(l: Line2) -> Seq<u8> {
    seq![35u8, 35u8] + right_aligned(digits(l.week as nat), 5) + right_aligned(
        fixed_text((l.week_nanos / 10) as int, 8),
        16,
    ) + right_aligned(fixed_text((l.sampling_period_ns / 10) as int, 8), 15) + seq![32u8] + zero_padded(
        l.mjd as nat,
        5,
    ) + right_aligned(fixed_text(l.mjd_fraction as int, 13), 16)
}

/// Reading of a second header line of exactly 60 characters.
pub open spec fn parse_line2(line: Seq<u8>) -> Result<Line2, ParsingError> {
    let week = parse_uint(line.subrange(2, 7));
    let sow = parse_fixed(line.subrange(7, 23), 8);
    let dt = parse_fixed(line.subrange(23, 38), 8);
    let mjd = parse_uint(line.subrange(38, 44));
    let frac = parse_fixed(line.subrange(44, 60), 13);
    if line.len() != 60 {
        Err(ParsingError::MalformedH2)
    } else if week.is_none() {
        Err(ParsingError::WeekCounter)
    } else if sow.is_none() || sow.unwrap() < 0 {
        Err(ParsingError::WeekSeconds)
    } else if dt.is_none() || dt.unwrap() < 0 {
        Err(ParsingError::SamplingPeriod)
    } else if mjd.is_none() || frac.is_none() || frac.unwrap() < 0 || frac.unwrap()
        >= 10_000_000_000_000 {
        Err(ParsingError::Mjd)
    } else {
        Ok(
            Line2 {
                week: week.unwrap() as u32,
                week_nanos: (sow.unwrap() * 10) as u64,
                mjd: mjd.unwrap() as u32,
                mjd_fraction: frac.unwrap() as u64,
                sampling_period_ns: (dt.unwrap() * 10) as u64,
            },
        )
    }
}

/// A second header line that reads back as itself.
pub open spec fn line2_wf(l: Line2) -> bool {
    &&& l.week < 100_000
    &&& l.week_nanos % 10 == 0 && l.week_nanos < 1_000_000_000_000_000
    &&& l.sampling_period_ns % 10 == 0 && l.sampling_period_ns < 100_000_000_000_000
    &&& l.mjd < 100_000
    &&& l.mjd_fraction < 10_000_000_000_000
}

impl Line2 {
    /// Reads a second header line, see [`parse_line2`].
    pub fn parse(line: &[u8]) -> (r: Result<Line2, ParsingError>)
        ensures
            r == parse_line2(line@),
    {
        if line.len() != 60 {
            return Err(ParsingError::MalformedH2);
        }
        let week = match parse_uint_field(line, 2, 7) {
            Some(w) => w,
            None => return Err(ParsingError::WeekCounter),
        };
        proof {
            lemma_five_digits(line@.subrange(2, 7));
            lemma_five_digits(line@.subrange(38, 44).drop_first());
        }
        let sow = match parse_fixed_field(line, 7, 23, 8) {
            Some(v) => if v >= 0 {
                v
            } else {
                return Err(ParsingError::WeekSeconds)
            },
            None => return Err(ParsingError::WeekSeconds),
        };
        let dt = match parse_fixed_field(line, 23, 38, 8) {
            Some(v) => if v >= 0 {
                v
            } else {
                return Err(ParsingError::SamplingPeriod)
            },
            None => return Err(ParsingError::SamplingPeriod),
        };
        let mjd = match parse_uint_field(line, 38, 44) {
            Some(v) => v,
            None => return Err(ParsingError::Mjd),
        };
        let frac = match parse_fixed_field(line, 44, 60, 13) {
            Some(v) => if v >= 0 && v < 10_000_000_000_000 {
                v
            } else {
                return Err(ParsingError::Mjd)
            },
            None => return Err(ParsingError::Mjd),
        };
        proof {
            lemma_fixed_bound(line@.subrange(7, 23), 8);
            lemma_fixed_bound(line@.subrange(23, 38), 8);
            lemma_uint_bound(line@.subrange(38, 44));
        }
        Ok(
            Line2 {
                week: week as u32,
                week_nanos: (sow * 10) as u64,
                mjd: mjd as u32,
                mjd_fraction: frac as u64,
                sampling_period_ns: (dt * 10) as u64,
            },
        )
    }

    /// Appends the text of this line, see [`line2_text`].
    pub fn format_into(&self, out: &mut Vec<u8>)
        ensures
            final(out)@ == old(out)@ + line2_text(*self),
    {
        let ghost o = out@;
        out.push(35u8);
        out.push(35u8);
        push_uint_field(out, self.week as u64, 5);
        push_unsigned_fixed_field(out, self.week_nanos / 10, 8, 16);
        push_unsigned_fixed_field(out, self.sampling_period_ns / 10, 8, 15);
        out.push(32u8);
        push_zero_padded(out, self.mjd as u64, 5);
        push_unsigned_fixed_field(out, self.mjd_fraction, 13, 16);
        assert(out@ =~= o + line2_text(*self));
    }

    /// The text of this line, see [`line2_text`].
    pub fn format(&self) -> (r: Vec<u8>)
        ensures
            r@ == line2_text(*self),
    {
        let mut out: Vec<u8> = Vec::new();
        self.format_into(&mut out);
        assert(out@ =~= line2_text(*self));
        out
    }
}

impl std::str::FromStr for Line2 {
    type Err = ParsingError;

    fn from_str(s: &str) -> Result<Line2, ParsingError> {
        Line2::parse(s.as_bytes())
    }
}

proof fn lemma_five_digits(s: Seq<u8>)
    requires
        s.len() <= 5,
    ensures
        parse_uint(s) matches Some(v) ==> v < 100_000,
{
    lemma_uint_bound(s);
    lemma_pow10_monotone(s.len(), 5);
    assert(pow10(5) == 100_000) by {
        reveal_with_fuel(pow10, 6);
    }
}

proof fn lemma_uint_bound(s: Seq<u8>)
    ensures
        parse_uint(s) matches Some(v) ==> v < pow10(s.len()),
{
    if parse_uint(s).is_some() {
        let t = trim(s);
        crate::types::lemma_trim_len(s);
        crate::numeric::lemma_digits_value_bound(t);
        lemma_pow10_monotone(t.len(), s.len());
    }
}

proof fn lemma_fixed_bound(s: Seq<u8>, k: nat)
    requires
        s.len() <= 16,
    ensures
        parse_fixed(s, k) matches Some(v) ==> v < 1_000_000_000_000_000,
{
    if parse_fixed(s, k).is_some() {
        let t = trim(s);
        crate::types::lemma_trim_len(s);
        let u = if t.len() > 0 && t[0] == 45 {
            t.drop_first()
        } else {
            t
        };
        let n = u.len();
        let a = u.subrange(0, n - k - 1);
        let b = u.subrange(n - k, n as int);
        crate::numeric::lemma_digits_value_bound(a);
        crate::numeric::lemma_digits_value_bound(b);
        crate::numeric::lemma_pow10_add(a.len(), k);
        crate::numeric::lemma_pow10_pos(k);
        let pa = pow10(a.len());
        let pk = pow10(k);
        let x = crate::numeric::digits_value(a);
        let y = crate::numeric::digits_value(b);
        assert(x * pk + y < pa * pk) by (nonlinear_arith)
            requires
                x < pa,
                y < pk,
        ;
        lemma_pow10_monotone(a.len() + k, 15);
        assert(pow10(15) == 1_000_000_000_000_000) by {
            reveal_with_fuel(pow10, 16);
        }
    }
}

/// A well-formed second header line reads back as itself.
pub proof fn lemma_line2_round_trip(l: Line2)
    requires
        line2_wf(l),
    ensures
        parse_line2(line2_text(l)) == Ok::<Line2, ParsingError>(l),
{
    let t = line2_text(l);
    lemma_pow10_values();
    assert(pow10(5) == 100_000) by {
        reveal_with_fuel(pow10, 6);
    }
    lemma_digits_props(l.week as nat);
    if digits(l.week as nat).len() > 5 {
        lemma_pow10_monotone(5, (digits(l.week as nat).len() - 1) as nat);
    }
    let wn = (l.week_nanos / 10) as int;
    let dt = (l.sampling_period_ns / 10) as int;
    let fr = l.mjd_fraction as int;
    lemma_fixed_len(wn, 8, 6);
    lemma_fixed_len(dt, 8, 5);
    lemma_fixed_len(fr, 13, 1);
    lemma_zero_padded_props(l.mjd as nat, 5);
    let a = right_aligned(digits(l.week as nat), 5);
    let b = right_aligned(fixed_text(wn, 8), 16);
    let c = right_aligned(fixed_text(dt, 8), 15);
    let z = zero_padded(l.mjd as nat, 5);
    let d = right_aligned(fixed_text(fr, 13), 16);
    assert(t.len() == 60);
    assert(t.subrange(2, 7) =~= a);
    assert(t.subrange(7, 23) =~= b);
    assert(t.subrange(23, 38) =~= c);
    assert(t.subrange(38, 44) =~= seq![32u8] + z);
    assert(t.subrange(44, 60) =~= d);
    lemma_uint_field_round_trip(l.week as nat, 5);
    lemma_fixed_text_round_trip(wn, 8);
    lemma_trim_right_aligned(fixed_text(wn, 8), 16);
    lemma_fixed_text_round_trip(dt, 8);
    lemma_trim_right_aligned(fixed_text(dt, 8), 15);
    lemma_fixed_text_round_trip(fr, 13);
    lemma_trim_right_aligned(fixed_text(fr, 13), 16);
    lemma_zero_padded_round_trip(l.mjd as nat, 5);
    lemma_zero_padded_props(l.mjd as nat, 5);
    assert(is_token(z)) by {
        assert(crate::numeric::is_digit(z[0]) && crate::numeric::is_digit(z[4]));
    }
    assert(seq![32u8] + z =~= right_aligned(z, 6));
    lemma_trim_right_aligned(z, 6);
    lemma_trim_right_aligned(z, 0);
    assert(right_aligned(z, 0) == z);
}

/// Length of the fixed-point text of a value whose integer part has at most `d` digits.
proof fn lemma_fixed_len(v: int, k: nat, d: nat)
    requires
        0 <= v < pow10(d + k),
        d >= 1,
        k <= 13,
    ensures
        fixed_text(v, k).len() <= d + k + 1,
{
    crate::numeric::lemma_pow10_pos(k);
    let q = (v / pow10(k) as int) as nat;
    crate::numeric::lemma_pow10_add(d, k);
    assert(q < pow10(d)) by (nonlinear_arith)
        requires
            v < pow10(d) * pow10(k),
            pow10(k) >= 1,
            q == v / pow10(k) as int,
            v >= 0,
    ;
    lemma_digits_props(q);
    lemma_zero_padded_props((v % pow10(k) as int) as nat, k);
    if digits(q).len() > d {
        lemma_pow10_monotone(d, (digits(q).len() - 1) as nat);
        crate::numeric::lemma_pow10_monotone(1, d);
        assert(pow10(1) == 10) by {
            reveal_with_fuel(pow10, 2);
        }
    }
}

// ------------------------------------------------------------ descriptors
/// First `%c` line: constellation letter and timescale.
pub open spec fn descriptor1_text(c: Constellation, ts: TimeScale) -> Seq<u8> {
    seq![37u8, 99u8, 32u8, c.spec_letter(), 32u8, 32u8, 99u8, 99u8, 32u8] + ts.spec_descriptor()
        + descriptor_tail()
}

pub open spec fn descriptor_tail() -> Seq<u8> {
    seq![32u8, 99u8, 99u8, 99u8, 32u8, 99u8, 99u8, 99u8, 99u8, 32u8, 99u8, 99u8, 99u8, 99u8, 32u8, 99u8, 99u8, 99u8, 99u8, 32u8, 99u8, 99u8, 99u8, 99u8, 32u8, 99u8, 99u8, 99u8, 99u8, 99u8, 32u8, 99u8, 99u8, 99u8, 99u8, 99u8, 32u8, 99u8, 99u8, 99u8, 99u8, 99u8, 32u8, 99u8, 99u8, 99u8, 99u8, 99u8]
}

/// Second `%c` line, a fixed placeholder.
pub open spec fn descriptor2_text() -> Seq<u8> {
    seq![37u8, 99u8, 32u8, 99u8, 99u8, 32u8, 99u8, 99u8, 32u8, 99u8, 99u8, 99u8] + descriptor_tail()
}

fn push_descriptor_tail(out: &mut Vec<u8>)
    ensures
        final(out)@ == old(out)@ + descriptor_tail(),
{
    let t: [u8; 48] = [32u8, 99u8, 99u8, 99u8, 32u8, 99u8, 99u8, 99u8, 99u8, 32u8, 99u8, 99u8, 99u8, 99u8, 32u8, 99u8, 99u8, 99u8, 99u8, 32u8, 99u8, 99u8, 99u8, 99u8, 32u8, 99u8, 99u8, 99u8, 99u8, 99u8, 32u8, 99u8, 99u8, 99u8, 99u8, 99u8, 32u8, 99u8, 99u8, 99u8, 99u8, 99u8, 32u8, 99u8, 99u8, 99u8, 99u8, 99u8];
    push_bytes(out, &t);
    assert(t@ =~= descriptor_tail());
}

/// True for a `%c` line.
pub fn file_descriptor(line: &[u8]) -> (r: bool)
    ensures
        r == (line@.len() > 1 && line@[0] == 37 && line@[1] == 99),
{
    line.len() > 1 && line[0] == 37 && line[1] == 99
}

/// Constellation and timescale of a first `%c` line of at least 60 characters.
pub open spec fn parse_descriptor1(line: Seq<u8>) -> Option<(Constellation, TimeScale)> {
    if line.len() >= 60 && (exists|c: Constellation| c.spec_letter() == line[3])
        && TimeScale::spec_from_descriptor(line.subrange(9, 12)).is_some() {
        Some(
            (
                choose|c: Constellation| c.spec_letter() == line[3],
                TimeScale::spec_from_descriptor(line.subrange(9, 12)).unwrap(),
            ),
        )
    } else {
        None
    }
}

/// Reads the first `%c` line, see [`parse_descriptor1`]; a refused line is returned in the error.
pub fn parse_descriptor(line: &[u8]) -> (r: Result<(Constellation, TimeScale), ParsingError>)
    ensures
        r.is_ok() == parse_descriptor1(line@).is_some(),
        r matches Ok(v) ==> parse_descriptor1(line@) == Some(v),
        r matches Err(e) ==> e matches ParsingError::MalformedDescriptor(t) && t@ == line@,
{
    let ghost whole = line@.subrange(0, line@.len() as int);
    assert(whole =~= line@);
    if line.len() < 60 {
        return Err(ParsingError::MalformedDescriptor(slice_to_vec(line, 0, line.len())));
    }
    let c = match Constellation::from_letter(line[3]) {
        Some(c) => c,
        None => return Err(ParsingError::MalformedDescriptor(slice_to_vec(line, 0, line.len()))),
    };
    let ts = match TimeScale::from_descriptor(line, 9) {
        Some(t) => t,
        None => return Err(ParsingError::MalformedDescriptor(slice_to_vec(line, 0, line.len()))),
    };
    proof {
        let k = choose|k: Constellation| k.spec_letter() == line@[3];
        crate::types::lemma_letter_injective(k, c);
    }
    Ok((c, ts))
}

// ------------------------------------------------------------ header
/// File header.
#[derive(Clone, Debug, PartialEq)]
pub struct Header {
    pub version: Version,
    /// Release epoch (first header line).
    pub release_epoch: Epoch,
    pub data_type: DataType,
    pub coord_system: Vec<u8>,
    pub orbit_type: OrbitType,
    pub observables: Vec<u8>,
    /// Declared number of epochs.
    pub num_epochs: u64,
    pub agency: Vec<u8>,
    pub constellation: Constellation,
    pub timescale: TimeScale,
    pub week: u32,
    /// Nanoseconds into the week.
    pub week_nanos: u64,
    pub mjd: u32,
    /// Fraction of the MJD day, in units of 10⁻¹³ day.
    pub mjd_fraction: u64,
    /// Sampling period in nanoseconds.
    pub sampling_period_ns: u64,
    /// Satellites to be found in the record.
    pub satellites: Vec<SV>,
}

impl Header {
    pub open spec fn line1_view(&self) -> Line1View {
        Line1View {
            version: self.version,
            data_type: self.data_type,
            epoch: self.release_epoch,
            fit_type: self.observables@,
            num_epochs: self.num_epochs,
            coord_system: self.coord_system@,
            orbit_type: self.orbit_type,
            agency: self.agency@,
        }
    }

    pub open spec fn line2_view(&self) -> Line2 {
        Line2 {
            week: self.week,
            week_nanos: self.week_nanos,
            mjd: self.mjd,
            mjd_fraction: self.mjd_fraction,
            sampling_period_ns: self.sampling_period_ns,
        }
    }

    /// The four header lines, each ended by a line feed.
    pub open spec fn spec_text(&self) -> Seq<u8> {
        line1_text(self.line1_view()) + seq![10u8] + line2_text(self.line2_view()) + seq![10u8]
            + descriptor1_text(self.constellation, self.timescale) + seq![10u8]
            + descriptor2_text() + seq![10u8]
    }

    /// The empty header.
    pub open spec fn spec_new() -> HeaderView {
        HeaderView {
            version: Version::D,
            release_epoch: Epoch {
                year: 2000,
                month: 1,
                day: 1,
                hour: 0,
                minute: 0,
                second: 0,
                nanos: 0,
                timescale: TimeScale::UTC,
            },
            data_type: DataType::Position,
            coord_system: Seq::empty(),
            orbit_type: OrbitType::FIT,
            observables: Seq::empty(),
            num_epochs: 0,
            agency: Seq::empty(),
            constellation: Constellation::Mixed,
            timescale: TimeScale::GPST,
            week: 0,
            week_nanos: 0,
            mjd: 0,
            mjd_fraction: 0,
            sampling_period_ns: 0,
            satellites: Seq::empty(),
        }
    }

    /// An empty header: revision `d`, positions only, GPS time, mixed constellations.
    pub fn new() -> (r: Header)
        ensures
            r@ == Header::spec_new(),
    {
        let h = Header {
            version: Version::D,
            release_epoch: Epoch {
                year: 2000,
                month: 1,
                day: 1,
                hour: 0,
                minute: 0,
                second: 0,
                nanos: 0,
                timescale: TimeScale::UTC,
            },
            data_type: DataType::Position,
            coord_system: Vec::new(),
            orbit_type: OrbitType::FIT,
            observables: Vec::new(),
            num_epochs: 0,
            agency: Vec::new(),
            constellation: Constellation::Mixed,
            timescale: TimeScale::GPST,
            week: 0,
            week_nanos: 0,
            mjd: 0,
            mjd_fraction: 0,
            sampling_period_ns: 0,
            satellites: Vec::new(),
        };
        assert(h@ =~= Header::spec_new());
        h
    }

    /// Appends the header lines, see [`Header::spec_text`].
    pub fn format_into(&self, out: &mut Vec<u8>)
        ensures
            final(out)@ == old(out)@ + self.spec_text(),
    {
        let ghost o = out@;
        let l1 = Line1 {
            version: self.version,
            data_type: self.data_type,
            epoch: self.release_epoch,
            fit_type: self.observables.clone(),
            num_epochs: self.num_epochs,
            coord_system: self.coord_system.clone(),
            orbit_type: self.orbit_type,
            agency: self.agency.clone(),
        };
        assert(l1@ == self.line1_view());
        let l2 = Line2 {
            week: self.week,
            week_nanos: self.week_nanos,
            mjd: self.mjd,
            mjd_fraction: self.mjd_fraction,
            sampling_period_ns: self.sampling_period_ns,
        };
        l1.format_into(out);
        out.push(10u8);
        l2.format_into(out);
        out.push(10u8);
        let ghost m = out@;
        let head: [u8; 9] = [37u8, 99u8, 32u8, self.constellation.letter(), 32u8, 32u8, 99u8, 99u8, 32u8];
        push_bytes(out, &head);
        let ts = self.timescale.descriptor();
        push_bytes(out, ts.as_slice());
        push_descriptor_tail(out);
        out.push(10u8);
        assert(out@ =~= m + descriptor1_text(self.constellation, self.timescale) + seq![10u8]);
        let ghost m2 = out@;
        let head2: [u8; 12] = [37u8, 99u8, 32u8, 99u8, 99u8, 32u8, 99u8, 99u8, 32u8, 99u8, 99u8, 99u8];
        push_bytes(out, &head2);
        push_descriptor_tail(out);
        out.push(10u8);
        assert(out@ =~= m2 + descriptor2_text() + seq![10u8]);
        assert(out@ =~= o + self.spec_text());
    }

    /// The header lines, see [`Header::spec_text`].
    pub fn format(&self) -> (r: Vec<u8>)
        ensures
            r@ == self.spec_text(),
    {
        let mut out: Vec<u8> = Vec::new();
        self.format_into(&mut out);
        assert(out@ =~= self.spec_text());
        out
    }
}

/// Header contents with texts as sequences.
pub struct HeaderView {
    pub version: Version,
    pub release_epoch: Epoch,
    pub data_type: DataType,
    pub coord_system: Seq<u8>,
    pub orbit_type: OrbitType,
    pub observables: Seq<u8>,
    pub num_epochs: u64,
    pub agency: Seq<u8>,
    pub constellation: Constellation,
    pub timescale: TimeScale,
    pub week: u32,
    pub week_nanos: u64,
    pub mjd: u32,
    pub mjd_fraction: u64,
    pub sampling_period_ns: u64,
    pub satellites: Seq<SV>,
}

impl View for Header {
    type V = HeaderView;

    open spec fn view(&self) -> HeaderView {
        HeaderView {
            version: self.version,
            release_epoch: self.release_epoch,
            data_type: self.data_type,
            coord_system: self.coord_system@,
            orbit_type: self.orbit_type,
            observables: self.observables@,
            num_epochs: self.num_epochs,
            agency: self.agency@,
            constellation: self.constellation,
            timescale: self.timescale,
            week: self.week,
            week_nanos: self.week_nanos,
            mjd: self.mjd,
            mjd_fraction: self.mjd_fraction,
            sampling_period_ns: self.sampling_period_ns,
            satellites: self.satellites@,
        }
    }
}

fn copy_bytes(v: &Vec<u8>) -> (r: Vec<u8>)
    ensures
        r@ == v@,
{
    let r = slice_to_vec(v.as_slice(), 0, v.len());
    assert(v@.subrange(0, v@.len() as int) =~= v@);
    r
}

/// A copy of a list of satellites.
pub fn copy_satellites(v: &Vec<SV>) -> (r: Vec<SV>)
    ensures
        r@ == v@,
{
    let mut r: Vec<SV> = Vec::new();
    let mut i: usize = 0;
    while i < v.len()
        invariant
            0 <= i <= v@.len(),
            r@ == v@.subrange(0, i as int),
        decreases v.len() - i,
    {
        r.push(v[i]);
        i = i + 1;
        assert(r@ =~= v@.subrange(0, i as int));
    }
    assert(v@.subrange(0, v@.len() as int) =~= v@);
    r
}

impl Header {
    /// A copy of this header.
    pub fn copy(&self) -> (r: Header)
        ensures
            r@ == self@,
    {
        Header {
            version: self.version,
            release_epoch: self.release_epoch,
            data_type: self.data_type,
            coord_system: copy_bytes(&self.coord_system),
            orbit_type: self.orbit_type,
            observables: copy_bytes(&self.observables),
            num_epochs: self.num_epochs,
            agency: copy_bytes(&self.agency),
            constellation: self.constellation,
            timescale: self.timescale,
            week: self.week,
            week_nanos: self.week_nanos,
            mjd: self.mjd,
            mjd_fraction: self.mjd_fraction,
            sampling_period_ns: self.sampling_period_ns,
            satellites: copy_satellites(&self.satellites),
        }
    }
}

} // verus!
