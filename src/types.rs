//! Revision, data and orbit types, constellations, timescales, satellites and epochs.
use crate::errors::ParsingError;
use crate::numeric::{
    digits, lemma_uint_field_round_trip, lemma_zero_padded_props,
    parse_uint, parse_uint_field, push_uint_field, push_zero_padded, right_aligned, zero_padded,
    lemma_zero_padded_round_trip, pow10, lemma_pow10_values, lemma_digits_props,
};
use vstd::prelude::*;

verus! {

/// SP3 file revision.
#[derive(Clone, Copy, Debug, PartialEq, Eq, PartialOrd, Ord, Hash, Structural)]
pub enum Version {
    A,
    B,
    C,
    D,
}

impl Version {
    pub open spec fn spec_code(self) -> u8 {
        match self {
            Version::A => 97,
            Version::B => 98,
            Version::C => 99,
            Version::D => 100,
        }
    }

    /// Revision number, 1 for `a` up to 4 for `d`.
    pub open spec fn spec_number(self) -> u8 {
        match self {
            Version::A => 1,
            Version::B => 2,
            Version::C => 3,
            Version::D => 4,
        }
    }

    /// Revision of a number: 1 to 3 give `a` to `c`, anything else `d`.
    pub open spec fn spec_from_number(n: int) -> Version {
        if n == 1 {
            Version::A
        } else if n == 2 {
            Version::B
        } else if n == 3 {
            Version::C
        } else {
            Version::D
        }
    }

    /// The revision letter of the first header line.
    pub fn code(&self) -> (r: u8)
        ensures
            r == self.spec_code(),
    {
        match self {
            Version::A => 97,
            Version::B => 98,
            Version::C => 99,
            Version::D => 100,
        }
    }

    /// Reads a revision letter.
    pub fn from_code(c: u8) -> (r: Result<Version, ParsingError>)
        ensures
            match r {
                Ok(v) => v.spec_code() == c,
                Err(e) => e == ParsingError::NonSupportedRevision && (forall|v: Version|
                    v.spec_code() != c),
            },
    {
        if c == 97 {
            Ok(Version::A)
        } else if c == 98 {
            Ok(Version::B)
        } else if c == 99 {
            Ok(Version::C)
        } else if c == 100 {
            Ok(Version::D)
        } else {
            Err(ParsingError::NonSupportedRevision)
        }
    }

    /// Reads a revision from its one-letter text.
    pub fn from_bytes(s: &[u8]) -> (r: Result<Version, ParsingError>)
        ensures
            match r {
                Ok(v) => s@ == seq![v.spec_code()],
                Err(e) => e == ParsingError::NonSupportedRevision && (forall|v: Version|
                    s@ != seq![v.spec_code()]),
            },
    {
        if s.len() != 1 {
            return Err(ParsingError::NonSupportedRevision);
        }
        let r = Version::from_code(s[0]);
        assert(s@ =~= seq![s@[0]]);
        r
    }

    pub fn number(&self) -> (r: u8)
        ensures
            r == self.spec_number(),
    {
        match self {
            Version::A => 1,
            Version::B => 2,
            Version::C => 3,
            Version::D => 4,
        }
    }

    pub fn from_number(n: u8) -> (r: Version)
        ensures
            r == Version::spec_from_number(n as int),
    {
        if n == 1 {
            Version::A
        } else if n == 2 {
            Version::B
        } else if n == 3 {
            Version::C
        } else {
            Version::D
        }
    }

    /// The revision `n` steps later, capped at `d`.
    pub fn later(self, n: u8) -> (r: Version)
        ensures
            r == Version::spec_from_number(self.spec_number() + n),
    {
        let s = self.number() as u16 + n as u16;
        if s > 4 {
            Version::D
        } else {
            Version::from_number(s as u8)
        }
    }

    /// The revision `n` steps earlier, floored at `a`.
    pub fn earlier(self, n: u8) -> (r: Version)
        ensures
            r == (if self.spec_number() - n <= 0 {
                Version::A
            } else {
                Version::spec_from_number(self.spec_number() - n)
            }),
    {
        let s = self.number();
        if n >= s {
            Version::A
        } else {
            Version::from_number(s - n)
        }
    }

    /// The earlier of two revisions.
    pub fn min(self, other: Version) -> (r: Version)
        ensures
            r == (if self.spec_number() <= other.spec_number() {
                self
            } else {
                other
            }),
    {
        if self.number() <= other.number() {
            self
        } else {
            other
        }
    }
}

impl Default for Version {
    fn default() -> (r: Version)
        ensures
            r == Version::D,
    {
        Version::D
    }
}

impl From<Version> for u8 {
    fn from(v: Version) -> (r: u8) {
        v.number()
    }
}

impl vstd::std_specs::convert::FromSpecImpl<Version> for u8 {
    open spec fn obeys_from_spec() -> bool {
        true
    }

    open spec fn from_spec(v: Version) -> u8 {
        v.spec_number()
    }
}

impl From<u8> for Version {
    fn from(n: u8) -> (r: Version) {
        Version::from_number(n)
    }
}

impl vstd::std_specs::convert::FromSpecImpl<u8> for Version {
    open spec fn obeys_from_spec() -> bool {
        true
    }

    open spec fn from_spec(n: u8) -> Version {
        Version::spec_from_number(n as int)
    }
}

impl std::ops::Add<u8> for Version {
    type Output = Version;

    fn add(self, n: u8) -> Version {
        self.later(n)
    }
}

impl vstd::std_specs::ops::AddSpecImpl<u8> for Version {
    open spec fn obeys_add_spec() -> bool {
        true
    }

    open spec fn add_req(self, n: u8) -> bool {
        true
    }

    open spec fn add_spec(self, n: u8) -> Version {
        Version::spec_from_number(self.spec_number() + n)
    }
}

impl std::ops::Sub<u8> for Version {
    type Output = Version;

    fn sub(self, n: u8) -> Version {
        self.earlier(n)
    }
}

impl vstd::std_specs::ops::SubSpecImpl<u8> for Version {
    open spec fn obeys_sub_spec() -> bool {
        true
    }

    open spec fn sub_req(self, n: u8) -> bool {
        true
    }

    open spec fn sub_spec(self, n: u8) -> Version {
        if self.spec_number() - n <= 0 {
            Version::A
        } else {
            Version::spec_from_number(self.spec_number() - n)
        }
    }
}

impl std::str::FromStr for Version {
    type Err = ParsingError;

    fn from_str(s: &str) -> Result<Version, ParsingError> {
        Version::from_bytes(s.as_bytes())
    }
}

/// Whether a file carries velocity lines.
#[derive(Clone, Copy, Debug, PartialEq, Eq, Hash, Structural)]
pub enum DataType {
    Position,
    Velocity,
}

impl DataType {
    pub open spec fn spec_code(self) -> u8 {
        match self {
            DataType::Position => 80,
            DataType::Velocity => 86,
        }
    }

    pub fn code(&self) -> (r: u8)
        ensures
            r == self.spec_code(),
    {
        match self {
            DataType::Position => 80,
            DataType::Velocity => 86,
        }
    }

    /// Reads the data-type letter `P` or `V`.
    pub fn from_code(c: u8) -> (r: Result<DataType, ParsingError>)
        ensures
            match r {
                Ok(v) => v.spec_code() == c,
                Err(e) => e == ParsingError::UnknownDataType && (forall|v: DataType|
                    v.spec_code() != c),
            },
    {
        if c == 80 {
            Ok(DataType::Position)
        } else if c == 86 {
            Ok(DataType::Velocity)
        } else {
            Err(ParsingError::UnknownDataType)
        }
    }

    pub fn from_bytes(s: &[u8]) -> (r: Result<DataType, ParsingError>)
        ensures
            match r {
                Ok(v) => s@ == seq![v.spec_code()],
                Err(e) => e == ParsingError::UnknownDataType && (forall|v: DataType|
                    s@ != seq![v.spec_code()]),
            },
    {
        if s.len() != 1 {
            return Err(ParsingError::UnknownDataType);
        }
        assert(s@ =~= seq![s@[0]]);
        DataType::from_code(s[0])
    }
}

impl Default for DataType {
    fn default() -> (r: DataType)
        ensures
            r == DataType::Position,
    {
        DataType::Position
    }
}

impl std::str::FromStr for DataType {
    type Err = ParsingError;

    fn from_str(s: &str) -> Result<DataType, ParsingError> {
        DataType::from_bytes(s.as_bytes())
    }
}

/// Kind of orbit fit behind the published states.
#[derive(Clone, Copy, Debug, PartialEq, Eq, Hash, Structural)]
#[allow(clippy::upper_case_acronyms)]
pub enum OrbitType {
    FIT,
    EXT,
    BCT,
    BHN,
    HLM,
}

impl OrbitType {
    pub open spec fn spec_text(self) -> Seq<u8> {
        match self {
            OrbitType::FIT => seq![70u8, 73u8, 84u8],
            OrbitType::EXT => seq![69u8, 88u8, 84u8],
            OrbitType::BCT => seq![66u8, 67u8, 84u8],
            OrbitType::BHN => seq![66u8, 72u8, 78u8],
            OrbitType::HLM => seq![72u8, 76u8, 77u8],
        }
    }

    pub fn text(&self) -> (r: Vec<u8>)
        ensures
            r@ == self.spec_text(),
    {
        let r = match self {
            OrbitType::FIT => vec![70u8, 73u8, 84u8],
            OrbitType::EXT => vec![69u8, 88u8, 84u8],
            OrbitType::BCT => vec![66u8, 67u8, 84u8],
            OrbitType::BHN => vec![66u8, 72u8, 78u8],
            OrbitType::HLM => vec![72u8, 76u8, 77u8],
        };
        assert(r@ =~= self.spec_text());
        r
    }

    /// Reads the three-letter orbit type.
    pub fn from_bytes(s: &[u8]) -> (r: Result<OrbitType, ParsingError>)
        ensures
            match r {
                Ok(v) => s@ == v.spec_text(),
                Err(e) => e == ParsingError::UnknownOrbitType && (forall|v: OrbitType|
                    s@ != v.spec_text()),
            },
    {
        if s.len() != 3 {
            return Err(ParsingError::UnknownOrbitType);
        }
        assert(s@ =~= seq![s@[0], s@[1], s@[2]]);
        let (a, b, c) = (s[0], s[1], s[2]);
        if a == 70 && b == 73 && c == 84 {
            Ok(OrbitType::FIT)
        } else if a == 69 && b == 88 && c == 84 {
            Ok(OrbitType::EXT)
        } else if a == 66 && b == 67 && c == 84 {
            Ok(OrbitType::BCT)
        } else if a == 66 && b == 72 && c == 78 {
            Ok(OrbitType::BHN)
        } else if a == 72 && b == 76 && c == 77 {
            Ok(OrbitType::HLM)
        } else {
            Err(ParsingError::UnknownOrbitType)
        }
    }
}

impl Default for OrbitType {
    fn default() -> (r: OrbitType)
        ensures
            r == OrbitType::FIT,
    {
        OrbitType::FIT
    }
}

impl std::str::FromStr for OrbitType {
    type Err = ParsingError;

    fn from_str(s: &str) -> Result<OrbitType, ParsingError> {
        OrbitType::from_bytes(s.as_bytes())
    }
}

/// GNSS constellation.
#[derive(Clone, Copy, Debug, PartialEq, Eq, PartialOrd, Ord, Hash, Structural)]
pub enum Constellation {
    GPS,
    Glonass,
    Galileo,
    BeiDou,
    QZSS,
    IRNSS,
    SBAS,
    Mixed,
}

impl Constellation {
    /// Position in the satellite ordering.
    pub open spec fn spec_rank(self) -> int {
        match self {
            Constellation::GPS => 0,
            Constellation::Glonass => 1,
            Constellation::Galileo => 2,
            Constellation::BeiDou => 3,
            Constellation::QZSS => 4,
            Constellation::IRNSS => 5,
            Constellation::SBAS => 6,
            Constellation::Mixed => 7,
        }
    }

    pub open spec fn spec_letter(self) -> u8 {
        match self {
            Constellation::GPS => 71,
            Constellation::Glonass => 82,
            Constellation::Galileo => 69,
            Constellation::BeiDou => 67,
            Constellation::QZSS => 74,
            Constellation::IRNSS => 73,
            Constellation::SBAS => 83,
            Constellation::Mixed => 77,
        }
    }

    pub fn rank(&self) -> (r: u8)
        ensures
            r as int == self.spec_rank(),
    {
        match self {
            Constellation::GPS => 0,
            Constellation::Glonass => 1,
            Constellation::Galileo => 2,
            Constellation::BeiDou => 3,
            Constellation::QZSS => 4,
            Constellation::IRNSS => 5,
            Constellation::SBAS => 6,
            Constellation::Mixed => 7,
        }
    }

    /// One-letter code (`G`, `R`, `E`, `C`, `J`, `I`, `S`, `M`).
    pub fn letter(&self) -> (r: u8)
        ensures
            r == self.spec_letter(),
    {
        match self {
            Constellation::GPS => 71,
            Constellation::Glonass => 82,
            Constellation::Galileo => 69,
            Constellation::BeiDou => 67,
            Constellation::QZSS => 74,
            Constellation::IRNSS => 73,
            Constellation::SBAS => 83,
            Constellation::Mixed => 77,
        }
    }

    pub fn from_letter(c: u8) -> (r: Option<Constellation>)
        ensures
            match r {
                Some(k) => k.spec_letter() == c,
                None => forall|k: Constellation| k.spec_letter() != c,
            },
    {
        if c == 71 {
            Some(Constellation::GPS)
        } else if c == 82 {
            Some(Constellation::Glonass)
        } else if c == 69 {
            Some(Constellation::Galileo)
        } else if c == 67 {
            Some(Constellation::BeiDou)
        } else if c == 74 {
            Some(Constellation::QZSS)
        } else if c == 73 {
            Some(Constellation::IRNSS)
        } else if c == 83 {
            Some(Constellation::SBAS)
        } else if c == 77 {
            Some(Constellation::Mixed)
        } else {
            None
        }
    }

    pub fn same(&self, other: &Constellation) -> (r: bool)
        ensures
            r == (*self == *other),
    {
        self.rank() == other.rank()
    }
}

/// Timescale in which epochs are expressed.
#[derive(Clone, Copy, Debug, PartialEq, Eq, Hash, Structural)]
pub enum TimeScale {
    GPST,
    GST,
    BDT,
    QZSST,
    UTC,
    TAI,
}

impl TimeScale {
    /// Three-letter name written in the first `%c` line.
    pub open spec fn spec_descriptor(self) -> Seq<u8> {
        match self {
            TimeScale::GPST => seq![71u8, 80u8, 83u8],
            TimeScale::GST => seq![71u8, 65u8, 76u8],
            TimeScale::QZSST => seq![81u8, 90u8, 83u8],
            TimeScale::UTC => seq![85u8, 84u8, 67u8],
            _ => seq![84u8, 65u8, 73u8],
        }
    }

    /// Timescale named by a three-letter `%c` code.
    pub open spec fn spec_from_descriptor(s: Seq<u8>) -> Option<TimeScale> {
        if s == seq![71u8, 80u8, 83u8] {
            Some(TimeScale::GPST)
        } else if s == seq![71u8, 65u8, 76u8] {
            Some(TimeScale::GST)
        } else if s == seq![71u8, 76u8, 79u8] {
            Some(TimeScale::UTC)
        } else if s == seq![81u8, 90u8, 83u8] {
            Some(TimeScale::QZSST)
        } else if s == seq![66u8, 68u8, 83u8] {
            Some(TimeScale::BDT)
        } else if s == seq![85u8, 84u8, 67u8] {
            Some(TimeScale::UTC)
        } else if s == seq![84u8, 65u8, 73u8] {
            Some(TimeScale::TAI)
        } else {
            None
        }
    }

    pub fn descriptor(&self) -> (r: Vec<u8>)
        ensures
            r@ == self.spec_descriptor(),
    {
        let r = match self {
            TimeScale::GPST => vec![71u8, 80u8, 83u8],
            TimeScale::GST => vec![71u8, 65u8, 76u8],
            TimeScale::QZSST => vec![81u8, 90u8, 83u8],
            TimeScale::UTC => vec![85u8, 84u8, 67u8],
            _ => vec![84u8, 65u8, 73u8],
        };
        assert(r@ =~= self.spec_descriptor());
        r
    }

    /// Reads the three-letter code `s[start..start + 3]`.
    pub fn from_descriptor(s: &[u8], start: usize) -> (r: Option<TimeScale>)
        requires
            start + 3 <= s.len(),
        ensures
            r == TimeScale::spec_from_descriptor(s@.subrange(start as int, start + 3)),
    {
        let ghost t = s@.subrange(start as int, start + 3);
        assert(t =~= seq![s@[start as int], s@[start + 1], s@[start + 2]]);
        let (a, b, c) = (s[start], s[start + 1], s[start + 2]);
        if a == 71 && b == 80 && c == 83 {
            Some(TimeScale::GPST)
        } else if a == 71 && b == 65 && c == 76 {
            Some(TimeScale::GST)
        } else if a == 71 && b == 76 && c == 79 {
            Some(TimeScale::UTC)
        } else if a == 81 && b == 90 && c == 83 {
            Some(TimeScale::QZSST)
        } else if a == 66 && b == 68 && c == 83 {
            Some(TimeScale::BDT)
        } else if a == 85 && b == 84 && c == 67 {
            Some(TimeScale::UTC)
        } else if a == 84 && b == 65 && c == 73 {
            Some(TimeScale::TAI)
        } else {
            None
        }
    }
}

impl Default for TimeScale {
    fn default() -> (r: TimeScale)
        ensures
            r == TimeScale::GPST,
    {
        TimeScale::GPST
    }
}

/// A satellite: constellation and PRN number.
#[derive(Clone, Copy, Debug, PartialEq, Eq, PartialOrd, Ord, Hash, Structural)]
pub struct SV {
    pub constellation: Constellation,
    pub prn: u8,
}

/// Satellite ordering: by constellation, then PRN.
pub open spec fn sv_lt(a: SV, b: SV) -> bool {
    a.constellation.spec_rank() < b.constellation.spec_rank() || (a.constellation
        == b.constellation && a.prn < b.prn)
}

/// Text form: constellation letter and two-digit PRN (`G01`).
pub open spec fn sv_text(sv: SV) -> Seq<u8> {
    seq![sv.constellation.spec_letter()] + zero_padded(sv.prn as nat, 2)
}

impl SV {
    pub fn new(constellation: Constellation, prn: u8) -> (r: SV)
        ensures
            r.constellation == constellation,
            r.prn == prn,
    {
        SV { constellation, prn }
    }

    /// Orders satellites by constellation, then PRN.
    pub fn lt(&self, other: &SV) -> (r: bool)
        ensures
            r == sv_lt(*self, *other),
    {
        let (a, b) = (self.constellation.rank(), other.constellation.rank());
        a < b || (a == b && self.prn < other.prn)
    }

    pub fn same(&self, other: &SV) -> (r: bool)
        ensures
            r == (*self == *other),
    {
        self.constellation.same(&other.constellation) && self.prn == other.prn
    }

    /// Appends the three-character text of this satellite.
    pub fn push_text(&self, out: &mut Vec<u8>)
        requires
            self.prn < 100,
        ensures
            final(out)@ == old(out)@ + sv_text(*self),
    {
        out.push(self.constellation.letter());
        push_zero_padded(out, self.prn as u64, 2);
        assert(final(out)@ =~= old(out)@ + sv_text(*self));
    }

    /// Reads a satellite from `s[start..start + 3]`: a letter and a PRN number
    /// (digits, maybe after spaces). Without `letter`, the satellite is a GPS one.
    pub fn from_field(s: &[u8], start: usize, letter: bool) -> (r: Option<SV>)
        requires
            start + 3 <= s.len(),
        ensures
            r == sv_from_field(s@.subrange(start as int, start + 3), letter),
    {
        let c = if letter {
            Constellation::from_letter(s[start])
        } else {
            Some(Constellation::GPS)
        };
        let ghost f = s@.subrange(start as int, start + 3);
        assert(f.subrange(1, 3) =~= s@.subrange(start + 1, start + 3));
        match c {
            None => None,
            Some(k) => match parse_uint_field(s, start + 1, start + 3) {
                None => None,
                Some(p) => {
                    proof {
                        crate::numeric::lemma_pow10_values();
                        let t = crate::numeric::trim(f.subrange(1, 3));
                        lemma_trim_len(f.subrange(1, 3));
                        crate::numeric::lemma_digits_value_bound(t);
                        crate::numeric::lemma_pow10_monotone(t.len(), 2);
                        assert(pow10(2) == 100) by {
                            reveal_with_fuel(pow10, 3);
                        }
                    }
                    Some(SV { constellation: k, prn: p as u8 })
                },
            },
        }
    }
}

pub proof fn lemma_trim_len(s: Seq<u8>)
    ensures
        crate::numeric::trim(s).len() <= s.len(),
{
    lemma_trim_start_len(s);
    lemma_trim_end_len(crate::numeric::trim_start(s));
}

proof fn lemma_trim_start_len(s: Seq<u8>)
    ensures
        crate::numeric::trim_start(s).len() <= s.len(),
    decreases s.len(),
{
    if s.len() > 0 && s[0] == 32 {
        lemma_trim_start_len(s.drop_first());
    }
}

proof fn lemma_trim_end_len(s: Seq<u8>)
    ensures
        crate::numeric::trim_end(s).len() <= s.len(),
    decreases s.len(),
{
    if s.len() > 0 && s.last() == 32 {
        lemma_trim_end_len(s.drop_last());
    }
}

/// Satellite read from a three-character field.
pub open spec fn sv_from_field(f: Seq<u8>, letter: bool) -> Option<SV> {
    let c = if letter {
        if exists|k: Constellation| k.spec_letter() == f[0] {
            Some(choose|k: Constellation| k.spec_letter() == f[0])
        } else {
            None
        }
    } else {
        Some(Constellation::GPS)
    };
    match (c, parse_uint(f.subrange(1, 3))) {
        (Some(k), Some(p)) => Some(SV { constellation: k, prn: p as u8 }),
        _ => None,
    }
}

/// A satellite read from a three-character field has a two-digit PRN.
pub proof fn lemma_sv_field_prn(f: Seq<u8>, letter: bool)
    requires
        f.len() == 3,
    ensures
        sv_from_field(f, letter) matches Some(sv) ==> sv.prn < 100,
{
    let g = f.subrange(1, 3);
    if parse_uint(g).is_some() {
        let t = crate::numeric::trim(g);
        lemma_trim_len(g);
        crate::numeric::lemma_digits_value_bound(t);
        crate::numeric::lemma_pow10_monotone(t.len(), 2);
        assert(pow10(2) == 100) by {
            reveal_with_fuel(pow10, 3);
        }
    }
}

pub proof fn lemma_letter_injective(a: Constellation, b: Constellation)
    ensures
        a.spec_letter() == b.spec_letter() ==> a == b,
{
}

/// A satellite text reads back as the satellite.
pub proof fn lemma_sv_round_trip(sv: SV)
    requires
        sv.prn < 100,
    ensures
        sv_from_field(sv_text(sv), true) == Some(sv),
{
    let f = sv_text(sv);
    assert(f[0] == sv.constellation.spec_letter());
    let k = choose|k: Constellation| k.spec_letter() == f[0];
    lemma_letter_injective(k, sv.constellation);
    lemma_zero_padded_props(sv.prn as nat, 2);
    assert(f.subrange(1, 3) =~= zero_padded(sv.prn as nat, 2));
    assert(pow10(2) == 100) by {
        reveal_with_fuel(pow10, 3);
    }
    lemma_zero_padded_round_trip(sv.prn as nat, 2);
}

/// An instant, written as calendar date and time of day in a timescale.
#[derive(Clone, Copy, Debug, PartialEq, Eq, Hash, Structural)]
pub struct Epoch {
    pub year: u16,
    pub month: u8,
    pub day: u8,
    pub hour: u8,
    pub minute: u8,
    pub second: u8,
    pub nanos: u32,
    pub timescale: TimeScale,
}

pub open spec fn is_leap_year(y: int) -> bool {
    (y % 4 == 0 && y % 100 != 0) || y % 400 == 0
}

pub open spec fn days_in_month(y: int, m: int) -> int {
    if m == 2 {
        if is_leap_year(y) {
            29
        } else {
            28
        }
    } else if m == 4 || m == 6 || m == 9 || m == 11 {
        30
    } else {
        31
    }
}

/// Days from 1970-01-01 to a proleptic Gregorian date.
pub open spec fn days_from_civil(y: int, m: int, d: int) -> int {
    let yy = if m <= 2 {
        y - 1
    } else {
        y
    };
    let era = yy / 400;
    let yoe = yy - era * 400;
    let mp = if m > 2 {
        m - 3
    } else {
        m + 9
    };
    let doy = (153 * mp + 2) / 5 + d - 1;
    let doe = yoe * 365 + yoe / 4 - yoe / 100 + doy;
    era * 146097 + doe - 719468
}

pub const NANOS_PER_DAY: i128 = 86_400_000_000_000;

impl Epoch {
    /// A valid calendar date and time of day, with the year on four digits.
    pub open spec fn wf(self) -> bool {
        &&& self.year <= 9999
        &&& 1 <= self.month <= 12
        &&& 1 <= self.day <= days_in_month(self.year as int, self.month as int)
        &&& self.hour < 24
        &&& self.minute < 60
        &&& self.second < 60
        &&& self.nanos < 1_000_000_000
    }

    /// Nanoseconds since 1970-01-01 00:00:00 of the same timescale.
    pub open spec fn spec_ns(self) -> int {
        days_from_civil(self.year as int, self.month as int, self.day as int) * NANOS_PER_DAY
            + self.hour as int * 3_600_000_000_000 + self.minute as int * 60_000_000_000
            + self.second as int * 1_000_000_000 + self.nanos as int
    }

    /// Calendar order of two epochs (the timescale is not compared).
    pub open spec fn spec_lt(self, o: Epoch) -> bool {
        self.year < o.year || (self.year == o.year && (self.month < o.month || (self.month
            == o.month && (self.day < o.day || (self.day == o.day && (self.hour < o.hour || (
        self.hour == o.hour && (self.minute < o.minute || (self.minute == o.minute && (
        self.second < o.second || (self.second == o.second && self.nanos < o.nanos)))))))))))
    }

    /// Same calendar date and time of day.
    pub open spec fn spec_same_instant(self, o: Epoch) -> bool {
        self.year == o.year && self.month == o.month && self.day == o.day && self.hour == o.hour
            && self.minute == o.minute && self.second == o.second && self.nanos == o.nanos
    }

    pub fn lt(&self, o: &Epoch) -> (r: bool)
        ensures
            r == self.spec_lt(*o),
    {
        if self.year != o.year {
            return self.year < o.year;
        }
        if self.month != o.month {
            return self.month < o.month;
        }
        if self.day != o.day {
            return self.day < o.day;
        }
        if self.hour != o.hour {
            return self.hour < o.hour;
        }
        if self.minute != o.minute {
            return self.minute < o.minute;
        }
        if self.second != o.second {
            return self.second < o.second;
        }
        self.nanos < o.nanos
    }

    pub fn same_instant(&self, o: &Epoch) -> (r: bool)
        ensures
            r == self.spec_same_instant(*o),
    {
        self.year == o.year && self.month == o.month && self.day == o.day && self.hour == o.hour
            && self.minute == o.minute && self.second == o.second && self.nanos == o.nanos
    }

    /// Days from 1970-01-01 to the date of this epoch.
    pub fn day_number(&self) -> (r: i128)
        ensures
            r as int == days_from_civil(self.year as int, self.month as int, self.day as int),
    {
        let y = self.year as i128;
        let m = self.month as i128;
        let d = self.day as i128;
        let yy = if m <= 2 {
            y - 1
        } else {
            y
        };
        let era = if yy >= 0 {
            yy / 400
        } else {
            -1
        };
        assert(era == yy / 400);
        let yoe = yy - era * 400;
        let mp = if m > 2 {
            m - 3
        } else {
            m + 9
        };
        let doy = (153 * mp + 2) / 5 + d - 1;
        let doe = yoe * 365 + yoe / 4 - yoe / 100 + doy;
        era * 146097 + doe - 719468
    }

    /// Nanoseconds since 1970-01-01 00:00:00 of the same timescale.
    pub fn to_ns(&self) -> (r: i128)
        ensures
            r as int == self.spec_ns(),
    {
        let y = self.year as i128;
        let m = self.month as i128;
        let d = self.day as i128;
        let yy = if m <= 2 {
            y - 1
        } else {
            y
        };
        // `yy` is at least -1, so flooring division by 400 stays in reach
        let era = if yy >= 0 {
            yy / 400
        } else {
            -1
        };
        assert(era == yy / 400);
        let yoe = yy - era * 400;
        let mp = if m > 2 {
            m - 3
        } else {
            m + 9
        };
        let doy = (153 * mp + 2) / 5 + d - 1;
        let doe = yoe * 365 + yoe / 4 - yoe / 100 + doy;
        let days = era * 146097 + doe - 719468;
        days * NANOS_PER_DAY + self.hour as i128 * 3_600_000_000_000 + self.minute as i128
            * 60_000_000_000 + self.second as i128 * 1_000_000_000 + self.nanos as i128
    }
}

// ------------------------------------------------------------ epoch text
/// A space and a two-character right-aligned number.
pub open spec fn spaced2(n: nat) -> Seq<u8> {
    seq![32u8] + right_aligned(digits(n), 2)
}

/// `YYYY mm dd hh mm ss.ffffffff`: the date and time layout of the first
/// header line and of epoch markers, with a resolution of 10 ns.
pub open spec fn epoch_text(e: Epoch) -> Seq<u8> {
    zero_padded(e.year as nat, 4) + spaced2(e.month as nat) + spaced2(e.day as nat) + spaced2(
        e.hour as nat,
    ) + spaced2(e.minute as nat) + spaced2(e.second as nat) + seq![46u8] + zero_padded(
        (e.nanos / 10) as nat,
        8,
    )
}

/// Date and time read from 28 characters laid out as [`epoch_text`], in `ts`.
pub open spec fn epoch_from_text(t: Seq<u8>, ts: TimeScale) -> Option<Epoch> {
    let y = parse_uint(t.subrange(0, 4));
    let mo = parse_uint(t.subrange(4, 7));
    let d = parse_uint(t.subrange(7, 10));
    let h = parse_uint(t.subrange(10, 13));
    let mi = parse_uint(t.subrange(13, 16));
    let s = parse_uint(t.subrange(16, 19));
    let f = parse_uint(t.subrange(20, 28));
    if y.is_some() && mo.is_some() && d.is_some() && h.is_some() && mi.is_some() && s.is_some()
        && f.is_some() && t[19] == 46 && y.unwrap() <= 9999 && mo.unwrap() <= 12 && d.unwrap()
        <= 31 && h.unwrap() <= 23 && mi.unwrap() <= 59 && s.unwrap() <= 59 && f.unwrap()
        <= 99_999_999 {
        let e = Epoch {
            year: y.unwrap() as u16,
            month: mo.unwrap() as u8,
            day: d.unwrap() as u8,
            hour: h.unwrap() as u8,
            minute: mi.unwrap() as u8,
            second: s.unwrap() as u8,
            nanos: (f.unwrap() * 10) as u32,
            timescale: ts,
        };
        if e.wf() {
            Some(e)
        } else {
            None
        }
    } else {
        None
    }
}

fn push_spaced2(out: &mut Vec<u8>, n: u8)
    ensures
        final(out)@ == old(out)@ + spaced2(n as nat),
{
    out.push(32u8);
    push_uint_field(out, n as u64, 2);
    assert(final(out)@ =~= old(out)@ + spaced2(n as nat));
}

/// Appends [`epoch_text`] of `e`.
pub fn push_epoch_text(out: &mut Vec<u8>, e: &Epoch)
    ensures
        final(out)@ == old(out)@ + epoch_text(*e),
{
    let ghost o = out@;
    push_zero_padded(out, e.year as u64, 4);
    push_spaced2(out, e.month);
    push_spaced2(out, e.day);
    push_spaced2(out, e.hour);
    push_spaced2(out, e.minute);
    push_spaced2(out, e.second);
    out.push(46u8);
    push_zero_padded(out, (e.nanos / 10) as u64, 8);
    assert(out@ =~= o + epoch_text(*e));
}

fn small_field(s: &[u8], a: usize, b: usize, max: u64) -> (r: Option<u64>)
    requires
        a <= b <= s.len(),
        b - a <= 19,
    ensures
        r == (match parse_uint(s@.subrange(a as int, b as int)) {
            Some(v) => if v <= max {
                Some(v as u64)
            } else {
                None::<u64>
            },
            None => None,
        }),
{
    match parse_uint_field(s, a, b) {
        Some(v) => if v <= max {
            Some(v)
        } else {
            None
        },
        None => None,
    }
}

/// Reads [`epoch_text`] from `s[start..start + 28]`, in timescale `ts`.
pub fn parse_epoch_text(s: &[u8], start: usize, ts: TimeScale) -> (r: Option<Epoch>)
    requires
        start + 28 <= s.len(),
    ensures
        r == epoch_from_text(s@.subrange(start as int, start + 28), ts),
{
    let ghost t = s@.subrange(start as int, start + 28);
    assert(t.subrange(0, 4) =~= s@.subrange(start as int, start + 4));
    assert(t.subrange(4, 7) =~= s@.subrange(start + 4, start + 7));
    assert(t.subrange(7, 10) =~= s@.subrange(start + 7, start + 10));
    assert(t.subrange(10, 13) =~= s@.subrange(start + 10, start + 13));
    assert(t.subrange(13, 16) =~= s@.subrange(start + 13, start + 16));
    assert(t.subrange(16, 19) =~= s@.subrange(start + 16, start + 19));
    assert(t.subrange(20, 28) =~= s@.subrange(start + 20, start + 28));
    let y = small_field(s, start, start + 4, 9999);
    let mo = small_field(s, start + 4, start + 7, 12);
    let d = small_field(s, start + 7, start + 10, 31);
    let h = small_field(s, start + 10, start + 13, 23);
    let mi = small_field(s, start + 13, start + 16, 59);
    let sec = small_field(s, start + 16, start + 19, 59);
    let f = small_field(s, start + 20, start + 28, 99_999_999);
    if y.is_none() || mo.is_none() || d.is_none() || h.is_none() || mi.is_none() || sec.is_none()
        || f.is_none() || s[start + 19] != 46 {
        return None;
    }
    let e = Epoch {
        year: y.unwrap() as u16,
        month: mo.unwrap() as u8,
        day: d.unwrap() as u8,
        hour: h.unwrap() as u8,
        minute: mi.unwrap() as u8,
        second: sec.unwrap() as u8,
        nanos: (f.unwrap() * 10) as u32,
        timescale: ts,
    };
    if e.day as u64 > days_in_month_exec(e.year, e.month) as u64 || e.day == 0 || e.month == 0 {
        return None;
    }
    Some(e)
}

pub fn days_in_month_exec(y: u16, m: u8) -> (r: u8)
    ensures
        r as int == days_in_month(y as int, m as int),
{
    if m == 2 {
        if (y % 4 == 0 && y % 100 != 0) || y % 400 == 0 {
            29
        } else {
            28
        }
    } else if m == 4 || m == 6 || m == 9 || m == 11 {
        30
    } else {
        31
    }
}

/// The date and time text of a valid epoch reads back as the epoch, to 10 ns.
pub proof fn lemma_epoch_round_trip(e: Epoch)
    requires
        e.wf(),
        e.nanos % 10 == 0,
    ensures
        epoch_text(e).len() == 28,
        epoch_from_text(epoch_text(e), e.timescale) == Some(e),
{
    let t = epoch_text(e);
    lemma_pow10_values();
    assert(pow10(4) == 10000 && pow10(2) == 100) by {
        reveal_with_fuel(pow10, 5);
    }
    lemma_zero_padded_props(e.year as nat, 4);
    lemma_zero_padded_props((e.nanos / 10) as nat, 8);
    lemma_two_digit_field(e.month as nat);
    lemma_two_digit_field(e.day as nat);
    lemma_two_digit_field(e.hour as nat);
    lemma_two_digit_field(e.minute as nat);
    lemma_two_digit_field(e.second as nat);
    assert(t.len() == 28);
    assert(t.subrange(0, 4) =~= zero_padded(e.year as nat, 4));
    assert(t.subrange(4, 7) =~= spaced2(e.month as nat));
    assert(t.subrange(7, 10) =~= spaced2(e.day as nat));
    assert(t.subrange(10, 13) =~= spaced2(e.hour as nat));
    assert(t.subrange(13, 16) =~= spaced2(e.minute as nat));
    assert(t.subrange(16, 19) =~= spaced2(e.second as nat));
    assert(t.subrange(20, 28) =~= zero_padded((e.nanos / 10) as nat, 8));
    lemma_zero_padded_round_trip(e.year as nat, 4);
    lemma_zero_padded_round_trip((e.nanos / 10) as nat, 8);
    lemma_spaced_uint(e.month as nat);
    lemma_spaced_uint(e.day as nat);
    lemma_spaced_uint(e.hour as nat);
    lemma_spaced_uint(e.minute as nat);
    lemma_spaced_uint(e.second as nat);
}

proof fn lemma_two_digit_field(n: nat)
    requires
        n < 100,
    ensures
        right_aligned(digits(n), 2).len() == 2,
        spaced2(n).len() == 3,
{
    lemma_digits_props(n);
    if n >= 10 {
        assert(digits(n / 10) =~= seq![digit_char_of(n / 10)]);
    }
}

spec fn digit_char_of(n: nat) -> u8 {
    crate::numeric::digit_char(n)
}

proof fn lemma_spaced_uint(n: nat)
    ensures
        parse_uint(spaced2(n)) == Some(n),
{
    lemma_digits_props(n);
    let d = digits(n);
    let k: nat = if d.len() >= 2 {
        1
    } else {
        (3 - d.len()) as nat
    };
    assert(seq![32u8] + right_aligned(d, 2) =~= right_aligned(d, (d.len() + k) as nat));
    lemma_uint_field_round_trip(n, (d.len() + k) as nat);
}

} // verus!
