//! Production attributes carried by standardized file names,
//! `AAABCCCDDD_YYYYDDDHHMM_PPP_NNU_ORB.SP3[.gz]`.
use crate::errors::{slice_to_vec, ParsingError};
use crate::numeric::{
    all_digits, digits, digits_value, is_digit, lemma_pow10_values,
    pow10, push_bytes, push_digits, push_zero_padded, zero_padded,
};
use crate::types::{days_in_month, days_in_month_exec, Epoch, TimeScale};
use vstd::prelude::*;

verus! {

/// Campaign a product belongs to.
#[derive(Clone, Copy, Debug, PartialEq, Eq, Structural)]
pub enum Campaign {
    Demo,
    MGX,
    OPS,
    /// Reprocessing campaign, with its iteration number.
    Reprocessing(u8),
    TGA,
    Test,
}

/// Delay between observation and release.
#[derive(Clone, Copy, Debug, PartialEq, Eq, Structural)]
pub enum Availability {
    UltraRapid,
    Rapid,
    Final,
}

/// Time span covered by one file.
#[derive(Clone, Copy, Debug, PartialEq, Eq, Structural)]
pub enum ReleasePeriod {
    Daily,
    Hourly,
    HalfDay,
    Weekly,
    Monthly,
    Yearly,
}

/// Release year and day of year (starting at 1).
#[derive(Clone, Copy, Debug, PartialEq, Eq, Structural)]
pub struct ReleaseDate {
    pub year: u16,
    pub doy: u16,
}

/// Attributes of a standardized file name.
#[derive(Clone, Debug, PartialEq)]
pub struct ProductionAttributes {
    /// Three-letter agency code.
    pub agency: Vec<u8>,
    /// Batch number (one digit).
    pub batch_id: u8,
    pub release_date: ReleaseDate,
    pub release_period: ReleasePeriod,
    pub campaign: Campaign,
    pub availability: Availability,
    /// Sampling period in seconds.
    pub sampling_period_s: u64,
    /// True when the name ends in `.gz`.
    pub gzip_compressed: bool,
}

pub open spec fn bytes3(a: u8, b: u8, c: u8) -> Seq<u8> {
    seq![a, b, c]
}

/// Zero-padded to at least `w` digits, as `{:0w}` writes it.
pub open spec fn padded(n: nat, w: nat) -> Seq<u8> {
    if n < pow10(w) {
        zero_padded(n, w)
    } else {
        digits(n)
    }
}

fn push_padded(out: &mut Vec<u8>, n: u64, w: usize)
    requires
        w <= 18,
    ensures
        final(out)@ == old(out)@ + padded(n as nat, w as nat),
{
    let p = crate::numeric::pow10_exec(w);
    if n < p {
        push_zero_padded(out, n, w);
    } else {
        push_digits(out, n);
    }
}

impl Campaign {
    pub open spec fn spec_text(self) -> Seq<u8> {
        match self {
            Campaign::Demo => bytes3(68, 69, 77),
            Campaign::MGX => bytes3(77, 71, 88),
            Campaign::OPS => bytes3(79, 80, 83),
            Campaign::TGA => bytes3(84, 71, 65),
            Campaign::Test => bytes3(84, 83, 84),
            Campaign::Reprocessing(n) => seq![82u8] + padded(n as nat, 2),
        }
    }

    /// Campaign named by three characters: `DEM`, `MGX`, `OPS`, `TGA`, `TST`, or `R` and two digits.
    pub open spec fn spec_parse(t: Seq<u8>) -> Option<Campaign> {
        if t == bytes3(68, 69, 77) {
            Some(Campaign::Demo)
        } else if t == bytes3(77, 71, 88) {
            Some(Campaign::MGX)
        } else if t == bytes3(79, 80, 83) {
            Some(Campaign::OPS)
        } else if t == bytes3(84, 71, 65) {
            Some(Campaign::TGA)
        } else if t == bytes3(84, 83, 84) {
            Some(Campaign::Test)
        } else if t.len() == 3 && t[0] == 82 && is_digit(t[1]) && is_digit(t[2]) {
            Some(Campaign::Reprocessing(((t[1] - 48) * 10 + (t[2] - 48)) as u8))
        } else {
            None
        }
    }

    pub fn push_text(&self, out: &mut Vec<u8>)
        ensures
            final(out)@ == old(out)@ + self.spec_text(),
    {
        let ghost o = out@;
        match self {
            Campaign::Demo => push_bytes(out, &[68u8, 69u8, 77u8]),
            Campaign::MGX => push_bytes(out, &[77u8, 71u8, 88u8]),
            Campaign::OPS => push_bytes(out, &[79u8, 80u8, 83u8]),
            Campaign::TGA => push_bytes(out, &[84u8, 71u8, 65u8]),
            Campaign::Test => push_bytes(out, &[84u8, 83u8, 84u8]),
            Campaign::Reprocessing(n) => {
                out.push(82u8);
                push_padded(out, *n as u64, 2);
            },
        }
        assert(out@ =~= o + self.spec_text());
    }

    /// Reads a campaign from `s[a..a + 3]`.
    pub fn parse(s: &[u8], a: usize) -> (r: Result<Campaign, ParsingError>)
        requires
            a + 3 <= s.len(),
        ensures
            r == (match Campaign::spec_parse(s@.subrange(a as int, a + 3)) {
                Some(c) => Ok(c),
                None => Err(ParsingError::InvalidCampaignName),
            }),
    {
        let (x, y, z) = (s[a], s[a + 1], s[a + 2]);
        let ghost t = s@.subrange(a as int, a + 3);
        assert(t =~= bytes3(x, y, z));
        if x == 68 && y == 69 && z == 77 {
            Ok(Campaign::Demo)
        } else if x == 77 && y == 71 && z == 88 {
            Ok(Campaign::MGX)
        } else if x == 79 && y == 80 && z == 83 {
            Ok(Campaign::OPS)
        } else if x == 84 && y == 71 && z == 65 {
            Ok(Campaign::TGA)
        } else if x == 84 && y == 83 && z == 84 {
            Ok(Campaign::Test)
        } else if x == 82 && 48 <= y && y <= 57 && 48 <= z && z <= 57 {
            Ok(Campaign::Reprocessing((y - 48) * 10 + (z - 48)))
        } else {
            Err(ParsingError::InvalidCampaignName)
        }
    }
}

impl Availability {
    pub open spec fn spec_text(self) -> Seq<u8> {
        match self {
            Availability::Rapid => bytes3(82, 65, 80),
            Availability::Final => bytes3(70, 73, 78),
            Availability::UltraRapid => bytes3(85, 76, 84),
        }
    }

    /// `RAP`, `FIN` or `ULT`.
    pub open spec fn spec_parse(t: Seq<u8>) -> Option<Availability> {
        if t == bytes3(82, 65, 80) {
            Some(Availability::Rapid)
        } else if t == bytes3(70, 73, 78) {
            Some(Availability::Final)
        } else if t == bytes3(85, 76, 84) {
            Some(Availability::UltraRapid)
        } else {
            None
        }
    }

    pub fn push_text(&self, out: &mut Vec<u8>)
        ensures
            final(out)@ == old(out)@ + self.spec_text(),
    {
        let ghost o = out@;
        match self {
            Availability::Rapid => push_bytes(out, &[82u8, 65u8, 80u8]),
            Availability::Final => push_bytes(out, &[70u8, 73u8, 78u8]),
            Availability::UltraRapid => push_bytes(out, &[85u8, 76u8, 84u8]),
        }
        assert(out@ =~= o + self.spec_text());
    }

    /// Reads an availability from `s[a..a + 3]`.
    pub fn parse(s: &[u8], a: usize) -> (r: Result<Availability, ParsingError>)
        requires
            a + 3 <= s.len(),
        ensures
            r == (match Availability::spec_parse(s@.subrange(a as int, a + 3)) {
                Some(c) => Ok(c),
                None => Err(ParsingError::InvalidFileAvailability),
            }),
    {
        let (x, y, z) = (s[a], s[a + 1], s[a + 2]);
        assert(s@.subrange(a as int, a + 3) =~= bytes3(x, y, z));
        if x == 82 && y == 65 && z == 80 {
            Ok(Availability::Rapid)
        } else if x == 70 && y == 73 && z == 78 {
            Ok(Availability::Final)
        } else if x == 85 && y == 76 && z == 84 {
            Ok(Availability::UltraRapid)
        } else {
            Err(ParsingError::InvalidFileAvailability)
        }
    }
}

impl ReleasePeriod {
    pub open spec fn spec_text(self) -> Seq<u8> {
        match self {
            ReleasePeriod::Hourly => bytes3(48, 49, 72),
            ReleasePeriod::HalfDay => bytes3(49, 50, 72),
            ReleasePeriod::Daily => bytes3(48, 49, 68),
            ReleasePeriod::Weekly => bytes3(48, 49, 87),
            ReleasePeriod::Monthly => bytes3(48, 49, 76),
            ReleasePeriod::Yearly => bytes3(48, 49, 89),
        }
    }

    /// `01H`, `12H`, `01D`, `01W`, `01L` or `01Y`.
    pub open spec fn spec_parse(t: Seq<u8>) -> Option<ReleasePeriod> {
        if t == bytes3(48, 49, 72) {
            Some(ReleasePeriod::Hourly)
        } else if t == bytes3(49, 50, 72) {
            Some(ReleasePeriod::HalfDay)
        } else if t == bytes3(48, 49, 68) {
            Some(ReleasePeriod::Daily)
        } else if t == bytes3(48, 49, 87) {
            Some(ReleasePeriod::Weekly)
        } else if t == bytes3(48, 49, 76) {
            Some(ReleasePeriod::Monthly)
        } else if t == bytes3(48, 49, 89) {
            Some(ReleasePeriod::Yearly)
        } else {
            None
        }
    }

    pub fn push_text(&self, out: &mut Vec<u8>)
        ensures
            final(out)@ == old(out)@ + self.spec_text(),
    {
        let ghost o = out@;
        match self {
            ReleasePeriod::Hourly => push_bytes(out, &[48u8, 49u8, 72u8]),
            ReleasePeriod::HalfDay => push_bytes(out, &[49u8, 50u8, 72u8]),
            ReleasePeriod::Daily => push_bytes(out, &[48u8, 49u8, 68u8]),
            ReleasePeriod::Weekly => push_bytes(out, &[48u8, 49u8, 87u8]),
            ReleasePeriod::Monthly => push_bytes(out, &[48u8, 49u8, 76u8]),
            ReleasePeriod::Yearly => push_bytes(out, &[48u8, 49u8, 89u8]),
        }
        assert(out@ =~= o + self.spec_text());
    }

    /// Reads a release period from `s[a..a + 3]`.
    pub fn parse(s: &[u8], a: usize) -> (r: Result<ReleasePeriod, ParsingError>)
        requires
            a + 3 <= s.len(),
        ensures
            r == (match ReleasePeriod::spec_parse(s@.subrange(a as int, a + 3)) {
                Some(c) => Ok(c),
                None => Err(ParsingError::InvalidFilename),
            }),
    {
        let (x, y, z) = (s[a], s[a + 1], s[a + 2]);
        assert(s@.subrange(a as int, a + 3) =~= bytes3(x, y, z));
        if x == 48 && y == 49 && z == 72 {
            Ok(ReleasePeriod::Hourly)
        } else if x == 49 && y == 50 && z == 72 {
            Ok(ReleasePeriod::HalfDay)
        } else if x == 48 && y == 49 && z == 68 {
            Ok(ReleasePeriod::Daily)
        } else if x == 48 && y == 49 && z == 87 {
            Ok(ReleasePeriod::Weekly)
        } else if x == 48 && y == 49 && z == 76 {
            Ok(ReleasePeriod::Monthly)
        } else if x == 48 && y == 49 && z == 89 {
            Ok(ReleasePeriod::Yearly)
        } else {
            Err(ParsingError::InvalidFilename)
        }
    }
}

/// Seconds in one sampling unit `S`, `M`, `H`, `D`, `W`, `L` or `Y`.
pub open spec fn unit_seconds(c: u8) -> Option<nat> {
    if c == 83 {
        Some(1)
    } else if c == 77 {
        Some(60)
    } else if c == 72 {
        Some(3600)
    } else if c == 68 {
        Some(86400)
    } else if c == 87 {
        Some(604800)
    } else if c == 76 {
        Some(30 * 604800)
    } else if c == 89 {
        Some(365 * 604800)
    } else {
        None
    }
}

fn unit_seconds_exec(c: u8) -> (r: Option<u64>)
    ensures
        r matches Some(v) ==> unit_seconds(c) == Some(v as nat) && v <= 365 * 604800,
        r is None ==> unit_seconds(c) is None,
{
    if c == 83 {
        Some(1)
    } else if c == 77 {
        Some(60)
    } else if c == 72 {
        Some(3600)
    } else if c == 68 {
        Some(86400)
    } else if c == 87 {
        Some(604800)
    } else if c == 76 {
        Some(30 * 604800)
    } else if c == 89 {
        Some(365 * 604800)
    } else {
        None
    }
}

pub open spec fn digits_field(s: Seq<u8>, a: int, b: int) -> Option<nat> {
    if all_digits(s.subrange(a, b)) {
        Some(digits_value(s.subrange(a, b)))
    } else {
        None
    }
}

/// `_ORB.SP3`, the fixed part after the sampling period.
pub open spec fn orb_suffix() -> Seq<u8> {
    seq![95u8, 79u8, 82u8, 66u8, 46u8, 83u8, 80u8, 51u8]
}

pub open spec fn gz_suffix() -> Seq<u8> {
    seq![46u8, 103u8, 122u8]
}

/// What a file name says, when it follows the standard layout.
pub open spec fn parse_filename(s: Seq<u8>) -> Result<ProductionAttributesView, ParsingError> {
    let n = s.len();
    let batch = digits_field(s, 3, 4);
    let year = digits_field(s, 11, 15);
    let doy = digits_field(s, 15, 18);
    let sampling = digits_field(s, 27, 29);
    if n < 38 {
        Err(ParsingError::InvalidFilename)
    } else if batch.is_none() {
        Err(ParsingError::InvalidFilename)
    } else if Campaign::spec_parse(s.subrange(4, 7)).is_none() {
        Err(ParsingError::InvalidCampaignName)
    } else if Availability::spec_parse(s.subrange(7, 10)).is_none() {
        Err(ParsingError::InvalidFileAvailability)
    } else if year.is_none() || doy.is_none() {
        Err(ParsingError::InvalidFilename)
    } else if ReleasePeriod::spec_parse(s.subrange(23, 26)).is_none() {
        Err(ParsingError::InvalidFilename)
    } else if sampling.is_none() || unit_seconds(s[29]).is_none() {
        Err(ParsingError::InvalidFilename)
    } else {
        Ok(
            ProductionAttributesView {
                agency: s.subrange(0, 3),
                batch_id: batch.unwrap() as u8,
                release_date: ReleaseDate { year: year.unwrap() as u16, doy: doy.unwrap() as u16 },
                release_period: ReleasePeriod::spec_parse(s.subrange(23, 26)).unwrap(),
                campaign: Campaign::spec_parse(s.subrange(4, 7)).unwrap(),
                availability: Availability::spec_parse(s.subrange(7, 10)).unwrap(),
                sampling_period_s: (sampling.unwrap() * unit_seconds(s[29]).unwrap()) as u64,
                gzip_compressed: n >= 3 && s.subrange(n - 3, n as int) == gz_suffix(),
            },
        )
    }
}

/// Production attributes with the agency as a sequence.
pub struct ProductionAttributesView {
    pub agency: Seq<u8>,
    pub batch_id: u8,
    pub release_date: ReleaseDate,
    pub release_period: ReleasePeriod,
    pub campaign: Campaign,
    pub availability: Availability,
    pub sampling_period_s: u64,
    pub gzip_compressed: bool,
}

impl View for ProductionAttributes {
    type V = ProductionAttributesView;

    open spec fn view(&self) -> ProductionAttributesView {
        ProductionAttributesView {
            agency: self.agency@,
            batch_id: self.batch_id,
            release_date: self.release_date,
            release_period: self.release_period,
            campaign: self.campaign,
            availability: self.availability,
            sampling_period_s: self.sampling_period_s,
            gzip_compressed: self.gzip_compressed,
        }
    }
}

/// The standardized file name: agency, batch, campaign, availability,
/// release year and day, `0000`, period, sampling in minutes (rounded),
/// `_ORB.SP3`, and `.gz` for compressed files.
pub open spec fn filename_text(a: ProductionAttributesView) -> Seq<u8> {
    a.agency + padded(a.batch_id as nat, 1) + a.campaign.spec_text() + a.availability.spec_text()
        + seq![95u8] + padded(a.release_date.year as nat, 4) + padded(a.release_date.doy as nat, 3)
        + seq![48u8, 48u8, 48u8, 48u8, 95u8] + a.release_period.spec_text() + seq![95u8] + padded(sampling_minutes(a.sampling_period_s), 2) + seq![77u8] + orb_suffix() + if a.gzip_compressed {
        gz_suffix()
    } else {
        Seq::<u8>::empty()
    }
}

/// Sampling period in whole minutes, rounded half up.
pub open spec fn sampling_minutes(s: u64) -> nat {
    (s / 60 + if s % 60 >= 30 {
        1int
    } else {
        0int
    }) as nat
}

fn digits_exec(s: &[u8], a: usize, b: usize) -> (r: Option<u64>)
    requires
        a <= b <= s.len(),
        b - a <= 4,
    ensures
        r matches Some(v) ==> digits_field(s@, a as int, b as int) == Some(v as nat),
        r is None ==> digits_field(s@, a as int, b as int) is None,
{
    crate::numeric::parse_digits(s, a, b)
}

impl ProductionAttributes {
    /// Reads a standardized file name, see [`parse_filename`].
    pub fn parse(s: &[u8]) -> (r: Result<ProductionAttributes, ParsingError>)
        ensures
            r.is_ok() == parse_filename(s@).is_ok(),
            r matches Ok(a) ==> parse_filename(s@) == Ok::<ProductionAttributesView, ParsingError>(a@),
            r matches Err(e) ==> parse_filename(s@) == Err::<ProductionAttributesView, ParsingError>(e),
    {
        let n = s.len();
        if n < 38 {
            return Err(ParsingError::InvalidFilename);
        }
        let batch = match digits_exec(s, 3, 4) {
            Some(b) => b,
            None => return Err(ParsingError::InvalidFilename),
        };
        let campaign = match Campaign::parse(s, 4) {
            Ok(c) => c,
            Err(e) => return Err(e),
        };
        let availability = match Availability::parse(s, 7) {
            Ok(c) => c,
            Err(e) => return Err(e),
        };
        let year = digits_exec(s, 11, 15);
        let doy = digits_exec(s, 15, 18);
        if year.is_none() || doy.is_none() {
            return Err(ParsingError::InvalidFilename);
        }
        let release_period = match ReleasePeriod::parse(s, 23) {
            Ok(c) => c,
            Err(e) => return Err(e),
        };
        let sampling = digits_exec(s, 27, 29);
        let unit = unit_seconds_exec(s[29]);
        if sampling.is_none() || unit.is_none() {
            return Err(ParsingError::InvalidFilename);
        }
        proof {
            lemma_pow10_values();
            crate::numeric::lemma_digits_value_bound(s@.subrange(3, 4));
            crate::numeric::lemma_digits_value_bound(s@.subrange(11, 15));
            crate::numeric::lemma_digits_value_bound(s@.subrange(15, 18));
            crate::numeric::lemma_digits_value_bound(s@.subrange(27, 29));
            reveal_with_fuel(pow10, 5);
            assert(sampling.unwrap() < 100);
        }
        let gz = s[n - 3] == 46 && s[n - 2] == 103 && s[n - 1] == 122;
        assert(gz == (s@.subrange(n - 3, n as int) == gz_suffix())) by {
            if s@.subrange(n - 3, n as int) == gz_suffix() {
                assert(s@.subrange(n - 3, n as int)[0] == s@[n - 3]);
                assert(s@.subrange(n - 3, n as int)[1] == s@[n - 2]);
                assert(s@.subrange(n - 3, n as int)[2] == s@[n - 1]);
            }
            if gz {
                assert(s@.subrange(n - 3, n as int) =~= gz_suffix());
            }
        }
        let sv = sampling.unwrap();
        let uv = unit.unwrap();
        assert(sv * uv <= 100 * (365 * 604800)) by (nonlinear_arith)
            requires
                sv < 100,
                uv <= 365 * 604800,
        ;
        Ok(
            ProductionAttributes {
                agency: slice_to_vec(s, 0, 3),
                batch_id: batch as u8,
                release_date: ReleaseDate { year: year.unwrap() as u16, doy: doy.unwrap() as u16 },
                release_period,
                campaign,
                availability,
                sampling_period_s: sv * uv,
                gzip_compressed: gz,
            },
        )
    }

    /// The standardized file name, see [`filename_text`].
    pub fn format(&self) -> (r: Vec<u8>)
        ensures
            r@ == filename_text(self@),
    {
        let mut out: Vec<u8> = Vec::new();
        push_bytes(&mut out, self.agency.as_slice());
        push_padded(&mut out, self.batch_id as u64, 1);
        self.campaign.push_text(&mut out);
        self.availability.push_text(&mut out);
        out.push(95u8);
        push_padded(&mut out, self.release_date.year as u64, 4);
        push_padded(&mut out, self.release_date.doy as u64, 3);
        push_bytes(&mut out, &[48u8, 48u8, 48u8, 48u8, 95u8]);
        self.release_period.push_text(&mut out);
        out.push(95u8);
        let minutes = self.sampling_period_s / 60 + if self.sampling_period_s % 60 >= 30 {
            1
        } else {
            0
        };
        push_padded(&mut out, minutes, 2);
        push_bytes(&mut out, &[77u8, 95u8, 79u8, 82u8, 66u8, 46u8, 83u8, 80u8, 51u8]);
        if self.gzip_compressed {
            push_bytes(&mut out, &[46u8, 103u8, 122u8]);
        }
        assert(out@ =~= filename_text(self@));
        out
    }
}

/// A file name in the standard layout as the formatter writes it: release
/// time `0000`, sampling in minutes, optional `.gz`.
pub open spec fn standard_filename(s: Seq<u8>) -> bool {
    &&& (s.len() == 38 || (s.len() == 41 && s.subrange(38, 41) == gz_suffix()))
    &&& is_digit(s[3])
    &&& Campaign::spec_parse(s.subrange(4, 7)).is_some()
    &&& Availability::spec_parse(s.subrange(7, 10)).is_some()
    &&& s[10] == 95
    &&& all_digits(s.subrange(11, 18))
    &&& s.subrange(18, 23) == seq![48u8, 48u8, 48u8, 48u8, 95u8]
    &&& ReleasePeriod::spec_parse(s.subrange(23, 26)).is_some()
    &&& s[26] == 95
    &&& all_digits(s.subrange(27, 29))
    &&& s[29] == 77
    &&& s.subrange(30, 38) == orb_suffix()
}

proof fn lemma_digits_repadded(d: Seq<u8>)
    requires
        all_digits(d),
    ensures
        padded(digits_value(d), d.len()) == d,
        zero_padded(digits_value(d), d.len()) == d,
    decreases d.len(),
{
    crate::numeric::lemma_digits_value_bound(d);
    if d.len() > 0 {
        let p = d.drop_last();
        assert(all_digits(p)) by {
            assert forall|i: int| 0 <= i < p.len() implies is_digit(#[trigger] p[i]) by {
                assert(p[i] == d[i]);
            }
        }
        lemma_digits_repadded(p);
        let v = digits_value(d);
        let last = (d.last() - 48) as nat;
        assert(is_digit(d[d.len() - 1]));
        assert(v == digits_value(p) * 10 + last);
        assert(v / 10 == digits_value(p));
        assert(v % 10 == last);
        assert(zero_padded(v, d.len()) =~= d);
    } else {
        assert(zero_padded(digits_value(d), 0) =~= d);
    }
}

proof fn lemma_campaign_text(t: Seq<u8>)
    requires
        t.len() == 3,
        Campaign::spec_parse(t).is_some(),
    ensures
        Campaign::spec_parse(t).unwrap().spec_text() == t,
{
    match Campaign::spec_parse(t).unwrap() {
        Campaign::Reprocessing(n) => {
            let d = t.subrange(1, 3);
            assert(all_digits(d)) by {
                assert(d[0] == t[1] && d[1] == t[2]);
            }
            assert(d.drop_last() =~= seq![t[1]]);
            assert(seq![t[1]].drop_last() =~= Seq::<u8>::empty());
            assert(digits_value(Seq::<u8>::empty()) == 0);
            assert(digits_value(seq![t[1]]) == t[1] - 48);
            assert(d.last() == t[2]);
            assert(digits_value(d) == (t[1] - 48) * 10 + (t[2] - 48));
            assert(digits_value(d) == n);
            lemma_digits_repadded(d);
            assert(t =~= seq![82u8] + d);
        },
        _ => {},
    }
}

/// A standard file name is written back exactly as it was read.
pub proof fn lemma_filename_round_trip(s: Seq<u8>)
    requires
        standard_filename(s),
    ensures
        parse_filename(s) is Ok,
        filename_text(parse_filename(s)->Ok_0) == s,
{
    let d3 = s.subrange(3, 4);
    let dy = s.subrange(11, 15);
    let dd = s.subrange(15, 18);
    let dm = s.subrange(27, 29);
    assert(all_digits(d3)) by {
        assert(d3[0] == s[3]);
    }
    assert(all_digits(dy)) by {
        assert forall|i: int| 0 <= i < 4 implies is_digit(#[trigger] dy[i]) by {
            assert(dy[i] == s.subrange(11, 18)[i]);
        }
    }
    assert(all_digits(dd)) by {
        assert forall|i: int| 0 <= i < 3 implies is_digit(#[trigger] dd[i]) by {
            assert(dd[i] == s.subrange(11, 18)[i + 4]);
        }
    }
    lemma_digits_repadded(d3);
    lemma_digits_repadded(dy);
    lemma_digits_repadded(dd);
    lemma_digits_repadded(dm);
    crate::numeric::lemma_digits_value_bound(d3);
    crate::numeric::lemma_digits_value_bound(dy);
    crate::numeric::lemma_digits_value_bound(dd);
    crate::numeric::lemma_digits_value_bound(dm);
    lemma_pow10_values();
    reveal_with_fuel(pow10, 5);
    lemma_campaign_text(s.subrange(4, 7));
    let a = parse_filename(s)->Ok_0;
    let m = digits_value(dm);
    assert(a.sampling_period_s == m * 60);
    assert(sampling_minutes(a.sampling_period_s) == m);
    let n = s.len();
    if n == 41 {
        assert(s.subrange(n - 3, n as int) == s.subrange(38, 41));
    } else {
        assert(s.subrange(n - 3, n as int) =~= orb_suffix().subrange(5, 8));
        assert(orb_suffix().subrange(5, 8) != gz_suffix()) by {
            assert(orb_suffix().subrange(5, 8)[0] == 83);
        }
    }
    let t = filename_text(a);
    let av = Availability::spec_parse(s.subrange(7, 10)).unwrap();
    let rp = ReleasePeriod::spec_parse(s.subrange(23, 26)).unwrap();
    assert(av.spec_text() == s.subrange(7, 10));
    assert(rp.spec_text() == s.subrange(23, 26));
    assert(t =~= s);
}

/// Month and day of day-of-year `rem`, counting from month `m`.
pub open spec fn date_of_doy(y: int, m: int, rem: int) -> Option<(int, int)>
    decreases 13 - m,
{
    if m > 12 || m < 1 || rem < 1 {
        None
    } else if rem <= days_in_month(y, m) {
        Some((m, rem))
    } else {
        date_of_doy(y, m + 1, rem - days_in_month(y, m))
    }
}

impl ReleaseDate {
    /// Midnight UTC of this release date; `None` when the day does not exist in the year.
    pub fn to_epoch(&self) -> (r: Option<Epoch>)
        ensures
            match date_of_doy(self.year as int, 1, self.doy as int) {
                Some((m, d)) => self.year <= 9999 && r == Some(
                    Epoch {
                        year: self.year,
                        month: m as u8,
                        day: d as u8,
                        hour: 0,
                        minute: 0,
                        second: 0,
                        nanos: 0,
                        timescale: TimeScale::UTC,
                    },
                ) || self.year > 9999 && r is None,
                None => r is None,
            },
    {
        if self.year > 9999 || self.doy < 1 {
            return None;
        }
        let mut m: u8 = 1;
        let mut rem: u16 = self.doy;
        while m <= 12 && rem as u64 > days_in_month_exec(self.year, m) as u64
            invariant
                1 <= m <= 13,
                1 <= rem,
                date_of_doy(self.year as int, 1, self.doy as int) == date_of_doy(
                    self.year as int,
                    m as int,
                    rem as int,
                ),
            decreases 13 - m,
        {
            rem = rem - days_in_month_exec(self.year, m) as u16;
            m = m + 1;
        }
        if m > 12 {
            return None;
        }
        Some(
            Epoch {
                year: self.year,
                month: m,
                day: rem as u8,
                hour: 0,
                minute: 0,
                second: 0,
                nanos: 0,
                timescale: TimeScale::UTC,
            },
        )
    }
}

/// Days of year `y` before the first of month `m`.
pub open spec fn days_before_month(y: int, m: int) -> int
    decreases m,
{
    if m <= 1 {
        0
    } else {
        days_before_month(y, m - 1) + days_in_month(y, m - 1)
    }
}

/// Release date of a calendar date: its year and day of year.
pub open spec fn release_date_of(e: Epoch) -> ReleaseDate {
    ReleaseDate { year: e.year, doy: (days_before_month(e.year as int, e.month as int) + e.day) as u16 }
}

impl ReleaseDate {
    /// Year and day of year of an epoch's calendar date.
    pub fn from_epoch(e: &Epoch) -> (r: ReleaseDate)
        requires
            e.wf(),
        ensures
            r == release_date_of(*e),
    {
        let mut days: u16 = 0;
        let mut m: u8 = 1;
        while m < e.month
            invariant
                1 <= m <= e.month <= 12,
                days == days_before_month(e.year as int, m as int),
                days <= 31 * (m - 1),
            decreases e.month - m,
        {
            days = days + days_in_month_exec(e.year, m) as u16;
            m = m + 1;
        }
        ReleaseDate { year: e.year, doy: days + e.day as u16 }
    }
}

/// The attributes a standardized name of a record carries: those of its own
/// file name when it had one (compressed), defaults otherwise (batch 0,
/// operational, rapid, daily, agency cut to three characters); the release
/// date and sampling period always come from the header.
pub open spec fn standard_attributes(s: &crate::record::SP3) -> ProductionAttributesView {
    let h = s.header;
    let release_date = release_date_of(h.release_epoch);
    let sampling_period_s = (h.sampling_period_ns / 1_000_000_000) as u64;
    match s.prod_attributes {
        Some(a) => ProductionAttributesView {
            release_date,
            sampling_period_s,
            gzip_compressed: true,
            ..a@
        },
        None => ProductionAttributesView {
            agency: if h.agency@.len() > 3 {
                h.agency@.subrange(0, 3)
            } else {
                h.agency@
            },
            batch_id: 0,
            release_date,
            release_period: ReleasePeriod::Daily,
            campaign: Campaign::OPS,
            availability: Availability::Rapid,
            sampling_period_s,
            gzip_compressed: false,
        },
    }
}

impl crate::record::SP3 {
    /// A file name following the standard naming conventions, see [`standard_attributes`].
    pub fn standardized_filename(&self) -> (r: Vec<u8>)
        requires
            self.header.release_epoch.wf(),
        ensures
            r@ == filename_text(standard_attributes(self)),
    {
        let release_date = ReleaseDate::from_epoch(&self.header.release_epoch);
        let sampling_period_s = self.header.sampling_period_ns / 1_000_000_000;
        let attrs = match &self.prod_attributes {
            Some(a) => ProductionAttributes {
                agency: slice_to_vec(a.agency.as_slice(), 0, a.agency.len()),
                release_date,
                sampling_period_s,
                gzip_compressed: true,
                ..*a
            },
            None => {
                let n = if self.header.agency.len() > 3 {
                    3
                } else {
                    self.header.agency.len()
                };
                ProductionAttributes {
                    agency: slice_to_vec(self.header.agency.as_slice(), 0, n),
                    batch_id: 0,
                    release_date,
                    release_period: ReleasePeriod::Daily,
                    campaign: Campaign::OPS,
                    availability: Availability::Rapid,
                    sampling_period_s,
                    gzip_compressed: false,
                }
            },
        };
        proof {
            if self.prod_attributes is Some {
                let a = self.prod_attributes->Some_0;
                assert(a.agency@.subrange(0, a.agency@.len() as int) =~= a.agency@);
            } else {
                assert(self.header.agency@.subrange(0, self.header.agency@.len() as int)
                    =~= self.header.agency@);
            }
        }
        assert(attrs@ == standard_attributes(self));
        attrs.format()
    }
}

} // verus!
