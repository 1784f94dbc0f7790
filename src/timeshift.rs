//! Transposition of a record into another timescale.
use crate::algebra::same_notes;
use crate::entry::SP3Entry;
use crate::errors::TimeCorrectionError;
use crate::header::HeaderView;
use crate::record::{sorted, upsert, SP3Key, SP3};
use crate::types::{days_from_civil, days_in_month_exec, Epoch, TimeScale};
use vstd::prelude::*;

verus! {

/// Calendar date and time, in the timescale of code `to`, of the instant
/// written `e` in the timescale of code `from` (codes of [`scale_code`]).
pub uninterp spec fn transposed_of(e: Epoch, from: u8, to: u8) -> Option<(i32, u8, u8, u8, u8, u8, u32)>;

/// Week counter and nanoseconds of week, and the calendar date and time, in
/// the timescale of code `to`, of the instant at `week`, `nanos` of the
/// timescale of code `from`.
pub uninterp spec fn week_transposed_of(week: u32, nanos: u64, from: u8, to: u8) -> (
    u32,
    u64,
    (i32, u8, u8, u8, u8, u8, u32),
);

/// hifitime's number of a timescale (`From<u8> for hifitime::TimeScale`).
pub open spec fn scale_code(t: TimeScale) -> u8 {
    match t {
        TimeScale::UTC => 4,
        TimeScale::GPST => 5,
        TimeScale::GST => 6,
        TimeScale::BDT => 7,
        TimeScale::QZSST => 8,
        TimeScale::TAI => 0,
    }
}

pub fn scale_code_exec(t: TimeScale) -> (r: u8)
    ensures
        r == scale_code(t),
{
    match t {
        TimeScale::UTC => 4,
        TimeScale::GPST => 5,
        TimeScale::GST => 6,
        TimeScale::BDT => 7,
        TimeScale::QZSST => 8,
        TimeScale::TAI => 0,
    }
}

/// Relies on hifitime's `Epoch::maybe_from_gregorian` (which refuses an
/// invalid date) and `Epoch::to_gregorian`: the same instant written in
/// another timescale, leap seconds included. The result depends on the
/// arguments alone.
#[verifier::external_body]
fn transpose_calendar(e: &Epoch, from: u8, to: u8) -> (r: Option<(i32, u8, u8, u8, u8, u8, u32)>)
    ensures
        r == transposed_of(*e, from, to),
{
    let ts = hifitime::TimeScale::from(from);
    hifitime::Epoch::maybe_from_gregorian(
        e.year as i32, e.month, e.day, e.hour, e.minute, e.second, e.nanos, ts,
    ).ok().map(|x| x.to_gregorian(hifitime::TimeScale::from(to)))
}

/// Relies on hifitime's `Epoch::from_time_of_week`, `Epoch::to_time_scale`,
/// `Epoch::to_time_of_week` and `Epoch::to_gregorian`: the week counter,
/// nanoseconds of week and calendar date in `to` of a time of week in `from`.
/// The result depends on the arguments alone.
#[verifier::external_body]
fn transpose_week(week: u32, nanos: u64, from: u8, to: u8) -> (r: (
    u32,
    u64,
    (i32, u8, u8, u8, u8, u8, u32),
))
    ensures
        r == week_transposed_of(week, nanos, from, to),
{
    let to = hifitime::TimeScale::from(to);
    let e = hifitime::Epoch::from_time_of_week(week, nanos, hifitime::TimeScale::from(from));
    let e = e.to_time_scale(to);
    let (w, n) = e.to_time_of_week();
    (w, n, e.to_gregorian(to))
}

/// The epoch of calendar fields `c` in timescale `ts`, when they form a valid date and time.
pub open spec fn epoch_of_fields(c: (i32, u8, u8, u8, u8, u8, u32), ts: TimeScale) -> Option<Epoch> {
    let e = Epoch {
        year: c.0 as u16,
        month: c.1,
        day: c.2,
        hour: c.3,
        minute: c.4,
        second: c.5,
        nanos: c.6,
        timescale: ts,
    };
    if 0 <= c.0 <= 9999 && e.wf() {
        Some(e)
    } else {
        None
    }
}

pub fn epoch_of_fields_exec(c: (i32, u8, u8, u8, u8, u8, u32), ts: TimeScale) -> (r: Option<Epoch>)
    ensures
        r == epoch_of_fields(c, ts),
{
    if c.0 < 0 || c.0 > 9999 {
        return None;
    }
    let e = Epoch {
        year: c.0 as u16,
        month: c.1,
        day: c.2,
        hour: c.3,
        minute: c.4,
        second: c.5,
        nanos: c.6,
        timescale: ts,
    };
    if e.month < 1 || e.month > 12 || e.day < 1 || e.day > days_in_month_exec(e.year, e.month)
        || e.hour >= 24 || e.minute >= 60 || e.second >= 60 || e.nanos >= 1_000_000_000 {
        return None;
    }
    Some(e)
}

/// Where each entry goes: the entry under its transposed epoch, or the first
/// entry whose epoch cannot be transposed.
pub open spec fn transposed_entries(s: Seq<(SP3Key, SP3Entry)>, to: TimeScale) -> Result<Seq<(SP3Key, SP3Entry)>, int>
    decreases s.len(),
{
    if s.len() == 0 {
        Ok(Seq::empty())
    } else {
        match transposed_entries(s.drop_last(), to) {
            Err(i) => Err(i),
            Ok(acc) => {
                let (k, e) = s.last();
                match transposed_of(k.epoch, scale_code(k.epoch.timescale), scale_code(to)) {
                    Some(c) => match epoch_of_fields(c, to) {
                        Some(t) => Ok(upsert(acc, SP3Key { sv: k.sv, epoch: t }, e)),
                        None => Err(s.len() - 1),
                    },
                    None => Err(s.len() - 1),
                }
            },
        }
    }
}

/// Modified Julian day and day fraction (10⁻¹³ day) of a calendar date and time.
pub open spec fn mjd_of(e: Epoch) -> (int, int) {
    let day_ns = e.hour as int * 3_600_000_000_000 + e.minute as int * 60_000_000_000
        + e.second as int * 1_000_000_000 + e.nanos as int;
    (days_from_civil(e.year as int, e.month as int, e.day as int) + 40587, day_ns * 100 / 864)
}

/// The header after a transposition to `to`.
pub open spec fn transposed_header(h: HeaderView, to: TimeScale) -> Option<HeaderView> {
    let (w, n, c) = week_transposed_of(
        h.week,
        h.week_nanos,
        scale_code(h.timescale),
        scale_code(to),
    );
    match epoch_of_fields(c, to) {
        Some(e) => {
            let (mjd, frac) = mjd_of(e);
            if 0 <= mjd < 100_000 {
                Some(
                    HeaderView {
                        week: w,
                        week_nanos: n,
                        mjd: mjd as u32,
                        mjd_fraction: frac as u64,
                        timescale: to,
                        ..h
                    },
                )
            } else {
                None
            }
        },
        None => None,
    }
}

impl SP3 {
    /// Rewrites every epoch, and the header's week, MJD and timescale, in
    /// timescale `to`. Fails, leaving the record as it was, when an epoch or
    /// the header's reference cannot be written there.
    pub fn timeshift_mut(&mut self, to: TimeScale) -> (r: Result<(), TimeCorrectionError>)
        ensures
            r is Ok <==> (transposed_entries(old(self).data@, to) is Ok && transposed_header(
                old(self).header@,
                to,
            ) is Some),
            r is Ok ==> final(self).data@ == transposed_entries(old(self).data@, to)->Ok_0
                && final(self).header@ == transposed_header(old(self).header@, to)->Some_0
                && final(self).wf() && final(self).comments == old(self).comments
                && final(self).prod_attributes == old(self).prod_attributes,
            r matches Err(e) ==> e == TimeCorrectionError::NoCorrectionAvailable(
                old(self).header.timescale,
                to,
            ) && *final(self) == *old(self),
    {
        let from = self.header.timescale;
        let (w, n, c) = transpose_week(
            self.header.week,
            self.header.week_nanos,
            scale_code_exec(from),
            scale_code_exec(to),
        );
        let reference = match epoch_of_fields_exec(c, to) {
            Some(e) => e,
            None => return Err(TimeCorrectionError::NoCorrectionAvailable(from, to)),
        };
        let ghost s = self.data@;
        let mut out: Vec<(SP3Key, SP3Entry)> = Vec::new();
        let mut i: usize = 0;
        while i < self.data.len()
            invariant
                0 <= i <= self.data@.len(),
                s == self.data@,
                *self == *old(self),
                from == old(self).header.timescale,
                sorted(out@),
                transposed_entries(s.subrange(0, i as int), to) == Ok::<Seq<(SP3Key, SP3Entry)>, int>(out@),
            decreases self.data.len() - i,
        {
            let (k, e) = self.data[i];
            let ghost p = s.subrange(0, i + 1);
            assert(p.drop_last() =~= s.subrange(0, i as int));
            assert(p.last() == (k, e));
            let t = match transpose_calendar(
                &k.epoch,
                scale_code_exec(k.epoch.timescale),
                scale_code_exec(to),
            ) {
                Some(c) => epoch_of_fields_exec(c, to),
                None => None,
            };
            match t {
                Some(t) => {
                    crate::parsing::store_entry(&mut out, SP3Key { sv: k.sv, epoch: t }, e);
                },
                None => {
                    proof {
                        lemma_transposed_err(s, i as int, to);
                    }
                    return Err(TimeCorrectionError::NoCorrectionAvailable(from, to));
                },
            }
            i = i + 1;
        }
        assert(s.subrange(0, s.len() as int) =~= s);
        let (mjd, frac) = mjd_exec(&reference);
        if mjd < 0 || mjd >= 100_000 {
            return Err(TimeCorrectionError::NoCorrectionAvailable(from, to));
        }
        self.header.week = w;
        self.header.week_nanos = n;
        self.header.mjd = mjd as u32;
        self.header.mjd_fraction = frac as u64;
        self.header.timescale = to;
        self.data = out;
        Ok(())
    }
}

fn mjd_exec(e: &Epoch) -> (r: (i128, i128))
    ensures
        r.0 == mjd_of(*e).0,
        r.1 == mjd_of(*e).1,
{
    let day_ns = e.hour as i128 * 3_600_000_000_000 + e.minute as i128 * 60_000_000_000
        + e.second as i128 * 1_000_000_000 + e.nanos as i128;
    let days = e.day_number();
    (days + 40587, day_ns * 100 / 864)
}

/// A failed transposition of entry `i`, after the earlier ones succeeded, fails the whole.
proof fn lemma_transposed_err(s: Seq<(SP3Key, SP3Entry)>, i: int, to: TimeScale)
    requires
        0 <= i < s.len(),
        transposed_entries(s.subrange(0, i + 1), to) is Err,
    ensures
        transposed_entries(s, to) is Err,
    decreases s.len() - i,
{
    if i + 1 < s.len() {
        let p = s.subrange(0, i + 2);
        assert(p.drop_last() =~= s.subrange(0, i + 1));
        lemma_transposed_err(s, i + 1, to);
    } else {
        assert(s.subrange(0, i + 1) =~= s);
    }
}

impl SP3 {
    /// A copy in timescale `to`, see [`SP3::timeshift_mut`].
    pub fn timeshift(&self, to: TimeScale) -> (r: Result<SP3, TimeCorrectionError>)
        ensures
            r is Ok <==> (transposed_entries(self.data@, to) is Ok && transposed_header(
                self.header@,
                to,
            ) is Some),
            r matches Ok(s) ==> s.data@ == transposed_entries(self.data@, to)->Ok_0 && s.header@
                == transposed_header(self.header@, to)->Some_0 && same_notes(&s, self),
            r matches Err(e) ==> e == TimeCorrectionError::NoCorrectionAvailable(
                self.header.timescale,
                to,
            ),
    {
        let mut s = self.copy();
        match s.timeshift_mut(to) {
            Ok(()) => Ok(s),
            Err(e) => Err(e),
        }
    }
}

/// The corrected value of `e` in a list of (epoch, corrected epoch) pairs:
/// the first pair for `e`.
pub open spec fn correction_of(c: Seq<(Epoch, Epoch)>, e: Epoch) -> Option<Epoch>
    decreases c.len(),
{
    if c.len() == 0 {
        None
    } else if c[0].0 == e {
        Some(c[0].1)
    } else {
        correction_of(c.drop_first(), e)
    }
}

/// Entries under their corrected epochs, or the first entry without a correction.
pub open spec fn corrected_entries(s: Seq<(SP3Key, SP3Entry)>, c: Seq<(Epoch, Epoch)>) -> Result<Seq<(SP3Key, SP3Entry)>, int>
    decreases s.len(),
{
    if s.len() == 0 {
        Ok(Seq::empty())
    } else {
        match corrected_entries(s.drop_last(), c) {
            Err(i) => Err(i),
            Ok(acc) => {
                let (k, e) = s.last();
                match correction_of(c, k.epoch) {
                    Some(t) => Ok(upsert(acc, SP3Key { sv: k.sv, epoch: t }, e)),
                    None => Err(s.len() - 1),
                }
            },
        }
    }
}

proof fn lemma_corrected_err(s: Seq<(SP3Key, SP3Entry)>, i: int, c: Seq<(Epoch, Epoch)>)
    requires
        0 <= i < s.len(),
        corrected_entries(s.subrange(0, i + 1), c) is Err,
    ensures
        corrected_entries(s, c) is Err,
    decreases s.len() - i,
{
    if i + 1 < s.len() {
        let p = s.subrange(0, i + 2);
        assert(p.drop_last() =~= s.subrange(0, i + 1));
        lemma_corrected_err(s, i + 1, c);
    } else {
        assert(s.subrange(0, i + 1) =~= s);
    }
}

fn find_correction(c: &Vec<(Epoch, Epoch)>, e: &Epoch) -> (r: Option<Epoch>)
    ensures
        r == correction_of(c@, *e),
{
    let mut i: usize = 0;
    assert(c@.subrange(0, c@.len() as int) =~= c@);
    while i < c.len()
        invariant
            0 <= i <= c@.len(),
            correction_of(c@, *e) == correction_of(c@.subrange(i as int, c@.len() as int), *e),
        decreases c.len() - i,
    {
        let ghost rest = c@.subrange(i as int, c@.len() as int);
        assert(rest[0] == c@[i as int]);
        assert(rest.drop_first() =~= c@.subrange(i + 1, c@.len() as int));
        if c[i].0 == *e {
            return Some(c[i].1);
        }
        i = i + 1;
    }
    None
}

/// The header after a precise correction to `to`, from the corrected
/// reference `(week, nanoseconds of week, calendar date and time)` in `to`.
pub open spec fn corrected_header(h: HeaderView, to: TimeScale, reference: (u32, u64, Epoch)) -> Option<HeaderView> {
    let (mjd, frac) = mjd_of(reference.2);
    if reference.2.wf() && 0 <= mjd < 100_000 {
        Some(
            HeaderView {
                week: reference.0,
                week_nanos: reference.1,
                mjd: mjd as u32,
                mjd_fraction: frac as u64,
                timescale: to,
                ..h
            },
        )
    } else {
        None
    }
}

impl SP3 {
    /// Rewrites every epoch with its corrected value in `to`, taken from
    /// `corrections` (each epoch of the record with its value in `to`, as a
    /// correction database gives it), and the header from the corrected
    /// reference. Fails, leaving the record as it was, when an epoch has no
    /// correction or the reference is not a valid date.
    pub fn precise_correction_mut(
        &mut self,
        to: TimeScale,
        corrections: &Vec<(Epoch, Epoch)>,
        reference: (u32, u64, Epoch),
    ) -> (r: Result<(), TimeCorrectionError>)
        ensures
            r is Ok <==> (corrected_entries(old(self).data@, corrections@) is Ok && corrected_header(
                old(self).header@,
                to,
                reference,
            ) is Some),
            r is Ok ==> final(self).data@ == corrected_entries(old(self).data@, corrections@)->Ok_0
                && final(self).header@ == corrected_header(old(self).header@, to, reference)->Some_0
                && final(self).wf() && final(self).comments == old(self).comments
                && final(self).prod_attributes == old(self).prod_attributes,
            r matches Err(e) ==> e == TimeCorrectionError::NoCorrectionAvailable(
                old(self).header.timescale,
                to,
            ) && *final(self) == *old(self),
    {
        let from = self.header.timescale;
        let (w, n, re) = reference;
        if re.year > 9999 || re.month < 1 || re.month > 12 || re.day < 1 || re.day
            > days_in_month_exec(re.year, re.month) || re.hour >= 24 || re.minute >= 60
            || re.second >= 60 || re.nanos >= 1_000_000_000 {
            return Err(TimeCorrectionError::NoCorrectionAvailable(from, to));
        }
        let ghost s = self.data@;
        let mut out: Vec<(SP3Key, SP3Entry)> = Vec::new();
        let mut i: usize = 0;
        while i < self.data.len()
            invariant
                0 <= i <= self.data@.len(),
                s == self.data@,
                *self == *old(self),
                from == old(self).header.timescale,
                sorted(out@),
                corrected_entries(s.subrange(0, i as int), corrections@) == Ok::<
                    Seq<(SP3Key, SP3Entry)>,
                    int,
                >(out@),
            decreases self.data.len() - i,
        {
            let (k, e) = self.data[i];
            let ghost p = s.subrange(0, i + 1);
            assert(p.drop_last() =~= s.subrange(0, i as int));
            assert(p.last() == (k, e));
            match find_correction(corrections, &k.epoch) {
                Some(t) => {
                    crate::parsing::store_entry(&mut out, SP3Key { sv: k.sv, epoch: t }, e);
                },
                None => {
                    proof {
                        lemma_corrected_err(s, i as int, corrections@);
                    }
                    return Err(TimeCorrectionError::NoCorrectionAvailable(from, to));
                },
            }
            i = i + 1;
        }
        assert(s.subrange(0, s.len() as int) =~= s);
        let (mjd, frac) = mjd_exec(&re);
        if mjd < 0 || mjd >= 100_000 {
            return Err(TimeCorrectionError::NoCorrectionAvailable(from, to));
        }
        self.header.week = w;
        self.header.week_nanos = n;
        self.header.mjd = mjd as u32;
        self.header.mjd_fraction = frac as u64;
        self.header.timescale = to;
        self.data = out;
        Ok(())
    }
}

} // verus!
