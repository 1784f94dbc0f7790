//! Reading a record line by line.
use crate::entry::{
    fault_error, parse_position_line, parse_velocity_line, LineFault, PositionEntry, SP3Entry,
    Vector3D, VelocityEntry,
};
use crate::errors::{slice_to_vec, ParsingError};
use crate::header::{
    parse_descriptor, parse_descriptor1, parse_line1, parse_line2, Header, HeaderView, Line1,
    Line1View, Line2,
};
use crate::numeric::{trim, trim_bounds};
use crate::record::{entries_wf, lookup, sorted, upsert, SP3Key, SP3};
use crate::types::{epoch_from_text, parse_epoch_text, Epoch, TimeScale, Version, SV};
use vstd::prelude::*;

verus! {

/// What has been read so far.
pub struct ReadView {
    pub header: HeaderView,
    pub comments: Seq<Seq<u8>>,
    pub data: Seq<(SP3Key, SP3Entry)>,
    pub epoch: Epoch,
    pub descriptor_seen: bool,
}

/// Why reading stopped on a line.
pub enum ReadFault {
    Plain(ParsingError),
    /// A `%c` line that could not be read.
    Descriptor(Seq<u8>),
    /// A field of a data line that could not be read.
    Data(LineFault, Seq<u8>),
}

/// `e` reports `f`.
pub open spec fn reports(e: ParsingError, f: ReadFault) -> bool {
    match f {
        ReadFault::Plain(p) => e == p,
        ReadFault::Descriptor(l) => e matches ParsingError::MalformedDescriptor(t) && t@ == l,
        ReadFault::Data(k, l) => fault_error(e, k, l),
    }
}

/// Effect of one line.
pub enum Step {
    Continue(ReadView),
    Stop(ReadView),
    Fail(ReadFault),
}

pub open spec fn starts2(t: Seq<u8>, a: u8, b: u8) -> bool {
    t.len() >= 2 && t[0] == a && t[1] == b
}

pub open spec fn add_satellite(sats: Seq<SV>, sv: SV) -> Seq<SV> {
    if sats.contains(sv) {
        sats
    } else {
        sats.push(sv)
    }
}

/// The entry after a `P` line: position and flags from the line, clock from
/// the line when it has one.
pub open spec fn apply_position(old: Option<SP3Entry>, p: PositionEntry) -> SP3Entry {
    let base = match old {
        Some(e) => e,
        None => SP3Entry {
            position_mm: Vector3D { x: 0, y: 0, z: 0 },
            velocity: None,
            predicted_orbit: false,
            maneuver: false,
            clock_event: false,
            predicted_clock: false,
            clock_ps: None,
            clock_drift: None,
        },
    };
    SP3Entry {
        position_mm: Vector3D { x: p.x_mm, y: p.y_mm, z: p.z_mm },
        predicted_orbit: p.orbit_prediction,
        maneuver: p.maneuver,
        clock_event: p.clock_event,
        predicted_clock: p.clock_prediction,
        clock_ps: match p.clock_ps {
            Some(c) => Some(c),
            None => base.clock_ps,
        },
        ..base
    }
}

/// The entry after a `V` line: velocity from the line, drift from the line
/// when it has one; a zero position when the entry did not exist.
pub open spec fn apply_velocity(old: Option<SP3Entry>, v: VelocityEntry) -> SP3Entry {
    let base = match old {
        Some(e) => e,
        None => SP3Entry {
            position_mm: Vector3D { x: 0, y: 0, z: 0 },
            velocity: None,
            predicted_orbit: false,
            maneuver: false,
            clock_event: false,
            predicted_clock: false,
            clock_ps: None,
            clock_drift: None,
        },
    };
    SP3Entry {
        velocity: Some(v.velocity),
        clock_drift: match v.clock_drift {
            Some(d) => Some(d),
            None => base.clock_drift,
        },
        ..base
    }
}

pub open spec fn with_line1(h: HeaderView, l: Line1View) -> HeaderView {
    HeaderView {
        version: l.version,
        data_type: l.data_type,
        coord_system: l.coord_system,
        orbit_type: l.orbit_type,
        agency: l.agency,
        num_epochs: l.num_epochs,
        observables: l.fit_type,
        release_epoch: l.epoch,
        ..h
    }
}

pub open spec fn with_line2(h: HeaderView, l: Line2) -> HeaderView {
    HeaderView {
        week: l.week,
        week_nanos: l.week_nanos,
        sampling_period_ns: l.sampling_period_ns,
        mjd: l.mjd,
        mjd_fraction: l.mjd_fraction,
        ..h
    }
}

/// A comment line adds its text from column 4 (nothing left when the line is only `/*`).
pub open spec fn comment_step(st: ReadView, t: Seq<u8>) -> Step {
    let text = if t.len() >= 3 {
        t.subrange(3, t.len() as int)
    } else {
        Seq::empty()
    };
    Step::Continue(ReadView { comments: st.comments.push(text), ..st })
}

pub open spec fn line2_step(st: ReadView, t: Seq<u8>) -> Step {
    match parse_line2(t) {
        Ok(l) => Step::Continue(ReadView { header: with_line2(st.header, l), ..st }),
        Err(e) => Step::Fail(ReadFault::Plain(e)),
    }
}

pub open spec fn line1_step(st: ReadView, t: Seq<u8>) -> Step {
    match parse_line1(t) {
        Ok(l) => Step::Continue(ReadView { header: with_line1(st.header, l), ..st }),
        Err(e) => Step::Fail(ReadFault::Plain(e)),
    }
}

pub open spec fn descriptor_step(st: ReadView, t: Seq<u8>) -> Step {
    if t.len() < 60 {
        Step::Fail(ReadFault::Descriptor(t))
    } else if st.descriptor_seen {
        Step::Continue(st)
    } else {
        match parse_descriptor1(t) {
            Some((c, ts)) => Step::Continue(
                ReadView {
                    header: HeaderView { constellation: c, timescale: ts, ..st.header },
                    descriptor_seen: true,
                    ..st
                },
            ),
            None => Step::Fail(ReadFault::Descriptor(t)),
        }
    }
}

pub open spec fn epoch_step(st: ReadView, t: Seq<u8>) -> Step {
    if t.len() < 31 {
        Step::Fail(ReadFault::Plain(ParsingError::EpochParsing))
    } else {
        match epoch_from_text(t.subrange(3, 31), st.header.timescale) {
            Some(e) => Step::Continue(ReadView { epoch: e, ..st }),
            None => Step::Fail(ReadFault::Plain(ParsingError::EpochParsing)),
        }
    }
}

pub open spec fn position_step(st: ReadView, t: Seq<u8>) -> Step {
    if t.len() < 60 {
        Step::Continue(st)
    } else {
        match parse_position_line(t, st.header.version != Version::A) {
            Ok(p) => {
                let k = SP3Key { sv: p.sv, epoch: st.epoch };
                Step::Continue(
                    ReadView {
                        header: HeaderView {
                            satellites: add_satellite(st.header.satellites, p.sv),
                            ..st.header
                        },
                        data: upsert(st.data, k, apply_position(lookup(st.data, k), p)),
                        ..st
                    },
                )
            },
            Err(f) => Step::Fail(ReadFault::Data(f, t)),
        }
    }
}

pub open spec fn velocity_step(st: ReadView, t: Seq<u8>) -> Step {
    if t.len() < 60 {
        Step::Continue(st)
    } else {
        match parse_velocity_line(t, st.header.version != Version::A) {
            Ok(v) => {
                let k = SP3Key { sv: v.sv, epoch: st.epoch };
                Step::Continue(
                    ReadView {
                        header: HeaderView {
                            satellites: add_satellite(st.header.satellites, v.sv),
                            ..st.header
                        },
                        data: upsert(st.data, k, apply_velocity(lookup(st.data, k), v)),
                        ..st
                    },
                )
            },
            Err(f) => Step::Fail(ReadFault::Data(f, t)),
        }
    }
}

/// Effect of the line `t` (spaces at both ends already trimmed): comments,
/// `EOF`, header lines, descriptors, epoch markers, `P` and `V` lines; any
/// other line is skipped.
pub open spec fn read_step(st: ReadView, t: Seq<u8>) -> Step {
    if starts2(t, 47, 42) {
        comment_step(st, t)
    } else if t == seq![69u8, 79u8, 70u8] {
        Step::Stop(st)
    } else if starts2(t, 35, 35) {
        line2_step(st, t)
    } else if t.len() > 0 && t[0] == 35 {
        line1_step(st, t)
    } else if starts2(t, 37, 99) {
        descriptor_step(st, t)
    } else if t.len() >= 3 && t[0] == 42 && t[1] == 32 && t[2] == 32 {
        epoch_step(st, t)
    } else if t.len() > 0 && t[0] == 80 {
        position_step(st, t)
    } else if t.len() > 0 && t[0] == 86 {
        velocity_step(st, t)
    } else {
        Step::Continue(st)
    }
}

/// `r` and the new reader state agree with step `s`.
pub open spec fn step_done(s: Step, r: Result<bool, ParsingError>, after: ReadView) -> bool {
    match s {
        Step::Continue(v) => r == Ok::<bool, ParsingError>(true) && after == v,
        Step::Stop(v) => r == Ok::<bool, ParsingError>(false) && after == v,
        Step::Fail(f) => r matches Err(e) && reports(e, f),
    }
}

/// Reading of `lines` from `i` on, after `st`; stops at `EOF` or the first failure.
pub open spec fn read_from(lines: Seq<Seq<u8>>, i: int, st: ReadView) -> Result<ReadView, ReadFault>
    decreases lines.len() - i,
{
    if i >= lines.len() || i < 0 {
        Ok(st)
    } else {
        match read_step(st, trim(lines[i])) {
            Step::Continue(s) => read_from(lines, i + 1, s),
            Step::Stop(s) => Ok(s),
            Step::Fail(f) => Err(f),
        }
    }
}

/// True for a comment line (`/*`).
pub fn sp3_comment(line: &[u8]) -> (r: bool)
    ensures
        r == starts2(line@, 47, 42),
{
    line.len() >= 2 && line[0] == 47 && line[1] == 42
}

/// True for the end-of-file line (`EOF`).
pub fn end_of_file(line: &[u8]) -> (r: bool)
    ensures
        r == (line@ == seq![69u8, 79u8, 70u8]),
{
    let r = line.len() == 3 && line[0] == 69 && line[1] == 79 && line[2] == 70;
    if r {
        assert(line@ =~= seq![69u8, 79u8, 70u8]);
    }
    r
}

/// True for an epoch marker (`*  `).
pub fn new_epoch(line: &[u8]) -> (r: bool)
    ensures
        r == (line@.len() >= 3 && line@[0] == 42 && line@[1] == 32 && line@[2] == 32),
{
    line.len() >= 3 && line[0] == 42 && line[1] == 32 && line[2] == 32
}

/// Reads the date and time of an epoch marker's content (what follows `*  `),
/// in `timescale`.
pub fn parse_epoch(content: &[u8], timescale: TimeScale) -> (r: Result<Epoch, ParsingError>)
    ensures
        content@.len() < 28 ==> r == Err::<Epoch, ParsingError>(ParsingError::EpochParsing),
        content@.len() >= 28 ==> r == match epoch_from_text(content@.subrange(0, 28), timescale) {
            Some(e) => Ok::<Epoch, ParsingError>(e),
            None => Err(ParsingError::EpochParsing),
        },
{
    if content.len() < 28 {
        return Err(ParsingError::EpochParsing);
    }
    match parse_epoch_text(content, 0, timescale) {
        Some(e) => Ok(e),
        None => Err(ParsingError::EpochParsing),
    }
}

struct Reader {
    header: Header,
    comments: Vec<Vec<u8>>,
    data: Vec<(SP3Key, SP3Entry)>,
    epoch: Epoch,
    descriptor_seen: bool,
}

impl Reader {
    spec fn view(&self) -> ReadView {
        ReadView {
            header: self.header@,
            comments: self.comments@.map_values(|c: Vec<u8>| c@),
            data: self.data@,
            epoch: self.epoch,
            descriptor_seen: self.descriptor_seen,
        }
    }
}

/// Reading starts from an empty header, positions only, revision `d`, GPS time.
pub open spec fn initial_view(h: HeaderView, e: Epoch) -> ReadView {
    ReadView { header: h, comments: Seq::empty(), data: Seq::empty(), epoch: e, descriptor_seen: false }
}

pub(crate) fn add_satellite_exec(sats: &mut Vec<SV>, sv: SV)
    ensures
        final(sats)@ == add_satellite(old(sats)@, sv),
{
    let mut i: usize = 0;
    while i < sats.len()
        invariant
            0 <= i <= sats@.len(),
            forall|j: int| 0 <= j < i ==> sats@[j] != sv,
        decreases sats.len() - i,
    {
        if sats[i].same(&sv) {
            assert(sats@[i as int] == sv);
            return;
        }
        i = i + 1;
    }
    assert(!sats@.contains(sv));
    sats.push(sv);
}

fn find_entry(data: &Vec<(SP3Key, SP3Entry)>, k: &SP3Key) -> (r: Option<SP3Entry>)
    requires
        sorted(data@),
    ensures
        r == lookup(data@, *k),
{
    let i = crate::record::find_position(data, k);
    if i < data.len() && data[i].0.same(k) {
        Some(data[i].1)
    } else {
        None
    }
}

pub(crate) fn store_entry(data: &mut Vec<(SP3Key, SP3Entry)>, k: SP3Key, e: SP3Entry)
    requires
        sorted(old(data)@),
    ensures
        sorted(final(data)@),
        final(data)@ == upsert(old(data)@, k, e),
{
    proof {
        crate::record::lemma_upsert(data@, k, e);
        crate::record::lemma_insert_pos(data@, k);
    }
    let i = crate::record::find_position(data, &k);
    if i < data.len() && data[i].0.same(&k) {
        data.set(i, (k, e));
    } else {
        data.insert(i, (k, e));
    }
}

impl Reader {
    fn comment(&mut self, t: &[u8]) -> (r: Result<bool, ParsingError>)
        ensures
            final(self).data == old(self).data,
            step_done(comment_step(old(self).view(), t@), r, final(self).view()),
    {
        let ghost st = self.view();
        let c = if t.len() >= 3 {
            slice_to_vec(t, 3, t.len())
        } else {
            Vec::new()
        };
        let ghost text = c@;
        self.comments.push(c);
        assert(self.view().comments =~= st.comments.push(text));
        Ok(true)
    }

    fn line2(&mut self, t: &[u8]) -> (r: Result<bool, ParsingError>)
        ensures
            final(self).data == old(self).data,
            step_done(line2_step(old(self).view(), t@), r, final(self).view()),
    {
        let ghost st = self.view();
        match Line2::parse(t) {
            Ok(l) => {
                self.header.week = l.week;
                self.header.week_nanos = l.week_nanos;
                self.header.sampling_period_ns = l.sampling_period_ns;
                self.header.mjd = l.mjd;
                self.header.mjd_fraction = l.mjd_fraction;
                assert(self.view().header == with_line2(st.header, l));
                Ok(true)
            },
            Err(e) => Err(e),
        }
    }

    fn line1(&mut self, t: &[u8]) -> (r: Result<bool, ParsingError>)
        ensures
            final(self).data == old(self).data,
            step_done(line1_step(old(self).view(), t@), r, final(self).view()),
    {
        let ghost st = self.view();
        match Line1::parse(t) {
            Ok(l) => {
                let ghost lv = l@;
                self.header.version = l.version;
                self.header.data_type = l.data_type;
                self.header.coord_system = l.coord_system;
                self.header.orbit_type = l.orbit_type;
                self.header.agency = l.agency;
                self.header.num_epochs = l.num_epochs;
                self.header.observables = l.fit_type;
                self.header.release_epoch = l.epoch;
                assert(self.view().header == with_line1(st.header, lv));
                Ok(true)
            },
            Err(e) => Err(e),
        }
    }

    fn descriptor(&mut self, t: &[u8]) -> (r: Result<bool, ParsingError>)
        ensures
            final(self).data == old(self).data,
            step_done(descriptor_step(old(self).view(), t@), r, final(self).view()),
    {
        if t.len() < 60 {
            let v = slice_to_vec(t, 0, t.len());
            assert(t@.subrange(0, t@.len() as int) =~= t@);
            return Err(ParsingError::MalformedDescriptor(v));
        }
        if self.descriptor_seen {
            return Ok(true);
        }
        match parse_descriptor(t) {
            Ok((c, ts)) => {
                self.header.constellation = c;
                self.header.timescale = ts;
                self.descriptor_seen = true;
                Ok(true)
            },
            Err(e) => Err(e),
        }
    }

    fn epoch_marker(&mut self, t: &[u8]) -> (r: Result<bool, ParsingError>)
        ensures
            final(self).data == old(self).data,
            step_done(epoch_step(old(self).view(), t@), r, final(self).view()),
    {
        if t.len() < 31 {
            return Err(ParsingError::EpochParsing);
        }
        match parse_epoch_text(t, 3, self.header.timescale) {
            Some(e) => {
                self.epoch = e;
                Ok(true)
            },
            None => Err(ParsingError::EpochParsing),
        }
    }

    fn position(&mut self, t: &[u8]) -> (r: Result<bool, ParsingError>)
        requires
            sorted(old(self).data@),
            entries_wf(old(self).data@),
        ensures
            sorted(final(self).data@),
            entries_wf(final(self).data@),
            step_done(position_step(old(self).view(), t@), r, final(self).view()),
    {
        let ghost st = self.view();
        if t.len() < 60 {
            return Ok(true);
        }
        let letter = match self.header.version {
            Version::A => false,
            _ => true,
        };
        match PositionEntry::parse(t, letter) {
            Ok(p) => {
                let k = SP3Key { sv: p.sv, epoch: self.epoch };
                let old = find_entry(&self.data, &k);
                let base = match old {
                    Some(e) => e,
                    None => SP3Entry::from_position_mm(Vector3D { x: 0, y: 0, z: 0 }),
                };
                let e = SP3Entry {
                    position_mm: Vector3D { x: p.x_mm, y: p.y_mm, z: p.z_mm },
                    predicted_orbit: p.orbit_prediction,
                    maneuver: p.maneuver,
                    clock_event: p.clock_event,
                    predicted_clock: p.clock_prediction,
                    clock_ps: match p.clock_ps {
                        Some(c) => Some(c),
                        None => base.clock_ps,
                    },
                    ..base
                };
                assert(e == apply_position(lookup(st.data, k), p));
                proof {
                    crate::entry::lemma_parsed_position_fits(t@, letter);
                    crate::record::lemma_upsert_wf(self.data@, k, e);
                }
                add_satellite_exec(&mut self.header.satellites, p.sv);
                store_entry(&mut self.data, k, e);
                Ok(true)
            },
            Err(e) => Err(e),
        }
    }

    fn velocity(&mut self, t: &[u8]) -> (r: Result<bool, ParsingError>)
        requires
            sorted(old(self).data@),
            entries_wf(old(self).data@),
        ensures
            sorted(final(self).data@),
            entries_wf(final(self).data@),
            step_done(velocity_step(old(self).view(), t@), r, final(self).view()),
    {
        let ghost st = self.view();
        if t.len() < 60 {
            return Ok(true);
        }
        let letter = match self.header.version {
            Version::A => false,
            _ => true,
        };
        match VelocityEntry::parse(t, letter) {
            Ok(v) => {
                let k = SP3Key { sv: v.sv, epoch: self.epoch };
                let old = find_entry(&self.data, &k);
                let base = match old {
                    Some(e) => e,
                    None => SP3Entry::from_position_mm(Vector3D { x: 0, y: 0, z: 0 }),
                };
                let e = SP3Entry {
                    velocity: Some(v.velocity),
                    clock_drift: match v.clock_drift {
                        Some(d) => Some(d),
                        None => base.clock_drift,
                    },
                    ..base
                };
                assert(e == apply_velocity(lookup(st.data, k), v));
                proof {
                    crate::entry::lemma_parsed_velocity_fits(t@, letter);
                    crate::record::lemma_upsert_wf(self.data@, k, e);
                }
                add_satellite_exec(&mut self.header.satellites, v.sv);
                store_entry(&mut self.data, k, e);
                Ok(true)
            },
            Err(e) => Err(e),
        }
    }

    /// Applies one line, trimmed of spaces, see [`read_step`].
    fn step(&mut self, t: &[u8]) -> (r: Result<bool, ParsingError>)
        requires
            sorted(old(self).data@),
            entries_wf(old(self).data@),
        ensures
            sorted(final(self).data@),
            entries_wf(final(self).data@),
            step_done(read_step(old(self).view(), t@), r, final(self).view()),
    {
        let n = t.len();
        if sp3_comment(t) {
            return self.comment(t);
        }
        if end_of_file(t) {
            return Ok(false);
        }
        if n >= 2 && t[0] == 35 && t[1] == 35 {
            return self.line2(t);
        }
        if n > 0 && t[0] == 35 {
            return self.line1(t);
        }
        if crate::header::file_descriptor(t) {
            return self.descriptor(t);
        }
        if new_epoch(t) {
            return self.epoch_marker(t);
        }
        if n > 0 && t[0] == 80 {
            return self.position(t);
        }
        if n > 0 && t[0] == 86 {
            return self.velocity(t);
        }
        Ok(true)
    }
}

/// The record of a file given as lines, with an empty starting header
/// (see [`Header::new`]); reading stops at `EOF`.
pub open spec fn read_lines(lines: Seq<Seq<u8>>, h: HeaderView, e: Epoch) -> Result<ReadView, ReadFault> {
    read_from(lines, 0, initial_view(h, e))
}

/// Lines as byte sequences.
pub open spec fn lines_view(lines: Seq<Vec<u8>>) -> Seq<Seq<u8>> {
    lines.map_values(|l: Vec<u8>| l@)
}

/// Starting point of the epoch before the first epoch marker.
pub open spec fn default_epoch() -> Epoch {
    Epoch {
        year: 1980,
        month: 1,
        day: 6,
        hour: 0,
        minute: 0,
        second: 0,
        nanos: 0,
        timescale: TimeScale::GPST,
    }
}

impl SP3 {
    /// Reads a record from its lines (without line ends), see [`read_lines`].
    pub fn from_lines(lines: &Vec<Vec<u8>>) -> (r: Result<SP3, ParsingError>)
        ensures
            ({
                let h = Header::spec_new();
                let res = read_lines(lines_view(lines@), h, default_epoch());
                &&& r.is_ok() == res.is_ok()
                &&& r matches Ok(s) ==> s.wf() && entries_wf(s.data@) && s.header@ == res->Ok_0.header
                    && s.comments@.map_values(|c: Vec<u8>| c@) == res->Ok_0.comments
                    && s.data@ == res->Ok_0.data && s.prod_attributes is None
                &&& r matches Err(e) ==> reports(e, res->Err_0)
            }),
    {
        let ghost ls = lines_view(lines@);
        let mut rd = Reader {
            header: Header::new(),
            comments: Vec::new(),
            data: Vec::new(),
            epoch: Epoch {
                year: 1980,
                month: 1,
                day: 6,
                hour: 0,
                minute: 0,
                second: 0,
                nanos: 0,
                timescale: TimeScale::GPST,
            },
            descriptor_seen: false,
        };
        assert(rd.view().comments =~= Seq::<Seq<u8>>::empty());
        let ghost init = rd.view();
        assert(init == initial_view(Header::spec_new(), default_epoch()));
        let mut i: usize = 0;
        let mut done = false;
        while i < lines.len() && !done
            invariant
                0 <= i <= lines@.len(),
                ls == lines_view(lines@),
                sorted(rd.data@),
                entries_wf(rd.data@),
                init == initial_view(Header::spec_new(), default_epoch()),
                !done ==> read_from(ls, 0, init) == read_from(ls, i as int, rd.view()),
                done ==> read_from(ls, 0, init) == Ok::<ReadView, ReadFault>(rd.view()),
            decreases lines.len() - i,
        {
            let line = lines[i].as_slice();
            let (a, b) = trim_bounds(line, 0, line.len());
            assert(line@.subrange(0, line@.len() as int) =~= line@);
            assert(ls[i as int] == line@);
            let t = slice_to_vec(line, a, b);
            let ghost before = rd.view();
            assert(trim(ls[i as int]) == t@);
            match rd.step(t.as_slice()) {
                Ok(true) => {},
                Ok(false) => {
                    done = true;
                },
                Err(e) => {
                    proof {
                        match read_step(before, t@) {
                            Step::Fail(f) => {
                                assert(read_from(ls, i as int, before) == Err::<ReadView, ReadFault>(f));


                            },
                            _ => {},
                        }
                    }
                    return Err(e);
                },
            }
            i = i + 1;
        }
        Ok(SP3 { header: rd.header, comments: rd.comments, prod_attributes: None, data: rd.data })
    }
}

} // verus!
