//! The record: header, comments, file-name attributes, and the entries kept
//! in a vector sorted by epoch, then satellite.
use crate::entry::{SP3Entry, Vector3D};
use crate::header::Header;
use crate::production::ProductionAttributes;
use crate::types::{sv_lt, DataType, Epoch, TimeScale, SV};
use vstd::prelude::*;

verus! {

/// Index of an entry: satellite and epoch.
#[derive(Clone, Copy, Debug, PartialEq, Eq, Hash, Structural)]
pub struct SP3Key {
    pub sv: SV,
    pub epoch: Epoch,
}

pub open spec fn timescale_rank(t: TimeScale) -> int {
    match t {
        TimeScale::GPST => 0,
        TimeScale::GST => 1,
        TimeScale::BDT => 2,
        TimeScale::QZSST => 3,
        TimeScale::UTC => 4,
        TimeScale::TAI => 5,
    }
}

/// Epoch order: calendar order, then timescale for the same calendar reading.
pub open spec fn epoch_lt(a: Epoch, b: Epoch) -> bool {
    a.spec_lt(b) || (a.spec_same_instant(b) && timescale_rank(a.timescale) < timescale_rank(
        b.timescale,
    ))
}

/// Entry order: by epoch ([`epoch_lt`]), then satellite.
pub open spec fn key_lt(a: SP3Key, b: SP3Key) -> bool {
    epoch_lt(a.epoch, b.epoch) || (a.epoch == b.epoch && sv_lt(a.sv, b.sv))
}

fn timescale_rank_exec(t: TimeScale) -> (r: u8)
    ensures
        r as int == timescale_rank(t),
{
    match t {
        TimeScale::GPST => 0,
        TimeScale::GST => 1,
        TimeScale::BDT => 2,
        TimeScale::QZSST => 3,
        TimeScale::UTC => 4,
        TimeScale::TAI => 5,
    }
}

impl SP3Key {
    pub fn lt(&self, o: &SP3Key) -> (r: bool)
        ensures
            r == key_lt(*self, *o),
    {
        if self.epoch.lt(&o.epoch) {
            return true;
        }
        if !self.epoch.same_instant(&o.epoch) {
            return false;
        }
        let (a, b) = (timescale_rank_exec(self.epoch.timescale), timescale_rank_exec(o.epoch.timescale));
        a < b || (a == b && self.sv.lt(&o.sv))
    }

    pub fn same(&self, o: &SP3Key) -> (r: bool)
        ensures
            r == (*self == *o),
    {
        self.sv.same(&o.sv) && self.epoch.same_instant(&o.epoch) && timescale_rank_exec(
            self.epoch.timescale,
        ) == timescale_rank_exec(o.epoch.timescale)
    }
}

pub proof fn lemma_key_order(a: SP3Key, b: SP3Key, c: SP3Key)
    ensures
        !key_lt(a, a),
        key_lt(a, b) ==> !key_lt(b, a),
        key_lt(a, b) && key_lt(b, c) ==> key_lt(a, c),
        a != b ==> key_lt(a, b) || key_lt(b, a),
{
}

/// Every entry fits its fields, and every PRN has two digits.
pub open spec fn entries_wf(s: Seq<(SP3Key, SP3Entry)>) -> bool {
    forall|i: int| 0 <= i < s.len() ==> (#[trigger] s[i]).1.wf() && s[i].0.sv.prn < 100
}

/// Strictly increasing keys.
pub open spec fn sorted(s: Seq<(SP3Key, SP3Entry)>) -> bool {
    forall|i: int, j: int| 0 <= i < j < s.len() ==> key_lt(#[trigger] s[i].0, #[trigger] s[j].0)
}

/// Number of leading entries whose key is below `k`: where `k` stands or goes.
pub open spec fn insert_pos(s: Seq<(SP3Key, SP3Entry)>, k: SP3Key) -> nat
    decreases s.len(),
{
    if s.len() > 0 && key_lt(s[0].0, k) {
        1 + insert_pos(s.drop_first(), k)
    } else {
        0
    }
}

/// The entry under `k`.
pub open spec fn lookup(s: Seq<(SP3Key, SP3Entry)>, k: SP3Key) -> Option<SP3Entry> {
    let i = insert_pos(s, k) as int;
    if i < s.len() && s[i].0 == k {
        Some(s[i].1)
    } else {
        None
    }
}

/// `s` with `e` stored under `k`, in place of what was there.
pub open spec fn upsert(s: Seq<(SP3Key, SP3Entry)>, k: SP3Key, e: SP3Entry) -> Seq<(SP3Key, SP3Entry)> {
    let i = insert_pos(s, k) as int;
    if i < s.len() && s[i].0 == k {
        s.update(i, (k, e))
    } else {
        s.insert(i, (k, e))
    }
}

pub proof fn lemma_insert_pos(s: Seq<(SP3Key, SP3Entry)>, k: SP3Key)
    requires
        sorted(s),
    ensures
        insert_pos(s, k) <= s.len(),
        forall|j: int| 0 <= j < insert_pos(s, k) ==> key_lt(#[trigger] s[j].0, k),
        forall|j: int| insert_pos(s, k) <= j < s.len() ==> !key_lt(#[trigger] s[j].0, k),
    decreases s.len(),
{
    if s.len() > 0 && key_lt(s[0].0, k) {
        let t = s.drop_first();
        assert(sorted(t)) by {
            assert forall|i: int, j: int| 0 <= i < j < t.len() implies key_lt(
                #[trigger] t[i].0,
                #[trigger] t[j].0,
            ) by {
                assert(t[i] == s[i + 1] && t[j] == s[j + 1]);
            }
        }
        lemma_insert_pos(t, k);
        assert forall|j: int| 0 <= j < insert_pos(s, k) implies key_lt(#[trigger] s[j].0, k) by {
            if j > 0 {
                assert(s[j] == t[j - 1]);
            }
        }
        assert forall|j: int| insert_pos(s, k) <= j < s.len() implies !key_lt(#[trigger] s[j].0, k) by {
            assert(s[j] == t[j - 1]);
        }
    } else if s.len() > 0 {
        assert forall|j: int| 0 <= j < s.len() implies !key_lt(#[trigger] s[j].0, k) by {
            if j > 0 {
                assert(key_lt(s[0].0, s[j].0));
                lemma_key_order(s[0].0, s[j].0, k);
                lemma_key_order(s[j].0, k, s[0].0);
            }
        }
    }
}

/// Storing an entry keeps the keys sorted; the entry is then found under its key,
/// and every other key finds what it found before.
pub proof fn lemma_upsert(s: Seq<(SP3Key, SP3Entry)>, k: SP3Key, e: SP3Entry)
    requires
        sorted(s),
    ensures
        sorted(upsert(s, k, e)),
        lookup(upsert(s, k, e), k) == Some(e),
        forall|k2: SP3Key| k2 != k ==> #[trigger] lookup(upsert(s, k, e), k2) == lookup(s, k2),
{
    let i = insert_pos(s, k) as int;
    let u = upsert(s, k, e);
    lemma_insert_pos(s, k);
    if i < s.len() && s[i].0 == k {
        assert forall|a: int, b: int| 0 <= a < b < u.len() implies key_lt(
            #[trigger] u[a].0,
            #[trigger] u[b].0,
        ) by {
            assert(u[a].0 == s[a].0 && u[b].0 == s[b].0);
        }
    } else {
        assert forall|a: int, b: int| 0 <= a < b < u.len() implies key_lt(
            #[trigger] u[a].0,
            #[trigger] u[b].0,
        ) by {
            if b < i {
                assert(u[a] == s[a] && u[b] == s[b]);
            } else if b == i {
                assert(u[a] == s[a]);
            } else if a < i {
                assert(u[a] == s[a] && u[b] == s[b - 1]);
                assert(!key_lt(s[b - 1].0, k));
                lemma_key_order(s[a].0, k, s[b - 1].0);
                lemma_key_order(k, s[b - 1].0, s[a].0);
                if b - 1 > i {
                    assert(key_lt(s[i].0, s[b - 1].0));
                }
                lemma_key_order(s[b - 1].0, k, s[a].0);
            } else if a == i {
                assert(u[b] == s[b - 1]);
                assert(!key_lt(s[b - 1].0, k));
                if b - 1 > i {
                    assert(key_lt(s[i].0, s[b - 1].0));
                    assert(!key_lt(s[i].0, k));
                    lemma_key_order(s[i].0, s[b - 1].0, k);
                }
                lemma_key_order(k, s[b - 1].0, k);
                assert(s[b - 1].0 != k) by {
                    if b - 1 > i {
                        lemma_key_order(s[i].0, s[b - 1].0, s[i].0);
                        lemma_key_order(k, s[i].0, k);
                    }
                }
            } else {
                assert(u[a] == s[a - 1] && u[b] == s[b - 1]);
            }
        }
    }
    lemma_insert_pos(u, k);
    lemma_upsert_positions(s, k, e);
    assert forall|k2: SP3Key| k2 != k implies #[trigger] lookup(u, k2) == lookup(s, k2) by {
        lemma_lookup_sorted(s, k2);
        lemma_lookup_sorted(u, k2);
        if lookup(s, k2) is Some {
            let j = insert_pos(s, k2) as int;
            if i < s.len() && s[i].0 == k {
                assert(u[j] == s[j]);
            } else if j < i {
                assert(u[j] == s[j]);
            } else {
                assert(u[j + 1] == s[j]);
            }
        }
        if lookup(u, k2) is Some {
            let j = insert_pos(u, k2) as int;
            if i < s.len() && s[i].0 == k {
                assert(u[j].0 == s[j].0);
            } else if j < i {
                assert(u[j] == s[j]);
            } else {
                assert(j != i);
                assert(u[j] == s[j - 1]);
            }
        }
    }
}

proof fn lemma_upsert_positions(s: Seq<(SP3Key, SP3Entry)>, k: SP3Key, e: SP3Entry)
    requires
        sorted(s),
        sorted(upsert(s, k, e)),
    ensures
        lookup(upsert(s, k, e), k) == Some(e),
{
    let i = insert_pos(s, k) as int;
    let u = upsert(s, k, e);
    lemma_insert_pos(s, k);
    lemma_insert_pos(u, k);
    lemma_lookup_sorted(u, k);
    assert(u[i].0 == k);
}

/// In sorted keys, the entry under `k` is the one at any index holding `k`.
pub proof fn lemma_lookup_sorted(s: Seq<(SP3Key, SP3Entry)>, k: SP3Key)
    requires
        sorted(s),
    ensures
        forall|j: int| 0 <= j < s.len() && s[j].0 == k ==> lookup(s, k) == Some(s[j].1) && j
            == insert_pos(s, k),
        lookup(s, k) is Some <==> exists|j: int| 0 <= j < s.len() && s[j].0 == k,
{
    lemma_insert_pos(s, k);
    let i = insert_pos(s, k) as int;
    assert forall|j: int| 0 <= j < s.len() && s[j].0 == k implies lookup(s, k) == Some(s[j].1)
        && j == insert_pos(s, k) by {
        lemma_key_order(k, k, k);
        if j < i {
            assert(key_lt(s[j].0, k));
        } else if j > i {
            assert(key_lt(s[i].0, s[j].0));
            assert(!key_lt(s[i].0, k));
        }
    }
    if lookup(s, k) is Some {
        assert(s[i].0 == k);
    }
}

/// Where `k` stands or goes in the sorted `data`, see [`insert_pos`].
pub fn find_position(data: &Vec<(SP3Key, SP3Entry)>, k: &SP3Key) -> (r: usize)
    requires
        sorted(data@),
    ensures
        r as nat == insert_pos(data@, *k),
{
    proof {
        lemma_insert_pos(data@, *k);
    }
    let mut i: usize = 0;
    while i < data.len() && data[i].0.lt(k)
        invariant
            0 <= i <= data@.len(),
            sorted(data@),
            forall|j: int| 0 <= j < i ==> key_lt(#[trigger] data@[j].0, *k),
            insert_pos(data@, *k) >= i,
        decreases data.len() - i,
    {
        proof {
            lemma_insert_pos(data@, *k);
        }
        i = i + 1;
    }
    proof {
        lemma_insert_pos(data@, *k);
        if insert_pos(data@, *k) > i {
            assert(i < data@.len());
            assert(key_lt(data@[i as int].0, *k));
        }
    }
    i
}

/// Record of satellite states: header, comments, file-name attributes and
/// entries sorted by key.
#[derive(Clone, Debug, PartialEq)]
pub struct SP3 {
    pub header: Header,
    /// Header comments, as found.
    pub comments: Vec<Vec<u8>>,
    /// Attributes of a standardized file name, when the file had one.
    pub prod_attributes: Option<ProductionAttributes>,
    /// Entries, strictly increasing by key.
    pub data: Vec<(SP3Key, SP3Entry)>,
}

impl SP3 {
    pub open spec fn wf(&self) -> bool {
        sorted(self.data@)
    }

    /// A record with this header and nothing else.
    pub fn new(header: Header) -> (r: SP3)
        ensures
            r.wf(),
            r.header == header,
            r.data@.len() == 0,
            r.comments@.len() == 0,
            r.prod_attributes is None,
    {
        SP3 { header, comments: Vec::new(), prod_attributes: None, data: Vec::new() }
    }

    /// The entry under `k`.
    pub fn get(&self, k: &SP3Key) -> (r: Option<SP3Entry>)
        requires
            self.wf(),
        ensures
            r == lookup(self.data@, *k),
    {
        let i = find_position(&self.data, k);
        if i < self.data.len() && self.data[i].0.same(k) {
            Some(self.data[i].1)
        } else {
            None
        }
    }

    /// Stores `e` under `k`, in place of what was there.
    pub fn insert(&mut self, k: SP3Key, e: SP3Entry)
        requires
            old(self).wf(),
        ensures
            final(self).wf(),
            final(self).data@ == upsert(old(self).data@, k, e),
            final(self).header == old(self).header,
            final(self).comments == old(self).comments,
            final(self).prod_attributes == old(self).prod_attributes,
    {
        proof {
            lemma_upsert(self.data@, k, e);
            lemma_insert_pos(self.data@, k);
        }
        let i = find_position(&self.data, &k);
        if i < self.data.len() && self.data[i].0.same(&k) {
            self.data.set(i, (k, e));
        } else {
            self.data.insert(i, (k, e));
        }
    }

    /// Number of entries.
    pub fn len(&self) -> (r: usize)
        ensures
            r == self.data@.len(),
    {
        self.data.len()
    }

    /// Distinct epochs, in increasing order.
    pub fn epochs(&self) -> (r: Vec<Epoch>)
        requires
            self.wf(),
        ensures
            r@ == distinct_epochs(self.data@),
            forall|i: int, j: int| 0 <= i < j < r@.len() ==> epoch_lt(#[trigger] r@[i], #[trigger] r@[j]),
            forall|i: int| 0 <= i < self.data@.len() ==> r@.contains(#[trigger] self.data@[i].0.epoch),
            forall|i: int|
                0 <= i < r@.len() ==> exists|j: int|
                    0 <= j < self.data@.len() && self.data@[j].0.epoch == #[trigger] r@[i],
    {
        proof {
            lemma_distinct_epochs(self.data@);
        }
        let mut r: Vec<Epoch> = Vec::new();
        let mut i: usize = 0;
        while i < self.data.len()
            invariant
                0 <= i <= self.data@.len(),
                r@ == distinct_epochs(self.data@.subrange(0, i as int)),
            decreases self.data.len() - i,
        {
            let e = self.data[i].0.epoch;
            let ghost p = self.data@.subrange(0, i as int);
            assert(self.data@.subrange(0, i + 1).drop_last() =~= p);
            if i == 0 || !self.data[i - 1].0.epoch.same_instant(&e) || self.data[i - 1].0.epoch.timescale != e.timescale {
                r.push(e);
            }
            proof {
                if i > 0 {
                    assert(p.last() == self.data@[i - 1]);
                }
            }
            i = i + 1;
        }
        assert(self.data@.subrange(0, self.data@.len() as int) =~= self.data@);
        r
    }

    /// First epoch of the record.
    pub fn first_epoch(&self) -> (r: Option<Epoch>)
        ensures
            r == (if self.data@.len() > 0 {
                Some(self.data@[0].0.epoch)
            } else {
                None
            }),
    {
        if self.data.len() > 0 {
            Some(self.data[0].0.epoch)
        } else {
            None
        }
    }

    /// Last epoch of the record.
    pub fn last_epoch(&self) -> (r: Option<Epoch>)
        ensures
            r == (if self.data@.len() > 0 {
                Some(self.data@.last().0.epoch)
            } else {
                None
            }),
    {
        if self.data.len() > 0 {
            Some(self.data[self.data.len() - 1].0.epoch)
        } else {
            None
        }
    }

    /// Number of distinct epochs.
    pub fn total_epochs(&self) -> (r: usize)
        requires
            self.wf(),
        ensures
            r == distinct_epochs(self.data@).len(),
    {
        self.epochs().len()
    }

    /// True when the header announces velocities.
    pub fn has_satellite_velocity(&self) -> (r: bool)
        ensures
            r == (self.header.data_type == DataType::Velocity),
    {
        match self.header.data_type {
            DataType::Velocity => true,
            DataType::Position => false,
        }
    }

    /// True when some entry satisfies `flag`.
    fn any_entry(&self, which: u8) -> (r: bool)
        ensures
            r == exists|i: int| 0 <= i < self.data@.len() && entry_flag(self.data@[i].1, which),
    {
        let mut i: usize = 0;
        while i < self.data.len()
            invariant
                0 <= i <= self.data@.len(),
                forall|j: int| 0 <= j < i ==> !entry_flag(#[trigger] self.data@[j].1, which),
            decreases self.data.len() - i,
        {
            let e = &self.data[i].1;
            let f = if which == 0 {
                e.predicted_orbit
            } else if which == 1 {
                e.clock_event
            } else if which == 2 {
                e.clock_ps.is_some()
            } else if which == 3 {
                e.clock_drift.is_some()
            } else {
                e.maneuver
            };
            if f {
                return true;
            }
            i = i + 1;
        }
        false
    }

    /// True when at least one state vector is predicted.
    pub fn has_satellite_positions_prediction(&self) -> (r: bool)
        ensures
            r == exists|i: int| 0 <= i < self.data@.len() && self.data@[i].1.predicted_orbit,
    {
        self.any_entry(0)
    }

    /// True when at least one clock event is reported.
    pub fn has_satellite_clock_event(&self) -> (r: bool)
        ensures
            r == exists|i: int| 0 <= i < self.data@.len() && self.data@[i].1.clock_event,
    {
        self.any_entry(1)
    }

    /// True when at least one clock offset is known.
    pub fn has_satellite_clock_offset(&self) -> (r: bool)
        ensures
            r == exists|i: int| 0 <= i < self.data@.len() && self.data@[i].1.clock_ps is Some,
    {
        self.any_entry(2)
    }

    /// True when at least one clock drift is known.
    pub fn has_satellite_clock_drift(&self) -> (r: bool)
        ensures
            r == exists|i: int| 0 <= i < self.data@.len() && self.data@[i].1.clock_drift is Some,
    {
        self.any_entry(3)
    }

    /// True when at least one satellite is being maneuvered.
    pub fn has_satellite_maneuver(&self) -> (r: bool)
        ensures
            r == exists|i: int| 0 <= i < self.data@.len() && self.data@[i].1.maneuver,
    {
        self.any_entry(4)
    }

    /// Satellites announced by the header.
    pub fn satellites(&self) -> (r: Vec<SV>)
        ensures
            r@ == self.header.satellites@,
    {
        self.header.satellites.clone()
    }

    /// Header comments.
    pub fn comments(&self) -> (r: Vec<Vec<u8>>)
        ensures
            r@.len() == self.comments@.len(),
            forall|i: int| 0 <= i < r@.len() ==> (#[trigger] r@[i])@ == self.comments@[i]@,
    {
        let mut r: Vec<Vec<u8>> = Vec::new();
        let mut i: usize = 0;
        while i < self.comments.len()
            invariant
                0 <= i <= self.comments@.len(),
                r@.len() == i,
                forall|j: int| 0 <= j < i ==> (#[trigger] r@[j])@ == self.comments@[j]@,
            decreases self.comments.len() - i,
        {
            r.push(self.comments[i].clone());
            i = i + 1;
        }
        r
    }

    /// Positions of all entries: epoch, satellite, predicted flag, maneuver flag, position.
    pub fn positions(&self) -> (r: Vec<(Epoch, SV, bool, bool, Vector3D)>)
        ensures
            r@ == self.data@.map_values(
                |p: (SP3Key, SP3Entry)|
                    (p.0.epoch, p.0.sv, p.1.predicted_orbit, p.1.maneuver, p.1.position_mm),
            ),
    {
        let mut r: Vec<(Epoch, SV, bool, bool, Vector3D)> = Vec::new();
        let mut i: usize = 0;
        while i < self.data.len()
            invariant
                0 <= i <= self.data@.len(),
                r@ == self.data@.subrange(0, i as int).map_values(
                    |p: (SP3Key, SP3Entry)|
                        (p.0.epoch, p.0.sv, p.1.predicted_orbit, p.1.maneuver, p.1.position_mm),
                ),
            decreases self.data.len() - i,
        {
            let (k, e) = self.data[i];
            r.push((k.epoch, k.sv, e.predicted_orbit, e.maneuver, e.position_mm));
            i = i + 1;
            assert(r@ =~= self.data@.subrange(0, i as int).map_values(
                |p: (SP3Key, SP3Entry)|
                    (p.0.epoch, p.0.sv, p.1.predicted_orbit, p.1.maneuver, p.1.position_mm),
            ));
        }
        assert(self.data@.subrange(0, self.data@.len() as int) =~= self.data@);
        r
    }

    /// Entries kept by `keep(which, entry)`, as (epoch, satellite, entry).
    fn select(&self, which: u8) -> (r: Vec<(Epoch, SV, SP3Entry)>)
        ensures
            r@ == self.data@.filter(|p: (SP3Key, SP3Entry)| keep(which, p.1)).map_values(
                |p: (SP3Key, SP3Entry)| (p.0.epoch, p.0.sv, p.1),
            ),
    {
        let mut r: Vec<(Epoch, SV, SP3Entry)> = Vec::new();
        let mut i: usize = 0;
        let ghost pred = |p: (SP3Key, SP3Entry)| keep(which, p.1);
        let ghost f = |p: (SP3Key, SP3Entry)| (p.0.epoch, p.0.sv, p.1);
        while i < self.data.len()
            invariant
                0 <= i <= self.data@.len(),
                pred == (|p: (SP3Key, SP3Entry)| keep(which, p.1)),
                f == (|p: (SP3Key, SP3Entry)| (p.0.epoch, p.0.sv, p.1)),
                r@ == self.data@.subrange(0, i as int).filter(pred).map_values(f),
            decreases self.data.len() - i,
        {
            let (k, e) = self.data[i];
            let ghost before = self.data@.subrange(0, i as int);
            let ghost after = self.data@.subrange(0, i + 1);
            assert(after.drop_last() =~= before);
            proof {
                reveal(Seq::filter);
            }
            let kept = if which == 0 {
                !e.maneuver
            } else if which == 1 {
                !e.maneuver && !e.predicted_orbit
            } else if which == 2 {
                !e.maneuver && e.predicted_orbit
            } else if which == 3 {
                !e.maneuver && e.velocity.is_some()
            } else if which == 4 {
                e.maneuver
            } else {
                e.clock_event
            };
            if kept {
                r.push((k.epoch, k.sv, e));
                assert(after.filter(pred) =~= before.filter(pred).push(self.data@[i as int]));
            } else {
                assert(after.filter(pred) =~= before.filter(pred));
            }
            i = i + 1;
            assert(r@ =~= self.data@.subrange(0, i as int).filter(pred).map_values(f));
        }
        assert(self.data@.subrange(0, self.data@.len() as int) =~= self.data@);
        r
    }

    /// Entries of satellites that are not being maneuvered.
    pub fn stable_positions(&self) -> (r: Vec<(Epoch, SV, SP3Entry)>)
        ensures
            r@ == self.data@.filter(|p: (SP3Key, SP3Entry)| keep(0, p.1)).map_values(
                |p: (SP3Key, SP3Entry)| (p.0.epoch, p.0.sv, p.1),
            ),
    {
        self.select(0)
    }

    /// Stable entries whose orbit was fitted (not predicted).
    pub fn fitted_positions(&self) -> (r: Vec<(Epoch, SV, SP3Entry)>)
        ensures
            r@ == self.data@.filter(|p: (SP3Key, SP3Entry)| keep(1, p.1)).map_values(
                |p: (SP3Key, SP3Entry)| (p.0.epoch, p.0.sv, p.1),
            ),
    {
        self.select(1)
    }

    /// Stable entries whose orbit was predicted.
    pub fn predicted_positions(&self) -> (r: Vec<(Epoch, SV, SP3Entry)>)
        ensures
            r@ == self.data@.filter(|p: (SP3Key, SP3Entry)| keep(2, p.1)).map_values(
                |p: (SP3Key, SP3Entry)| (p.0.epoch, p.0.sv, p.1),
            ),
    {
        self.select(2)
    }

    /// Stable entries with a known velocity.
    pub fn velocities(&self) -> (r: Vec<(Epoch, SV, SP3Entry)>)
        ensures
            r@ == self.data@.filter(|p: (SP3Key, SP3Entry)| keep(3, p.1)).map_values(
                |p: (SP3Key, SP3Entry)| (p.0.epoch, p.0.sv, p.1),
            ),
    {
        self.select(3)
    }

    /// Entries where a maneuver is reported.
    pub fn maneuvers(&self) -> (r: Vec<(Epoch, SV, SP3Entry)>)
        ensures
            r@ == self.data@.filter(|p: (SP3Key, SP3Entry)| keep(4, p.1)).map_values(
                |p: (SP3Key, SP3Entry)| (p.0.epoch, p.0.sv, p.1),
            ),
    {
        self.select(4)
    }

    /// Entries where a clock event is reported.
    pub fn events(&self) -> (r: Vec<(Epoch, SV, SP3Entry)>)
        ensures
            r@ == self.data@.filter(|p: (SP3Key, SP3Entry)| keep(5, p.1)).map_values(
                |p: (SP3Key, SP3Entry)| (p.0.epoch, p.0.sv, p.1),
            ),
    {
        self.select(5)
    }
}

/// Selections: 0 stable, 1 stable and fitted, 2 stable and predicted,
/// 3 stable with velocity, 4 maneuvered, 5 clock event.
pub open spec fn keep(which: u8, e: SP3Entry) -> bool {
    if which == 0 {
        !e.maneuver
    } else if which == 1 {
        !e.maneuver && !e.predicted_orbit
    } else if which == 2 {
        !e.maneuver && e.predicted_orbit
    } else if which == 3 {
        !e.maneuver && e.velocity is Some
    } else if which == 4 {
        e.maneuver
    } else {
        e.clock_event
    }
}

/// Flags: 0 predicted orbit, 1 clock event, 2 clock known, 3 drift known, 4 maneuver.
pub open spec fn entry_flag(e: SP3Entry, which: u8) -> bool {
    if which == 0 {
        e.predicted_orbit
    } else if which == 1 {
        e.clock_event
    } else if which == 2 {
        e.clock_ps is Some
    } else if which == 3 {
        e.clock_drift is Some
    } else {
        e.maneuver
    }
}

/// Epochs of sorted entries, each once, in order.
pub open spec fn distinct_epochs(s: Seq<(SP3Key, SP3Entry)>) -> Seq<Epoch>
    decreases s.len(),
{
    if s.len() == 0 {
        Seq::empty()
    } else {
        let p = s.drop_last();
        let e = s.last().0.epoch;
        if p.len() == 0 || !(p.last().0.epoch.spec_same_instant(e) && p.last().0.epoch.timescale == e.timescale) {
            distinct_epochs(p).push(e)
        } else {
            distinct_epochs(p)
        }
    }
}

/// Consecutive epochs all `dt` nanoseconds apart.
pub open spec fn steady(epochs: Seq<Epoch>, dt: int) -> bool {
    forall|i: int|
        0 <= i < epochs.len() - 1 ==> #[trigger] crate::dynamics::elapsed_of(
            epochs[i],
            crate::timeshift::scale_code(epochs[i].timescale),
            epochs[i + 1],
            crate::timeshift::scale_code(epochs[i + 1].timescale),
        ) == Some(dt as i128)
}

impl SP3 {
    /// True when consecutive epochs are exactly one sampling period apart.
    pub fn has_steady_sampling(&self) -> (r: bool)
        requires
            self.wf(),
        ensures
            r == steady(distinct_epochs(self.data@), self.header.sampling_period_ns as int),
    {
        let epochs = self.epochs();
        let dt = self.header.sampling_period_ns as i128;
        let mut i: usize = 1;
        while i < epochs.len()
            invariant
                1 <= i,
                epochs@ == distinct_epochs(self.data@),
                dt == self.header.sampling_period_ns as int,
                forall|j: int|
                    0 <= j < i - 1 && j < epochs@.len() - 1 ==> #[trigger] crate::dynamics::elapsed_of(
                        epochs@[j],
                        crate::timeshift::scale_code(epochs@[j].timescale),
                        epochs@[j + 1],
                        crate::timeshift::scale_code(epochs@[j + 1].timescale),
                    ) == Some(dt as i128),
            decreases epochs.len() - i,
        {
            let d = crate::dynamics::elapsed(&epochs[i - 1], &epochs[i]);
            assert(epochs@[(i - 1) + 1] == epochs@[i as int]);
            match d {
                Some(d) => if d != dt {
                    return false;
                },
                None => return false,
            }
            i = i + 1;
        }
        true
    }
}

pub proof fn lemma_epoch_order(a: Epoch, b: Epoch, c: Epoch)
    ensures
        !epoch_lt(a, a),
        epoch_lt(a, b) && epoch_lt(b, c) ==> epoch_lt(a, c),
        (a.spec_same_instant(b) && a.timescale == b.timescale) <==> a == b,
{
}

/// The epochs of a sorted record are listed once each, in increasing order,
/// and they are exactly the epochs of its keys.
pub proof fn lemma_distinct_epochs(s: Seq<(SP3Key, SP3Entry)>)
    requires
        sorted(s),
    ensures
        forall|i: int, j: int|
            0 <= i < j < distinct_epochs(s).len() ==> epoch_lt(
                #[trigger] distinct_epochs(s)[i],
                #[trigger] distinct_epochs(s)[j],
            ),
        s.len() > 0 ==> distinct_epochs(s).len() > 0 && distinct_epochs(s).last() == s.last().0.epoch,
        forall|i: int| 0 <= i < s.len() ==> distinct_epochs(s).contains(#[trigger] s[i].0.epoch),
        forall|i: int|
            0 <= i < distinct_epochs(s).len() ==> exists|j: int|
                0 <= j < s.len() && s[j].0.epoch == #[trigger] distinct_epochs(s)[i],
    decreases s.len(),
{
    if s.len() > 0 {
        let p = s.drop_last();
        let e = s.last().0.epoch;
        assert(sorted(p)) by {
            assert forall|i: int, j: int| 0 <= i < j < p.len() implies key_lt(
                #[trigger] p[i].0,
                #[trigger] p[j].0,
            ) by {
                assert(p[i] == s[i] && p[j] == s[j]);
            }
        }
        lemma_distinct_epochs(p);
        let dp = distinct_epochs(p);
        let d = distinct_epochs(s);
        if p.len() > 0 {
            assert(p.last() == s[s.len() - 2]);
            assert(key_lt(s[s.len() - 2].0, s[s.len() - 1].0));
            lemma_epoch_order(p.last().0.epoch, e, e);
        }
        if p.len() == 0 || !(p.last().0.epoch.spec_same_instant(e) && p.last().0.epoch.timescale
            == e.timescale) {
            assert(d == dp.push(e));
            if p.len() > 0 {
                assert(epoch_lt(p.last().0.epoch, e));
                assert forall|i: int| 0 <= i < dp.len() implies epoch_lt(#[trigger] dp[i], e) by {
                    if i < dp.len() - 1 {
                        lemma_epoch_order(dp[i], dp.last(), e);
                    }
                }
            }
            assert forall|i: int, j: int| 0 <= i < j < d.len() implies epoch_lt(
                #[trigger] d[i],
                #[trigger] d[j],
            ) by {
                if j < d.len() - 1 {
                    assert(d[i] == dp[i] && d[j] == dp[j]);
                } else {
                    assert(d[i] == dp[i]);
                }
            }
            assert forall|i: int| 0 <= i < s.len() implies d.contains(#[trigger] s[i].0.epoch) by {
                if i < s.len() - 1 {
                    assert(p[i] == s[i]);
                    let k = choose|k: int| 0 <= k < dp.len() && dp[k] == p[i].0.epoch;
                    assert(d[k] == dp[k]);
                } else {
                    assert(d[d.len() - 1] == e);
                }
            }
            assert forall|i: int| 0 <= i < d.len() implies exists|j: int|
                0 <= j < s.len() && s[j].0.epoch == #[trigger] d[i] by {
                if i < d.len() - 1 {
                    assert(d[i] == dp[i]);
                    let j = choose|j: int| 0 <= j < p.len() && p[j].0.epoch == dp[i];
                    assert(s[j] == p[j]);
                } else {
                    assert(s[s.len() - 1].0.epoch == d[i]);
                }
            }
        } else {
            assert(d == dp);
            lemma_epoch_order(p.last().0.epoch, e, e);
            assert forall|i: int| 0 <= i < s.len() implies d.contains(#[trigger] s[i].0.epoch) by {
                if i < s.len() - 1 {
                    assert(p[i] == s[i]);
                } else {
                    assert(dp.last() == p.last().0.epoch);
                    assert(d[d.len() - 1] == e);
                }
            }
            assert forall|i: int| 0 <= i < d.len() implies exists|j: int|
                0 <= j < s.len() && s[j].0.epoch == #[trigger] d[i] by {
                let j = choose|j: int| 0 <= j < p.len() && p[j].0.epoch == dp[i];
                assert(s[j] == p[j]);
            }
        }
    }
}

/// Storing a fitting entry keeps every entry fitting.
pub proof fn lemma_upsert_wf(s: Seq<(SP3Key, SP3Entry)>, k: SP3Key, e: SP3Entry)
    requires
        sorted(s),
        entries_wf(s),
        e.wf(),
        k.sv.prn < 100,
    ensures
        entries_wf(upsert(s, k, e)),
        lookup(s, k) matches Some(x) ==> x.wf(),
{
    lemma_insert_pos(s, k);
    let i = insert_pos(s, k) as int;
    let u = upsert(s, k, e);
    assert forall|j: int| 0 <= j < u.len() implies (#[trigger] u[j]).1.wf() && u[j].0.sv.prn < 100 by {
        if i < s.len() && s[i].0 == k {
            if j != i {
                assert(u[j] == s[j]);
            }
        } else if j < i {
            assert(u[j] == s[j]);
        } else if j > i {
            assert(u[j] == s[j - 1]);
        }
    }
    if lookup(s, k) is Some {
        assert(s[i].1.wf());
    }
}

} // verus!
