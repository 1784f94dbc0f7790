//! Copies, subtraction, split and merge of records.
use crate::entry::{entry_sub, SP3Entry};
use crate::errors::{slice_to_vec, MergeError};
use crate::header::{Header, HeaderView};
use crate::production::ProductionAttributes;
use crate::record::{entries_wf, lookup, sorted, upsert, SP3Key, SP3};
use crate::types::{Constellation, Epoch, SV};
use vstd::prelude::*;

verus! {

/// A copy of a list of entries.
pub fn copy_entries(v: &Vec<(SP3Key, SP3Entry)>) -> (r: Vec<(SP3Key, SP3Entry)>)
    ensures
        r@ == v@,
{
    let mut r: Vec<(SP3Key, SP3Entry)> = Vec::new();
    let mut i: usize = 0;
    while i < v.len()
        invariant
            0 <= i <= v@.len(),
            r@ == v@.subrange(0, i as int),
        decreases v.len() - i,
    {
        r.push(v[i]);
        i = i + 1;
        assert(r@ =~= v@.subrange(0, i as int));
    }
    assert(v@.subrange(0, v@.len() as int) =~= v@);
    r
}

pub open spec fn comments_view(c: Seq<Vec<u8>>) -> Seq<Seq<u8>> {
    c.map_values(|v: Vec<u8>| v@)
}

fn copy_comments(c: &Vec<Vec<u8>>) -> (r: Vec<Vec<u8>>)
    ensures
        comments_view(r@) == comments_view(c@),
{
    let mut r: Vec<Vec<u8>> = Vec::new();
    let mut i: usize = 0;
    while i < c.len()
        invariant
            0 <= i <= c@.len(),
            r@.len() == i,
            forall|j: int| 0 <= j < i ==> (#[trigger] r@[j])@ == c@[j]@,
        decreases c.len() - i,
    {
        let v = slice_to_vec(c[i].as_slice(), 0, c[i].len());
        assert(c@[i as int]@.subrange(0, c@[i as int]@.len() as int) =~= c@[i as int]@);
        r.push(v);
        i = i + 1;
    }
    assert(comments_view(r@) =~= comments_view(c@));
    r
}

fn copy_attributes(a: &Option<ProductionAttributes>) -> (r: Option<ProductionAttributes>)
    ensures
        r is Some == a is Some,
        r matches Some(x) ==> x@ == a->Some_0@,
{
    match a {
        Some(p) => {
            let agency = slice_to_vec(p.agency.as_slice(), 0, p.agency.len());
            assert(p.agency@.subrange(0, p.agency@.len() as int) =~= p.agency@);
            Some(ProductionAttributes { agency, ..*p })
        },
        None => None,
    }
}

/// `a` and `b` hold the same comments and file-name attributes.
pub open spec fn same_notes(a: &SP3, b: &SP3) -> bool {
    &&& comments_view(a.comments@) == comments_view(b.comments@)
    &&& a.prod_attributes is Some == b.prod_attributes is Some
    &&& (a.prod_attributes matches Some(x) ==> x@ == b.prod_attributes->Some_0@)
}

/// `a` and `b` hold the same header, comments and attributes.
pub open spec fn same_context(a: &SP3, b: &SP3) -> bool {
    &&& a.header@ == b.header@
    &&& same_notes(a, b)
}

/// Entries of `s` whose key is also in `rhs`, replaced by their difference.
pub open spec fn subtracted(s: Seq<(SP3Key, SP3Entry)>, rhs: Seq<(SP3Key, SP3Entry)>) -> Seq<(SP3Key, SP3Entry)>
    decreases s.len(),
{
    if s.len() == 0 {
        Seq::empty()
    } else {
        let p = subtracted(s.drop_last(), rhs);
        let (k, e) = s.last();
        match lookup(rhs, k) {
            Some(r) => p.push((k, entry_sub(e, r))),
            None => p,
        }
    }
}

/// Entries at or before `t` (`left`), or after it.
pub open spec fn split_side(s: Seq<(SP3Key, SP3Entry)>, t: Epoch, left: bool) -> Seq<(SP3Key, SP3Entry)> {
    s.filter(|p: (SP3Key, SP3Entry)| (!t.spec_lt(p.0.epoch)) == left)
}

impl SP3 {
    /// A copy of this record.
    pub fn copy(&self) -> (r: SP3)
        ensures
            same_context(&r, self),
            r.data@ == self.data@,
    {
        SP3 {
            header: self.header.copy(),
            comments: copy_comments(&self.comments),
            prod_attributes: copy_attributes(&self.prod_attributes),
            data: copy_entries(&self.data),
        }
    }

    /// Keeps the entries whose key is also in `rhs`, each replaced by its
    /// difference with the entry of `rhs` ([`entry_sub`]).
    pub fn substract_mut(&mut self, rhs: &SP3)
        requires
            old(self).wf(),
            rhs.wf(),
            entries_wf(old(self).data@),
            entries_wf(rhs.data@),
        ensures
            final(self).data@ == subtracted(old(self).data@, rhs.data@),
            final(self).header == old(self).header,
            final(self).comments == old(self).comments,
            final(self).prod_attributes == old(self).prod_attributes,
    {
        let ghost s = self.data@;
        let mut out: Vec<(SP3Key, SP3Entry)> = Vec::new();
        let mut i: usize = 0;
        while i < self.data.len()
            invariant
                0 <= i <= self.data@.len(),
                s == self.data@,
                rhs.wf(),
                entries_wf(s),
                entries_wf(rhs.data@),
                out@ == subtracted(s.subrange(0, i as int), rhs.data@),
            decreases self.data.len() - i,
        {
            let (k, e) = self.data[i];
            let ghost p = s.subrange(0, i + 1);
            assert(p.drop_last() =~= s.subrange(0, i as int));
            assert(p.last() == s[i as int]);
            match rhs.get(&k) {
                Some(r) => {
                    proof {
                        crate::record::lemma_lookup_sorted(rhs.data@, k);
                        let j = crate::record::insert_pos(rhs.data@, k) as int;
                        crate::record::lemma_insert_pos(rhs.data@, k);
                        assert(rhs.data@[j].1.wf());
                        assert(s[i as int].1.wf());
                    }
                    out.push((k, e.sub(&r)));
                },
                None => {},
            }
            i = i + 1;
        }
        assert(s.subrange(0, s.len() as int) =~= s);
        self.data = out;
    }

    /// See [`SP3::substract_mut`].
    pub fn substract(&self, rhs: &SP3) -> (r: SP3)
        requires
            self.wf(),
            rhs.wf(),
            entries_wf(self.data@),
            entries_wf(rhs.data@),
        ensures
            r.data@ == subtracted(self.data@, rhs.data@),
            same_context(&r, self),
    {
        let mut s = self.copy();
        s.substract_mut(rhs);
        s
    }

    /// Splits at `t`: this record keeps the entries at or before `t`; the
    /// returned record, with the same header and comments, has those after it.
    pub fn split_mut(&mut self, t: &Epoch) -> (r: SP3)
        ensures
            final(self).data@ == split_side(old(self).data@, *t, true),
            r.data@ == split_side(old(self).data@, *t, false),
            final(self).header == old(self).header,
            final(self).comments == old(self).comments,
            final(self).prod_attributes == old(self).prod_attributes,
            same_context(&r, old(self)),
    {
        let ghost s = self.data@;
        let ghost pl = |p: (SP3Key, SP3Entry)| (!t.spec_lt(p.0.epoch)) == true;
        let ghost pr = |p: (SP3Key, SP3Entry)| (!t.spec_lt(p.0.epoch)) == false;
        let mut left: Vec<(SP3Key, SP3Entry)> = Vec::new();
        let mut right: Vec<(SP3Key, SP3Entry)> = Vec::new();
        let mut i: usize = 0;
        while i < self.data.len()
            invariant
                0 <= i <= self.data@.len(),
                s == self.data@,
                pl == (|p: (SP3Key, SP3Entry)| (!t.spec_lt(p.0.epoch)) == true),
                pr == (|p: (SP3Key, SP3Entry)| (!t.spec_lt(p.0.epoch)) == false),
                left@ == s.subrange(0, i as int).filter(pl),
                right@ == s.subrange(0, i as int).filter(pr),
            decreases self.data.len() - i,
        {
            let item = self.data[i];
            let ghost before = s.subrange(0, i as int);
            let ghost after = s.subrange(0, i + 1);
            assert(after.drop_last() =~= before);
            proof {
                reveal(Seq::filter);
            }
            if t.lt(&item.0.epoch) {
                right.push(item);
                assert(after.filter(pr) =~= before.filter(pr).push(item));
                assert(after.filter(pl) =~= before.filter(pl));
            } else {
                left.push(item);
                assert(after.filter(pl) =~= before.filter(pl).push(item));
                assert(after.filter(pr) =~= before.filter(pr));
            }
            i = i + 1;
        }
        assert(s.subrange(0, s.len() as int) =~= s);
        let mut rhs = SP3 {
            header: self.header.copy(),
            comments: copy_comments(&self.comments),
            prod_attributes: copy_attributes(&self.prod_attributes),
            data: right,
        };
        self.data = left;
        rhs
    }

    /// See [`SP3::split_mut`]: (entries at or before `t`, entries after it).
    pub fn split(&self, t: &Epoch) -> (r: (SP3, SP3))
        ensures
            r.0.data@ == split_side(self.data@, *t, true),
            r.1.data@ == split_side(self.data@, *t, false),
            same_context(&r.0, self),
            same_context(&r.1, self),
    {
        let mut lhs = self.copy();
        let rhs = lhs.split_mut(t);
        (lhs, rhs)
    }
}

/// Subtracting a record from itself leaves every entry at zero: positions
/// (0, 0, 0), a zero clock where the clock is known, and velocity and drift
/// only where known.
pub proof fn lemma_subtract_self(s: Seq<(SP3Key, SP3Entry)>)
    requires
        sorted(s),
    ensures
        subtracted(s, s).len() == s.len(),
        forall|i: int|
            0 <= i < s.len() ==> {
                let e = (#[trigger] subtracted(s, s)[i]).1;
                &&& subtracted(s, s)[i].0 == s[i].0
                &&& e.position_mm.x == 0 && e.position_mm.y == 0 && e.position_mm.z == 0
                &&& (e.clock_ps is Some <==> s[i].1.clock_ps is Some)
                &&& (e.clock_ps matches Some(c) ==> c == 0)
                &&& (e.velocity is Some <==> s[i].1.velocity is Some)
                &&& (e.clock_drift is Some <==> s[i].1.clock_drift is Some)
            },
{
    lemma_subtract_self_prefix(s, s.len() as int);
    assert(s.subrange(0, s.len() as int) =~= s);
}

proof fn lemma_subtract_self_prefix(s: Seq<(SP3Key, SP3Entry)>, n: int)
    requires
        sorted(s),
        0 <= n <= s.len(),
    ensures
        subtracted(s.subrange(0, n), s).len() == n,
        forall|i: int|
            0 <= i < n ==> {
                let e = (#[trigger] subtracted(s.subrange(0, n), s)[i]).1;
                &&& subtracted(s.subrange(0, n), s)[i].0 == s[i].0
                &&& e.position_mm.x == 0 && e.position_mm.y == 0 && e.position_mm.z == 0
                &&& (e.clock_ps is Some <==> s[i].1.clock_ps is Some)
                &&& (e.clock_ps matches Some(c) ==> c == 0)
                &&& (e.velocity is Some <==> s[i].1.velocity is Some)
                &&& (e.clock_drift is Some <==> s[i].1.clock_drift is Some)
            },
    decreases n,
{
    if n > 0 {
        let p = s.subrange(0, n);
        assert(p.drop_last() =~= s.subrange(0, n - 1));
        lemma_subtract_self_prefix(s, n - 1);
        crate::record::lemma_lookup_sorted(s, s[n - 1].0);
        assert(p.last() == s[n - 1]);
        assert(lookup(s, s[n - 1].0) == Some(s[n - 1].1));
    }
}

/// Splitting partitions the entries: the first share holds exactly the
/// entries at or before `t`, the second exactly those after it, and every
/// entry is in one of them.
pub proof fn lemma_split_partition(s: Seq<(SP3Key, SP3Entry)>, t: Epoch)
    ensures
        forall|i: int| 0 <= i < split_side(s, t, true).len() ==> !t.spec_lt(
            (#[trigger] split_side(s, t, true)[i]).0.epoch,
        ),
        forall|i: int| 0 <= i < split_side(s, t, false).len() ==> t.spec_lt(
            (#[trigger] split_side(s, t, false)[i]).0.epoch,
        ),
        forall|i: int|
            0 <= i < s.len() ==> (!t.spec_lt(s[i].0.epoch) ==> split_side(s, t, true).contains(
                #[trigger] s[i],
            )) && (t.spec_lt(s[i].0.epoch) ==> split_side(s, t, false).contains(s[i])),
        split_side(s, t, true).len() + split_side(s, t, false).len() == s.len(),
{
    let pl = |p: (SP3Key, SP3Entry)| (!t.spec_lt(p.0.epoch)) == true;
    let pr = |p: (SP3Key, SP3Entry)| (!t.spec_lt(p.0.epoch)) == false;
    #[allow(deprecated)]
    s.filter_lemma(pl);
    #[allow(deprecated)]
    s.filter_lemma(pr);
    lemma_filter_lengths(s, t);
}

proof fn lemma_filter_lengths(s: Seq<(SP3Key, SP3Entry)>, t: Epoch)
    ensures
        split_side(s, t, true).len() + split_side(s, t, false).len() == s.len(),
    decreases s.len(),
{
    reveal(Seq::filter);
    if s.len() > 0 {
        lemma_filter_lengths(s.drop_last(), t);
    }
}

/// Byte-wise equality.
pub fn bytes_eq(a: &Vec<u8>, b: &Vec<u8>) -> (r: bool)
    ensures
        r == (a@ == b@),
{
    if a.len() != b.len() {
        return false;
    }
    let mut i: usize = 0;
    while i < a.len()
        invariant
            0 <= i <= a@.len(),
            a@.len() == b@.len(),
            forall|j: int| 0 <= j < i ==> a@[j] == b@[j],
        decreases a.len() - i,
    {
        if a[i] != b[i] {
            return false;
        }
        i = i + 1;
    }
    assert(a@ =~= b@);
    true
}

/// Satellites of `a`, then those of `b` not already listed.
pub open spec fn union_satellites(a: Seq<SV>, b: Seq<SV>) -> Seq<SV>
    decreases b.len(),
{
    if b.len() == 0 {
        a
    } else {
        let u = union_satellites(a, b.drop_last());
        if u.contains(b.last()) {
            u
        } else {
            u.push(b.last())
        }
    }
}

/// Header of two merged records.
pub open spec fn merged_header(a: HeaderView, b: HeaderView) -> HeaderView {
    let earlier_mjd = b.mjd < a.mjd;
    let earlier_week = b.week < a.week;
    HeaderView {
        constellation: if a.constellation == b.constellation {
            a.constellation
        } else {
            Constellation::Mixed
        },
        version: if a.version.spec_number() <= b.version.spec_number() {
            a.version
        } else {
            b.version
        },
        mjd: if earlier_mjd {
            b.mjd
        } else {
            a.mjd
        },
        mjd_fraction: if earlier_mjd {
            b.mjd_fraction
        } else {
            a.mjd_fraction
        },
        week: if earlier_week {
            b.week
        } else {
            a.week
        },
        week_nanos: if earlier_week {
            b.week_nanos
        } else {
            a.week_nanos
        },
        satellites: union_satellites(a.satellites, b.satellites),
        sampling_period_ns: if a.sampling_period_ns >= b.sampling_period_ns {
            a.sampling_period_ns
        } else {
            b.sampling_period_ns
        },
        ..a
    }
}

/// Merge of an entry of the right-hand record into what the left holds:
/// known clock, drift and velocity of the right side win.
pub open spec fn merged_entry(old: Option<SP3Entry>, e: SP3Entry) -> SP3Entry {
    match old {
        Some(l) => SP3Entry {
            clock_ps: if e.clock_ps is Some {
                e.clock_ps
            } else {
                l.clock_ps
            },
            clock_drift: if e.clock_drift is Some {
                e.clock_drift
            } else {
                l.clock_drift
            },
            velocity: if e.velocity is Some {
                e.velocity
            } else {
                l.velocity
            },
            ..l
        },
        None => e,
    }
}

/// Entries of `l` with those of `r` merged in, in the order of `r`.
pub open spec fn merged_entries(l: Seq<(SP3Key, SP3Entry)>, r: Seq<(SP3Key, SP3Entry)>) -> Seq<(SP3Key, SP3Entry)>
    decreases r.len(),
{
    if r.len() == 0 {
        l
    } else {
        let acc = merged_entries(l, r.drop_last());
        let (k, e) = r.last();
        upsert(acc, k, merged_entry(lookup(acc, k), e))
    }
}

impl SP3 {
    /// Merges `rhs` into this record. Fails, leaving the record as it was,
    /// when agencies, timescales or coordinate systems differ.
    pub fn merge_mut(&mut self, rhs: &SP3) -> (r: Result<(), MergeError>)
        requires
            old(self).wf(),
        ensures
            final(self).wf(),
            old(self).header.agency@ != rhs.header.agency@ ==> r == Err::<(), MergeError>(
                MergeError::DataProviderMismatch,
            ),
            old(self).header.agency@ == rhs.header.agency@ && old(self).header.timescale
                != rhs.header.timescale ==> r == Err::<(), MergeError>(MergeError::TimescaleMismatch),
            old(self).header.agency@ == rhs.header.agency@ && old(self).header.timescale
                == rhs.header.timescale && old(self).header.coord_system@
                != rhs.header.coord_system@ ==> r == Err::<(), MergeError>(
                MergeError::ReferenceFrameMismatch,
            ),
            r is Err ==> *final(self) == *old(self),
            old(self).header.agency@ == rhs.header.agency@ && old(self).header.timescale
                == rhs.header.timescale && old(self).header.coord_system@
                == rhs.header.coord_system@ ==> r is Ok && final(self).header@ == merged_header(
                old(self).header@,
                rhs.header@,
            ) && final(self).data@ == merged_entries(old(self).data@, rhs.data@)
                && final(self).comments == old(self).comments
                && final(self).prod_attributes == old(self).prod_attributes,
    {
        if !bytes_eq(&self.header.agency, &rhs.header.agency) {
            return Err(MergeError::DataProviderMismatch);
        }
        if self.header.timescale != rhs.header.timescale {
            return Err(MergeError::TimescaleMismatch);
        }
        if !bytes_eq(&self.header.coord_system, &rhs.header.coord_system) {
            return Err(MergeError::ReferenceFrameMismatch);
        }
        let ghost h0 = self.header@;
        if !self.header.constellation.same(&rhs.header.constellation) {
            self.header.constellation = Constellation::Mixed;
        }
        self.header.version = self.header.version.min(rhs.header.version);
        if rhs.header.mjd < self.header.mjd {
            self.header.mjd = rhs.header.mjd;
            self.header.mjd_fraction = rhs.header.mjd_fraction;
        }
        if rhs.header.week < self.header.week {
            self.header.week = rhs.header.week;
            self.header.week_nanos = rhs.header.week_nanos;
        }
        if rhs.header.sampling_period_ns > self.header.sampling_period_ns {
            self.header.sampling_period_ns = rhs.header.sampling_period_ns;
        }
        let ghost hm = self.header@;
        let mut k: usize = 0;
        while k < rhs.header.satellites.len()
            invariant
                0 <= k <= rhs.header.satellites@.len(),
                self.data == old(self).data,
                self.comments == old(self).comments,
                self.prod_attributes == old(self).prod_attributes,
                sorted(self.data@),
                self.header@ == (HeaderView { satellites: self.header.satellites@, ..hm }),
                self.header.satellites@ == union_satellites(
                    h0.satellites,
                    rhs.header.satellites@.subrange(0, k as int),
                ),
            decreases rhs.header.satellites.len() - k,
        {
            let sv = rhs.header.satellites[k];
            let ghost b = rhs.header.satellites@.subrange(0, k + 1);
            assert(b.drop_last() =~= rhs.header.satellites@.subrange(0, k as int));
            crate::parsing::add_satellite_exec(&mut self.header.satellites, sv);
            k = k + 1;
        }
        assert(rhs.header.satellites@.subrange(0, rhs.header.satellites@.len() as int)
            =~= rhs.header.satellites@);
        let ghost l0 = self.data@;
        let ghost hf = self.header@;
        let mut i: usize = 0;
        while i < rhs.data.len()
            invariant
                0 <= i <= rhs.data@.len(),
                self.header@ == hf,
                self.comments == old(self).comments,
                self.prod_attributes == old(self).prod_attributes,
                sorted(self.data@),
                sorted(l0),
                self.data@ == merged_entries(l0, rhs.data@.subrange(0, i as int)),
            decreases rhs.data.len() - i,
        {
            let (key, e) = rhs.data[i];
            let ghost b = rhs.data@.subrange(0, i + 1);
            assert(b.drop_last() =~= rhs.data@.subrange(0, i as int));
            let old = self.get(&key);
            let merged = match old {
                Some(l) => SP3Entry {
                    clock_ps: if e.clock_ps.is_some() {
                        e.clock_ps
                    } else {
                        l.clock_ps
                    },
                    clock_drift: if e.clock_drift.is_some() {
                        e.clock_drift
                    } else {
                        l.clock_drift
                    },
                    velocity: if e.velocity.is_some() {
                        e.velocity
                    } else {
                        l.velocity
                    },
                    ..l
                },
                None => e,
            };
            self.insert(key, merged);
            i = i + 1;
        }
        assert(rhs.data@.subrange(0, rhs.data@.len() as int) =~= rhs.data@);
        Ok(())
    }
}

impl SP3 {
    /// This record with `rhs` merged in, see [`SP3::merge_mut`].
    pub fn merge(&self, rhs: &SP3) -> (r: Result<SP3, MergeError>)
        requires
            self.wf(),
        ensures
            self.header.agency@ != rhs.header.agency@ ==> r == Err::<SP3, MergeError>(
                MergeError::DataProviderMismatch,
            ),
            self.header.agency@ == rhs.header.agency@ && self.header.timescale
                != rhs.header.timescale ==> r == Err::<SP3, MergeError>(MergeError::TimescaleMismatch),
            self.header.agency@ == rhs.header.agency@ && self.header.timescale
                == rhs.header.timescale && self.header.coord_system@
                != rhs.header.coord_system@ ==> r == Err::<SP3, MergeError>(
                MergeError::ReferenceFrameMismatch,
            ),
            self.header.agency@ == rhs.header.agency@ && self.header.timescale
                == rhs.header.timescale && self.header.coord_system@
                == rhs.header.coord_system@ ==> (r matches Ok(s) && s.header@ == merged_header(
                self.header@,
                rhs.header@,
            ) && s.data@ == merged_entries(self.data@, rhs.data@)),
    {
        let mut s = self.copy();
        match s.merge_mut(rhs) {
            Ok(()) => Ok(s),
            Err(e) => Err(e),
        }
    }
}

} // verus!
