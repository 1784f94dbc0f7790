//! Windows of samples around an epoch, for interpolating a satellite position.
use crate::entry::{SP3Entry, Vector3D};
use crate::record::{SP3Key, SP3};
use crate::types::{Epoch, SV};
use vstd::prelude::*;

verus! {

/// Two epochs closer than this many nanoseconds are the same sample.
pub const SAME_EPOCH_NS: i128 = 2;

/// Stable (not maneuvered) samples of `sv`, in record order.
pub open spec fn stable_samples(s: Seq<(SP3Key, SP3Entry)>, sv: SV) -> Seq<(Epoch, Vector3D)> {
    s.filter(|p: (SP3Key, SP3Entry)| p.0.sv == sv && !p.1.maneuver).map_values(
        |p: (SP3Key, SP3Entry)| (p.0.epoch, p.1.position_mm),
    )
}

/// Number of leading samples strictly before `tn` nanoseconds.
pub open spec fn before_count(w: Seq<(Epoch, Vector3D)>, tn: int) -> nat
    decreases w.len(),
{
    if w.len() > 0 && w[0].0.spec_ns() < tn {
        1 + before_count(w.drop_first(), tn)
    } else {
        0
    }
}

/// Bounds of the interpolation window of `order + 1` samples around `tn`:
/// `h = (order + 1) / 2` samples on each side of `tn`; a sample within 2 ns
/// of `tn` counts on the near side, and when too few samples follow it the
/// window shifts one sample back. `None` when `tn` is too early or too late.
pub open spec fn window_bounds(w: Seq<(Epoch, Vector3D)>, tn: int, order: int) -> Option<(int, int)> {
    let h = (order + 1) / 2;
    let n = w.len() as int;
    let x = before_count(w, tn) as int;
    if x >= n {
        None
    } else {
        let exact = w[x].0.spec_ns() - tn < SAME_EPOCH_NS;
        let start = if exact {
            if x + h <= n - 1 {
                x - h + 1
            } else {
                x - h
            }
        } else {
            x - h
        };
        if start >= 0 && start + 2 * h <= n {
            Some((start, start + 2 * h))
        } else {
            None
        }
    }
}

/// The interpolation window, see [`window_bounds`].
pub open spec fn window_of(w: Seq<(Epoch, Vector3D)>, tn: int, order: int) -> Option<Seq<(Epoch, Vector3D)>> {
    match window_bounds(w, tn, order) {
        Some((a, b)) => Some(w.subrange(a, b)),
        None => None,
    }
}

pub open spec fn increasing_times(w: Seq<(Epoch, Vector3D)>) -> bool {
    forall|i: int, j: int| 0 <= i < j < w.len() ==> #[trigger] w[i].0.spec_ns() < #[trigger] w[j].0.spec_ns()
}

proof fn lemma_before_count(w: Seq<(Epoch, Vector3D)>, tn: int)
    requires
        increasing_times(w),
    ensures
        before_count(w, tn) <= w.len(),
        forall|k: int| 0 <= k < before_count(w, tn) ==> (#[trigger] w[k]).0.spec_ns() < tn,
        forall|k: int| before_count(w, tn) <= k < w.len() ==> (#[trigger] w[k]).0.spec_ns() >= tn,
    decreases w.len(),
{
    if w.len() > 0 && w[0].0.spec_ns() < tn {
        let v = w.drop_first();
        assert(increasing_times(v)) by {
            assert forall|i: int, j: int| 0 <= i < j < v.len() implies #[trigger] v[i].0.spec_ns()
                < #[trigger] v[j].0.spec_ns() by {
                assert(v[i] == w[i + 1] && v[j] == w[j + 1]);
            }
        }
        lemma_before_count(v, tn);
        assert forall|k: int| 0 <= k < before_count(w, tn) implies (#[trigger] w[k]).0.spec_ns()
            < tn by {
            if k > 0 {
                assert(w[k] == v[k - 1]);
            }
        }
        assert forall|k: int| before_count(w, tn) <= k < w.len() implies (#[trigger] w[k]).0.spec_ns()
            >= tn by {
            assert(w[k] == v[k - 1]);
        }
    } else if w.len() > 0 {
        assert forall|k: int| 0 <= k < w.len() implies (#[trigger] w[k]).0.spec_ns() >= tn by {
            if k > 0 {
                assert(w[0].0.spec_ns() < w[k].0.spec_ns());
            }
        }
    }
}

/// For samples at increasing times and an odd order, the window exists
/// whenever there are at least `order + 1` samples and `tn` lies between the
/// sample at index `order / 2` and the sample `order / 2` places from the end
/// (that is, outside the first and last `order / 2` samples).
pub proof fn lemma_window_defined(w: Seq<(Epoch, Vector3D)>, tn: int, order: int)
    requires
        increasing_times(w),
        order >= 1,
        order % 2 == 1,
        w.len() >= order + 1,
        w[order / 2].0.spec_ns() <= tn <= w[w.len() - 1 - order / 2].0.spec_ns(),
    ensures
        window_bounds(w, tn, order) is Some,
        window_of(w, tn, order) matches Some(v) ==> v.len() == order + 1,
{
    lemma_before_count(w, tn);
    let h = (order + 1) / 2;
    let n = w.len() as int;
    let x = before_count(w, tn) as int;
    assert(order / 2 == h - 1);
    if x < h - 1 {
        assert(w[h - 1].0.spec_ns() >= tn);
        assert(w[x].0.spec_ns() < w[h - 1].0.spec_ns());
    }
    if x > n - h {
        assert(w[n - h].0.spec_ns() < tn);
    }
    assert(h - 1 <= x <= n - h);
}

fn stable_samples_exec(data: &Vec<(SP3Key, SP3Entry)>, sv: &SV) -> (r: Vec<(Epoch, Vector3D)>)
    ensures
        r@ == stable_samples(data@, *sv),
{
    let ghost pred = |p: (SP3Key, SP3Entry)| p.0.sv == *sv && !p.1.maneuver;
    let ghost f = |p: (SP3Key, SP3Entry)| (p.0.epoch, p.1.position_mm);
    let mut r: Vec<(Epoch, Vector3D)> = Vec::new();
    let mut i: usize = 0;
    while i < data.len()
        invariant
            0 <= i <= data@.len(),
            pred == (|p: (SP3Key, SP3Entry)| p.0.sv == *sv && !p.1.maneuver),
            f == (|p: (SP3Key, SP3Entry)| (p.0.epoch, p.1.position_mm)),
            r@ == data@.subrange(0, i as int).filter(pred).map_values(f),
        decreases data.len() - i,
    {
        let (k, e) = data[i];
        let ghost before = data@.subrange(0, i as int);
        let ghost after = data@.subrange(0, i + 1);
        assert(after.drop_last() =~= before);
        proof {
            reveal(Seq::filter);
        }
        if k.sv.same(sv) && !e.maneuver {
            r.push((k.epoch, e.position_mm));
            assert(after.filter(pred) =~= before.filter(pred).push(data@[i as int]));
        } else {
            assert(after.filter(pred) =~= before.filter(pred));
        }
        i = i + 1;
        assert(r@ =~= data@.subrange(0, i as int).filter(pred).map_values(f));
    }
    assert(data@.subrange(0, data@.len() as int) =~= data@);
    r
}

fn before_count_exec(w: &Vec<(Epoch, Vector3D)>, tn: i128) -> (r: usize)
    ensures
        r as nat == before_count(w@, tn as int),
{
    let mut i: usize = 0;
    assert(w@.subrange(0, w@.len() as int) =~= w@);
    while i < w.len() && w[i].0.to_ns() < tn
        invariant
            0 <= i <= w@.len(),
            before_count(w@, tn as int) == i + before_count(w@.subrange(i as int, w@.len() as int), tn as int),
        decreases w.len() - i,
    {
        let ghost v = w@.subrange(i as int, w@.len() as int);
        assert(v.drop_first() =~= w@.subrange(i + 1, w@.len() as int));
        assert(v[0] == w@[i as int]);
        i = i + 1;
    }
    proof {
        let v = w@.subrange(i as int, w@.len() as int);
        if i < w@.len() {
            assert(v[0] == w@[i as int]);
        }
    }
    i
}

impl SP3 {
    /// The window of `order + 1` stable samples of `sv` around `t` for an
    /// interpolation of odd `order`, see [`window_of`]; `None` when `t` is too
    /// early or too late. Even orders are refused by the contract.
    pub fn interpolation_window(&self, sv: &SV, t: &Epoch, order: usize) -> (r: Option<Vec<(Epoch, Vector3D)>>)
        requires
            order % 2 == 1,
            order < usize::MAX,
        ensures
            match window_of(stable_samples(self.data@, *sv), t.spec_ns(), order as int) {
                Some(v) => r matches Some(x) && x@ == v,
                None => r is None,
            },
    {
        let w = stable_samples_exec(&self.data, sv);
        let tn = t.to_ns();
        let h = (order + 1) / 2;
        let n = w.len();
        let x = before_count_exec(&w, tn);
        if x >= n {
            return None;
        }
        let exact = w[x].0.to_ns() - tn < SAME_EPOCH_NS;
        let start: i128 = if exact {
            if x as i128 + h as i128 <= n as i128 - 1 {
                x as i128 - h as i128 + 1
            } else {
                x as i128 - h as i128
            }
        } else {
            x as i128 - h as i128
        };
        if start < 0 || start + 2 * h as i128 > n as i128 {
            return None;
        }
        let a = start as usize;
        let b = a + 2 * h;
        let mut r: Vec<(Epoch, Vector3D)> = Vec::new();
        let mut i = a;
        while i < b
            invariant
                a <= i <= b <= w@.len(),
                r@ == w@.subrange(a as int, i as int),
            decreases b - i,
        {
            r.push(w[i]);
            i = i + 1;
            assert(r@ =~= w@.subrange(a as int, i as int));
        }
        Some(r)
    }
}

} // verus!
