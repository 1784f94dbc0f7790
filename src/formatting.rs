//! Writing a record.
use crate::entry::{entry_text, SP3Entry};
use crate::numeric::push_bytes;
use crate::record::{entries_wf, SP3Key, SP3};
use crate::types::{epoch_text, push_epoch_text, Epoch};
use vstd::prelude::*;

verus! {

/// `*  ` and the epoch, ended by a line feed.
pub open spec fn epoch_marker(e: Epoch) -> Seq<u8> {
    seq![42u8, 32u8, 32u8] + epoch_text(e) + seq![10u8]
}

/// Two epochs that share a block.
pub open spec fn same_epoch(a: Epoch, b: Epoch) -> bool {
    a.spec_same_instant(b) && a.timescale == b.timescale
}

/// Entry blocks: an epoch marker before the first entry of each epoch,
/// then the entry lines.
pub open spec fn entries_text(s: Seq<(SP3Key, SP3Entry)>) -> Seq<u8>
    decreases s.len(),
{
    if s.len() == 0 {
        Seq::empty()
    } else {
        entries_text(s.drop_last()) + block_text(s, s.len() - 1)
    }
}

/// Text of entry `j`: its epoch marker when the epoch changes, then its lines.
pub open spec fn block_text(s: Seq<(SP3Key, SP3Entry)>, j: int) -> Seq<u8> {
    let k = s[j].0;
    let marker = if j == 0 || !same_epoch(s[j - 1].0.epoch, k.epoch) {
        epoch_marker(k.epoch)
    } else {
        Seq::empty()
    };
    marker + entry_text(k.sv, s[j].1)
}

fn push_block(out: &mut Vec<u8>, data: &Vec<(SP3Key, SP3Entry)>, j: usize)
    requires
        j < data@.len(),
        entries_wf(data@),
    ensures
        final(out)@ == old(out)@ + block_text(data@, j as int),
{
    let ghost o = out@;
    let (k, e) = data[j];
    assert(data@[j as int].1.wf() && data@[j as int].0.sv.prn < 100);
    let new_epoch = j == 0 || !(data[j - 1].0.epoch.same_instant(&k.epoch)
        && data[j - 1].0.epoch.timescale == k.epoch.timescale);
    if new_epoch {
        push_bytes(out, &[42u8, 32u8, 32u8]);
        push_epoch_text(out, &k.epoch);
        out.push(10u8);
    }
    let ghost m = out@;
    e.format_into(&k.sv, out);
    assert(out@ =~= o + block_text(data@, j as int));
}

/// Comment lines, each as `/* ` and the comment.
pub open spec fn comments_text(c: Seq<Seq<u8>>) -> Seq<u8>
    decreases c.len(),
{
    if c.len() == 0 {
        Seq::empty()
    } else {
        comments_text(c.drop_last()) + seq![47u8, 42u8, 32u8] + c.last() + seq![10u8]
    }
}

/// The whole file: header, comments, entry blocks and `EOF`.
pub open spec fn record_text(s: &SP3) -> Seq<u8> {
    s.header.spec_text() + comments_text(s.comments@.map_values(|c: Vec<u8>| c@)) + entries_text(
        s.data@,
    ) + seq![69u8, 79u8, 70u8, 10u8]
}

impl SP3 {
    /// The text of this record, see [`record_text`].
    pub fn format(&self) -> (r: Vec<u8>)
        requires
            entries_wf(self.data@),
        ensures
            r@ == record_text(self),
    {
        let mut out = self.header.format();
        let ghost cs = self.comments@.map_values(|c: Vec<u8>| c@);
        let ghost h = out@;
        let mut i: usize = 0;
        while i < self.comments.len()
            invariant
                0 <= i <= self.comments@.len(),
                cs == self.comments@.map_values(|c: Vec<u8>| c@),
                out@ == h + comments_text(cs.subrange(0, i as int)),
            decreases self.comments.len() - i,
        {
            push_bytes(&mut out, &[47u8, 42u8, 32u8]);
            push_bytes(&mut out, self.comments[i].as_slice());
            out.push(10u8);
            assert(cs.subrange(0, i + 1).drop_last() =~= cs.subrange(0, i as int));
            i = i + 1;
            assert(out@ =~= h + comments_text(cs.subrange(0, i as int)));
        }
        assert(cs.subrange(0, cs.len() as int) =~= cs);
        let ghost hc = out@;
        let mut j: usize = 0;
        while j < self.data.len()
            invariant
                0 <= j <= self.data@.len(),
                entries_wf(self.data@),
                out@ == hc + entries_text(self.data@.subrange(0, j as int)),
            decreases self.data.len() - j,
        {
            let ghost p = self.data@.subrange(0, j as int);
            let ghost q = self.data@.subrange(0, j + 1);
            assert(q.drop_last() =~= p);
            assert(block_text(q, j as int) == block_text(self.data@, j as int)) by {
                assert(q[j as int] == self.data@[j as int]);
                if j > 0 {
                    assert(q[j - 1] == self.data@[j - 1]);
                }
            }
            push_block(&mut out, &self.data, j);
            j = j + 1;
            assert(out@ =~= hc + entries_text(self.data@.subrange(0, j as int)));
        }
        assert(self.data@.subrange(0, self.data@.len() as int) =~= self.data@);
        push_bytes(&mut out, &[69u8, 79u8, 70u8, 10u8]);
        assert(out@ =~= record_text(self));
        out
    }
}

} // verus!
