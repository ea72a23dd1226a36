use vstd::prelude::*;
use crate::record::{JsonSample, RecordView};

verus! {

/// The contents of a list of records.
pub open spec fn views(s: Seq<JsonSample>) -> Seq<RecordView> {
    s.map_values(|r: JsonSample| r@)
}

/// The contents of a list of groups.
pub open spec fn group_views(s: Seq<Vec<JsonSample>>) -> Seq<Seq<RecordView>> {
    s.map_values(|g: Vec<JsonSample>| views(g@))
}

/// The groups of a record stream: maximal contiguous runs of records that share a repository.
pub open spec fn split_groups(s: Seq<RecordView>) -> Seq<Seq<RecordView>>
    decreases s.len(),
{
    if s.len() == 0 {
        Seq::empty()
    } else {
        let prev = split_groups(s.drop_last());
        let r = s.last();
        if prev.len() > 0 && prev.last().last().repo == r.repo {
            prev.update(prev.len() - 1, prev.last().push(r))
        } else {
            prev.push(seq![r])
        }
    }
}

/// The groups emitted so far followed by the open one, when it holds records.
pub open spec fn with_pending(done: Seq<Seq<RecordView>>, cur: Seq<RecordView>) -> Seq<Seq<RecordView>> {
    if cur.len() == 0 {
        done
    } else {
        done.push(cur)
    }
}

/// Splits a stream of records into repository groups as the records arrive.
pub struct RecordGrouper {
    current: Vec<JsonSample>,
}

impl RecordGrouper {
    /// The records of the group that is still open.
    pub closed spec fn pending(&self) -> Seq<RecordView> {
        views(self.current@)
    }

    /// A grouper with no open group.
    pub fn new() -> (r: RecordGrouper)
        ensures
            r.pending() == Seq::<RecordView>::empty(),
    {
        RecordGrouper { current: Vec::new() }
    }

    /// Takes the next record. When it belongs to another repository than the open group,
    /// that group is closed and returned, and the record opens a new one.
    pub fn push(&mut self, rec: JsonSample) -> (r: Option<Vec<JsonSample>>)
        ensures
            old(self).pending().len() > 0 && old(self).pending().last().repo != rec@.repo ==> {
                &&& r is Some
                &&& views(r->0@) == old(self).pending()
                &&& final(self).pending() == seq![rec@]
            },
            !(old(self).pending().len() > 0 && old(self).pending().last().repo != rec@.repo) ==> {
                &&& r is None
                &&& final(self).pending() == old(self).pending().push(rec@)
            },
    {
        let n = self.current.len();
        if n > 0 && self.current[n - 1].repo != rec.repo {
            let mut fresh: Vec<JsonSample> = Vec::new();
            fresh.push(rec);
            let mut done: Vec<JsonSample> = fresh;
            std::mem::swap(&mut self.current, &mut done);
            assert(views(self.current@) =~= seq![rec@]);
            Some(done)
        } else {
            self.current.push(rec);
            assert(views(self.current@) =~= views(old(self).current@).push(rec@));
            None
        }
    }

    /// Ends the stream: returns the open group, if it holds records.
    pub fn finish(self) -> (r: Option<Vec<JsonSample>>)
        ensures
            self.pending().len() == 0 ==> r is None,
            self.pending().len() > 0 ==> r is Some && views(r->0@) == self.pending(),
    {
        if self.current.len() > 0 {
            Some(self.current)
        } else {
            None
        }
    }
}

/// Splits a whole list of records into repository groups, in order.
pub fn group_records(records: &Vec<JsonSample>) -> (r: Vec<Vec<JsonSample>>)
    ensures
        group_views(r@) == split_groups(views(records@)),
{
    let mut grouper = RecordGrouper::new();
    let mut out: Vec<Vec<JsonSample>> = Vec::new();
    let mut i: usize = 0;
    while i < records.len()
        invariant
            i <= records.len(),
            with_pending(group_views(out@), grouper.pending()) == split_groups(
                views(records@.subrange(0, i as int)),
            ),
            grouper.pending().len() == 0 ==> out@.len() == 0,
        decreases records.len() - i,
    {
        let rec = records[i].duplicate();
        proof {
            let s = views(records@.subrange(0, i + 1));
            assert(s.drop_last() =~= views(records@.subrange(0, i as int)));
            assert(s.last() == rec@);
        }
        let old_out = Ghost(group_views(out@));
        let old_pending = Ghost(grouper.pending());
        match grouper.push(rec) {
            Some(g) => {
                out.push(g);
                assert(group_views(out@) =~= old_out@.push(views(g@)));
            },
            None => {},
        }
        proof {
            let s = views(records@.subrange(0, i + 1));
            let prev = split_groups(s.drop_last());
            if old_pending@.len() > 0 && old_pending@.last().repo != s.last().repo {
                assert(prev == old_out@.push(old_pending@));
                assert(with_pending(group_views(out@), grouper.pending()) =~~= prev.push(seq![s.last()]));
            } else if old_pending@.len() == 0 {
                assert(with_pending(group_views(out@), grouper.pending()) =~~= prev.push(seq![s.last()]));
            } else {
                assert(prev == old_out@.push(old_pending@));
                assert(with_pending(group_views(out@), grouper.pending()) =~~= prev.update(
                    prev.len() - 1,
                    prev.last().push(s.last()),
                ));
            }
        }
        i += 1;
    }
    assert(records@.subrange(0, records.len() as int) =~= records@);
    let old_out = Ghost(group_views(out@));
    match grouper.finish() {
        Some(g) => {
            out.push(g);
            assert(group_views(out@) =~= old_out@.push(views(g@)));
        },
        None => {},
    }
    out
}

/// Grouping depends on the order of the records alone: the groups, put back together,
/// are the input in its order; no group is empty; the records of a group share one
/// repository; and two neighbouring groups belong to different repositories.
pub proof fn lemma_groups_partition(s: Seq<RecordView>)
    ensures
        split_groups(s).flatten() == s,
        forall|k: int| 0 <= k < split_groups(s).len() ==> #[trigger] split_groups(s)[k].len() > 0,
        forall|k: int, j: int|
            0 <= k < split_groups(s).len() && 0 <= j < split_groups(s)[k].len() ==> #[trigger] split_groups(s)[k][j].repo
                == split_groups(s)[k][0].repo,
        forall|k: int|
            0 < k < split_groups(s).len() ==> #[trigger] split_groups(s)[k][0].repo != split_groups(s)[k - 1][0].repo,
    decreases s.len(),
{
    if s.len() > 0 {
        let t = s.drop_last();
        lemma_groups_partition(t);
        let prev = split_groups(t);
        let r = s.last();
        if prev.len() > 0 && prev.last().last().repo == r.repo {
            let g = prev.last();
            let init = prev.drop_last();
            assert(prev =~= init.push(g));
            assert(split_groups(s) =~= init.push(g.push(r)));
            init.lemma_flatten_push(g);
            init.lemma_flatten_push(g.push(r));
            assert(s =~= t.push(r));
            assert(split_groups(s).flatten() =~= s);
        } else {
            prev.lemma_flatten_push(seq![r]);
            assert(s =~= t + seq![r]);
            if prev.len() > 0 {
                assert(prev.last()[0].repo == prev.last().last().repo);
            }
        }
    }
}

} // verus!
