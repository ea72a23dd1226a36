use vstd::prelude::*;
use rand::Rng;
use crate::calls::{is_caller, last_position};
use crate::grouping::views;
use crate::record::{DataSample, JsonSample, RecordView, SampleView};

verus! {

/// The contents of a list of samples.
pub open spec fn sample_views(s: Seq<DataSample>) -> Seq<SampleView> {
    s.map_values(|d: DataSample| d@)
}

/// The function/comment samples of the first `n` records of a group: one per function
/// (the record its name stands for) whose docstring is not empty, in group order.
pub open spec fn func_comm_of(g: Seq<RecordView>, n: int) -> Seq<SampleView>
    decreases n,
{
    if n <= 0 {
        Seq::empty()
    } else if is_caller(g, n - 1) && g[n - 1].docstring.len() > 0 {
        func_comm_of(g, n - 1).push(SampleView::FuncComm(g[n - 1].code, g[n - 1].docstring))
    } else {
        func_comm_of(g, n - 1)
    }
}

/// The function/comment samples of a group.
pub fn func_comm_samples(group: &Vec<JsonSample>) -> (r: Vec<DataSample>)
    ensures
        sample_views(r@) == func_comm_of(views(group@), group.len() as int),
{
    let ghost g = views(group@);
    let mut out: Vec<DataSample> = Vec::new();
    let mut i: usize = 0;
    while i < group.len()
        invariant
            g == views(group@),
            i <= group.len(),
            sample_views(out@) == func_comm_of(g, i as int),
        decreases group.len() - i,
    {
        let own = match last_position(group, &group[i].func_name) {
            Some(p) => p == i,
            None => false,
        };
        if own && group[i].docstring.unicode_len() > 0 {
            let ghost prev = sample_views(out@);
            out.push(DataSample::FuncComm(group[i].code.clone(), group[i].docstring.clone()));
            assert(sample_views(out@) =~= prev.push(SampleView::FuncComm(g[i as int].code, g[i as int].docstring)));
        }
        i += 1;
    }
    out
}

/// The negative sample drawn for sample `k` when the draw gave `pick`: the caller of `k`
/// with the callee of `pick`, unless one of the two is no caller/callee sample or both have
/// the same callee source.
pub open spec fn negative_for(s: Seq<SampleView>, k: int, pick: int) -> Option<SampleView> {
    match s[k] {
        SampleView::FuncCallComm(caller_src, caller_com, callee_src, _, _) => match s[pick] {
            SampleView::FuncCallComm(_, _, other_src, other_com, _) => if other_src == callee_src {
                None
            } else {
                Some(SampleView::FuncCallComm(caller_src, caller_com, other_src, other_com, false))
            },
            _ => None,
        },
        _ => None,
    }
}

/// The negative samples drawn for the first `n` samples, `picks[k]` being the draw for
/// sample `k`.
pub open spec fn negatives_of(s: Seq<SampleView>, picks: Seq<usize>, n: int) -> Seq<SampleView>
    decreases n,
{
    if n <= 0 {
        Seq::empty()
    } else {
        match negative_for(s, n - 1, picks[n - 1] as int) {
            Some(x) => negatives_of(s, picks, n - 1).push(x),
            None => negatives_of(s, picks, n - 1),
        }
    }
}

/// `a` and `b` interleaved, one of each in turn, followed by what is left of the longer.
pub open spec fn interleaved<A>(a: Seq<A>, b: Seq<A>) -> Seq<A> {
    let m = if a.len() < b.len() { a.len() } else { b.len() };
    Seq::new(
        (a.len() + b.len()) as nat,
        |t: int|
            if t < 2 * m {
                if t % 2 == 0 { a[t / 2] } else { b[t / 2] }
            } else if a.len() > m {
                a[t - m]
            } else {
                b[t - m]
            },
    )
}

/// `a` and `b` interleaved, one of each in turn, followed by what is left of the longer.
pub fn interleave_samples(a: &Vec<DataSample>, b: &Vec<DataSample>) -> (r: Vec<DataSample>)
    ensures
        sample_views(r@) == interleaved(sample_views(a@), sample_views(b@)),
{
    let m: usize = if a.len() < b.len() { a.len() } else { b.len() };
    let ghost (av, bv) = (sample_views(a@), sample_views(b@));
    let mut out: Vec<DataSample> = Vec::new();
    let mut idx: usize = 0;
    while idx < m
        invariant
            av == sample_views(a@),
            bv == sample_views(b@),
            m <= a.len() && m <= b.len(),
            m == a.len() || m == b.len(),
            idx <= m,
            out.len() == 2 * idx,
            forall|t: int|
                0 <= t < 2 * idx ==> (#[trigger] out@[t])@ == if t % 2 == 0 { av[t / 2] } else { bv[t / 2] },
        decreases m - idx,
    {
        out.push(a[idx].duplicate());
        out.push(b[idx].duplicate());
        idx += 1;
    }
    let longer = if a.len() > m { a } else { b };
    let ghost lv = sample_views(longer@);
    let mut j: usize = m;
    while j < longer.len()
        invariant
            av == sample_views(a@),
            bv == sample_views(b@),
            lv == sample_views(longer@),
            longer.len() == if a.len() > m { a.len() } else { b.len() },
            lv == if a.len() > m { av } else { bv },
            m <= a.len() && m <= b.len(),
            m == a.len() || m == b.len(),
            m <= j <= longer.len(),
            out.len() == m + j,
            forall|t: int|
                0 <= t < 2 * m ==> (#[trigger] out@[t])@ == if t % 2 == 0 { av[t / 2] } else { bv[t / 2] },
            forall|t: int| 2 * m <= t < m + j ==> (#[trigger] out@[t])@ == lv[t - m],
        decreases longer.len() - j,
    {
        out.push(longer[j].duplicate());
        j += 1;
    }
    assert(sample_views(out@) =~= interleaved(av, bv));
    out
}

/// Draws one negative sample after each caller/callee sample and interleaves them with
/// the samples; `picks[k]` is the position of the sample whose callee is tried for sample `k`.
pub fn insert_negative_samples_with(samples: &Vec<DataSample>, picks: &Vec<usize>) -> (r: Vec<DataSample>)
    requires
        picks.len() == samples.len(),
        forall|k: int| 0 <= k < picks.len() ==> picks@[k] < samples.len(),
    ensures
        sample_views(r@) == interleaved(
            sample_views(samples@),
            negatives_of(sample_views(samples@), picks@, samples.len() as int),
        ),
{
    let ghost s = sample_views(samples@);
    let mut negatives: Vec<DataSample> = Vec::new();
    let mut k: usize = 0;
    while k < samples.len()
        invariant
            s == sample_views(samples@),
            picks.len() == samples.len(),
            forall|t: int| 0 <= t < picks.len() ==> picks@[t] < samples.len(),
            k <= samples.len(),
            sample_views(negatives@) == negatives_of(s, picks@, k as int),
        decreases samples.len() - k,
    {
        let ghost prev = sample_views(negatives@);
        let pick = picks[k];
        assert(s[k as int] == samples@[k as int]@ && s[pick as int] == samples@[pick as int]@);
        match &samples[k] {
            DataSample::FuncCallComm(caller_src, caller_com, callee_src, _, _) => match &samples[pick] {
                DataSample::FuncCallComm(_, _, other_src, other_com, _) => {
                    if *other_src != *callee_src {
                        negatives.push(
                            DataSample::FuncCallComm(
                                caller_src.clone(),
                                caller_com.clone(),
                                other_src.clone(),
                                other_com.clone(),
                                false,
                            ),
                        );
                    }
                },
                _ => {},
            },
            _ => {},
        }
        assert(sample_views(negatives@) =~= match negative_for(s, k as int, pick as int) {
            Some(x) => prev.push(x),
            None => prev,
        });
        k += 1;
    }
    interleave_samples(samples, &negatives)
}

/// Relies on rand::thread_rng and Rng::gen_range: a position below `n`, drawn at random.
#[verifier::external_body]
pub(crate) fn random_below(n: usize) -> (r: usize)
    requires
        n > 0,
    ensures
        r < n,
{
    rand::thread_rng().gen_range(0..n)
}

/// Draws one negative sample after each caller/callee sample, trying the callee of a
/// sample chosen at random, and interleaves them with the samples.
pub fn insert_negative_samples(samples: &Vec<DataSample>) -> (r: Vec<DataSample>)
    ensures
        exists|picks: Seq<usize>|
            picks.len() == samples.len() && sample_views(r@) == interleaved(
                sample_views(samples@),
                negatives_of(sample_views(samples@), picks, samples.len() as int),
            ),
{
    let mut picks: Vec<usize> = Vec::new();
    let mut k: usize = 0;
    while k < samples.len()
        invariant
            k <= samples.len(),
            picks.len() == k,
            forall|t: int| 0 <= t < picks.len() ==> picks@[t] < samples.len(),
        decreases samples.len() - k,
    {
        picks.push(random_below(samples.len()));
        k += 1;
    }
    insert_negative_samples_with(samples, &picks)
}

} // verus!
