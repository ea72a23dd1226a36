use vstd::prelude::*;
use crate::calls::{
    capture_lists, capture_views, contains_name, is_caller, is_other_member, last_pos, last_position,
    lemma_last_pos, lemma_resolved_callees, lemma_sort_contents, resolve_callees, resolved_callees,
    sort_by_name, sort_names, Capture,
};
use crate::grouping::views;
use crate::record::{JsonSample, RecordView};

verus! {

/// A caller record, a callee record, and whether the caller calls the callee.
pub type PairView = (RecordView, RecordView, bool);

/// The contents of a list of pairs.
pub open spec fn pair_views(s: Seq<(JsonSample, JsonSample, bool)>) -> Seq<PairView> {
    s.map_values(|p: (JsonSample, JsonSample, bool)| (p.0@, p.1@, p.2))
}

/// Names of the members among the first `n` records that the record at `i` never calls,
/// given its callees `e`: each name once, never the caller's own, in group order.
pub open spec fn non_callees(g: Seq<RecordView>, i: int, e: Seq<Seq<char>>, n: int) -> Seq<Seq<char>>
    decreases n,
{
    if n <= 0 {
        Seq::empty()
    } else {
        let prev = non_callees(g, i, e, n - 1);
        let j = n - 1;
        if is_caller(g, j) && g[j].func_name != g[i].func_name && !e.contains(g[j].func_name) {
            prev.push(g[j].func_name)
        } else {
            prev
        }
    }
}

/// The lesser of two naturals.
pub open spec fn min_nat(a: nat, b: nat) -> nat {
    if a < b { a } else { b }
}

/// The pairs of the record at `i`: one positive pair per callee, then one negative pair per
/// non-callee in ascending name order, as many as it has callees or as there are
/// non-callees, whichever is fewer.
pub open spec fn caller_pairs(g: Seq<RecordView>, i: int, caps: Seq<(Seq<char>, Seq<char>)>) -> Seq<PairView> {
    let e = resolved_callees(caps, g, i);
    let cand = sort_by_name(non_callees(g, i, e, g.len() as int));
    let quota = min_nat(e.len(), cand.len());
    e.map_values(|n: Seq<char>| (g[i], g[last_pos(g, n)], true)) + cand.take(quota as int).map_values(
        |n: Seq<char>| (g[i], g[last_pos(g, n)], false),
    )
}

/// The pairs of the first `n` records of a group, `caps[k]` being the call-query captures
/// of record `k`. A record whose name a later record takes over contributes nothing.
pub open spec fn group_pairs(g: Seq<RecordView>, caps: Seq<Seq<(Seq<char>, Seq<char>)>>, n: int) -> Seq<PairView>
    decreases n,
{
    if n <= 0 {
        Seq::empty()
    } else if is_caller(g, n - 1) {
        group_pairs(g, caps, n - 1) + caller_pairs(g, n - 1, caps[n - 1])
    } else {
        group_pairs(g, caps, n - 1)
    }
}

/// The call edges `(caller name, callee name)` of the first `n` records of a group.
pub open spec fn group_edges(g: Seq<RecordView>, caps: Seq<Seq<(Seq<char>, Seq<char>)>>, n: int) -> Seq<(Seq<char>, Seq<char>)>
    decreases n,
{
    if n <= 0 {
        Seq::empty()
    } else if is_caller(g, n - 1) {
        group_edges(g, caps, n - 1) + resolved_callees(caps[n - 1], g, n - 1).map_values(
            |c: Seq<char>| (g[n - 1].func_name, c),
        )
    } else {
        group_edges(g, caps, n - 1)
    }
}

/// The number of pairs in `s` that carry the label `b`.
pub open spec fn count_label(s: Seq<PairView>, b: bool) -> nat
    decreases s.len(),
{
    if s.len() == 0 {
        0
    } else {
        count_label(s.drop_last(), b) + if s.last().2 == b { 1nat } else { 0nat }
    }
}

/// The pairs of the record at `i` of `group`, given the captures of a call query run on
/// its code.
pub fn synthesize_caller_pairs(group: &Vec<JsonSample>, i: usize, caps: &Vec<Capture>) -> (r: Vec<(JsonSample, JsonSample, bool)>)
    requires
        i < group.len(),
    ensures
        pair_views(r@) == caller_pairs(views(group@), i as int, capture_views(caps@)),
{
    let ghost g = views(group@);
    let callees = resolve_callees(group, i, caps);
    let ghost e = callees.deep_view();
    proof {
        lemma_resolved_callees(capture_views(caps@), g, i as int);
    }
    let mut out: Vec<(JsonSample, JsonSample, bool)> = Vec::new();
    let mut k: usize = 0;
    while k < callees.len()
        invariant
            g == views(group@),
            i < group.len(),
            e == callees.deep_view(),
            e == resolved_callees(capture_views(caps@), g, i as int),
            forall|t: int| 0 <= t < e.len() ==> is_other_member(g, i as int, #[trigger] e[t]),
            k <= callees.len(),
            pair_views(out@) == e.subrange(0, k as int).map_values(
                |n: Seq<char>| (g[i as int], g[last_pos(g, n)], true),
            ),
        decreases callees.len() - k,
    {
        assert(is_other_member(g, i as int, e[k as int]));
        assert(e[k as int] == callees@[k as int]@);
        match last_position(group, &callees[k]) {
            Some(j) => {
                proof {
                    lemma_last_pos(g, e[k as int]);
                }
                let ghost prev = pair_views(out@);
                let caller = group[i].duplicate();
                let callee = group[j].duplicate();
                out.push((caller, callee, true));
                assert(pair_views(out@) =~= prev.push((g[i as int], g[j as int], true)));
                assert(e.subrange(0, k + 1) =~= e.subrange(0, k as int).push(e[k as int]));
            },
            None => {
                // unreachable: each callee names a member of the group
                assert(false);
            },
        }
        k += 1;
        assert(pair_views(out@) =~= e.subrange(0, k as int).map_values(
            |n: Seq<char>| (g[i as int], g[last_pos(g, n)], true),
        ));
    }
    assert(e.subrange(0, e.len() as int) =~= e);
    let ghost positives = pair_views(out@);
    let mut others: Vec<String> = Vec::new();
    let mut j: usize = 0;
    while j < group.len()
        invariant
            g == views(group@),
            i < group.len(),
            e == callees.deep_view(),
            j <= group.len(),
            others.deep_view() == non_callees(g, i as int, e, j as int),
        decreases group.len() - j,
    {
        let ghost before = others.deep_view();
        let own = match last_position(group, &group[j].func_name) {
            Some(p) => p == j,
            None => false,
        };
        let member = own && group[j].func_name != group[i].func_name && !contains_name(&callees, &group[j].func_name);
        assert(g[j as int] == group@[j as int]@);
        assert(g[i as int] == group@[i as int]@);
        if member {
            others.push(group[j].func_name.clone());
            assert(others.deep_view() =~= before.push(g[j as int].func_name));
        } else {
            assert(non_callees(g, i as int, e, j + 1) == before);
        }
        j += 1;
    }
    let sorted = sort_names(&others);
    let ghost cand = sorted.deep_view();
    proof {
        lemma_sorted_candidates(g, i as int, e);
    }
    let quota: usize = if callees.len() < sorted.len() { callees.len() } else { sorted.len() };
    let mut negatives: Vec<(JsonSample, JsonSample, bool)> = Vec::new();
    let mut t: usize = 0;
    while t < quota
        invariant
            g == views(group@),
            i < group.len(),
            cand == sorted.deep_view(),
            quota <= sorted.len(),
            forall|k: int| 0 <= k < cand.len() ==> last_pos(g, #[trigger] cand[k]) >= 0,
            t <= quota,
            pair_views(negatives@) == cand.take(t as int).map_values(
                |n: Seq<char>| (g[i as int], g[last_pos(g, n)], false),
            ),
        decreases quota - t,
    {
        assert(cand[t as int] == sorted@[t as int]@);
        assert(last_pos(g, cand[t as int]) >= 0);
        match last_position(group, &sorted[t]) {
            Some(k) => {
                proof {
                    lemma_last_pos(g, cand[t as int]);
                }
                let ghost prev = pair_views(negatives@);
                let caller = group[i].duplicate();
                let other = group[k].duplicate();
                negatives.push((caller, other, false));
                assert(pair_views(negatives@) =~= prev.push((g[i as int], g[k as int], false)));
            },
            None => {
                // unreachable: each candidate names a member of the group
                assert(false);
            },
        }
        t += 1;
        assert(pair_views(negatives@) =~= cand.take(t as int).map_values(
            |n: Seq<char>| (g[i as int], g[last_pos(g, n)], false),
        ));
    }
    let ghost neg = pair_views(negatives@);
    out.append(&mut negatives);
    assert(pair_views(out@) =~= positives + neg);
    out
}

/// The pairs of a whole group, `caps[k]` being the call-query captures of record `k`.
pub fn synthesize_group(group: &Vec<JsonSample>, caps: &Vec<Vec<Capture>>) -> (r: Vec<(JsonSample, JsonSample, bool)>)
    requires
        caps.len() == group.len(),
    ensures
        pair_views(r@) == group_pairs(views(group@), capture_lists(caps@), group.len() as int),
{
    let ghost g = views(group@);
    let ghost cl = capture_lists(caps@);
    let mut out: Vec<(JsonSample, JsonSample, bool)> = Vec::new();
    let mut i: usize = 0;
    while i < group.len()
        invariant
            g == views(group@),
            cl == capture_lists(caps@),
            caps.len() == group.len(),
            i <= group.len(),
            pair_views(out@) == group_pairs(g, cl, i as int),
        decreases group.len() - i,
    {
        let own = match last_position(group, &group[i].func_name) {
            Some(p) => p == i,
            None => false,
        };
        if own {
            let ghost prev = pair_views(out@);
            let mut more = synthesize_caller_pairs(group, i, &caps[i]);
            let ghost added = pair_views(more@);
            out.append(&mut more);
            assert(cl[i as int] == capture_views(caps@[i as int]@));
            assert(pair_views(out@) =~= prev + added);
        }
        i += 1;
    }
    out
}

proof fn lemma_count_concat(a: Seq<PairView>, b: Seq<PairView>, l: bool)
    ensures
        count_label(a + b, l) == count_label(a, l) + count_label(b, l),
    decreases b.len(),
{
    if b.len() == 0 {
        assert(a + b =~= a);
    } else {
        lemma_count_concat(a, b.drop_last(), l);
        assert((a + b).drop_last() =~= a + b.drop_last());
    }
}

proof fn lemma_count_uniform(s: Seq<PairView>, b: bool, l: bool)
    requires
        forall|k: int| 0 <= k < s.len() ==> (#[trigger] s[k]).2 == b,
    ensures
        count_label(s, l) == if b == l { s.len() } else { 0 },
    decreases s.len(),
{
    if s.len() > 0 {
        lemma_count_uniform(s.drop_last(), b, l);
    }
}

proof fn lemma_non_callees(g: Seq<RecordView>, i: int, e: Seq<Seq<char>>, n: int)
    requires
        n <= g.len(),
    ensures
        forall|x: Seq<char>|
            #[trigger] non_callees(g, i, e, n).contains(x) ==> {
                &&& last_pos(g, x) >= 0
                &&& x != g[i].func_name
                &&& !e.contains(x)
            },
    decreases n,
{
    if n > 0 {
        lemma_non_callees(g, i, e, n - 1);
        let prev = non_callees(g, i, e, n - 1);
        let j = n - 1;
        if is_caller(g, j) && g[j].func_name != g[i].func_name && !e.contains(g[j].func_name) {
            assert forall|x: Seq<char>| #[trigger] prev.push(g[j].func_name).contains(x) implies {
                &&& last_pos(g, x) >= 0
                &&& x != g[i].func_name
                &&& !e.contains(x)
            } by {
                let t = choose|t: int| 0 <= t < prev.push(g[j].func_name).len() && prev.push(g[j].func_name)[t] == x;
                if t < prev.len() {
                    assert(prev[t] == x);
                    assert(prev.contains(x));
                }
            }
        }
    }
}

/// The non-callees taken in name order are members of the group, never the caller's own
/// name, and never a callee.
proof fn lemma_sorted_candidates(g: Seq<RecordView>, i: int, e: Seq<Seq<char>>)
    ensures
        forall|k: int|
            0 <= k < sort_by_name(non_callees(g, i, e, g.len() as int)).len() ==> {
                let x = #[trigger] sort_by_name(non_callees(g, i, e, g.len() as int))[k];
                &&& last_pos(g, x) >= 0
                &&& x != g[i].func_name
                &&& !e.contains(x)
            },
{
    let nc = non_callees(g, i, e, g.len() as int);
    lemma_non_callees(g, i, e, g.len() as int);
    lemma_sort_contents(nc);
    assert forall|k: int| 0 <= k < sort_by_name(nc).len() implies {
        let x = #[trigger] sort_by_name(nc)[k];
        &&& last_pos(g, x) >= 0
        &&& x != g[i].func_name
        &&& !e.contains(x)
    } by {
        assert(sort_by_name(nc).contains(sort_by_name(nc)[k]));
        assert(nc.contains(sort_by_name(nc)[k]));
    }
}

/// A caller has exactly one positive pair per callee, and never more negative pairs than
/// it has callees.
pub proof fn lemma_caller_pair_counts(g: Seq<RecordView>, i: int, caps: Seq<(Seq<char>, Seq<char>)>)
    requires
        0 <= i < g.len(),
    ensures
        count_label(caller_pairs(g, i, caps), true) == resolved_callees(caps, g, i).len(),
        count_label(caller_pairs(g, i, caps), false) <= resolved_callees(caps, g, i).len(),
{
    let e = resolved_callees(caps, g, i);
    let cand = sort_by_name(non_callees(g, i, e, g.len() as int));
    let quota = min_nat(e.len(), cand.len());
    let pos = e.map_values(|n: Seq<char>| (g[i], g[last_pos(g, n)], true));
    let neg = cand.take(quota as int).map_values(|n: Seq<char>| (g[i], g[last_pos(g, n)], false));
    lemma_count_concat(pos, neg, true);
    lemma_count_concat(pos, neg, false);
    lemma_count_uniform(pos, true, true);
    lemma_count_uniform(pos, true, false);
    lemma_count_uniform(neg, false, true);
    lemma_count_uniform(neg, false, false);
}

proof fn lemma_positives_match_edges_prefix(g: Seq<RecordView>, caps: Seq<Seq<(Seq<char>, Seq<char>)>>, n: int)
    requires
        0 <= n <= g.len(),
        caps.len() == g.len(),
    ensures
        count_label(group_pairs(g, caps, n), true) == group_edges(g, caps, n).len(),
        group_edges(g, caps, n).no_duplicates(),
        forall|k: int|
            0 <= k < group_edges(g, caps, n).len() ==> 0 <= last_pos(g, (#[trigger] group_edges(g, caps, n)[k]).0) < n,
    decreases n,
{
    if n > 0 {
        lemma_positives_match_edges_prefix(g, caps, n - 1);
        let c = n - 1;
        if is_caller(g, c) {
            let prev = group_edges(g, caps, n - 1);
            let e = resolved_callees(caps[c], g, c);
            let added = e.map_values(|x: Seq<char>| (g[c].func_name, x));
            lemma_count_concat(group_pairs(g, caps, n - 1), caller_pairs(g, c, caps[c]), true);
            lemma_caller_pair_counts(g, c, caps[c]);
            lemma_resolved_callees(caps[c], g, c);
            let all = prev + added;
            assert forall|a: int, b: int| 0 <= a < b < all.len() implies all[a] != all[b] by {
                if b >= prev.len() && a < prev.len() {
                    assert(last_pos(g, all[a].0) < c);
                    assert(all[b].0 == g[c].func_name);
                } else if a >= prev.len() {
                    assert(e[a - prev.len()] != e[b - prev.len()]);
                }
            }
            assert forall|k: int| 0 <= k < all.len() implies 0 <= last_pos(g, (#[trigger] all[k]).0) < n by {
                if k >= prev.len() {
                    assert(all[k].0 == g[c].func_name);
                }
            }
        }
    }
}

proof fn lemma_no_self_pairs_prefix(g: Seq<RecordView>, caps: Seq<Seq<(Seq<char>, Seq<char>)>>, n: int)
    requires
        0 <= n <= g.len(),
        caps.len() == g.len(),
    ensures
        forall|k: int|
            0 <= k < group_pairs(g, caps, n).len() ==> (#[trigger] group_pairs(g, caps, n)[k]).0.func_name
                != group_pairs(g, caps, n)[k].1.func_name,
    decreases n,
{
    if n > 0 {
        lemma_no_self_pairs_prefix(g, caps, n - 1);
        let c = n - 1;
        if is_caller(g, c) {
            let prev = group_pairs(g, caps, n - 1);
            let mine = caller_pairs(g, c, caps[c]);
            let e = resolved_callees(caps[c], g, c);
            let cand = sort_by_name(non_callees(g, c, e, g.len() as int));
            lemma_resolved_callees(caps[c], g, c);
            lemma_sorted_candidates(g, c, e);
            assert forall|k: int| 0 <= k < mine.len() implies (#[trigger] mine[k]).0.func_name != mine[k].1.func_name by {
                if k < e.len() {
                    lemma_last_pos(g, e[k]);
                } else {
                    assert(cand[k - e.len()] == cand.take(min_nat(e.len(), cand.len()) as int)[k - e.len()]);
                    lemma_last_pos(g, cand[k - e.len()]);
                }
            }
            assert(group_pairs(g, caps, n) == prev + mine);
            assert forall|k: int| 0 <= k < (prev + mine).len() implies (#[trigger] (prev + mine)[k]).0.func_name
                != (prev + mine)[k].1.func_name by {
                if k >= prev.len() {
                    assert((prev + mine)[k] == mine[k - prev.len()]);
                }
            }
        } else {
            assert(group_pairs(g, caps, n) == group_pairs(g, caps, n - 1));
        }
    }
}

/// In a group, the positive pairs are as many as the call edges, and no call edge
/// `(caller name, callee name)` comes twice.
pub proof fn lemma_positives_match_edges(g: Seq<RecordView>, caps: Seq<Seq<(Seq<char>, Seq<char>)>>)
    requires
        caps.len() == g.len(),
    ensures
        count_label(group_pairs(g, caps, g.len() as int), true) == group_edges(g, caps, g.len() as int).len(),
        group_edges(g, caps, g.len() as int).no_duplicates(),
{
    lemma_positives_match_edges_prefix(g, caps, g.len() as int);
}

/// No pair of a group has the same name on both sides.
pub proof fn lemma_no_self_pairs(g: Seq<RecordView>, caps: Seq<Seq<(Seq<char>, Seq<char>)>>)
    requires
        caps.len() == g.len(),
    ensures
        forall|k: int|
            0 <= k < group_pairs(g, caps, g.len() as int).len() ==> (#[trigger] group_pairs(g, caps, g.len() as int)[k]).0.func_name
                != group_pairs(g, caps, g.len() as int)[k].1.func_name,
{
    lemma_no_self_pairs_prefix(g, caps, g.len() as int);
}

/// The number of negative pairs in `s` whose caller is named `n`.
pub open spec fn count_negatives_of(s: Seq<PairView>, n: Seq<char>) -> nat
    decreases s.len(),
{
    if s.len() == 0 {
        0
    } else {
        count_negatives_of(s.drop_last(), n) + if s.last().0.func_name == n && !s.last().2 { 1nat } else { 0nat }
    }
}

proof fn lemma_negatives_of_concat(a: Seq<PairView>, b: Seq<PairView>, n: Seq<char>)
    ensures
        count_negatives_of(a + b, n) == count_negatives_of(a, n) + count_negatives_of(b, n),
    decreases b.len(),
{
    if b.len() == 0 {
        assert(a + b =~= a);
    } else {
        lemma_negatives_of_concat(a, b.drop_last(), n);
        assert((a + b).drop_last() =~= a + b.drop_last());
    }
}

proof fn lemma_negatives_of_one_caller(s: Seq<PairView>, r: RecordView, n: Seq<char>)
    requires
        forall|k: int| 0 <= k < s.len() ==> (#[trigger] s[k]).0 == r,
    ensures
        count_negatives_of(s, n) == if r.func_name == n { count_label(s, false) } else { 0 },
    decreases s.len(),
{
    if s.len() > 0 {
        lemma_negatives_of_one_caller(s.drop_last(), r, n);
    }
}

proof fn lemma_group_negatives_prefix(g: Seq<RecordView>, caps: Seq<Seq<(Seq<char>, Seq<char>)>>, i: int, n: int)
    requires
        caps.len() == g.len(),
        is_caller(g, i),
        0 <= n <= g.len(),
    ensures
        count_negatives_of(group_pairs(g, caps, n), g[i].func_name) == if n > i {
            count_label(caller_pairs(g, i, caps[i]), false)
        } else {
            0
        },
    decreases n,
{
    if n > 0 {
        let c = n - 1;
        lemma_group_negatives_prefix(g, caps, i, n - 1);
        if is_caller(g, c) {
            let block = caller_pairs(g, c, caps[c]);
            assert(group_pairs(g, caps, n) == group_pairs(g, caps, n - 1) + block);
            lemma_negatives_of_concat(group_pairs(g, caps, n - 1), block, g[i].func_name);
            assert forall|k: int| 0 <= k < block.len() implies (#[trigger] block[k]).0 == g[c] by {
                let e = resolved_callees(caps[c], g, c);
                if k >= e.len() {
                    let cand = sort_by_name(non_callees(g, c, e, g.len() as int));
                    assert(k - e.len() < cand.take(min_nat(e.len(), cand.len()) as int).len());
                }
            }
            lemma_negatives_of_one_caller(block, g[c], g[i].func_name);
        } else {
            assert(group_pairs(g, caps, n) == group_pairs(g, caps, n - 1));
        }
    }
}

/// In a whole group, a caller with `k` call edges is the caller of at most `k` negative
/// pairs.
pub proof fn lemma_group_negatives_bounded(g: Seq<RecordView>, caps: Seq<Seq<(Seq<char>, Seq<char>)>>, i: int)
    requires
        caps.len() == g.len(),
        is_caller(g, i),
    ensures
        count_negatives_of(group_pairs(g, caps, g.len() as int), g[i].func_name) <= resolved_callees(caps[i], g, i).len(),
{
    lemma_group_negatives_prefix(g, caps, i, g.len() as int);
    lemma_caller_pair_counts(g, i, caps[i]);
}

} // verus!
