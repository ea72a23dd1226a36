use vstd::prelude::*;
use crate::calls::{capture_lists, capture_views, str_eq, Capture};
use crate::comments::{entry_views, last_entry, last_entry_position, replace_str, replaced, trimmed, FuncEntry};
use crate::dataset::{random_below, sample_views};
use crate::record::{DataSample, SampleView, FUNC_CALL_ID_MASK};
use crate::samples::{regex_replace_all, regex_replaced};

verus! {

/// The contents of a list of calls `(caller name, callee name)`.
pub open spec fn call_views(s: Seq<(String, String)>) -> Seq<(Seq<char>, Seq<char>)> {
    s.map_values(|c: (String, String)| (c.0@, c.1@))
}

/// The names of a function table, each once (where its last entry stands), in entry order.
pub open spec fn table_names(es: Seq<(Seq<char>, Seq<char>, Seq<char>)>, n: int) -> Seq<Seq<char>>
    decreases n,
{
    if n <= 0 {
        Seq::empty()
    } else if last_entry(es, es[n - 1].0) == n - 1 {
        table_names(es, n - 1).push(es[n - 1].0)
    } else {
        table_names(es, n - 1)
    }
}

/// The samples of one call, `d` holding the three draws for its negative sample: the
/// positive sample, with every occurrence of the callee's name in the caller's source
/// masked, then the negative one, with the caller's source as it is, taken from the first
/// drawn function (position modulo the number of names) that is not the caller and that the
/// caller is not listed as calling. Nothing for a call of a function to itself, or where
/// the table lacks the caller or the callee.
pub open spec fn call_samples(
    es: Seq<(Seq<char>, Seq<char>, Seq<char>)>,
    calls: Seq<(Seq<char>, Seq<char>)>,
    c: (Seq<char>, Seq<char>),
    d: Seq<usize>,
) -> Seq<SampleView> {
    let names = table_names(es, es.len() as int);
    let (cp, ep) = (last_entry(es, c.0), last_entry(es, c.1));
    if c.0 == c.1 || cp < 0 || ep < 0 {
        Seq::empty()
    } else {
        let masked = replaced(es[cp].1, c.1, FUNC_CALL_ID_MASK@);
        let pos = SampleView::FuncCallComm(masked, es[cp].2, es[ep].1, es[ep].2, true);
        let tries = Seq::new(3, |t: int| names[d[t] as int % names.len() as int]);
        let free = |t: int| tries[t] != c.0 && !calls.contains((c.0, tries[t]));
        if names.len() == 0 || !(free(0) || free(1) || free(2)) {
            seq![pos]
        } else {
            let t = if free(0) { 0 } else if free(1) { 1 } else { 2int };
            let k = last_entry(es, tries[t]);
            seq![pos, SampleView::FuncCallComm(es[cp].1, es[cp].2, es[k].1, es[k].2, false)]
        }
    }
}

/// The samples of the first `n` calls, each sample once (where it first comes).
pub open spec fn table_call_samples(
    es: Seq<(Seq<char>, Seq<char>, Seq<char>)>,
    calls: Seq<(Seq<char>, Seq<char>)>,
    draws: Seq<usize>,
    n: int,
) -> Seq<SampleView>
    decreases n,
{
    if n <= 0 {
        Seq::empty()
    } else {
        add_new(
            table_call_samples(es, calls, draws, n - 1),
            call_samples(es, calls, calls[n - 1], draws.subrange(3 * (n - 1), 3 * n)),
        )
    }
}

/// `s` followed by the items of `t` that it does not hold yet, each once.
pub open spec fn add_new(s: Seq<SampleView>, t: Seq<SampleView>) -> Seq<SampleView>
    decreases t.len(),
{
    if t.len() == 0 {
        s
    } else {
        let u = add_new(s, t.drop_last());
        if u.contains(t.last()) { u } else { u.push(t.last()) }
    }
}

/// Whether two samples hold the same contents.
pub fn same_sample(a: &DataSample, b: &DataSample) -> (r: bool)
    ensures
        r == (a@ == b@),
{
    match (a, b) {
        (DataSample::FuncCall(a0, a1), DataSample::FuncCall(b0, b1)) => *a0 == *b0 && *a1 == *b1,
        (DataSample::FuncCallComm(a0, a1, a2, a3, al), DataSample::FuncCallComm(b0, b1, b2, b3, bl)) => {
            *a0 == *b0 && *a1 == *b1 && *a2 == *b2 && *a3 == *b3 && *al == *bl
        },
        (DataSample::FuncComm(a0, a1), DataSample::FuncComm(b0, b1)) => *a0 == *b0 && *a1 == *b1,
        _ => false,
    }
}

/// Appends `x` to `out` unless `out` holds it already.
fn push_new(out: &mut Vec<DataSample>, x: DataSample)
    ensures
        sample_views(final(out)@) == add_new(sample_views(old(out)@), seq![x@]),
{
    let ghost before = sample_views(out@);
    let mut i: usize = 0;
    while i < out.len()
        invariant
            before == sample_views(out@),
            i <= out.len(),
            forall|k: int| 0 <= k < i ==> before[k] != x@,
        decreases out.len() - i,
    {
        if same_sample(&out[i], &x) {
            assert(before[i as int] == x@);
            assert(before.contains(x@));
            assert(seq![x@].drop_last() =~= Seq::<SampleView>::empty());
            assert(add_new(before, Seq::<SampleView>::empty()) == before);
            assert(add_new(before, seq![x@]) == before);
            return;
        }
        i += 1;
    }
    assert(!before.contains(x@));
    assert(seq![x@].drop_last() =~= Seq::<SampleView>::empty());
    assert(add_new(before, Seq::<SampleView>::empty()) == before);
    out.push(x);
    assert(sample_views(out@) =~= before.push(x@));
}

/// Whether `calls` lists the call `(caller, callee)`.
fn lists_call(calls: &Vec<(String, String)>, caller: &String, callee: &String) -> (r: bool)
    ensures
        r == call_views(calls@).contains((caller@, callee@)),
{
    let mut i: usize = 0;
    while i < calls.len()
        invariant
            i <= calls.len(),
            forall|k: int| 0 <= k < i ==> call_views(calls@)[k] != (caller@, callee@),
        decreases calls.len() - i,
    {
        if calls[i].0 == *caller && calls[i].1 == *callee {
            assert(call_views(calls@)[i as int] == (caller@, callee@));
            return true;
        }
        i += 1;
    }
    false
}

proof fn lemma_last_entry(es: Seq<(Seq<char>, Seq<char>, Seq<char>)>, n: Seq<char>)
    ensures
        -1 <= last_entry(es, n) < es.len(),
        last_entry(es, n) >= 0 ==> es[last_entry(es, n)].0 == n,
    decreases es.len(),
{
    if es.len() > 0 {
        lemma_last_entry(es.drop_last(), n);
    }
}

proof fn lemma_table_names(es: Seq<(Seq<char>, Seq<char>, Seq<char>)>, n: int)
    requires
        n <= es.len(),
    ensures
        forall|k: int| 0 <= k < table_names(es, n).len() ==> last_entry(es, #[trigger] table_names(es, n)[k]) >= 0,
    decreases n,
{
    if n > 0 {
        lemma_table_names(es, n - 1);
        let prev = table_names(es, n - 1);
        if last_entry(es, es[n - 1].0) == n - 1 {
            assert forall|k: int| 0 <= k < prev.push(es[n - 1].0).len() implies last_entry(
                es,
                #[trigger] prev.push(es[n - 1].0)[k],
            ) >= 0 by {
                if k < prev.len() {
                    assert(prev.push(es[n - 1].0)[k] == prev[k]);
                }
            }
        }
    }
}

/// The names of a function table, each once, in entry order.
pub fn table_name_list(entries: &Vec<FuncEntry>) -> (r: Vec<String>)
    ensures
        r.deep_view() == table_names(entry_views(entries@), entries.len() as int),
{
    let ghost es = entry_views(entries@);
    let mut out: Vec<String> = Vec::new();
    let mut i: usize = 0;
    while i < entries.len()
        invariant
            es == entry_views(entries@),
            i <= entries.len(),
            out.deep_view() == table_names(es, i as int),
        decreases entries.len() - i,
    {
        let own = match last_entry_position(entries, &entries[i].name) {
            Some(p) => p == i,
            None => false,
        };
        if own {
            let ghost prev = out.deep_view();
            out.push(entries[i].name.clone());
            assert(out.deep_view() =~= prev.push(es[i as int].0));
        }
        i += 1;
    }
    out
}

/// Caller/callee samples with comments from a function table and the calls found between
/// its functions: for each call a positive sample, with the callee's name masked in the
/// caller's source, and a negative one drawn with `draws[3 * k ..][..3]` for call `k`.
pub fn process_func_call_comm_with(entries: &Vec<FuncEntry>, calls: &Vec<(String, String)>, draws: &Vec<usize>) -> (r: Vec<DataSample>)
    requires
        draws.len() == 3 * calls.len(),
    ensures
        sample_views(r@) == table_call_samples(entry_views(entries@), call_views(calls@), draws@, calls.len() as int),
{
    let ghost es = entry_views(entries@);
    let ghost cs = call_views(calls@);
    let names = table_name_list(entries);
    let mut out: Vec<DataSample> = Vec::new();
    let mut p: usize = 0;
    while p < calls.len()
        invariant
            es == entry_views(entries@),
            cs == call_views(calls@),
            names.deep_view() == table_names(es, es.len() as int),
            draws.len() == 3 * calls.len(),
            p <= calls.len(),
            sample_views(out@) == table_call_samples(es, cs, draws@, p as int),
        decreases calls.len() - p,
    {
        let ghost d = draws@.subrange(3 * p, 3 * p + 3);
        let ghost before = sample_views(out@);
        let caller = &calls[p].0;
        let callee = &calls[p].1;
        assert(cs[p as int] == (caller@, callee@));
        proof {
            lemma_last_entry(es, caller@);
            lemma_last_entry(es, callee@);
            lemma_table_names(es, es.len() as int);
        }
        let distinct = *caller != *callee;
        match (last_entry_position(entries, caller), last_entry_position(entries, callee)) {
            (Some(cp), Some(ep)) if distinct => {
                let masked = replace_str(entries[cp].code.as_str(), callee.as_str(), FUNC_CALL_ID_MASK);
                let pos = DataSample::FuncCallComm(
                    masked,
                    entries[cp].comment.clone(),
                    entries[ep].code.clone(),
                    entries[ep].comment.clone(),
                    true,
                );
                let ghost pos_v = pos@;
                push_new(&mut out, pos);
                let ghost after_pos = sample_views(out@);
                let n = names.len();
                let chosen: Option<usize> = if n == 0 {
                    None
                } else {
                    assert(forall|u: int| 0 <= u < 3 ==> d[u] == draws@[3 * p + u]);
                    let (k0, k1, k2) = (draws[3 * p] % n, draws[3 * p + 1] % n, draws[3 * p + 2] % n);
                    assert(names.deep_view()[k0 as int] == names@[k0 as int]@);
                    assert(names.deep_view()[k1 as int] == names@[k1 as int]@);
                    assert(names.deep_view()[k2 as int] == names@[k2 as int]@);
                    if names[k0] != *caller && !lists_call(calls, caller, &names[k0]) {
                        Some(0)
                    } else if names[k1] != *caller && !lists_call(calls, caller, &names[k1]) {
                        Some(1)
                    } else if names[k2] != *caller && !lists_call(calls, caller, &names[k2]) {
                        Some(2)
                    } else {
                        None
                    }
                };
                match chosen {
                    Some(t) => {
                        let k = draws[3 * p + t] % n;
                        assert(d[t as int] == draws@[3 * p + t]);
                        assert(names.deep_view()[k as int] == names@[k as int]@);
                        proof {
                            lemma_last_entry(es, names@[k as int]@);
                        }
                        match last_entry_position(entries, &names[k]) {
                            Some(j) => {
                                let neg = DataSample::FuncCallComm(
                                    entries[cp].code.clone(),
                                    entries[cp].comment.clone(),
                                    entries[j].code.clone(),
                                    entries[j].comment.clone(),
                                    false,
                                );
                                let ghost neg_v = neg@;
                                push_new(&mut out, neg);
                                assert(add_new(after_pos, Seq::<SampleView>::empty()) == after_pos);
                                assert(seq![neg_v].drop_last() =~= Seq::<SampleView>::empty());
                                assert(seq![pos_v, neg_v].last() == neg_v);
                                assert(seq![pos_v, neg_v].drop_last() =~= seq![pos_v]);
                                assert(call_samples(es, cs, cs[p as int], d) =~= seq![pos_v, neg_v]);
                                assert(sample_views(out@) == add_new(before, seq![pos_v, neg_v]));
                            },
                            None => {
                                // unreachable: each table name has an entry
                                assert(false);
                            },
                        }
                    },
                    None => {
                        assert(call_samples(es, cs, cs[p as int], d) =~= seq![pos_v]);
                        assert(sample_views(out@) == add_new(before, seq![pos_v]));
                    },
                }
            },
            _ => {
                assert(call_samples(es, cs, cs[p as int], d) =~= Seq::<SampleView>::empty());
                assert(sample_views(out@) == add_new(before, Seq::<SampleView>::empty()));
            },
        }
        assert(table_call_samples(es, cs, draws@, p + 1) == add_new(before, call_samples(es, cs, cs[p as int], d)));
        p += 1;
    }
    out
}

/// Caller/callee samples with comments from a function table and the calls found between
/// its functions, the functions for the negative samples drawn at random.
pub fn process_func_call_comm(entries: &Vec<FuncEntry>, calls: &Vec<(String, String)>) -> (r: Vec<DataSample>)
    requires
        3 * calls.len() <= usize::MAX,
    ensures
        exists|draws: Seq<usize>|
            draws.len() == 3 * calls.len() && sample_views(r@) == table_call_samples(
                entry_views(entries@),
                call_views(calls@),
                draws,
                calls.len() as int,
            ),
{
    let n = table_name_list(entries).len();
    let mut draws: Vec<usize> = Vec::new();
    let mut k: usize = 0;
    while k < 3 * calls.len()
        invariant
            3 * calls.len() <= usize::MAX,
            k <= 3 * calls.len(),
            draws.len() == k,
        decreases 3 * calls.len() - k,
    {
        draws.push(if n > 0 { random_below(n) } else { 0 });
        k += 1;
    }
    process_func_call_comm_with(entries, calls, &draws)
}

/// A function body on one line: each run of white space made one space, trimmed, and
/// ended by a space. `None` where the white-space pattern does not compile.
pub open spec fn normalized_body(raw: Seq<char>) -> Option<Seq<char>> {
    match regex_replaced(raw, "\\s+"@, " "@) {
        Some(c) => Some(trimmed(c) + " "@),
        None => None,
    }
}

/// The entry of one body-query match: the text of its last `name` capture and its last
/// `func_body` capture made one line (each empty when absent), with an empty comment.
pub open spec fn body_entry(caps: Seq<(Seq<char>, Seq<char>)>) -> Option<(Seq<char>, Seq<char>, Seq<char>)>
    decreases caps.len(),
{
    if caps.len() == 0 {
        Some((Seq::empty(), Seq::empty(), Seq::empty()))
    } else {
        let c = caps.last();
        match body_entry(caps.drop_last()) {
            None => None,
            Some(e) => if c.0 == "name"@ {
                Some((c.1, e.1, e.2))
            } else if c.0 == "func_body"@ {
                match normalized_body(c.1) {
                    Some(b) => Some((e.0, b, e.2)),
                    None => None,
                }
            } else {
                Some(e)
            },
        }
    }
}

proof fn lemma_body_entry_stays_none(caps: Seq<(Seq<char>, Seq<char>)>, k: int)
    requires
        0 <= k <= caps.len(),
        body_entry(caps.subrange(0, k)) is None,
    ensures
        body_entry(caps) is None,
    decreases caps.len() - k,
{
    if k < caps.len() {
        assert(caps.subrange(0, k + 1).drop_last() =~= caps.subrange(0, k));
        lemma_body_entry_stays_none(caps, k + 1);
    } else {
        assert(caps.subrange(0, k) =~= caps);
    }
}

/// A function body on one line.
pub fn normalize_body(raw: &str) -> (r: Option<String>)
    ensures
        match r {
            Some(s) => normalized_body(raw@) == Some(s@),
            None => normalized_body(raw@) is None,
        },
{
    match regex_replace_all(raw, "\\s+", " ") {
        Some(c) => Some(crate::comments::trim_str(c.as_str()).concat(" ")),
        None => None,
    }
}

/// The entry of one body-query match.
pub fn body_of_match(caps: &Vec<Capture>) -> (r: Option<FuncEntry>)
    ensures
        match r {
            Some(e) => body_entry(capture_views(caps@)) == Some(e@),
            None => body_entry(capture_views(caps@)) is None,
        },
{
    let mut name = String::new();
    let mut code = String::new();
    let comment = String::new();
    let mut k: usize = 0;
    while k < caps.len()
        invariant
            k <= caps.len(),
            body_entry(capture_views(caps@).subrange(0, k as int)) == Some((name@, code@, comment@)),
        decreases caps.len() - k,
    {
        let ghost cs = capture_views(caps@).subrange(0, k + 1);
        assert(cs.drop_last() =~= capture_views(caps@).subrange(0, k as int));
        let c = &caps[k];
        if str_eq(c.label.as_str(), "name") {
            name = c.text.clone();
        } else if str_eq(c.label.as_str(), "func_body") {
            match normalize_body(c.text.as_str()) {
                Some(b) => {
                    code = b;
                },
                None => {
                    proof {
                        lemma_body_entry_stays_none(capture_views(caps@), k + 1);
                    }
                    return None;
                },
            }
        }
        k += 1;
    }
    assert(capture_views(caps@).subrange(0, caps.len() as int) =~= capture_views(caps@));
    Some(FuncEntry { name, code, comment })
}

/// The entries of the first `n` body-query matches, one per match, in order.
pub open spec fn body_entries(ms: Seq<Seq<(Seq<char>, Seq<char>)>>, n: int) -> Option<Seq<(Seq<char>, Seq<char>, Seq<char>)>>
    decreases n,
{
    if n <= 0 {
        Some(Seq::empty())
    } else {
        match (body_entries(ms, n - 1), body_entry(ms[n - 1])) {
            (Some(es), Some(e)) => Some(es.push(e)),
            _ => None,
        }
    }
}

proof fn lemma_body_entries_stay_none(ms: Seq<Seq<(Seq<char>, Seq<char>)>>, i: int, n: int)
    requires
        0 <= i <= n,
        body_entries(ms, i) is None,
    ensures
        body_entries(ms, n) is None,
    decreases n - i,
{
    if i < n {
        lemma_body_entries_stay_none(ms, i + 1, n);
    }
}

/// The function bodies found by a body query, one entry per match, given the captures of
/// each match. Where a name comes again, its last entry is the one that counts.
pub fn find_function_bodies(matches: &Vec<Vec<Capture>>) -> (r: Option<Vec<FuncEntry>>)
    ensures
        match r {
            Some(es) => body_entries(capture_lists(matches@), matches.len() as int) == Some(entry_views(es@)),
            None => body_entries(capture_lists(matches@), matches.len() as int) is None,
        },
{
    let ghost ms = capture_lists(matches@);
    let mut out: Vec<FuncEntry> = Vec::new();
    let mut i: usize = 0;
    while i < matches.len()
        invariant
            ms == capture_lists(matches@),
            i <= matches.len(),
            body_entries(ms, i as int) == Some(entry_views(out@)),
        decreases matches.len() - i,
    {
        assert(ms[i as int] == capture_views(matches@[i as int]@));
        match body_of_match(&matches[i]) {
            Some(e) => {
                let ghost prev = entry_views(out@);
                out.push(e);
                assert(entry_views(out@) =~= prev.push(e@));
            },
            None => {
                proof {
                    lemma_body_entries_stay_none(ms, i + 1, matches.len() as int);
                }
                return None;
            },
        }
        i += 1;
    }
    Some(out)
}

/// The body samples of the first `n` calls: caller body and callee body, for each call of
/// one function by another whose caller and callee the table holds, in call order.
pub open spec fn body_call_samples(es: Seq<(Seq<char>, Seq<char>, Seq<char>)>, calls: Seq<(Seq<char>, Seq<char>)>, n: int) -> Seq<SampleView>
    decreases n,
{
    if n <= 0 {
        Seq::empty()
    } else {
        let (cp, ep) = (last_entry(es, calls[n - 1].0), last_entry(es, calls[n - 1].1));
        if calls[n - 1].0 != calls[n - 1].1 && cp >= 0 && ep >= 0 {
            body_call_samples(es, calls, n - 1).push(SampleView::FuncCall(es[cp].1, es[ep].1))
        } else {
            body_call_samples(es, calls, n - 1)
        }
    }
}

/// Caller/callee body samples from a table of function bodies and the calls found between
/// its functions.
pub fn process_func_call(bodies: &Vec<FuncEntry>, calls: &Vec<(String, String)>) -> (r: Vec<DataSample>)
    ensures
        sample_views(r@) == body_call_samples(entry_views(bodies@), call_views(calls@), calls.len() as int),
{
    let ghost es = entry_views(bodies@);
    let ghost cs = call_views(calls@);
    let mut out: Vec<DataSample> = Vec::new();
    let mut p: usize = 0;
    while p < calls.len()
        invariant
            es == entry_views(bodies@),
            cs == call_views(calls@),
            p <= calls.len(),
            sample_views(out@) == body_call_samples(es, cs, p as int),
        decreases calls.len() - p,
    {
        assert(cs[p as int] == (calls@[p as int].0@, calls@[p as int].1@));
        proof {
            lemma_last_entry(es, cs[p as int].0);
            lemma_last_entry(es, cs[p as int].1);
        }
        let distinct = calls[p].0 != calls[p].1;
        match (last_entry_position(bodies, &calls[p].0), last_entry_position(bodies, &calls[p].1)) {
            (Some(cp), Some(ep)) if distinct => {
                let ghost prev = sample_views(out@);
                out.push(DataSample::FuncCall(bodies[cp].code.clone(), bodies[ep].code.clone()));
                assert(sample_views(out@) =~= prev.push(SampleView::FuncCall(es[cp as int].1, es[ep as int].1)));
            },
            _ => {},
        }
        p += 1;
    }
    out
}

} // verus!
