use vstd::prelude::*;
use crate::grouping::views;
use crate::record::{JsonSample, RecordView};

verus! {

/// One capture of a structural query: the capture's label and the text it covers.
#[derive(Debug, Clone, PartialEq, Eq)]
pub struct Capture {
    pub label: String,
    pub text: String,
}

impl View for Capture {
    type V = (Seq<char>, Seq<char>);

    open spec fn view(&self) -> (Seq<char>, Seq<char>) {
        (self.label@, self.text@)
    }
}

/// The contents of a list of captures.
pub open spec fn capture_views(s: Seq<Capture>) -> Seq<(Seq<char>, Seq<char>)> {
    s.map_values(|c: Capture| c@)
}

/// The contents of a list of capture lists.
pub open spec fn capture_lists(s: Seq<Vec<Capture>>) -> Seq<Seq<(Seq<char>, Seq<char>)>> {
    s.map_values(|v: Vec<Capture>| capture_views(v@))
}

/// The labels that mark a call site in a call query.
pub open spec fn is_call_label(l: Seq<char>) -> bool {
    l == "function"@ || l == "function.method"@
}

/// Position of the last record of `g` named `n`, or -1 when there is none.
/// Under a repeated name the last record is the one that counts.
pub open spec fn last_pos(g: Seq<RecordView>, n: Seq<char>) -> int
    decreases g.len(),
{
    if g.len() == 0 {
        -1
    } else if g.last().func_name == n {
        g.len() - 1
    } else {
        last_pos(g.drop_last(), n)
    }
}

/// `n` names a member of the group other than the record at `i`.
pub open spec fn is_other_member(g: Seq<RecordView>, i: int, n: Seq<char>) -> bool {
    last_pos(g, n) >= 0 && n != g[i].func_name
}

/// The record at `i` is the one that its name stands for in the group.
pub open spec fn is_caller(g: Seq<RecordView>, i: int) -> bool {
    0 <= i < g.len() && last_pos(g, g[i].func_name) == i
}

/// The callees of the record at `i`: the call-site names among `caps` that name another
/// member of the group, each once, in the order of their first call site.
pub open spec fn resolved_callees(caps: Seq<(Seq<char>, Seq<char>)>, g: Seq<RecordView>, i: int) -> Seq<Seq<char>>
    decreases caps.len(),
{
    if caps.len() == 0 {
        Seq::empty()
    } else {
        let prev = resolved_callees(caps.drop_last(), g, i);
        let c = caps.last();
        if is_call_label(c.0) && is_other_member(g, i, c.1) && !prev.contains(c.1) {
            prev.push(c.1)
        } else {
            prev
        }
    }
}

pub proof fn lemma_last_pos(g: Seq<RecordView>, n: Seq<char>)
    ensures
        -1 <= last_pos(g, n) < g.len(),
        last_pos(g, n) >= 0 ==> g[last_pos(g, n)].func_name == n,
        forall|j: int| last_pos(g, n) < j < g.len() ==> g[j].func_name != n,
    decreases g.len(),
{
    if g.len() > 0 {
        lemma_last_pos(g.drop_last(), n);
        assert forall|j: int| last_pos(g, n) < j < g.len() implies g[j].func_name != n by {
            if j < g.len() - 1 {
                assert(g[j] == g.drop_last()[j]);
            }
        }
    }
}

/// Every callee names another member of the group, and none comes twice.
pub proof fn lemma_resolved_callees(caps: Seq<(Seq<char>, Seq<char>)>, g: Seq<RecordView>, i: int)
    ensures
        resolved_callees(caps, g, i).no_duplicates(),
        forall|k: int|
            0 <= k < resolved_callees(caps, g, i).len() ==> is_other_member(
                g,
                i,
                #[trigger] resolved_callees(caps, g, i)[k],
            ),
    decreases caps.len(),
{
    if caps.len() > 0 {
        lemma_resolved_callees(caps.drop_last(), g, i);
        let prev = resolved_callees(caps.drop_last(), g, i);
        let c = caps.last();
        if is_call_label(c.0) && is_other_member(g, i, c.1) && !prev.contains(c.1) {
            assert forall|a: int, b: int|
                0 <= a < b < prev.push(c.1).len() implies prev.push(c.1)[a] != prev.push(c.1)[b] by {
                if b == prev.len() {
                    assert(prev[a] == prev.push(c.1)[a]);
                }
            }
        }
    }
}

/// Whether two strings hold the same characters.
pub fn str_eq(a: &str, b: &str) -> (r: bool)
    ensures
        r == (a@ == b@),
{
    let n = a.unicode_len();
    if n != b.unicode_len() {
        return false;
    }
    let mut i: usize = 0;
    while i < n
        invariant
            n == a@.len() == b@.len(),
            i <= n,
            a@.subrange(0, i as int) == b@.subrange(0, i as int),
        decreases n - i,
    {
        if a.get_char(i) != b.get_char(i) {
            assert(a@[i as int] != b@[i as int]);
            return false;
        }
        assert(a@.subrange(0, i + 1) =~= a@.subrange(0, i as int).push(a@[i as int]));
        assert(b@.subrange(0, i + 1) =~= b@.subrange(0, i as int).push(b@[i as int]));
        i += 1;
    }
    assert(a@ =~= a@.subrange(0, n as int));
    assert(b@ =~= b@.subrange(0, n as int));
    true
}

/// Whether `v` holds the string `n`.
pub fn contains_name(v: &Vec<String>, n: &String) -> (r: bool)
    ensures
        r == v.deep_view().contains(n@),
{
    let mut i: usize = 0;
    while i < v.len()
        invariant
            i <= v.len(),
            forall|k: int| 0 <= k < i ==> v.deep_view()[k] != n@,
        decreases v.len() - i,
    {
        if v[i] == *n {
            assert(v.deep_view()[i as int] == n@);
            return true;
        }
        i += 1;
    }
    false
}

/// Position of the last record of `group` named `name`.
pub fn last_position(group: &Vec<JsonSample>, name: &String) -> (r: Option<usize>)
    ensures
        match r {
            Some(j) => last_pos(views(group@), name@) == j,
            None => last_pos(views(group@), name@) == -1,
        },
{
    let mut found: Option<usize> = None;
    let mut i: usize = 0;
    while i < group.len()
        invariant
            i <= group.len(),
            match found {
                Some(j) => last_pos(views(group@.subrange(0, i as int)), name@) == j,
                None => last_pos(views(group@.subrange(0, i as int)), name@) == -1,
            },
        decreases group.len() - i,
    {
        assert(views(group@.subrange(0, i + 1)).drop_last() =~= views(group@.subrange(0, i as int)));
        if group[i].func_name == *name {
            found = Some(i);
        }
        i += 1;
    }
    assert(group@.subrange(0, group.len() as int) =~= group@);
    found
}

/// The callees of the record at `i` of `group`, given the captures of a call query run
/// on its code.
pub fn resolve_callees(group: &Vec<JsonSample>, i: usize, caps: &Vec<Capture>) -> (r: Vec<String>)
    requires
        i < group.len(),
    ensures
        r.deep_view() == resolved_callees(capture_views(caps@), views(group@), i as int),
{
    let ghost g = views(group@);
    let mut out: Vec<String> = Vec::new();
    let mut k: usize = 0;
    while k < caps.len()
        invariant
            i < group.len(),
            g == views(group@),
            k <= caps.len(),
            out.deep_view() == resolved_callees(capture_views(caps@).subrange(0, k as int), g, i as int),
        decreases caps.len() - k,
    {
        let ghost cs = capture_views(caps@).subrange(0, k + 1);
        assert(cs.drop_last() =~= capture_views(caps@).subrange(0, k as int));
        let c = &caps[k];
        let is_call = str_eq(c.label.as_str(), "function") || str_eq(c.label.as_str(), "function.method");
        if is_call {
            let other = match last_position(group, &c.text) {
                Some(_) => c.text != group[i].func_name,
                None => false,
            };
            if other && !contains_name(&out, &c.text) {
                out.push(c.text.clone());
                assert(out.deep_view() =~= resolved_callees(cs.drop_last(), g, i as int).push(c.text@));
            }
        }
        k += 1;
    }
    assert(capture_views(caps@).subrange(0, caps.len() as int) =~= capture_views(caps@));
    out
}

/// `a` comes before `b` in name order: character by character, a proper prefix first
/// (the order of `String`).
pub open spec fn name_lt(a: Seq<char>, b: Seq<char>) -> bool
    decreases a.len(),
{
    if b.len() == 0 {
        false
    } else if a.len() == 0 {
        true
    } else if a[0] != b[0] {
        (a[0] as u32) < (b[0] as u32)
    } else {
        name_lt(a.drop_first(), b.drop_first())
    }
}

/// `x` put into `s` before the first name that it comes before.
pub open spec fn insert_by_name(s: Seq<Seq<char>>, x: Seq<char>) -> Seq<Seq<char>>
    decreases s.len(),
{
    if s.len() == 0 {
        seq![x]
    } else if name_lt(x, s[0]) {
        seq![x] + s
    } else {
        seq![s[0]] + insert_by_name(s.drop_first(), x)
    }
}

/// The names of `s` in ascending name order.
pub open spec fn sort_by_name(s: Seq<Seq<char>>) -> Seq<Seq<char>>
    decreases s.len(),
{
    if s.len() == 0 {
        s
    } else {
        insert_by_name(sort_by_name(s.drop_last()), s.last())
    }
}

proof fn lemma_insert_at(s: Seq<Seq<char>>, x: Seq<char>, p: int)
    requires
        0 <= p <= s.len(),
        forall|k: int| 0 <= k < p ==> !name_lt(x, #[trigger] s[k]),
        p == s.len() || name_lt(x, s[p]),
    ensures
        insert_by_name(s, x) == s.insert(p, x),
    decreases s.len(),
{
    if s.len() == 0 {
        assert(s.insert(p, x) =~= seq![x]);
    } else if p == 0 {
        assert(s.insert(p, x) =~= seq![x] + s);
    } else {
        let t = s.drop_first();
        assert forall|k: int| 0 <= k < p - 1 implies !name_lt(x, #[trigger] t[k]) by {
            assert(t[k] == s[k + 1]);
        }
        lemma_insert_at(t, x, p - 1);
        assert(s.insert(p, x) =~= seq![s[0]] + t.insert(p - 1, x));
    }
}

proof fn lemma_insert_contents(s: Seq<Seq<char>>, x: Seq<char>)
    ensures
        insert_by_name(s, x).len() == s.len() + 1,
        forall|y: Seq<char>| #[trigger] insert_by_name(s, x).contains(y) ==> y == x || s.contains(y),
    decreases s.len(),
{
    if s.len() > 0 && !name_lt(x, s[0]) {
        let t = s.drop_first();
        lemma_insert_contents(t, x);
        assert forall|y: Seq<char>| #[trigger] insert_by_name(s, x).contains(y) implies y == x || s.contains(y) by {
            let u = insert_by_name(s, x);
            assert(u == seq![s[0]] + insert_by_name(t, x));
            let k = choose|k: int| 0 <= k < u.len() && u[k] == y;
            if k == 0 {
                assert(s[0] == y);
            } else {
                assert(insert_by_name(t, x)[k - 1] == y);
                assert(insert_by_name(t, x).contains(y));
                if y != x {
                    let j = choose|j: int| 0 <= j < t.len() && t[j] == y;
                    assert(s[j + 1] == y);
                }
            }
        }
    } else if s.len() > 0 {
        assert forall|y: Seq<char>| #[trigger] insert_by_name(s, x).contains(y) implies y == x || s.contains(y) by {
            let k = choose|k: int| 0 <= k < insert_by_name(s, x).len() && insert_by_name(s, x)[k] == y;
            if k > 0 {
                assert(s[k - 1] == y);
            }
        }
    }
}

/// Sorting by name keeps the length and brings in no other names.
pub proof fn lemma_sort_contents(s: Seq<Seq<char>>)
    ensures
        sort_by_name(s).len() == s.len(),
        forall|y: Seq<char>| #[trigger] sort_by_name(s).contains(y) ==> s.contains(y),
    decreases s.len(),
{
    if s.len() > 0 {
        let t = s.drop_last();
        lemma_sort_contents(t);
        lemma_insert_contents(sort_by_name(t), s.last());
        assert forall|y: Seq<char>| #[trigger] sort_by_name(s).contains(y) implies s.contains(y) by {
            if y == s.last() {
                assert(s[s.len() - 1] == y);
            } else {
                assert(sort_by_name(t).contains(y));
                let j = choose|j: int| 0 <= j < t.len() && t[j] == y;
                assert(s[j] == y);
            }
        }
    }
}

/// Whether `a` comes before `b` in name order.
pub fn name_less(a: &str, b: &str) -> (r: bool)
    ensures
        r == name_lt(a@, b@),
{
    let (n, m) = (a.unicode_len(), b.unicode_len());
    let mut i: usize = 0;
    assert(a@.subrange(0, n as int) =~= a@ && b@.subrange(0, m as int) =~= b@);
    while i < n && i < m
        invariant
            n == a@.len(),
            m == b@.len(),
            i <= n && i <= m,
            name_lt(a@, b@) == name_lt(a@.subrange(i as int, n as int), b@.subrange(i as int, m as int)),
        decreases n - i,
    {
        let (x, y) = (a.get_char(i), b.get_char(i));
        let ghost (sa, sb) = (a@.subrange(i as int, n as int), b@.subrange(i as int, m as int));
        assert(sa[0] == x && sb[0] == y);
        if x != y {
            return (x as u32) < (y as u32);
        }
        assert(sa.drop_first() =~= a@.subrange(i + 1, n as int));
        assert(sb.drop_first() =~= b@.subrange(i + 1, m as int));
        i += 1;
    }
    i < m
}

/// Puts `x` into the name-ordered `v` before the first name that it comes before.
pub fn insert_name(v: &mut Vec<String>, x: String)
    ensures
        final(v).deep_view() == insert_by_name(old(v).deep_view(), x@),
{
    let ghost s = v.deep_view();
    let mut p: usize = 0;
    while p < v.len() && !name_less(x.as_str(), v[p].as_str())
        invariant
            s == v.deep_view(),
            p <= v.len(),
            forall|k: int| 0 <= k < p ==> !name_lt(x@, #[trigger] s[k]),
        decreases v.len() - p,
    {
        p += 1;
    }
    proof {
        lemma_insert_at(s, x@, p as int);
    }
    let ghost xv = x@;
    v.insert(p, x);
    assert(v.deep_view() =~= s.insert(p as int, xv));
}

/// The names of `v` in ascending name order.
pub fn sort_names(v: &Vec<String>) -> (r: Vec<String>)
    ensures
        r.deep_view() == sort_by_name(v.deep_view()),
{
    let mut out: Vec<String> = Vec::new();
    let mut k: usize = 0;
    while k < v.len()
        invariant
            k <= v.len(),
            out.deep_view() == sort_by_name(v.deep_view().subrange(0, k as int)),
        decreases v.len() - k,
    {
        let ghost t = v.deep_view().subrange(0, k + 1);
        assert(t.drop_last() =~= v.deep_view().subrange(0, k as int));
        insert_name(&mut out, v[k].clone());
        k += 1;
    }
    assert(v.deep_view().subrange(0, v.len() as int) =~= v.deep_view());
    out
}

} // verus!
