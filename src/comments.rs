use vstd::prelude::*;
use crate::calls::{capture_lists, capture_views, str_eq, Capture};
use crate::dataset::sample_views;
use crate::record::{DataSample, SampleView};
use crate::samples::{regex_replace_all, regex_replaced};

verus! {

/// `s` with each occurrence of `from`, taken left to right without overlap, replaced by `to`.
pub open spec fn replaced(s: Seq<char>, from: Seq<char>, to: Seq<char>) -> Seq<char>
    decreases s.len(),
{
    if from.len() == 0 {
        if s.len() == 0 {
            to
        } else {
            to + seq![s[0]] + replaced(s.drop_first(), from, to)
        }
    } else if s.len() < from.len() {
        s
    } else if s.subrange(0, from.len() as int) == from {
        to + replaced(s.subrange(from.len() as int, s.len() as int), from, to)
    } else {
        seq![s[0]] + replaced(s.drop_first(), from, to)
    }
}

/// `c` has Unicode's White_Space property.
pub open spec fn is_white_space(c: char) -> bool {
    let u = c as u32;
    (0x9 <= u <= 0xd) || u == 0x20 || u == 0x85 || u == 0xa0 || u == 0x1680 || (0x2000 <= u <= 0x200a)
        || u == 0x2028 || u == 0x2029 || u == 0x202f || u == 0x205f || u == 0x3000
}

/// `s` without its leading white space.
pub open spec fn trim_start(s: Seq<char>) -> Seq<char>
    decreases s.len(),
{
    if s.len() > 0 && is_white_space(s[0]) {
        trim_start(s.drop_first())
    } else {
        s
    }
}

/// `s` without its trailing white space.
pub open spec fn trim_end(s: Seq<char>) -> Seq<char>
    decreases s.len(),
{
    if s.len() > 0 && is_white_space(s.last()) {
        trim_end(s.drop_last())
    } else {
        s
    }
}

/// `s` without its leading and trailing white space.
pub open spec fn trimmed(s: Seq<char>) -> Seq<char> {
    trim_end(trim_start(s))
}

/// Relies on str::replace: every match of `from`, left to right and without overlap,
/// replaced by `to` (an empty `from` matches before each character and at the end).
#[verifier::external_body]
pub(crate) fn replace_str(s: &str, from: &str, to: &str) -> (r: String)
    ensures
        r@ == replaced(s@, from@, to@),
{
    s.replace(from, to)
}

/// Relies on str::trim: `s` without leading and trailing white space, in the sense of
/// Unicode's White_Space property.
#[verifier::external_body]
pub(crate) fn trim_str(s: &str) -> (r: String)
    ensures
        r@ == trimmed(s@),
{
    s.trim().to_string()
}

/// `s` without one leading `*`.
pub open spec fn without_star(s: Seq<char>) -> Seq<char> {
    if s.len() > 0 && s[0] == '*' {
        s.drop_first()
    } else {
        s
    }
}

/// A comment's text on one line: its `//`, `/*` and `*/` markers dropped, trimmed, one
/// leading `*` dropped, each run of white space made one space, trimmed again, and ended
/// by a line break. `None` where the white-space pattern does not compile.
pub open spec fn cleaned_comment(raw: Seq<char>) -> Option<Seq<char>> {
    let unmarked = replaced(replaced(replaced(raw, "//"@, ""@), "/*"@, ""@), "*/"@, ""@);
    let inner = without_star(trimmed(unmarked));
    match regex_replaced(inner, "\\s+"@, " "@) {
        Some(c) => Some(trimmed(c) + "\n"@),
        None => None,
    }
}

/// A comment's text on one line.
pub fn clean_comment(raw: &str) -> (r: Option<String>)
    ensures
        match r {
            Some(s) => cleaned_comment(raw@) == Some(s@),
            None => cleaned_comment(raw@) is None,
        },
{
    let a = replace_str(raw, "//", "");
    let b = replace_str(a.as_str(), "/*", "");
    let c = replace_str(b.as_str(), "*/", "");
    let t = trim_str(c.as_str());
    let n = t.as_str().unicode_len();
    let inner = if n > 0 && t.as_str().get_char(0) == '*' {
        t.as_str().substring_char(1, n).to_string()
    } else {
        t
    };
    assert(inner@ == without_star(trimmed(c@)));
    match regex_replace_all(inner.as_str(), "\\s+", " ") {
        Some(collapsed) => Some(trim_str(collapsed.as_str()).concat("\n")),
        None => None,
    }
}

/// A function found by a doc query: its name, its source and its cleaned comment lines.
#[derive(Debug, Clone, PartialEq, Eq)]
pub struct FuncEntry {
    pub name: String,
    pub code: String,
    pub comment: String,
}

impl View for FuncEntry {
    type V = (Seq<char>, Seq<char>, Seq<char>);

    open spec fn view(&self) -> (Seq<char>, Seq<char>, Seq<char>) {
        (self.name@, self.code@, self.comment@)
    }
}

/// The contents of a list of entries.
pub open spec fn entry_views(s: Seq<FuncEntry>) -> Seq<(Seq<char>, Seq<char>, Seq<char>)> {
    s.map_values(|e: FuncEntry| e@)
}

/// The entry of one doc-query match: the text of its last `name` capture, of its last
/// `func_src` capture, and its `comment` captures cleaned and joined in order (each empty
/// when absent). Other labels are passed over.
pub open spec fn match_entry(caps: Seq<(Seq<char>, Seq<char>)>) -> Option<(Seq<char>, Seq<char>, Seq<char>)>
    decreases caps.len(),
{
    if caps.len() == 0 {
        Some((Seq::empty(), Seq::empty(), Seq::empty()))
    } else {
        let c = caps.last();
        match match_entry(caps.drop_last()) {
            None => None,
            Some(e) => if c.0 == "name"@ {
                Some((c.1, e.1, e.2))
            } else if c.0 == "func_src"@ {
                Some((e.0, c.1, e.2))
            } else if c.0 == "comment"@ {
                match cleaned_comment(c.1) {
                    Some(x) => Some((e.0, e.1, e.2 + x)),
                    None => None,
                }
            } else {
                Some(e)
            },
        }
    }
}

proof fn lemma_match_entry_stays_none(caps: Seq<(Seq<char>, Seq<char>)>, k: int)
    requires
        0 <= k <= caps.len(),
        match_entry(caps.subrange(0, k)) is None,
    ensures
        match_entry(caps) is None,
    decreases caps.len() - k,
{
    if k < caps.len() {
        assert(caps.subrange(0, k + 1).drop_last() =~= caps.subrange(0, k));
        lemma_match_entry_stays_none(caps, k + 1);
    } else {
        assert(caps.subrange(0, k) =~= caps);
    }
}

proof fn lemma_match_entries_stay_none(ms: Seq<Seq<(Seq<char>, Seq<char>)>>, i: int, n: int)
    requires
        0 <= i <= n,
        match_entries(ms, i) is None,
    ensures
        match_entries(ms, n) is None,
    decreases n - i,
{
    if i < n {
        lemma_match_entries_stay_none(ms, i + 1, n);
    }
}

/// The entry of one doc-query match.
pub fn entry_of_match(caps: &Vec<Capture>) -> (r: Option<FuncEntry>)
    ensures
        match r {
            Some(e) => match_entry(capture_views(caps@)) == Some(e@),
            None => match_entry(capture_views(caps@)) is None,
        },
{
    let mut name = String::new();
    let mut code = String::new();
    let mut comment = String::new();
    let mut k: usize = 0;
    while k < caps.len()
        invariant
            k <= caps.len(),
            match_entry(capture_views(caps@).subrange(0, k as int)) == Some((name@, code@, comment@)),
        decreases caps.len() - k,
    {
        let ghost cs = capture_views(caps@).subrange(0, k + 1);
        assert(cs.drop_last() =~= capture_views(caps@).subrange(0, k as int));
        let c = &caps[k];
        if str_eq(c.label.as_str(), "name") {
            name = c.text.clone();
        } else if str_eq(c.label.as_str(), "func_src") {
            code = c.text.clone();
        } else if str_eq(c.label.as_str(), "comment") {
            match clean_comment(c.text.as_str()) {
                Some(x) => {
                    comment = comment.concat(x.as_str());
                },
                None => {
                    proof {
                        lemma_match_entry_stays_none(capture_views(caps@), k + 1);
                    }
                    return None;
                },
            }
        }
        k += 1;
    }
    assert(capture_views(caps@).subrange(0, caps.len() as int) =~= capture_views(caps@));
    Some(FuncEntry { name, code, comment })
}

/// The entries of the first `n` doc-query matches, one per match, in order.
pub open spec fn match_entries(ms: Seq<Seq<(Seq<char>, Seq<char>)>>, n: int) -> Option<Seq<(Seq<char>, Seq<char>, Seq<char>)>>
    decreases n,
{
    if n <= 0 {
        Some(Seq::empty())
    } else {
        match (match_entries(ms, n - 1), match_entry(ms[n - 1])) {
            (Some(es), Some(e)) => Some(es.push(e)),
            _ => None,
        }
    }
}

/// The functions found by a doc query, one entry per match, given the captures of each
/// match. Where a name comes again, its last entry is the one that counts.
pub fn find_function_comments(matches: &Vec<Vec<Capture>>) -> (r: Option<Vec<FuncEntry>>)
    ensures
        match r {
            Some(es) => match_entries(capture_lists(matches@), matches.len() as int) == Some(entry_views(es@)),
            None => match_entries(capture_lists(matches@), matches.len() as int) is None,
        },
{
    let ghost ms = capture_lists(matches@);
    let mut out: Vec<FuncEntry> = Vec::new();
    let mut i: usize = 0;
    while i < matches.len()
        invariant
            ms == capture_lists(matches@),
            i <= matches.len(),
            match_entries(ms, i as int) == Some(entry_views(out@)),
        decreases matches.len() - i,
    {
        assert(ms[i as int] == capture_views(matches@[i as int]@));
        match entry_of_match(&matches[i]) {
            Some(e) => {
                let ghost prev = entry_views(out@);
                out.push(e);
                assert(entry_views(out@) =~= prev.push(e@));
            },
            None => {
                assert(match_entries(ms, i + 1) is None);
                proof {
                    lemma_match_entries_stay_none(ms, i + 1, matches.len() as int);
                }
                return None;
            },
        }
        i += 1;
    }
    Some(out)
}

/// Position of the last entry named `n`, or -1.
pub open spec fn last_entry(es: Seq<(Seq<char>, Seq<char>, Seq<char>)>, n: Seq<char>) -> int
    decreases es.len(),
{
    if es.len() == 0 {
        -1
    } else if es.last().0 == n {
        es.len() - 1
    } else {
        last_entry(es.drop_last(), n)
    }
}

/// The function/comment samples of the first `n` entries: one per name (its last entry)
/// whose comment is not empty, in entry order.
pub open spec fn entry_comm_samples(es: Seq<(Seq<char>, Seq<char>, Seq<char>)>, n: int) -> Seq<SampleView>
    decreases n,
{
    if n <= 0 {
        Seq::empty()
    } else if last_entry(es, es[n - 1].0) == n - 1 && es[n - 1].2.len() > 0 {
        entry_comm_samples(es, n - 1).push(SampleView::FuncComm(es[n - 1].1, es[n - 1].2))
    } else {
        entry_comm_samples(es, n - 1)
    }
}

/// Position of the last entry named `name`.
pub(crate) fn last_entry_position(entries: &Vec<FuncEntry>, name: &String) -> (r: Option<usize>)
    ensures
        match r {
            Some(j) => last_entry(entry_views(entries@), name@) == j,
            None => last_entry(entry_views(entries@), name@) == -1,
        },
{
    let mut found: Option<usize> = None;
    let mut i: usize = 0;
    while i < entries.len()
        invariant
            i <= entries.len(),
            match found {
                Some(j) => last_entry(entry_views(entries@.subrange(0, i as int)), name@) == j,
                None => last_entry(entry_views(entries@.subrange(0, i as int)), name@) == -1,
            },
        decreases entries.len() - i,
    {
        assert(entry_views(entries@.subrange(0, i + 1)).drop_last() =~= entry_views(entries@.subrange(0, i as int)));
        if entries[i].name == *name {
            found = Some(i);
        }
        i += 1;
    }
    assert(entries@.subrange(0, entries.len() as int) =~= entries@);
    found
}

/// The function/comment samples of the functions found by a doc query: one per function
/// whose comment is not empty.
pub fn process_func_comm(entries: &Vec<FuncEntry>) -> (r: Vec<DataSample>)
    ensures
        sample_views(r@) == entry_comm_samples(entry_views(entries@), entries.len() as int),
{
    let ghost es = entry_views(entries@);
    let mut out: Vec<DataSample> = Vec::new();
    let mut i: usize = 0;
    while i < entries.len()
        invariant
            es == entry_views(entries@),
            i <= entries.len(),
            sample_views(out@) == entry_comm_samples(es, i as int),
        decreases entries.len() - i,
    {
        let own = match last_entry_position(entries, &entries[i].name) {
            Some(p) => p == i,
            None => false,
        };
        if own && entries[i].comment.as_str().unicode_len() > 0 {
            let ghost prev = sample_views(out@);
            out.push(DataSample::FuncComm(entries[i].code.clone(), entries[i].comment.clone()));
            assert(sample_views(out@) =~= prev.push(SampleView::FuncComm(es[i as int].1, es[i as int].2)));
        }
        i += 1;
    }
    out
}

} // verus!
