use vstd::prelude::*;
use crate::calls::{capture_lists, capture_views, Capture};
use crate::grouping::views;
use crate::pairs::{group_pairs, pair_views, synthesize_group, PairView};
use crate::query::{call_captures, call_query_text, call_site_captures, language_tag, ExtractError, TargetLanguage};
use crate::record::{copy_strings, JsonSample, RecordView, FUNC_CALL_ID_MASK};

verus! {

/// One training example: a caller and a callee function, and whether the caller calls it.
#[derive(Debug, Clone, PartialEq, Eq)]
pub struct CallJsonSample {
    pub caller_code: String,
    pub caller_comm: String,
    pub callee_code: String,
    pub callee_comm: String,
    pub label: bool,
    pub caller_code_tokens: Vec<String>,
    pub caller_comm_tokens: Vec<String>,
    pub callee_code_tokens: Vec<String>,
    pub callee_comm_tokens: Vec<String>,
}

/// The mathematical content of a `CallJsonSample`.
pub struct CallSampleView {
    pub caller_code: Seq<char>,
    pub caller_comm: Seq<char>,
    pub callee_code: Seq<char>,
    pub callee_comm: Seq<char>,
    pub label: bool,
    pub caller_code_tokens: Seq<Seq<char>>,
    pub caller_comm_tokens: Seq<Seq<char>>,
    pub callee_code_tokens: Seq<Seq<char>>,
    pub callee_comm_tokens: Seq<Seq<char>>,
}

impl View for CallJsonSample {
    type V = CallSampleView;

    open spec fn view(&self) -> CallSampleView {
        CallSampleView {
            caller_code: self.caller_code@,
            caller_comm: self.caller_comm@,
            callee_code: self.callee_code@,
            callee_comm: self.callee_comm@,
            label: self.label,
            caller_code_tokens: self.caller_code_tokens.deep_view(),
            caller_comm_tokens: self.caller_comm_tokens.deep_view(),
            callee_code_tokens: self.callee_code_tokens.deep_view(),
            callee_comm_tokens: self.callee_comm_tokens.deep_view(),
        }
    }
}

/// What `regex::Regex::new(pattern)` followed by `replace_all(text, replacement)` gives
/// (where `$` in `replacement` names a capture group); `None` where `pattern` does not
/// compile.
pub uninterp spec fn regex_replaced(text: Seq<char>, pattern: Seq<char>, replacement: Seq<char>) -> Option<Seq<char>>;

/// Relies on regex::Regex::new and Regex::replace_all: every match of `pattern` in `text`
/// replaced by `replacement`; `None` where the pattern does not compile.
#[verifier::external_body]
pub(crate) fn regex_replace_all(text: &str, pattern: &str, replacement: &str) -> (r: Option<String>)
    ensures
        match r {
            Some(s) => regex_replaced(text@, pattern@, replacement@) == Some(s@),
            None => regex_replaced(text@, pattern@, replacement@) is None,
        },
{
    let re = regex::Regex::new(pattern).ok()?;
    Some(re.replace_all(text, replacement).to_string())
}

/// The pattern that matches `name` between word boundaries.
pub open spec fn word_pattern(name: Seq<char>) -> Seq<char> {
    "\\b"@ + name + "\\b"@
}

/// `code` with every occurrence of `name` between word boundaries replaced by the mask.
pub open spec fn word_masked(code: Seq<char>, name: Seq<char>) -> Option<Seq<char>> {
    regex_replaced(code, word_pattern(name), FUNC_CALL_ID_MASK@)
}

/// `code` with every occurrence of `name` between word boundaries replaced by the mask;
/// `None` where `name` does not make a valid pattern.
pub fn mask_words(code: &str, name: &str) -> (r: Option<String>)
    ensures
        match r {
            Some(s) => word_masked(code@, name@) == Some(s@),
            None => word_masked(code@, name@) is None,
        },
{
    let pattern = String::from_str("\\b").concat(name).concat("\\b");
    regex_replace_all(code, pattern.as_str(), FUNC_CALL_ID_MASK)
}

/// `tokens` with each token equal to `name` replaced by the mask.
pub open spec fn masked_tokens(tokens: Seq<Seq<char>>, name: Seq<char>) -> Seq<Seq<char>> {
    tokens.map_values(|t: Seq<char>| if t == name { FUNC_CALL_ID_MASK@ } else { t })
}

/// The training example of a pair. A positive pair carries `masked_code` as the caller's
/// code and the caller's tokens with the callee's name masked; a negative pair carries the
/// caller as it is.
pub open spec fn call_sample_of(caller: RecordView, callee: RecordView, label: bool, masked_code: Seq<char>) -> CallSampleView {
    CallSampleView {
        caller_code: if label { masked_code } else { caller.code },
        caller_comm: caller.docstring,
        callee_code: callee.code,
        callee_comm: callee.docstring,
        label,
        caller_code_tokens: if label { masked_tokens(caller.code_tokens, callee.func_name) } else { caller.code_tokens },
        caller_comm_tokens: caller.docstring_tokens,
        callee_code_tokens: callee.code_tokens,
        callee_comm_tokens: callee.docstring_tokens,
    }
}

/// `tokens` with each token equal to `name` replaced by the mask.
pub fn mask_tokens(tokens: &Vec<String>, name: &String) -> (r: Vec<String>)
    ensures
        r.deep_view() == masked_tokens(tokens.deep_view(), name@),
{
    let mut r: Vec<String> = Vec::new();
    let mut i: usize = 0;
    while i < tokens.len()
        invariant
            i <= tokens.len(),
            r.len() == i,
            forall|k: int| 0 <= k < i ==> r@[k]@ == (if tokens@[k]@ == name@ { FUNC_CALL_ID_MASK@ } else { tokens@[k]@ }),
        decreases tokens.len() - i,
    {
        if tokens[i] == *name {
            r.push(FUNC_CALL_ID_MASK.to_string());
        } else {
            r.push(tokens[i].clone());
        }
        i += 1;
    }
    assert(r.deep_view() =~= masked_tokens(tokens.deep_view(), name@));
    r
}

/// The training example of a pair, given the caller's code with the callee's name masked
/// (used for a positive pair only).
pub fn build_call_sample(caller: &JsonSample, callee: &JsonSample, label: bool, masked_code: String) -> (r: CallJsonSample)
    ensures
        r@ == call_sample_of(caller@, callee@, label, masked_code@),
{
    let (caller_code, caller_code_tokens) = if label {
        (masked_code, mask_tokens(&caller.code_tokens, &callee.func_name))
    } else {
        (caller.code.clone(), copy_strings(&caller.code_tokens))
    };
    CallJsonSample {
        caller_code,
        caller_comm: caller.docstring.clone(),
        callee_code: callee.code.clone(),
        callee_comm: callee.docstring.clone(),
        label,
        caller_code_tokens,
        caller_comm_tokens: copy_strings(&caller.docstring_tokens),
        callee_code_tokens: copy_strings(&callee.code_tokens),
        callee_comm_tokens: copy_strings(&callee.docstring_tokens),
    }
}

/// The training example of a pair: for a positive pair the callee's name is masked in the
/// caller's code and tokens. `None` where the callee's name makes no valid pattern.
pub fn to_call_sample(caller: &JsonSample, callee: &JsonSample, label: bool) -> (r: Option<CallJsonSample>)
    ensures
        label ==> match word_masked(caller@.code, callee@.func_name) {
            Some(m) => r is Some && r->0@ == call_sample_of(caller@, callee@, true, m),
            None => r is None,
        },
        !label ==> r is Some && r->0@ == call_sample_of(caller@, callee@, false, caller@.code),
{
    if label {
        match mask_words(caller.code.as_str(), callee.func_name.as_str()) {
            Some(m) => Some(build_call_sample(caller, callee, true, m)),
            None => None,
        }
    } else {
        Some(build_call_sample(caller, callee, false, caller.code.clone()))
    }
}

/// The call-query captures of the first `n` records of a group, in the language `lang`;
/// `None` where one of them cannot be had.
pub open spec fn group_captures(lang: TargetLanguage, g: Seq<RecordView>, n: int) -> Option<Seq<Seq<(Seq<char>, Seq<char>)>>>
    decreases n,
{
    if n <= 0 {
        Some(Seq::empty())
    } else {
        match (group_captures(lang, g, n - 1), call_captures(language_tag(lang), call_query_text(lang), g[n - 1].code)) {
            (Some(cs), Some(c)) => Some(cs.push(c)),
            _ => None,
        }
    }
}

proof fn lemma_group_captures_stay_none(lang: TargetLanguage, g: Seq<RecordView>, i: int, n: int)
    requires
        0 <= i <= n,
        group_captures(lang, g, i) is None,
    ensures
        group_captures(lang, g, n) is None,
    decreases n - i,
{
    if i < n {
        lemma_group_captures_stay_none(lang, g, i + 1, n);
    }
}

/// Every positive pair's callee name makes a valid masking pattern.
pub open spec fn all_maskable(ps: Seq<PairView>) -> bool {
    forall|t: int| 0 <= t < ps.len() && (#[trigger] ps[t]).2 ==> word_masked(ps[t].0.code, ps[t].1.func_name) is Some
}

/// The pairs of a group: each record's code is parsed and its call sites resolved within
/// the group, then positive and negative pairs are drawn. Fails as soon as one record
/// cannot be parsed.
pub fn process_grouped_samples(group: &Vec<JsonSample>, lang: TargetLanguage) -> (r: Result<Vec<(JsonSample, JsonSample, bool)>, ExtractError>)
    ensures
        lang == TargetLanguage::Php && group.len() > 0 ==> r == Err::<Vec<(JsonSample, JsonSample, bool)>, ExtractError>(
            ExtractError::UnsupportedLanguage,
        ),
        group.len() == 0 ==> r is Ok && r->Ok_0@.len() == 0,
        lang != TargetLanguage::Php ==> match group_captures(lang, views(group@), group.len() as int) {
            Some(cs) => r is Ok && pair_views(r->Ok_0@) == group_pairs(views(group@), cs, group.len() as int),
            None => r == Err::<Vec<(JsonSample, JsonSample, bool)>, ExtractError>(ExtractError::ParseFailed),
        },
{
    let ghost g = views(group@);
    let mut caps: Vec<Vec<Capture>> = Vec::new();
    let mut i: usize = 0;
    while i < group.len()
        invariant
            g == views(group@),
            i <= group.len(),
            caps.len() == i,
            lang == TargetLanguage::Php ==> i == 0,
            lang != TargetLanguage::Php ==> group_captures(lang, g, i as int) == Some(capture_lists(caps@)),
        decreases group.len() - i,
    {
        assert(g[i as int].code == group@[i as int].code@);
        match call_site_captures(lang, group[i].code.as_str()) {
            Ok(c) => {
                let ghost prev = capture_lists(caps@);
                caps.push(c);
                assert(capture_lists(caps@) =~= prev.push(capture_views(c@)));
            },
            Err(e) => {
                proof {
                    if lang != TargetLanguage::Php {
                        lemma_group_captures_stay_none(lang, g, i + 1, group.len() as int);
                    }
                }
                return Err(e);
            },
        }
        i += 1;
    }
    let pairs = synthesize_group(group, &caps);
    assert(capture_lists(caps@).len() == group.len());
    assert(pair_views(pairs@).len() == pairs@.len());
    Ok(pairs)
}

/// The training examples of a group, in the order of its pairs. Fails where a record
/// cannot be parsed, or where a callee's name makes no valid masking pattern.
pub fn generate_call_samples(group: &Vec<JsonSample>, lang: TargetLanguage) -> (r: Result<Vec<CallJsonSample>, SampleError>)
    ensures
        lang == TargetLanguage::Php && group.len() > 0 ==> r == Err::<Vec<CallJsonSample>, SampleError>(
            SampleError::Extract(ExtractError::UnsupportedLanguage),
        ),
        lang != TargetLanguage::Php ==> match group_captures(lang, views(group@), group.len() as int) {
            Some(cs) => if all_maskable(group_pairs(views(group@), cs, group.len() as int)) {
                r is Ok && samples_match(
                    group_pairs(views(group@), cs, group.len() as int),
                    r->Ok_0@.map_values(|s: CallJsonSample| s@),
                )
            } else {
                r == Err::<Vec<CallJsonSample>, SampleError>(SampleError::InvalidName)
            },
            None => r == Err::<Vec<CallJsonSample>, SampleError>(SampleError::Extract(ExtractError::ParseFailed)),
        },
{
    let pairs = match process_grouped_samples(group, lang) {
        Ok(p) => p,
        Err(e) => return Err(SampleError::Extract(e)),
    };
    let ghost ps = pair_views(pairs@);
    let mut out: Vec<CallJsonSample> = Vec::new();
    let mut k: usize = 0;
    while k < pairs.len()
        invariant
            ps == pair_views(pairs@),
            k <= pairs.len(),
            out.len() == k,
            !(lang == TargetLanguage::Php && group.len() > 0),
            lang != TargetLanguage::Php ==> group_captures(lang, views(group@), group.len() as int) is Some && ps
                == group_pairs(
                views(group@),
                group_captures(lang, views(group@), group.len() as int)->0,
                group.len() as int,
            ),
            forall|t: int| 0 <= t < k ==> sample_matches(#[trigger] ps[t], out@[t]@),
        decreases pairs.len() - k,
    {
        let p = &pairs[k];
        match to_call_sample(&p.0, &p.1, p.2) {
            Some(s) => out.push(s),
            None => {
                assert(ps[k as int].2 && word_masked(ps[k as int].0.code, ps[k as int].1.func_name) is None);
                assert(!all_maskable(ps));
                return Err(SampleError::InvalidName);
            },
        }
        k += 1;
    }
    assert(samples_match(ps, out@.map_values(|s: CallJsonSample| s@)));
    assert(all_maskable(ps));
    Ok(out)
}

/// Why the training examples of a group could not be made.
#[derive(Debug, Clone, Copy, PartialEq, Eq, Structural)]
pub enum SampleError {
    /// The call sites of a record could not be extracted.
    Extract(ExtractError),
    /// A callee's name makes no valid pattern for masking.
    InvalidName,
}

/// `s` is the training example of pair `p`.
pub open spec fn sample_matches(p: PairView, s: CallSampleView) -> bool {
    if p.2 {
        word_masked(p.0.code, p.1.func_name) == Some(s.caller_code) && s == call_sample_of(
            p.0,
            p.1,
            true,
            s.caller_code,
        )
    } else {
        s == call_sample_of(p.0, p.1, false, p.0.code)
    }
}

/// `samples` are the training examples of `pairs`, one for one and in order.
pub open spec fn samples_match(pairs: Seq<PairView>, samples: Seq<CallSampleView>) -> bool {
    &&& pairs.len() == samples.len()
    &&& forall|t: int| 0 <= t < pairs.len() ==> sample_matches(#[trigger] pairs[t], samples[t])
}

/// In a positive pair's example, no caller token is the callee's name (unless that name is
/// the mask itself), and its label is kept.
pub proof fn lemma_tokens_masked(p: PairView, s: CallSampleView)
    requires
        sample_matches(p, s),
        p.2,
        p.1.func_name != FUNC_CALL_ID_MASK@,
    ensures
        !s.caller_code_tokens.contains(p.1.func_name),
        s.label,
{
    let t = s.caller_code_tokens;
    assert forall|k: int| 0 <= k < t.len() implies t[k] != p.1.func_name by {
        assert(t[k] == (if p.0.code_tokens[k] == p.1.func_name { FUNC_CALL_ID_MASK@ } else { p.0.code_tokens[k] }));
    }
}

} // verus!
