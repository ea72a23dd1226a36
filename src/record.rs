use vstd::prelude::*;

verus! {

/// Marker that replaces the callee's name in the caller's code of a positive pair.
pub const FUNC_CALL_ID_MASK: &'static str = "<masked_func_id>";

/// One function as extracted from a repository.
#[derive(Debug, Clone, PartialEq, Eq, Hash, Ord, PartialOrd)]
pub struct JsonSample {
    pub func_name: String,
    pub repo: String,
    pub original_string: String,
    pub code: String,
    pub code_tokens: Vec<String>,
    pub docstring: String,
    pub docstring_tokens: Vec<String>,
}

/// A training example of one of three shapes.
#[derive(Debug, Clone, PartialEq, Eq, Hash)]
pub enum DataSample {
    /// Caller source and callee source.
    FuncCall(String, String),
    /// Caller source and comment, callee source and comment, and whether the caller calls it.
    FuncCallComm(String, String, String, String, bool),
    /// Function source and function comment.
    FuncComm(String, String),
}

/// The mathematical content of a `DataSample`.
pub enum SampleView {
    FuncCall(Seq<char>, Seq<char>),
    FuncCallComm(Seq<char>, Seq<char>, Seq<char>, Seq<char>, bool),
    FuncComm(Seq<char>, Seq<char>),
}

impl View for DataSample {
    type V = SampleView;

    open spec fn view(&self) -> SampleView {
        match self {
            DataSample::FuncCall(a, b) => SampleView::FuncCall(a@, b@),
            DataSample::FuncCallComm(a, b, c, d, l) => SampleView::FuncCallComm(a@, b@, c@, d@, *l),
            DataSample::FuncComm(a, b) => SampleView::FuncComm(a@, b@),
        }
    }
}

impl DataSample {
    /// A copy of the sample with the same contents.
    pub fn duplicate(&self) -> (r: DataSample)
        ensures
            r@ == self@,
    {
        match self {
            DataSample::FuncCall(a, b) => DataSample::FuncCall(a.clone(), b.clone()),
            DataSample::FuncCallComm(a, b, c, d, l) => DataSample::FuncCallComm(
                a.clone(),
                b.clone(),
                c.clone(),
                d.clone(),
                *l,
            ),
            DataSample::FuncComm(a, b) => DataSample::FuncComm(a.clone(), b.clone()),
        }
    }
}

/// The mathematical content of a `JsonSample`.
pub struct RecordView {
    pub func_name: Seq<char>,
    pub repo: Seq<char>,
    pub original_string: Seq<char>,
    pub code: Seq<char>,
    pub code_tokens: Seq<Seq<char>>,
    pub docstring: Seq<char>,
    pub docstring_tokens: Seq<Seq<char>>,
}

impl View for JsonSample {
    type V = RecordView;

    open spec fn view(&self) -> RecordView {
        RecordView {
            func_name: self.func_name@,
            repo: self.repo@,
            original_string: self.original_string@,
            code: self.code@,
            code_tokens: self.code_tokens.deep_view(),
            docstring: self.docstring@,
            docstring_tokens: self.docstring_tokens.deep_view(),
        }
    }
}

/// The part of `s` after its last `.` (all of `s` when it holds none).
pub open spec fn last_segment(s: Seq<char>) -> Seq<char>
    decreases s.len(),
{
    if s.len() == 0 {
        s
    } else if s.last() == '.' {
        Seq::empty()
    } else {
        last_segment(s.drop_last()).push(s.last())
    }
}

/// A copy of a list of strings with the same contents.
pub fn copy_strings(v: &Vec<String>) -> (r: Vec<String>)
    ensures
        r.deep_view() == v.deep_view(),
{
    let mut r: Vec<String> = Vec::new();
    let mut i: usize = 0;
    while i < v.len()
        invariant
            i <= v.len(),
            r.len() == i,
            forall|k: int| 0 <= k < i ==> r@[k]@ == v@[k]@,
        decreases v.len() - i,
    {
        r.push(v[i].clone());
        i += 1;
    }
    assert(r.deep_view() =~= v.deep_view());
    r
}

impl JsonSample {
    /// A copy of the record with the same contents.
    pub fn duplicate(&self) -> (r: JsonSample)
        ensures
            r@ == self@,
    {
        JsonSample {
            func_name: self.func_name.clone(),
            repo: self.repo.clone(),
            original_string: self.original_string.clone(),
            code: self.code.clone(),
            code_tokens: copy_strings(&self.code_tokens),
            docstring: self.docstring.clone(),
            docstring_tokens: copy_strings(&self.docstring_tokens),
        }
    }

    /// Replaces the function name by its last dotted segment (`a.b.f` becomes `f`).
    pub fn normalize_name(&mut self)
        ensures
            final(self)@ == (RecordView { func_name: last_segment(old(self)@.func_name), ..old(self)@ }),
    {
        let name = last_dotted_segment(self.func_name.as_str());
        self.func_name = name;
    }
}

/// The part of `s` after its last `.`.
pub fn last_dotted_segment(s: &str) -> (r: String)
    ensures
        r@ == last_segment(s@),
{
    let n = s.unicode_len();
    let mut start: usize = 0;
    let mut i: usize = 0;
    while i < n
        invariant
            n == s@.len(),
            start <= i <= n,
            last_segment(s@.subrange(0, i as int)) == s@.subrange(start as int, i as int),
        decreases n - i,
    {
        let c = s.get_char(i);
        assert(s@.subrange(0, i + 1).drop_last() =~= s@.subrange(0, i as int));
        if c == '.' {
            start = i + 1;
            assert(s@.subrange(start as int, i + 1) =~= Seq::<char>::empty());
        } else {
            assert(s@.subrange(start as int, i + 1) =~= s@.subrange(start as int, i as int).push(c));
        }
        i += 1;
    }
    assert(s@.subrange(0, n as int) =~= s@);
    s.substring_char(start, n).to_string()
}

} // verus!
