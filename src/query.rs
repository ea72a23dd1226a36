use vstd::prelude::*;
use tree_sitter::{Parser, Query, QueryCursor};
use self::TargetLanguage::{Go, Java, Javascript, Php, Python, Ruby};
use crate::calls::{capture_views, resolve_callees, resolved_callees, Capture};
use crate::grouping::views;
use crate::record::JsonSample;

verus! {

/// The languages whose sources can be mined.
#[derive(Debug, Clone, Copy, PartialEq, Eq, Structural)]
pub enum TargetLanguage {
    Python,
    Javascript,
    Java,
    Go,
    Php,
    Ruby,
}

/// Why the call sites of a source could not be extracted.
#[derive(Debug, Clone, Copy, PartialEq, Eq, Structural)]
pub enum ExtractError {
    /// No grammar for the language is linked into the library.
    UnsupportedLanguage,
    /// The source could not be parsed, or the call query does not compile for the grammar.
    ParseFailed,
}

/// The name by which a language is selected.
pub open spec fn language_tag(l: TargetLanguage) -> Seq<char> {
    match l {
        TargetLanguage::Go => "go"@,
        TargetLanguage::Javascript => "javascript"@,
        TargetLanguage::Java => "java"@,
        TargetLanguage::Php => "php"@,
        TargetLanguage::Python => "python"@,
        TargetLanguage::Ruby => "ruby"@,
    }
}

pub const PYTHON_SEXP_FUNC_CALL: &'static str = "
(call
  function: (attribute attribute: (identifier) @function.method))
(call
  function: (identifier) @function)";

pub const JAVASCRIPT_SEXP_FUNC_CALL: &'static str = "
(call_expression
  function: (identifier) @function)
(call_expression
  function: (member_expression
    property: (property_identifier) @function.method))
";

pub const JAVA_SEXP_FUNC_CALL: &'static str = "(method_declaration
  name: (identifier) @function.method)
(method_invocation
  name: (identifier) @function.method)
";

pub const GO_SEXP_FUNC_CALL: &'static str = "
(call_expression
  function: (identifier) @function)
(call_expression
  function: (selector_expression
    field: (field_identifier) @function.method))";

pub const RUBY_SEXP_FUNC_CALL: &'static str = "
(call
  method: [(identifier) (constant)] @function.method)";

pub const PHP_SEXP_FUNC_CALL: &'static str = "
(member_call_expression
  name: (name) @function.method)
(function_call_expression
  function: (qualified_name (name)) @function)
";

/// The call-site query of a language.
pub open spec fn call_query_text(l: TargetLanguage) -> Seq<char> {
    match l {
        TargetLanguage::Python => PYTHON_SEXP_FUNC_CALL@,
        TargetLanguage::Javascript => JAVASCRIPT_SEXP_FUNC_CALL@,
        TargetLanguage::Java => JAVA_SEXP_FUNC_CALL@,
        TargetLanguage::Go => GO_SEXP_FUNC_CALL@,
        TargetLanguage::Ruby => RUBY_SEXP_FUNC_CALL@,
        TargetLanguage::Php => PHP_SEXP_FUNC_CALL@,
    }
}

impl TargetLanguage {
    /// The language selected by `s`.
    pub fn from_str(s: &str) -> (r: Result<TargetLanguage, String>)
        ensures
            match r {
                Ok(l) => language_tag(l) == s@,
                Err(m) => (forall|l: TargetLanguage| language_tag(l) != s@) && m@ == "Unknown language: "@ + s@,
            },
    {
        if crate::calls::str_eq(s, "go") {
            Ok(TargetLanguage::Go)
        } else if crate::calls::str_eq(s, "javascript") {
            Ok(TargetLanguage::Javascript)
        } else if crate::calls::str_eq(s, "java") {
            Ok(TargetLanguage::Java)
        } else if crate::calls::str_eq(s, "php") {
            Ok(TargetLanguage::Php)
        } else if crate::calls::str_eq(s, "python") {
            Ok(TargetLanguage::Python)
        } else if crate::calls::str_eq(s, "ruby") {
            Ok(TargetLanguage::Ruby)
        } else {
            assert forall|l: TargetLanguage| language_tag(l) != s@ by {
                match l {
                    TargetLanguage::Go => {},
                    TargetLanguage::Javascript => {},
                    TargetLanguage::Java => {},
                    TargetLanguage::Php => {},
                    TargetLanguage::Python => {},
                    TargetLanguage::Ruby => {},
                }
            }
            Err(String::from_str("Unknown language: ").concat(s))
        }
    }

    /// The call-site query of the language.
    pub fn call_query(self) -> (r: &'static str)
        ensures
            r@ == call_query_text(self),
    {
        match self {
            TargetLanguage::Python => PYTHON_SEXP_FUNC_CALL,
            TargetLanguage::Javascript => JAVASCRIPT_SEXP_FUNC_CALL,
            TargetLanguage::Java => JAVA_SEXP_FUNC_CALL,
            TargetLanguage::Go => GO_SEXP_FUNC_CALL,
            TargetLanguage::Ruby => RUBY_SEXP_FUNC_CALL,
            TargetLanguage::Php => PHP_SEXP_FUNC_CALL,
        }
    }

}

/// What parsing `code` with the grammar of the language tagged `tag` and running `query`
/// over the tree gives: each capture, in match order, with its label and the text of `code`
/// that it covers (empty where that text is not UTF-8); `None` where the query does not
/// compile for the grammar.
pub uninterp spec fn call_captures(tag: Seq<char>, query: Seq<char>, code: Seq<char>) -> Option<Seq<(Seq<char>, Seq<char>)>>;

/// Relies on the grammar crates' `language`, tree_sitter::Parser (new, set_language, parse),
/// Query::new and QueryCursor::matches: the parser has no timeout and no cancellation flag,
/// so it gives a tree once the grammar is set (a grammar that cannot be set leaves it
/// without one, and then it gives none). No grammar for PHP is linked, so PHP gives `None`.
#[verifier::external_body]
fn parse_and_query(lang: TargetLanguage, query: &str, code: &str) -> (r: Option<Vec<Capture>>)
    ensures
        lang != TargetLanguage::Php ==> match r {
            Some(c) => call_captures(language_tag(lang), query@, code@) == Some(capture_views(c@)),
            None => call_captures(language_tag(lang), query@, code@) is None,
        },
{
    let grammar = match lang {
        Python => tree_sitter_python::language(),
        Javascript => tree_sitter_javascript::language(),
        Java => tree_sitter_java::language(),
        Go => tree_sitter_go::language(),
        Ruby => tree_sitter_ruby::language(),
        Php => return None,
    };
    let mut parser = Parser::new();
    let _ = parser.set_language(grammar);
    let tree = parser.parse(code, None)?;
    let query = Query::new(grammar, query).ok()?;
    let mut cursor = QueryCursor::new();
    Some(cursor.matches(&query, tree.root_node(), code.as_bytes()).flat_map(|m| m.captures)
        .map(|c| Capture { label: query.capture_names()[c.index as usize].clone(), text: c.node.utf8_text(code.as_bytes()).unwrap_or_default().to_string() }).collect())
}

/// Parses `code` in the language and runs the language's call query over it.
pub fn call_site_captures(lang: TargetLanguage, code: &str) -> (r: Result<Vec<Capture>, ExtractError>)
    ensures
        lang == TargetLanguage::Php ==> r == Err::<Vec<Capture>, ExtractError>(ExtractError::UnsupportedLanguage),
        lang != TargetLanguage::Php ==> match call_captures(language_tag(lang), call_query_text(lang), code@) {
            Some(c) => r is Ok && capture_views(r->Ok_0@) == c,
            None => r == Err::<Vec<Capture>, ExtractError>(ExtractError::ParseFailed),
        },
{
    if lang == TargetLanguage::Php {
        return Err(ExtractError::UnsupportedLanguage);
    }
    match parse_and_query(lang, lang.call_query(), code) {
        Some(caps) => Ok(caps),
        None => Err(ExtractError::ParseFailed),
    }
}

/// The callees of the record at `i` of `group`: the names of other group members that
/// its code calls, each once, in the order of their first call site.
pub fn find_function_calls(lang: TargetLanguage, group: &Vec<JsonSample>, i: usize) -> (r: Result<Vec<String>, ExtractError>)
    requires
        i < group.len(),
    ensures
        lang == TargetLanguage::Php ==> r == Err::<Vec<String>, ExtractError>(ExtractError::UnsupportedLanguage),
        lang != TargetLanguage::Php ==> match call_captures(language_tag(lang), call_query_text(lang), group@[i as int].code@) {
            Some(c) => r is Ok && r->Ok_0.deep_view() == resolved_callees(c, views(group@), i as int),
            None => r == Err::<Vec<String>, ExtractError>(ExtractError::ParseFailed),
        },
{
    match call_site_captures(lang, group[i].code.as_str()) {
        Ok(caps) => Ok(resolve_callees(group, i, &caps)),
        Err(e) => Err(e),
    }
}

} // verus!
