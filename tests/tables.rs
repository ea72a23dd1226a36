use sparser::calls::Capture;
use sparser::calltable::{
    find_function_bodies, normalize_body, process_func_call, process_func_call_comm,
    process_func_call_comm_with, same_sample, table_name_list,
};
use sparser::comments::{clean_comment, entry_of_match, find_function_comments, process_func_comm, FuncEntry};
use sparser::dataset::{func_comm_samples, insert_negative_samples, insert_negative_samples_with, interleave_samples};
use sparser::record::{DataSample, JsonSample};

fn cap(label: &str, text: &str) -> Capture {
    Capture { label: label.to_string(), text: text.to_string() }
}

fn entry(name: &str, code: &str, comment: &str) -> FuncEntry {
    FuncEntry { name: name.to_string(), code: code.to_string(), comment: comment.to_string() }
}

fn call(a: &str, b: &str) -> (String, String) {
    (a.to_string(), b.to_string())
}

fn rec(name: &str, code: &str, doc: &str) -> JsonSample {
    JsonSample {
        func_name: name.to_string(),
        repo: "R".to_string(),
        original_string: code.to_string(),
        code: code.to_string(),
        code_tokens: vec![],
        docstring: doc.to_string(),
        docstring_tokens: vec![],
    }
}

fn fcc(a: &str, b: &str, c: &str, d: &str, l: bool) -> DataSample {
    DataSample::FuncCallComm(a.to_string(), b.to_string(), c.to_string(), d.to_string(), l)
}

#[test]
fn comment_markers_and_spaces_are_cleaned() {
    assert_eq!(clean_comment("// adds   two\tnumbers "), Some("adds two numbers\n".to_string()));
    assert_eq!(clean_comment("/** returns\n *  the sum */"), Some("returns * the sum\n".to_string()));
    assert_eq!(clean_comment("/* */"), Some("\n".to_string()));
}

#[test]
fn match_entry_joins_comments() {
    let caps = vec![
        cap("comment", "// first"),
        cap("comment", "// second  line"),
        cap("name", "add"),
        cap("func_body", "{ }"),
        cap("func_src", "function add() { }"),
    ];
    let e = entry_of_match(&caps).unwrap();
    assert_eq!(e, entry("add", "function add() { }", "first\nsecond line\n"));
}

#[test]
fn function_comment_samples_keep_last_entry() {
    let matches = vec![
        vec![cap("comment", "// old"), cap("name", "f"), cap("func_src", "function f() {1}")],
        vec![cap("name", "g"), cap("func_src", "function g() {}")],
        vec![cap("comment", "// new"), cap("name", "f"), cap("func_src", "function f() {2}")],
    ];
    let entries = find_function_comments(&matches).unwrap();
    assert_eq!(entries.len(), 3);
    let samples = process_func_comm(&entries);
    assert_eq!(samples, vec![DataSample::FuncComm("function f() {2}".to_string(), "new\n".to_string())]);
}

#[test]
fn record_comment_samples_skip_empty_docstrings() {
    let group = vec![rec("a", "def a(): pass", "does a"), rec("b", "def b(): pass", ""), rec("c", "x", "does c")];
    let samples = func_comm_samples(&group);
    assert_eq!(
        samples,
        vec![
            DataSample::FuncComm("def a(): pass".to_string(), "does a".to_string()),
            DataSample::FuncComm("x".to_string(), "does c".to_string()),
        ]
    );
}

#[test]
fn interleaving_alternates_then_appends() {
    let a = vec![DataSample::FuncCall("1".into(), "1".into()), DataSample::FuncCall("2".into(), "2".into()), DataSample::FuncCall("3".into(), "3".into())];
    let b = vec![DataSample::FuncComm("x".into(), "x".into())];
    let mixed = interleave_samples(&a, &b);
    assert_eq!(mixed, vec![a[0].clone(), b[0].clone(), a[1].clone(), a[2].clone()]);
    assert_eq!(interleave_samples(&b, &a), vec![b[0].clone(), a[0].clone(), a[1].clone(), a[2].clone()]);
}

#[test]
fn negative_samples_take_another_callee() {
    let samples = vec![fcc("c1", "k1", "e1", "m1", true), fcc("c2", "k2", "e2", "m2", true)];
    let mixed = insert_negative_samples_with(&samples, &vec![1, 1]);
    assert_eq!(
        mixed,
        vec![samples[0].clone(), fcc("c1", "k1", "e2", "m2", false), samples[1].clone()]
    );
    let random = insert_negative_samples(&samples);
    assert!(random.len() >= 2 && random.len() <= 4);
}

#[test]
fn table_call_samples_mask_and_draw() {
    let entries = vec![entry("f", "function f() { g(); }", "calls g\n"), entry("g", "function g() {}", "leaf\n"), entry("h", "function h() {}", "other\n")];
    assert_eq!(table_name_list(&entries), vec!["f".to_string(), "g".to_string(), "h".to_string()]);
    let calls = vec![call("f", "g")];
    let samples = process_func_call_comm_with(&entries, &calls, &vec![1, 0, 2]);
    assert_eq!(
        samples,
        vec![
            fcc("function f() { <masked_func_id>(); }", "calls g\n", "function g() {}", "leaf\n", true),
            fcc("function f() { g(); }", "calls g\n", "function h() {}", "other\n", false),
        ]
    );
    let all_called = process_func_call_comm_with(&entries, &calls, &vec![1, 4, 7]);
    assert_eq!(all_called.len(), 1);
    let missing = process_func_call_comm_with(&entries, &vec![call("f", "zzz")], &vec![0, 0, 0]);
    assert!(missing.is_empty());
    let random = process_func_call_comm(&entries, &calls);
    assert!(random.len() == 1 || random.len() == 2);
}

#[test]
fn table_self_calls_give_no_sample() {
    let entries = vec![entry("a", "function a() { a(); }", "recurses\n")];
    assert!(process_func_call_comm_with(&entries, &vec![call("a", "a")], &vec![0, 0, 0]).is_empty());
    let bodies = vec![entry("a", "{ a(); } ", "")];
    assert!(process_func_call(&bodies, &vec![call("a", "a")]).is_empty());
}

#[test]
fn table_negative_never_draws_the_caller() {
    let entries = vec![entry("f", "f() { g(); }", "c\n"), entry("g", "g() {}", "d\n")];
    let samples = process_func_call_comm_with(&entries, &vec![call("f", "g")], &vec![0, 0, 0]);
    assert_eq!(samples.len(), 1);
    assert!(matches!(&samples[0], DataSample::FuncCallComm(_, _, _, _, true)));
}

#[test]
fn samples_compare_by_contents() {
    assert!(same_sample(&fcc("a", "b", "c", "d", true), &fcc("a", "b", "c", "d", true)));
    assert!(!same_sample(&fcc("a", "b", "c", "d", true), &fcc("a", "b", "c", "d", false)));
}

#[test]
fn body_samples_pair_bodies() {
    assert_eq!(normalize_body("{\n  a();\n}"), Some("{ a(); } ".to_string()));
    let matches = vec![
        vec![cap("name", "f"), cap("func_body", "{ g();\n }")],
        vec![cap("name", "g"), cap("func_body", "{}")],
    ];
    let bodies = find_function_bodies(&matches).unwrap();
    let samples = process_func_call(&bodies, &vec![call("f", "g"), call("g", "x")]);
    assert_eq!(samples, vec![DataSample::FuncCall("{ g(); } ".to_string(), "{} ".to_string())]);
}
