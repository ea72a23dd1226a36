use sparser::calls::{resolve_callees, Capture};
use sparser::grouping::{group_records, RecordGrouper};
use sparser::pairs::{synthesize_caller_pairs, synthesize_group};
use sparser::query::{call_site_captures, ExtractError, TargetLanguage};
use sparser::record::{last_dotted_segment, JsonSample, FUNC_CALL_ID_MASK};
use sparser::samples::{generate_call_samples, mask_tokens, process_grouped_samples, to_call_sample, SampleError};
use sparser::split::split_array;

fn rec(name: &str, repo: &str, code: &str) -> JsonSample {
    JsonSample {
        func_name: name.to_string(),
        repo: repo.to_string(),
        original_string: code.to_string(),
        code: code.to_string(),
        code_tokens: code.split_whitespace().map(|t| t.to_string()).collect(),
        docstring: format!("doc of {}", name),
        docstring_tokens: vec!["doc".to_string(), name.to_string()],
    }
}

fn call(name: &str) -> Capture {
    Capture { label: "function".to_string(), text: name.to_string() }
}

fn names(pairs: &[(JsonSample, JsonSample, bool)]) -> Vec<(String, String, bool)> {
    pairs.iter().map(|(a, b, l)| (a.func_name.clone(), b.func_name.clone(), *l)).collect()
}

#[test]
fn scenario_a_one_edge_no_negative() {
    let group = vec![rec("f1", "R", "f2()"), rec("f2", "R", "noop()")];
    let groups = group_records(&group);
    assert_eq!(groups.len(), 1);
    let caps = vec![vec![call("f2")], vec![call("noop")]];
    let pairs = synthesize_group(&group, &caps);
    assert_eq!(names(&pairs), vec![("f1".to_string(), "f2".to_string(), true)]);
    let sample = to_call_sample(&pairs[0].0, &pairs[0].1, true).unwrap();
    assert_eq!(sample.caller_code, format!("{}()", FUNC_CALL_ID_MASK));
    assert!(!sample.caller_code.contains("f2"));
    assert_eq!(sample.callee_code, "noop()");
    assert!(sample.label);
}

#[test]
fn scenario_a_parsed_python() {
    let mut caller = rec("f1", "R", "f2()");
    caller.code_tokens = vec!["f2".to_string(), "(".to_string(), ")".to_string()];
    let group = vec![caller, rec("f2", "R", "noop()")];
    let pairs = process_grouped_samples(&group, TargetLanguage::Python).unwrap();
    assert_eq!(names(&pairs), vec![("f1".to_string(), "f2".to_string(), true)]);
    let samples = generate_call_samples(&group, TargetLanguage::Python).unwrap();
    assert_eq!(samples.len(), 1);
    assert_eq!(samples[0].caller_code, "<masked_func_id>()");
    assert_eq!(
        samples[0].caller_code_tokens,
        vec!["<masked_func_id>".to_string(), "(".to_string(), ")".to_string()]
    );
}

#[test]
fn scenario_b_one_negative() {
    let group = vec![rec("f1", "R", "f2()"), rec("f2", "R", "x = 1"), rec("f3", "R", "y = 2")];
    let pairs = process_grouped_samples(&group, TargetLanguage::Python).unwrap();
    assert_eq!(
        names(&pairs),
        vec![
            ("f1".to_string(), "f2".to_string(), true),
            ("f1".to_string(), "f3".to_string(), false),
        ]
    );
    let samples = generate_call_samples(&group, TargetLanguage::Python).unwrap();
    assert_eq!(samples[1].caller_code, "f2()");
    assert!(!samples[1].label);
    assert_eq!(samples[1].callee_code, "y = 2");
}

#[test]
fn scenario_c_repo_change_splits_groups() {
    let records = vec![rec("f1", "R", "f2()"), rec("f2", "S", "f1()")];
    let groups = group_records(&records);
    assert_eq!(groups.len(), 2);
    for g in &groups {
        let pairs = process_grouped_samples(g, TargetLanguage::Python).unwrap();
        assert!(pairs.is_empty());
    }
}

#[test]
fn scenario_d_unknown_callee_gives_no_edge() {
    let group = vec![rec("f1", "R", "missing()"), rec("f2", "R", "x = 1")];
    let pairs = process_grouped_samples(&group, TargetLanguage::Python).unwrap();
    assert!(pairs.is_empty());
}

#[test]
fn positives_equal_distinct_edges() {
    let group = vec![rec("a", "R", ""), rec("b", "R", ""), rec("c", "R", ""), rec("d", "R", "")];
    let caps = vec![
        vec![call("b"), call("b"), call("c"), call("a")],
        vec![call("c")],
        vec![],
        vec![call("zzz")],
    ];
    let pairs = synthesize_group(&group, &caps);
    let positives = pairs.iter().filter(|p| p.2).count();
    assert_eq!(positives, 3);
    assert_eq!(
        names(&pairs),
        vec![
            ("a".to_string(), "b".to_string(), true),
            ("a".to_string(), "c".to_string(), true),
            ("a".to_string(), "d".to_string(), false),
            ("b".to_string(), "c".to_string(), true),
            ("b".to_string(), "a".to_string(), false),
        ]
    );
}

#[test]
fn negatives_follow_name_order() {
    let group = vec![rec("f1", "R", "f2()"), rec("f2", "R", ""), rec("f4", "R", ""), rec("f3", "R", "")];
    let pairs = process_grouped_samples(&group, TargetLanguage::Python).unwrap();
    assert_eq!(
        names(&pairs),
        vec![
            ("f1".to_string(), "f2".to_string(), true),
            ("f1".to_string(), "f3".to_string(), false),
        ]
    );
}

#[test]
fn negatives_bounded_by_edges() {
    let group = vec![rec("a", "R", ""), rec("b", "R", ""), rec("c", "R", ""), rec("d", "R", "")];
    let caps = vec![vec![call("b")]];
    let pairs = synthesize_caller_pairs(&group, 0, &caps[0]);
    let negatives = pairs.iter().filter(|p| !p.2).count();
    assert_eq!(negatives, 1);
    assert_eq!(names(&pairs)[1], ("a".to_string(), "c".to_string(), false));
}

#[test]
fn self_calls_give_no_pair() {
    let group = vec![rec("a", "R", "a()"), rec("b", "R", "")];
    let pairs = process_grouped_samples(&group, TargetLanguage::Python).unwrap();
    assert!(pairs.is_empty());
    for p in synthesize_group(&group, &vec![vec![call("a"), call("b")], vec![call("b")]]) {
        assert_ne!(p.0.func_name, p.1.func_name);
    }
}

#[test]
fn duplicate_name_last_record_wins() {
    let group = vec![rec("a", "R", "first"), rec("b", "R", ""), rec("a", "R", "second")];
    let caps = vec![vec![call("b")], vec![call("a")], vec![]];
    let pairs = synthesize_group(&group, &caps);
    assert_eq!(pairs.len(), 1);
    assert_eq!(pairs[0].1.code, "second");
}

#[test]
fn method_labels_count_and_other_labels_do_not() {
    let group = vec![rec("a", "R", ""), rec("b", "R", ""), rec("c", "R", "")];
    let caps = vec![
        Capture { label: "function.method".to_string(), text: "b".to_string() },
        Capture { label: "name".to_string(), text: "c".to_string() },
    ];
    assert_eq!(resolve_callees(&group, 0, &caps), vec!["b".to_string()]);
}

#[test]
fn grouping_is_repeatable_and_contiguous() {
    let records = vec![
        rec("a", "R", ""),
        rec("b", "R", ""),
        rec("c", "S", ""),
        rec("d", "R", ""),
    ];
    let first = group_records(&records);
    let second = group_records(&records);
    assert_eq!(first, second);
    let sizes: Vec<usize> = first.iter().map(|g| g.len()).collect();
    assert_eq!(sizes, vec![2, 1, 1]);
}

#[test]
fn grouper_streams_groups() {
    let mut grouper = RecordGrouper::new();
    assert!(grouper.push(rec("a", "R", "")).is_none());
    assert!(grouper.push(rec("b", "R", "")).is_none());
    let closed = grouper.push(rec("c", "S", "")).unwrap();
    assert_eq!(closed.len(), 2);
    let last = grouper.finish().unwrap();
    assert_eq!(last[0].func_name, "c");
    assert!(RecordGrouper::new().finish().is_none());
}

#[test]
fn normalizes_dotted_names() {
    assert_eq!(last_dotted_segment("pkg.mod.func"), "func");
    assert_eq!(last_dotted_segment("func"), "func");
    assert_eq!(last_dotted_segment("trailing."), "");
    let mut r = rec("Cls.method", "R", "");
    r.normalize_name();
    assert_eq!(r.func_name, "method");
}

#[test]
fn masks_whole_tokens_only() {
    let tokens = vec!["f2".to_string(), "(".to_string(), "f2x".to_string()];
    let masked = mask_tokens(&tokens, &"f2".to_string());
    assert_eq!(masked, vec![FUNC_CALL_ID_MASK.to_string(), "(".to_string(), "f2x".to_string()]);
}

#[test]
fn masks_code_at_word_boundaries() {
    let caller = rec("f1", "R", "f2(f2x) + f2");
    let callee = rec("f2", "R", "");
    let s = to_call_sample(&caller, &callee, true).unwrap();
    assert_eq!(s.caller_code, "<masked_func_id>(f2x) + <masked_func_id>");
    let n = to_call_sample(&caller, &callee, false).unwrap();
    assert_eq!(n.caller_code, "f2(f2x) + f2");
    assert_eq!(n.caller_code_tokens, caller.code_tokens);
}

#[test]
fn invalid_callee_pattern_is_reported() {
    let caller = rec("f1", "R", "x");
    let callee = rec("(", "R", "");
    assert!(to_call_sample(&caller, &callee, true).is_none());
}

#[test]
fn php_has_no_grammar() {
    assert_eq!(call_site_captures(TargetLanguage::Php, "f()"), Err(ExtractError::UnsupportedLanguage));
    let group = vec![rec("a", "R", "")];
    assert_eq!(
        generate_call_samples(&group, TargetLanguage::Php),
        Err(SampleError::Extract(ExtractError::UnsupportedLanguage))
    );
}

#[test]
fn languages_by_name() {
    assert_eq!(TargetLanguage::from_str("go"), Ok(TargetLanguage::Go));
    assert_eq!(TargetLanguage::from_str("ruby"), Ok(TargetLanguage::Ruby));
    assert_eq!(TargetLanguage::from_str("cobol"), Err("Unknown language: cobol".to_string()));
}

#[test]
fn captures_of_go_and_javascript() {
    let caps = call_site_captures(TargetLanguage::Go, "package p\nfunc a() { b(); x.c() }").unwrap();
    let texts: Vec<String> = caps.iter().map(|c| c.text.clone()).collect();
    assert!(texts.contains(&"b".to_string()));
    assert!(texts.contains(&"c".to_string()));
    let caps = call_site_captures(TargetLanguage::Javascript, "function a() { b(); }").unwrap();
    assert!(caps.iter().any(|c| c.label == "function" && c.text == "b"));
}

#[test]
fn split_rounds_first_part_up() {
    let v: Vec<u32> = (0..10).collect();
    let (a, b) = split_array(&v, 8, 2);
    assert_eq!(a, (0..8).collect::<Vec<u32>>());
    assert_eq!(b, vec![8, 9]);
    let (c, d) = split_array(&b, 1, 1);
    assert_eq!((c, d), (vec![8], vec![9]));
    let w: Vec<u32> = (0..5).collect();
    let (e, f) = split_array(&w, 1, 2);
    assert_eq!((e.len(), f.len()), (2, 3));
    let (g, h) = split_array(&w, 0, 0);
    assert_eq!((g.len(), h.len()), (0, 5));
    let empty: Vec<u32> = Vec::new();
    assert_eq!(split_array(&empty, 8, 2), (vec![], vec![]));
}
