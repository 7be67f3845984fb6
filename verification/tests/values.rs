use onejudge::json::{parse, Json, ObjectWriter};
use onejudge::number::{greater, nan};
use onejudge::paths::{resolve, resolve_all};
use onejudge::schema::pin_frame;
use onejudge::text::{
    between, contains, decimal_of, head, join, parse_i32, parse_u32, same_ignoring_case,
    signed_decimal_of, split, split_once, trim,
};
use onejudge::{EvidenceContext, Usage};

#[test]
fn numbers_compare_as_binary64_does() {
    let values = [
        f64::NEG_INFINITY,
        -2.5,
        -1.0,
        -f64::MIN_POSITIVE,
        -0.0,
        0.0,
        f64::MIN_POSITIVE,
        0.1,
        1.0,
        2.5,
        f64::MAX,
        f64::INFINITY,
        f64::NAN,
        -f64::NAN,
    ];
    for a in values {
        assert_eq!(nan(a.to_bits()), a.is_nan(), "{a}");
        for b in values {
            assert_eq!(greater(a.to_bits(), b.to_bits()), a > b, "{a} {b}");
        }
    }
}

#[test]
fn usage_adds_up_and_never_wraps() {
    let some = |n: u64| Usage {
        input_tokens: Some(n),
        ..Usage::none()
    };
    let mut total = Usage::none();
    assert!(total.is_empty());
    total.add(&some(u64::MAX - 1));
    total.add(&some(5));
    assert_eq!(total.input_tokens, Some(u64::MAX));
    assert_eq!(total.output_tokens, None);
    assert!(Usage::none().reported().is_none());
    let mut costs = Usage::none();
    costs.add(&Usage {
        costs: vec![0.5f64.to_bits()],
        ..Usage::none()
    });
    costs.add_reported(&None);
    costs.add_reported(&Some(Usage {
        costs: vec![0.25f64.to_bits()],
        ..Usage::none()
    }));
    let sum: f64 = costs.costs.iter().map(|bits| f64::from_bits(*bits)).sum();
    assert_eq!(sum, 0.75);
}

#[test]
fn a_document_is_written_as_serde_writes_it() {
    let source = r#"{"a":[1,-2,2.5,true,null],"b":"q\"\\\n\u0001é","c":{"d":""}}"#;
    let json = parse(source).unwrap();
    let value: serde_json::Value = serde_json::from_str(source).unwrap();
    let written: serde_json::Value = serde_json::from_str(&json.write()).unwrap();
    assert_eq!(written, value);
    assert_eq!(json.write(), value.to_string());
    assert_eq!(json.get("c").unwrap().get("d").unwrap().as_str(), Some(""));
    assert_eq!(json.get("a").unwrap().as_array().unwrap()[0].as_u64(), Some(1));
    assert!(json.get("z").is_none());
    assert!(parse("{").is_err());
    // The last of two members of one name counts, as in serde's map.
    assert_eq!(
        parse(r#"{"a":1,"a":2}"#).unwrap().get("a").unwrap().as_u64(),
        Some(2)
    );
}

#[test]
fn an_object_is_written_in_the_order_it_was_put_together() {
    let mut object = ObjectWriter::new();
    object.put_str("z", "1");
    object.put("a", Json::count(20));
    object.put("raw", Json::Written("[1,2]".into()));
    assert_eq!(object.done().write(), r#"{"z":"1","a":20,"raw":[1,2]}"#);
}

#[test]
fn a_frame_names_its_operation_first() {
    let pinned = pin_frame(
        parse(
            r#"{"properties":{"messages":{}},"required":["messages"],"oneOf":[{"properties":{"kind":{}}},7],"title":"t"}"#,
        )
        .unwrap(),
        "judge",
    );
    let value: serde_json::Value = serde_json::from_str(&pinned.write()).unwrap();
    assert_eq!(value["properties"]["op"]["const"], "judge");
    assert_eq!(value["required"][0], "op");
    assert_eq!(value["required"][1], "messages");
    assert_eq!(value["oneOf"][0]["properties"]["op"]["const"], "judge");
    assert_eq!(value["oneOf"][0]["required"][0], "op");
    assert_eq!(value["oneOf"][1], 7);
    assert_eq!(value["title"], "t");
    let text = pinned.write();
    assert!(text.find("\"op\"").unwrap() < text.find("\"messages\"").unwrap());
}

#[test]
fn paths_are_seen_from_the_worktree() {
    assert_eq!(resolve("/repo", ".plans"), "/repo/.plans");
    assert_eq!(resolve("/repo/", ".plans"), "/repo/.plans");
    assert_eq!(resolve("/repo", "/abs"), "/abs");
    assert_eq!(resolve("", "rel"), "rel");
    assert_eq!(
        resolve_all("/repo", &["a".to_string(), "/b".to_string()]),
        ["/repo/a", "/b"]
    );
    let named = vec!["a".to_string()];
    let evidence = EvidenceContext {
        worktree: None,
        history_files: &[],
        artifacts: &named,
    };
    assert_eq!(evidence.resolved_artifacts(), ["a"]);
}

#[test]
fn texts_are_taken_apart_and_put_together() {
    assert_eq!(trim("\u{2003} a b \n"), "a b");
    assert_eq!(join(&["a".to_string(), "b".to_string()], "; "), "a; b");
    assert_eq!(split("a,,b", ','), ["a", "", "b"]);
    assert_eq!(split("", ','), [""]);
    assert_eq!(split_once("a:b:c", ":"), Some(("a", "b:c")));
    assert_eq!(split_once("abc", ":"), None);
    assert_eq!(between("x--y--z", "--"), Some("y"));
    assert_eq!(head("héllo", 2), "hé");
    assert!(contains("abc", "") && contains("abc", "bc") && !contains("abc", "ca"));
    assert!(same_ignoring_case("OneHarness", "oneharness"));
    assert!(!same_ignoring_case("É", "é"));
    assert_eq!(decimal_of(u64::MAX), u64::MAX.to_string());
    assert_eq!(signed_decimal_of(i64::MIN), i64::MIN.to_string());
    assert_eq!(parse_u32("+7"), Some(7));
    assert_eq!(parse_u32("4294967296"), None);
    assert_eq!(parse_u32(""), None);
    assert_eq!(parse_u32("-1"), None);
    for raw in ["-2147483648", "2147483647", "2147483648", "+5", "-", "", "1x", "-0"] {
        assert_eq!(parse_i32(raw), raw.parse::<i32>().ok(), "{raw}");
    }
}

#[test]
fn usage_adds_up_the_same_however_it_is_grouped() {
    let some = |n: Option<u64>, cost: f64| Usage {
        input_tokens: n,
        output_tokens: Some(1),
        costs: vec![cost.to_bits()],
        ..Usage::none()
    };
    let parts = [some(Some(u64::MAX), 0.5), some(None, 0.25), some(Some(7), 1.0)];
    let mut left = Usage::none();
    left.add(&parts[0]);
    left.add(&parts[1]);
    left.add(&parts[2]);
    let mut tail = Usage::none();
    tail.add(&parts[1]);
    tail.add(&parts[2]);
    let mut right = Usage::none();
    right.add(&parts[0]);
    right.add(&tail);
    assert_eq!(left, right);
    assert_eq!(left.input_tokens, Some(u64::MAX));
    assert_eq!(left.output_tokens, Some(3));
}

#[test]
fn a_resolved_path_stays_where_it_is() {
    let once = resolve("/repo", "a/b");
    assert_eq!(resolve("/repo", &once), once);
    assert_eq!(resolve("/elsewhere", &once), once);
}
