use xdiff::{
    diff_text, filter_json_val, normalize_response, parse_key_val, ExtraArgs, JsonVal, KeyVal,
    RequestProfile, ResponseProfile, XdiffError,
};

fn profile(
    params: Option<JsonVal>,
    headers: Vec<(String, String)>,
    body: Option<JsonVal>,
) -> RequestProfile {
    RequestProfile::new(
        "GET".to_string(),
        "http://x/a".to_string(),
        params,
        headers,
        body,
    )
}

fn s(x: &str) -> String {
    x.to_string()
}

fn no_overrides() -> ExtraArgs {
    ExtraArgs::new()
}

#[test]
fn parse_key_val_query() {
    let kv = parse_key_val("q=1").unwrap();
    let args = ExtraArgs::from(vec![kv]);
    assert_eq!(args.query, vec![(s("q"), s("1"))]);
    assert!(args.headers.is_empty());
    assert!(args.body.is_empty());
}

#[test]
fn parse_key_val_header_and_body() {
    let kv1 = parse_key_val("%X-Token=abc").unwrap();
    let kv2 = parse_key_val("@name=alice").unwrap();
    let args = ExtraArgs::from(vec![kv1, kv2]);
    assert_eq!(args.headers, vec![(s("X-Token"), s("abc"))]);
    assert_eq!(args.body, vec![(s("name"), s("alice"))]);
}

#[test]
fn parse_key_val_trims_whitespace() {
    let kv = parse_key_val(" q = 1 ").unwrap();
    let args = ExtraArgs::from(vec![kv]);
    assert_eq!(args.query, vec![(s("q"), s("1"))]);
}

#[test]
fn parse_key_val_rejects_bad_prefix_and_missing_eq() {
    assert!(parse_key_val("1x=y").is_err());
    assert!(parse_key_val("noequalsign").is_err());
    assert!(parse_key_val("=v").is_err());
}

#[test]
fn generate_defaults_content_type() {
    let p = profile(Some(JsonVal::Obj(vec![])), vec![], Some(JsonVal::Obj(vec![])));
    let (headers, _, body) = p.generate(&no_overrides()).unwrap();
    assert_eq!(headers, vec![(s("content-type"), s("application/json"))]);
    assert_eq!(body, "{}");
}

#[test]
fn generate_keeps_explicit_content_type_case_insensitively() {
    let p = profile(
        None,
        vec![(s("CONTENT-TYPE"), s("application/json; charset=utf-8"))],
        None,
    );
    let (headers, _, _) = p.generate(&no_overrides()).unwrap();
    assert_eq!(headers.len(), 1);
    assert_eq!(headers[0].0, "CONTENT-TYPE");
}

#[test]
fn generate_query_override_scenario() {
    let p = profile(Some(JsonVal::Obj(vec![])), vec![], Some(JsonVal::Obj(vec![])));
    let kv = parse_key_val("q=1").unwrap();
    let args = ExtraArgs::from(vec![kv]);
    let (_, query, body) = p.generate(&args).unwrap();
    assert_eq!(xdiff::to_json_min(&query), "{\"q\":1}");
    assert_eq!(body, "{}");
}

#[test]
fn generate_body_override_last_write_wins() {
    let p = profile(None, vec![], Some(JsonVal::Obj(vec![])));
    let mut args = ExtraArgs::new();
    args.body = vec![(s("k"), s("1")), (s("k"), s("2"))];
    let (_, _, body) = p.generate(&args).unwrap();
    assert_eq!(body, "{\"k\":2}");
}

#[test]
fn generate_header_override_replaces_in_place() {
    let p = profile(
        None,
        vec![(s("x-a"), s("1")), (s("x-b"), s("2"))],
        None,
    );
    let mut args = ExtraArgs::new();
    args.headers = vec![(s("x-b"), s("3"))];
    let (headers, _, _) = p.generate(&args).unwrap();
    assert_eq!(headers[0], (s("x-a"), s("1")));
    assert_eq!(headers[1], (s("x-b"), s("3")));
    assert_eq!(headers[2].0, "content-type");
}

#[test]
fn generate_scalar_coercion() {
    let p = profile(None, vec![], Some(JsonVal::Obj(vec![])));
    let mut args = ExtraArgs::new();
    args.body = vec![
        (s("b"), s("true")),
        (s("n"), s("null")),
        (s("t"), s("abc")),
        (s("f"), s("1.5e3")),
    ];
    let (_, _, body) = p.generate(&args).unwrap();
    assert_eq!(body, "{\"b\":true,\"n\":null,\"t\":\"abc\",\"f\":1.5e3}");
}

#[test]
fn generate_rejects_text_plain() {
    let p = profile(None, vec![(s("content-type"), s("text/plain"))], None);
    let err = p.generate(&no_overrides()).unwrap_err();
    assert!(matches!(err, XdiffError::UnsupportedContentType(_)));
}

#[test]
fn generate_rejects_invalid_header_override() {
    let p = profile(None, vec![], None);
    let mut args = ExtraArgs::new();
    args.headers = vec![(s("bad name"), s("v"))];
    let err = p.generate(&args).unwrap_err();
    assert!(matches!(err, XdiffError::OverrideParse(_)));
}

#[test]
fn generate_form_encodes_body() {
    let p = profile(
        None,
        vec![(s("content-type"), s("application/x-www-form-urlencoded"))],
        Some(JsonVal::Obj(vec![(s("a"), JsonVal::Str(s("b c/d")))])),
    );
    let (_, _, body) = p.generate(&no_overrides()).unwrap();
    assert_eq!(body, "a=b+c%2Fd");
}

#[test]
fn valiadte_rejects_non_object_params() {
    let p = profile(Some(JsonVal::Str(s("nope"))), vec![], None);
    match p.valiadte().unwrap_err() {
        XdiffError::Validation(m) => assert_eq!(m, "params must be an object"),
        _ => panic!("expected a validation error"),
    }
    let pb = profile(None, vec![], Some(JsonVal::Num(s("3"))));
    match pb.valiadte().unwrap_err() {
        XdiffError::Validation(m) => assert_eq!(m, "body must be an object"),
        _ => panic!("expected a validation error"),
    }
    let ok = profile(Some(JsonVal::Obj(vec![])), vec![], None);
    assert!(ok.valiadte().is_ok());
}

#[test]
fn filter_json_val_strips_top_level_keys() {
    let v = JsonVal::Obj(vec![
        (s("id"), JsonVal::Num(s("1"))),
        (s("secret"), JsonVal::Str(s("x"))),
    ]);
    let out = filter_json_val(v, &vec![s("secret")]);
    assert_eq!(out, "{\n  \"id\": 1\n}");
}

#[test]
fn filter_json_val_keeps_nested_structure() {
    let v = JsonVal::Obj(vec![
        (
            s("outer"),
            JsonVal::Obj(vec![(s("secret"), JsonVal::Num(s("2")))]),
        ),
        (s("secret"), JsonVal::Num(s("3"))),
    ]);
    let out = filter_json_val(v, &vec![s("secret")]);
    assert_eq!(out, "{\n  \"outer\": {\n    \"secret\": 2\n  }\n}");
}

#[test]
fn normalize_strips_headers_by_value_and_body_keys() {
    let headers = vec![
        (s("x-a"), s("secret-token")),
        (s("x-b"), s("keep")),
        (s("content-type"), s("application/json")),
    ];
    let rules = ResponseProfile::new(vec![s("secret-token")], vec![s("secret")]);
    let out = normalize_response(
        "HTTP/1.1",
        "200 OK",
        &headers,
        "{\"id\":1,\"secret\":\"x\"}",
        &rules,
    )
    .unwrap();
    assert_eq!(
        out,
        "HTTP/1.1 200 OK\nx-b: \"keep\"\ncontent-type: \"application/json\"\n\n{\n  \"id\": 1\n}\n"
    );
}

#[test]
fn normalize_passes_non_json_body_through() {
    let headers = vec![(s("content-type"), s("text/plain"))];
    let rules = ResponseProfile::new(vec![], vec![]);
    let out = normalize_response("HTTP/1.1", "200 OK", &headers, "hello", &rules).unwrap();
    assert_eq!(
        out,
        "HTTP/1.1 200 OK\ncontent-type: \"text/plain\"\n\nhello\n"
    );
}

#[test]
fn normalize_rejects_bad_json_body() {
    let headers = vec![(s("content-type"), s("application/json"))];
    let rules = ResponseProfile::new(vec![], vec![]);
    let err = normalize_response("HTTP/1.1", "200 OK", &headers, "{not json", &rules).unwrap_err();
    assert!(matches!(err, XdiffError::BodyParse(_)));
}

#[test]
fn normalize_passes_non_object_json_through_pretty() {
    let headers = vec![(s("content-type"), s("application/json"))];
    let rules = ResponseProfile::new(vec![], vec![s("secret")]);
    let out = normalize_response("HTTP/1.1", "200 OK", &headers, "[1,2]", &rules).unwrap();
    assert_eq!(
        out,
        "HTTP/1.1 200 OK\ncontent-type: \"application/json\"\n\n[\n  1,\n  2\n]\n"
    );
}

#[test]
fn diff_identical_texts_is_empty() {
    let out = diff_text("a\nb\nc\n", "a\nb\nc\n").unwrap();
    assert_eq!(out, "");
    for line in out.lines() {
        assert!(!line.contains('+') && !line.contains('-'));
    }
}

#[test]
fn diff_single_change_scenario() {
    let out = diff_text("a\nb\nc\n", "a\nB\nc\n").unwrap();
    assert_eq!(
        out,
        "1   1    | a\n2        |-\u{1b}[4mb\u{1b}[24m\n    2    |+\u{1b}[4mB\u{1b}[24m\n3   3    | c\n"
    );
    assert!(!out.contains("----"));
}

fn strip_marks(s: &str) -> String {
    s.replace("\u{1b}[4m", "").replace("\u{1b}[24m", "")
}

#[test]
fn diff_marks_exactly_the_differing_span() {
    let out = diff_text("hello world\n", "hellX world\n").unwrap();
    assert!(out.contains("|-hell\u{1b}[4mo\u{1b}[24m world\n"));
    assert!(out.contains("|+hell\u{1b}[4mX\u{1b}[24m world\n"));
    assert_eq!(
        strip_marks(&out),
        "1        |-hello world\n    1    |+hellX world\n"
    );
}

#[test]
fn diff_context_lines_carry_no_marks() {
    let out = diff_text("a\nb\nc\n", "a\nB\nc\n").unwrap();
    for line in out.lines() {
        if line.contains("| ") && (line.ends_with("a") || line.ends_with("c")) {
            assert!(!line.contains('\u{1b}'));
        }
    }
}

#[test]
fn diff_two_hunks_have_separator() {
    let mut t1 = String::new();
    let mut t2 = String::new();
    for i in 0..20 {
        t1.push_str(&format!("line{}\n", i));
        if i == 2 || i == 17 {
            t2.push_str(&format!("changed{}\n", i));
        } else {
            t2.push_str(&format!("line{}\n", i));
        }
    }
    let out = diff_text(&t1, &t2).unwrap();
    let sep: String = "-".repeat(80);
    assert!(out.contains(&sep));
    let plain = strip_marks(&out);
    assert!(plain.contains("-line2\n"));
    assert!(plain.contains("+changed17\n"));
}

#[test]
fn diff_handles_missing_trailing_newline() {
    let out = diff_text("a\nb", "a\nc").unwrap();
    let plain = strip_marks(&out);
    assert!(plain.contains("|-b\n"));
    assert!(plain.contains("|+c\n"));
}

#[test]
fn config_lookup_and_validation() {
    let ok = xdiff::DiffProfile::new(
        profile(Some(JsonVal::Obj(vec![])), vec![], None),
        profile(None, vec![], Some(JsonVal::Obj(vec![]))),
        ResponseProfile::new(vec![], vec![]),
    );
    let cfg = xdiff::DiffConfig::new(vec![(s("rust"), ok)]);
    assert!(cfg.get_profile("rust").is_some());
    assert!(cfg.get_profile("missing").is_none());
    assert!(cfg.validate().is_ok());

    let bad = xdiff::DiffProfile::new(
        profile(Some(JsonVal::Num(s("1"))), vec![], None),
        profile(None, vec![], None),
        ResponseProfile::new(vec![], vec![]),
    );
    let cfg2 = xdiff::DiffConfig::new(vec![(s("staging"), bad)]);
    match cfg2.validate().unwrap_err() {
        XdiffError::Validation(m) => assert_eq!(
            m,
            "failed to validate profile: staging: req1: params must be an object"
        ),
        _ => panic!("expected a validation error"),
    }
}

#[test]
fn json_min_escapes_strings() {
    let v = JsonVal::Obj(vec![(s("k"), JsonVal::Str(s("a\"b\\c\nd")))]);
    assert_eq!(xdiff::to_json_min(&v), "{\"k\":\"a\\\"b\\\\c\\nd\"}");
}
