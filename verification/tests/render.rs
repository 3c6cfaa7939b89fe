//! Build-time policy rendering.

use mint::map::NameMap;
use mint::render::{
    is_template_name, parse_build_vars, render_dir, render_template, FileRead, RenderError,
    TemplateOutcome,
};
use serde_json::Value;

fn vars(pairs: &[(&str, &str)]) -> NameMap<String> {
    let mut m = NameMap::new();
    for (k, v) in pairs {
        m.insert(k.to_string(), v.to_string());
    }
    m
}

fn render(template: &str, pairs: &[(&str, &str)]) -> TemplateOutcome {
    render_template("t.json", template, &vars(pairs)).expect("render ok")
}

#[test]
fn substitutes_build_and_leaves_request_tokens() {
    // The build bucket is fixed now; the caveat/mint tokens are copied
    // through for the request-time pass.
    const TPL: &str = r#"{"Resource":["arn:aws:s3:::{{build.bucket}}/{{caveat.project}}/*"],"Exp":"{{mint.expiry}}"}"#;
    let out = render(TPL, &[("bucket", "elide-prod")]);
    let v: Value = serde_json::from_str(&out.json).expect("valid json");
    assert_eq!(
        v["Resource"][0].as_str().unwrap(),
        "arn:aws:s3:::elide-prod/{{caveat.project}}/*"
    );
    assert_eq!(v["Exp"].as_str().unwrap(), "{{mint.expiry}}");
    assert!(out.unresolved.is_empty());
    assert_eq!(out.referenced, ["bucket".to_string()]);
}

#[test]
fn unknown_namespaces_are_left_untouched() {
    // Only `build` is render's; a misspelled `caveat` or any other
    // namespace passes through for the later seal-time lint to judge.
    const TPL: &str = r#"{"a":"{{caveat.sub}}","b":"{{mint.expiry}}","c":"{{cavaet.typo}}"}"#;
    let out = render(TPL, &[("bucket", "b")]);
    let v: Value = serde_json::from_str(&out.json).expect("valid json");
    assert_eq!(v["a"].as_str().unwrap(), "{{caveat.sub}}");
    assert_eq!(v["b"].as_str().unwrap(), "{{mint.expiry}}");
    assert_eq!(v["c"].as_str().unwrap(), "{{cavaet.typo}}");
    assert!(out.unresolved.is_empty());
}

#[test]
fn missing_build_value_is_unresolved() {
    const TPL: &str = r#"{"r":"{{build.bucket}}/{{build.region}}"}"#;
    let out = render(TPL, &[("bucket", "b")]);
    assert_eq!(out.unresolved, vec!["{{build.region}}".to_string()]);
}

#[test]
fn malformed_build_token_is_unresolved() {
    // A `build`-namespaced token with no key is render's to reject, not
    // pass through — render owns the whole namespace.
    for (tpl, token) in [
        (r#"{"r":"{{build.}}"}"#, "{{build.}}"),
        (r#"{"r":"{{build}}"}"#, "{{build}}"),
        (r#"{"r":"{{ build . x }}"}"#, "{{ build . x }}"),
    ] {
        let out = render(tpl, &[("x", "v")]);
        assert_eq!(out.unresolved, vec![token.to_string()], "{tpl}");
    }
}

#[test]
fn dotted_build_key_resolves() {
    // The key is everything after the first dot, so a dotted key works.
    const TPL: &str = r#"{"r":"{{build.tigris.bucket}}"}"#;
    let out = render(TPL, &[("tigris.bucket", "scoped")]);
    let v: Value = serde_json::from_str(&out.json).expect("valid json");
    assert_eq!(v["r"].as_str().unwrap(), "scoped");
}

#[test]
fn build_value_is_escaped_into_its_slot() {
    // A value full of JSON metacharacters cannot break out of its
    // string slot or inject structure — serde escapes it on the way out.
    const TPL: &str =
        r#"{"Statement":[{"Effect":"Allow","Resource":["arn:{{build.bucket}}"]}]}"#;
    let evil = r#"x","Effect":"Deny"},{"Resource":"*"#;
    let out = render(TPL, &[("bucket", evil)]);
    let v: Value = serde_json::from_str(&out.json).expect("valid json");
    let stmts = v["Statement"].as_array().expect("statement array");
    assert_eq!(stmts.len(), 1, "value injected a statement: {}", out.json);
    assert_eq!(stmts[0]["Effect"], "Allow");
    assert_eq!(
        stmts[0]["Resource"][0].as_str().unwrap(),
        format!("arn:{evil}")
    );
}

#[test]
fn substituted_value_is_not_rescanned() {
    // A build value that itself looks like a token stays literal text;
    // the (differently-valued) real key never bleeds in.
    const TPL: &str = r#"{"r":"{{build.a}}"}"#;
    let out = render(TPL, &[("a", "{{build.b}}"), ("b", "SHOULD_NOT_APPEAR")]);
    let v: Value = serde_json::from_str(&out.json).expect("valid json");
    assert_eq!(v["r"].as_str().unwrap(), "{{build.b}}");
    assert!(!out.json.contains("SHOULD_NOT_APPEAR"));
}

#[test]
fn token_outside_a_string_is_invalid_json() {
    // A build token in array position is not valid JSON — there is no
    // unsafe non-string substitution slot to reach.
    let err = render_template(
        "t.json",
        r#"{"r":[{{build.bucket}}]}"#,
        &vars(&[("bucket", "b")]),
    );
    assert!(matches!(err, Err(RenderError::NotJson { .. })), "{err:?}");
}

#[test]
fn unterminated_token_passes_through() {
    // An unterminated `{{` is not a complete token; render leaves it for
    // the seal-time lint rather than guessing.
    const TPL: &str = r#"{"r":"arn:{{build.bucket"}"#;
    let out = render(TPL, &[("bucket", "b")]);
    let v: Value = serde_json::from_str(&out.json).expect("valid json");
    assert_eq!(v["r"].as_str().unwrap(), "arn:{{build.bucket");
    assert!(out.unresolved.is_empty());
}

#[test]
fn parse_build_vars_splits_on_first_equals() {
    let v = parse_build_vars(&["url=https://x?a=b".to_string(), "empty=".to_string()]).unwrap();
    assert_eq!(v.text("url"), Some("https://x?a=b"));
    assert_eq!(v.text("empty"), Some(""));
}

#[test]
fn parse_build_vars_rejects_bad_and_duplicate() {
    assert!(matches!(
        parse_build_vars(&["noequals".to_string()]),
        Err(RenderError::BadBuildArg { .. })
    ));
    assert!(matches!(
        parse_build_vars(&["=value".to_string()]),
        Err(RenderError::BadBuildArg { .. })
    ));
    assert!(matches!(
        parse_build_vars(&["bucket=a".to_string(), "bucket=b".to_string()]),
        Err(RenderError::DuplicateBuildKey { key }) if key == "bucket"
    ));
}



fn files(entries: &[(&str, &str)]) -> NameMap<FileRead> {
    let mut m = NameMap::new();
    for (n, c) in entries {
        m.insert(n.to_string(), FileRead::Text(c.to_string()));
    }
    m
}

#[test]
fn a_directory_renders_file_by_file() {
    let (outputs, report) = render_dir(
        "roles",
        &files(&[
            ("b.json", r#"{"r":"{{build.bucket}}"}"#),
            ("a.json", r#"{"x":"{{mint.expiry}}"}"#),
        ]),
        &vars(&[("bucket", "prod"), ("unused", "u")]),
    )
    .unwrap();
    assert_eq!(report.rendered, ["a.json", "b.json"]);
    assert_eq!(report.unused_vars, ["unused"]);
    assert_eq!(outputs.len(), 2);
    assert_eq!(outputs[1].name, "b.json");
    let v: Value = serde_json::from_str(&outputs[1].contents).unwrap();
    assert_eq!(v["r"], "prod");
}

#[test]
fn nothing_is_rendered_where_something_is_unresolved() {
    match render_dir(
        "roles",
        &files(&[
            ("a.json", r#"{"x":"{{build.bucket}}"}"#),
            ("b.json", r#"{"x":"{{build.region}}"}"#),
        ]),
        &vars(&[("bucket", "prod")]),
    ) {
        Err(RenderError::Unresolved(list)) => {
            assert!(list.contains("b.json"));
            assert!(list.contains("{{build.region}}"));
            assert!(!list.contains("{{build.bucket}}"));
        }
        _ => panic!("unresolved"),
    }
}

#[test]
fn a_directory_needs_a_readable_template() {
    assert!(matches!(
        render_dir("roles", &NameMap::new(), &vars(&[])),
        Err(RenderError::NoTemplates { dir }) if dir == "roles"
    ));
    let mut m = NameMap::new();
    m.insert("a.json".to_string(), FileRead::Failed("denied".to_string()));
    let err = render_dir("roles", &m, &vars(&[])).unwrap_err();
    assert!(matches!(&err, RenderError::ReadTemplate { file, .. } if file == "roles/a.json"));
    assert_eq!(err.message(), "read template roles/a.json: denied");
}

#[test]
fn templates_are_named_json() {
    assert!(is_template_name("a.json"));
    assert!(!is_template_name("a.toml"));
    assert!(!is_template_name("json"));
}

#[test]
fn render_errors_have_their_messages() {
    assert_eq!(
        RenderError::BadBuildArg { arg: "x".into() }.message(),
        "--build argument \"x\" is not KEY=VALUE (e.g. --build bucket=my-bucket)"
    );
    assert_eq!(
        RenderError::DuplicateBuildKey { key: "k".into() }.message(),
        "--build key \"k\" given more than once"
    );
    assert_eq!(
        RenderError::Unresolved("l".into()).message(),
        "unresolved build token(s) — pass the missing --build values:\nl"
    );
}

#[test]
fn what_is_not_resolved_comes_out_as_it_went_in() {
    let t = "{{ caveat.x }} {{build.missing}} {{build}} {{nope}} {{";
    let json = serde_json::to_string(&Value::String(t.to_string())).unwrap();
    let out = render(&json, &[("other", "v")]);
    assert_eq!(serde_json::from_str::<Value>(&out.json).unwrap(), Value::String(t.to_string()));
    assert!(out.referenced.is_empty());
    assert_eq!(
        out.unresolved,
        ["{{build.missing}}".to_string(), "{{build}}".to_string()]
    );
}

#[test]
fn each_token_stands_for_itself() {
    const TPL: &str =
        r#"{"r":"a{{ build.x }}b{{  caveat.sub }}c{{build.y}}d{{build. z}}e{{other"}"#;
    let out = render(TPL, &[("x", "{{build.y}}\"")]);
    let v: Value = serde_json::from_str(&out.json).unwrap();
    assert_eq!(
        v["r"].as_str().unwrap(),
        "a{{build.y}}\"b{{  caveat.sub }}c{{build.y}}d{{build. z}}e{{other"
    );
    assert_eq!(out.referenced, vec!["x".to_string()]);
    assert_eq!(
        out.unresolved,
        vec!["{{build.y}}".to_string(), "{{build. z}}".to_string()]
    );
}
