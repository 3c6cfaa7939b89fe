//! Request-time policy rendering.

use mint::caveat::Caveat;
use mint::json::{parse_json, Json};
use mint::map::NameMap;
use mint::template::{
    malformed_tokens, render_policy, single_value, template_surface, TemplateError,
};
use serde_json::Value;

fn env() -> NameMap<String> {
    let mut m = NameMap::new();
    m.insert("bucket".to_string(), "demo".to_string());
    m
}

fn doc(text: &str) -> Json {
    parse_json(text.as_bytes()).expect("json")
}

const TPL: &str = r#"{
  "Version": "2012-10-17",
  "Statement": [{
"Effect": "Allow",
"Action": ["s3:GetObject"],
"Resource": ["arn:aws:s3:::{{env.bucket}}/by_id/{{attested.volume}}/*"],
"Condition": {"DateLessThan": {"aws:CurrentTime": "{{mint.expiry}}"}}
  }]
}"#;

/// Discharge caveats carrying an attested `volume`, as the attestation
/// authority would stamp them.
fn dis(volume: &str) -> Vec<Caveat> {
    vec![Caveat::scalar("volume", volume)]
}

/// The declared `attested` contract of TPL's role.
fn vol() -> Vec<String> {
    vec!["volume".to_string()]
}

fn cv(pairs: &[(&str, &str)]) -> Vec<Caveat> {
    pairs.iter().map(|(n, v)| Caveat::scalar(n, v)).collect()
}

#[test]
fn renders_env_attested_scalar_and_mint() {
    let out = render_policy(
        TPL,
        &env(),
        &vol(),
        &dis("VOL1"),
        &[],
        "2026-05-15T14:30:00Z",
        "volume-ro",
    )
    .unwrap();
    assert!(out.contains("demo/by_id/VOL1/*"));
    assert!(out.contains("2026-05-15T14:30:00Z"));
    serde_json::from_str::<Value>(&out).expect("valid json");
}

#[test]
fn caveat_sub_comes_from_the_primary_not_the_discharge() {
    // `{{caveat.sub}}` substitutes the MAC-verified principal —
    // sourced from the primary's caveat chain, never the discharge.
    // A discharge caveat also named `sub` must not bleed into
    // `caveat.*` (the attested context is never flattened in), and in
    // any case `sub` is reserved, so no declared contract can expose
    // it.
    const TPL_SUB: &str = r#"{"Resource":["arn:aws:s3:::b/coordinators/{{caveat.sub}}/*"]}"#;
    let out = render_policy(
        TPL_SUB,
        &env(),
        &[],
        &cv(&[("sub", "FORGED")]),
        &cv(&[("sub", "COORD1"), ("aud", "mint")]),
        "t",
        "coord-rw",
    )
    .unwrap();
    assert!(out.contains("coordinators/COORD1/*"), "got: {out}");
    assert!(
        !out.contains("FORGED"),
        "discharge sub bled into caveat.sub: {out}"
    );
}

#[test]
fn holder_appended_caveat_renders() {
    // The `caveat.*` namespace is name-agnostic: a holder-appended
    // `NAME=VALUE` attenuation renders exactly like the
    // issuer-stamped `sub` — self-attested by documented contract
    // (`docs/design-mint.md` § *Templating*), bound by the role's
    // declared `caveat` list.
    const TPL_TEAM: &str =
        r#"{"Resource":["arn:aws:s3:::b/{{caveat.sub}}/{{caveat.team}}/*"]}"#;
    let out = render_policy(
        TPL_TEAM,
        &env(),
        &[],
        &[],
        &cv(&[("sub", "COORD1"), ("team", "blue")]),
        "t",
        "scratch",
    )
    .unwrap();
    assert!(out.contains("b/COORD1/blue/*"), "got: {out}");
}

#[test]
fn unsatisfiable_caveat_is_omitted_and_fails_closed() {
    // Two disagreeing `sub` occurrences resolve Unsatisfiable; the
    // renderer omits the name rather than picking one, so a
    // `{{caveat.sub}}` over it fails the render closed — no forged
    // value can ride a contradictory appended copy.
    const TPL_SUB: &str = r#"{"Resource":["{{caveat.sub}}"]}"#;
    let err = render_policy(
        TPL_SUB,
        &env(),
        &[],
        &[],
        &cv(&[("sub", "REAL"), ("sub", "FORGED")]),
        "t",
        "coord-rw",
    );
    assert!(
        matches!(err, Err(TemplateError::UnknownField { .. })),
        "{err:?}"
    );
}

#[test]
fn missing_attested_field_fails_closed() {
    // A template referencing attested.volume with no discharge
    // carrying it must fail the render, not mint an unscoped
    // credential.
    let err = render_policy(TPL, &env(), &vol(), &[], &[], "t", "r");
    assert!(
        matches!(err, Err(TemplateError::UnknownField { .. })),
        "{err:?}"
    );
}

#[test]
fn attested_name_outside_declared_contract_fails_closed() {
    // A discharge caveat whose name the role did not declare is never
    // exposed, so a policy referencing it fails closed — a discharge
    // cannot fill a slot the sealed contract doesn't name.
    const TPL_R: &str = r#"{"Resource":["{{attested.region}}"]}"#;
    let err = render_policy(
        TPL_R,
        &env(),
        &vol(),
        &cv(&[("region", "eu-west")]),
        &[],
        "t",
        "volume-ro",
    );
    assert!(
        matches!(err, Err(TemplateError::UnknownField { .. })),
        "{err:?}"
    );
}

#[test]
fn token_outside_a_string_makes_the_template_non_json() {
    // The structural injection defense: a token in array position is
    // not valid JSON, so the template is rejected — there is no
    // unsafe non-string substitution position to reach.
    const TPL_BAD: &str = r#"{"Resource":[{{attested.volume}}]}"#;
    let err = render_policy(TPL_BAD, &env(), &vol(), &dis("V"), &[], "t", "volume-ro");
    assert!(matches!(err, Err(TemplateError::NotJson { .. })), "{err:?}");
}

#[test]
fn metacharacters_in_a_value_cannot_inject_structure() {
    // A value full of JSON metacharacters is escaped into its string
    // slot, never parsed as policy structure.
    const TPL_R: &str =
        r#"{"Statement":[{"Effect":"Allow","Resource":["arn:{{attested.volume}}"]}]}"#;
    let evil = r#"x","Effect":"Deny"},{"Resource":"*"#;
    let out = render_policy(TPL_R, &env(), &vol(), &dis(evil), &[], "t", "volume-ro").unwrap();
    let v: Value = serde_json::from_str(&out).expect("output is valid json");
    let stmts = v["Statement"].as_array().expect("statement array");
    assert_eq!(stmts.len(), 1, "value injected a statement: {out}");
    assert_eq!(stmts[0]["Effect"], "Allow");
    assert_eq!(
        stmts[0]["Resource"][0].as_str().unwrap(),
        format!("arn:{evil}"),
        "value not held intact in its slot: {out}"
    );
}

#[test]
fn malformed_token_fails_closed() {
    // A leftover handlebars-ism and a namespace-less token are both
    // rejected, not rendered as empty.
    for bad in [r#"{"x":"{{#each items}}"}"#, r#"{"x":"{{volume}}"}"#] {
        let err = render_policy(bad, &env(), &vol(), &dis("V"), &[], "t", "r");
        assert!(
            matches!(err, Err(TemplateError::MalformedToken { .. })),
            "{bad}: {err:?}"
        );
    }
}

#[test]
fn render_error_names_the_role() {
    // Operator-facing: the error must point at the role.
    let err = render_policy(
        r#"{"x":"{{attested.volume}}"}"#,
        &env(),
        &vol(),
        &[],
        &[],
        "t",
        "read",
    )
    .expect_err("missing attested.volume must fail closed");
    assert!(
        err.message().contains("\"read\""),
        "message should name the role: {err:?}"
    );
}

#[test]
fn malformed_tokens_flags_shape_errors_not_absent_values() {
    // Shape errors are reported (the seal-time lint); well-formed
    // tokens — even ones whose value is absent until a request — are
    // not, because absence is a render-time data concern, not a
    // template defect.
    let doc = doc(
        r##"{
        "ok": "arn:{{env.bucket}}/{{attested.volume}}",
        "engineism": "{{#each items}}",
        "no_namespace": "{{volume}}",
        "absent_but_well_formed": "{{attested.nonesuch}}",
        "nested": ["{{caveat.sub}}", "{{ bad token }}"]
    }"##,
    );
    let bad = malformed_tokens(&doc);
    assert!(bad.contains(&"{{#each items}}".to_string()), "{bad:?}");
    assert!(bad.contains(&"{{volume}}".to_string()), "{bad:?}");
    assert!(bad.contains(&"{{ bad token }}".to_string()), "{bad:?}");
    assert!(
        !bad.iter().any(|t| t.contains("env.bucket")
            || t.contains("attested.volume")
            || t.contains("attested.nonesuch")
            || t.contains("caveat.sub")),
        "well-formed token reported as malformed: {bad:?}"
    );
}

#[test]
fn malformed_tokens_flags_unterminated() {
    let doc = doc(r#"{ "x": "arn:{{attested.volume" }"#);
    assert_eq!(
        malformed_tokens(&doc),
        vec!["{{attested.volume".to_string()]
    );
}

#[test]
fn surface_groups_refs_by_provenance() {
    // TPL references one of each non-primary namespace.
    let s = template_surface(TPL);
    assert_eq!(s.env, vec!["env.bucket"]);
    assert_eq!(s.mint, vec!["mint.expiry"]);
    assert_eq!(s.attested, vec!["attested.volume"]);
    assert!(s.caveat.is_empty());

    // The primary MAC-verified namespace is scanned too.
    let cav = template_surface("{{caveat.sub}}");
    assert_eq!(cav.caveat, vec!["caveat.sub"]);

    // Tokens that aren't `namespace.key` scalar paths contribute
    // nothing — an unknown namespace, whitespace, a bare name.
    let noise = template_surface("{{../env.region}} {{ a b }}{{volume}}");
    assert!(
        noise.env.is_empty()
            && noise.mint.is_empty()
            && noise.attested.is_empty()
            && noise.caveat.is_empty()
    );
}

/// Property-based tests for the renderer's injection-proofness. The


/// Whatever a value holds, the output is valid JSON of the same shape, and
/// the value stands in its slot, unscanned.
#[test]
fn value_lands_intact_and_output_is_valid_json() {
    for value in [
        "",
        "\"",
        "\\",
        "\u{0}\u{1f}\n",
        "{{env.bucket}}",
        "{{",
        "}}{{",
        "\u{1f980}\"}]",
    ] {
        const TPL_R: &str = r#"{"Resource":["a-{{attested.volume}}-z"],"n":1.50,"b":[true,null]}"#;
        let out = render_policy(TPL_R, &env(), &vol(), &dis(value), &[], "t", "r").unwrap();
        let v: Value = serde_json::from_str(&out).expect("valid json");
        assert_eq!(
            v["Resource"][0].as_str().unwrap(),
            format!("a-{value}-z")
        );
        assert_eq!(v.as_object().unwrap().len(), 3);
        assert_eq!(v["b"].as_array().unwrap().len(), 2);
    }
}

#[test]
fn every_namespace_value_lands_in_its_own_slot() {
    const TPL_3: &str = r#"{"e":"{{env.bucket}}","a":"{{attested.volume}}","c":"{{caveat.sub}}","m":"{{mint.expiry}}"}"#;
    let out = render_policy(
        TPL_3,
        &env(),
        &vol(),
        &dis("A"),
        &cv(&[("sub", "C")]),
        "T",
        "r",
    )
    .unwrap();
    let v: Value = serde_json::from_str(&out).unwrap();
    assert_eq!(v["e"], "demo");
    assert_eq!(v["a"], "A");
    assert_eq!(v["c"], "C");
    assert_eq!(v["m"], "T");
}

#[test]
fn single_values_are_agreed_values() {
    assert_eq!(single_value(&cv(&[("a", "1"), ("a", "1")]), "a"), Some("1".into()));
    assert_eq!(single_value(&cv(&[("a", "1"), ("a", "2")]), "a"), None);
    assert_eq!(single_value(&[], "a"), None);
}

#[test]
fn the_lint_and_the_renderer_agree() {
    let texts = [
        "{{env.bucket}}",
        "{{ env.bucket }}-{{mint.expiry}}",
        "plain }} text",
        "{{bucket}}",
        "{{env.}}",
        "{{build.x}}",
        "{{#each x}}",
        "a {{env.bucket",
    ];
    for t in texts {
        let json = serde_json::to_string(&Value::String(t.to_string())).unwrap();
        let faulted = !malformed_tokens(&doc(&json)).is_empty();
        let rendered = render_policy(&json, &env(), &[], &[], &[], "t", "r");
        let refused = matches!(rendered, Err(TemplateError::MalformedToken { .. }));
        assert_eq!(faulted, refused, "{t}");
    }
}
