use indy_anoncreds::ids::{cred_def_issuer_did, schema_id_parts, to_unqualified, to_unqualified_entity};
use indy_anoncreds::text::normalize_attr_name;

#[test]
fn normalize_lowercases_and_strips_whitespace() {
    assert_eq!(normalize_attr_name(" First Name\t"), "firstname");
    assert_eq!(normalize_attr_name("AGE"), "age");
}

#[test]
fn unqualify_schema_id() {
    assert_eq!(
        to_unqualified("schema:sov:did:sov:NcYxiDXkpYi6ov5FcYDi1e:2:gvt:1.0"),
        "NcYxiDXkpYi6ov5FcYDi1e:2:gvt:1.0"
    );
    assert_eq!(to_unqualified("did:sov:NcYxiDXkpYi6ov5FcYDi1e"), "NcYxiDXkpYi6ov5FcYDi1e");
    assert_eq!(to_unqualified("NcYxiDXkpYi6ov5FcYDi1e:2:gvt:1.0"), "NcYxiDXkpYi6ov5FcYDi1e:2:gvt:1.0");
    assert_eq!(
        to_unqualified("creddef:sov:did:sov:NcYxiDXkpYi6ov5FcYDi1e:3:CL:schema:sov:did:sov:NcYxiDXkpYi6ov5FcYDi1e:2:gvt:1.0:tag"),
        "NcYxiDXkpYi6ov5FcYDi1e:3:CL:NcYxiDXkpYi6ov5FcYDi1e:2:gvt:1.0:tag"
    );
    assert_eq!(
        to_unqualified("revreg:sov:did:sov:NcYxiDXkpYi6ov5FcYDi1e:4:creddef:sov:did:sov:NcYxiDXkpYi6ov5FcYDi1e:3:CL:1:tag:CL_ACCUM:TAG_1"),
        "NcYxiDXkpYi6ov5FcYDi1e:4:NcYxiDXkpYi6ov5FcYDi1e:3:CL:1:tag:CL_ACCUM:TAG_1"
    );
    assert_eq!(to_unqualified(""), "");
}

#[test]
fn qualified_schema_and_cred_def_parts() {
    assert_eq!(
        schema_id_parts("schema:sov:did:sov:NcYxiDXkpYi6ov5FcYDi1e:2:gvt:1.0"),
        Some(("did:sov:NcYxiDXkpYi6ov5FcYDi1e".to_string(), "gvt".to_string(), "1.0".to_string()))
    );
    assert_eq!(
        cred_def_issuer_did("creddef:sov:did:sov:NcYxiDXkpYi6ov5FcYDi1e:3:CL:1:tag"),
        Some("did:sov:NcYxiDXkpYi6ov5FcYDi1e".to_string())
    );
    assert_eq!(cred_def_issuer_did("NcYxiDXkpYi6ov5FcYDi1e:2:gvt:1.0"), None);
}

#[test]
fn schema_and_issuer_parts() {
    assert_eq!(
        schema_id_parts("NcYxiDXkpYi6ov5FcYDi1e:2:gvt:1.0"),
        Some(("NcYxiDXkpYi6ov5FcYDi1e".to_string(), "gvt".to_string(), "1.0".to_string()))
    );
    assert_eq!(schema_id_parts("garbage"), None);
    assert_eq!(
        cred_def_issuer_did("NcYxiDXkpYi6ov5FcYDi1e:3:CL:1:tag"),
        Some("NcYxiDXkpYi6ov5FcYDi1e".to_string())
    );
}

#[test]
fn unqualify_json_entity() {
    let entity = r#"{"schema_id":"schema:sov:did:sov:NcYxiDXkpYi6ov5FcYDi1e:2:gvt:1.0","cred_def_id":"creddef:sov:did:sov:NcYxiDXkpYi6ov5FcYDi1e:3:CL:1:tag","other":"keep \"me\"","n":5}"#;
    let expected = r#"{"schema_id":"NcYxiDXkpYi6ov5FcYDi1e:2:gvt:1.0","cred_def_id":"NcYxiDXkpYi6ov5FcYDi1e:3:CL:1:tag","other":"keep \"me\"","n":5}"#;
    assert_eq!(to_unqualified_entity(entity), expected);
    let plain = r#"{"schema_id":"NcYxiDXkpYi6ov5FcYDi1e:2:gvt:1.0"}"#;
    assert_eq!(to_unqualified_entity(plain), plain);
    assert_eq!(to_unqualified_entity("did:sov:NcYxiDXkpYi6ov5FcYDi1e"), "NcYxiDXkpYi6ov5FcYDi1e");
    assert_eq!(to_unqualified_entity(r#"{"a":"did:sov:x"#), r#"{"a":"did:sov:x"#);
    let mixed = r#"{"note": "did:sov:abc", "did:sov:key": 1, "issuer_did" : "did:sov:abc", "names": ["did:sov:q"]}"#;
    let kept = r#"{"note": "did:sov:abc", "did:sov:key": 1, "issuer_did" : "abc", "names": ["did:sov:q"]}"#;
    assert_eq!(to_unqualified_entity(mixed), kept);
    let nested = r#"{"restrictions":{"cred_def_id":"creddef:sov:did:sov:NcYxiDXkpYi6ov5FcYDi1e:3:CL:1:tag"}}"#;
    assert_eq!(to_unqualified_entity(nested), r#"{"restrictions":{"cred_def_id":"NcYxiDXkpYi6ov5FcYDi1e:3:CL:1:tag"}}"#);
}
