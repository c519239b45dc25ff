use indy_anoncreds::credential::{AttributeValue, Credential};
use indy_anoncreds::encoding::encode_attr;
use indy_anoncreds::error::ErrorKind;
use indy_anoncreds::proof_request::{AttributeInfo, Interval, PredicateInfo, PredicateType, ProofRequest};
use indy_anoncreds::resolver::{get_credentials_for_proof_req, ExtraQuery};
use indy_anoncreds::search::SearchRegistry;
use indy_anoncreds::store::{CredentialRequestMetadata, CredentialStore};
use indy_anoncreds::wql::{Query, Tag};
use indy_anoncreds::{AnoncredsService, LoggerUtils};

const SCHEMA_ID: &str = "NcYxiDXkpYi6ov5FcYDi1e:2:gvt:1.0";
const CRED_DEF_ID: &str = "NcYxiDXkpYi6ov5FcYDi1e:3:CL:1:tag";

fn credential(attrs: &[(&str, &str)]) -> Credential {
    Credential {
        schema_id: SCHEMA_ID.to_string(),
        cred_def_id: CRED_DEF_ID.to_string(),
        rev_reg_id: None,
        cred_rev_id: None,
        values: attrs
            .iter()
            .map(|(n, r)| AttributeValue { name: n.to_string(), raw: r.to_string(), encoded: encode_attr(r) })
            .collect(),
    }
}

fn meta() -> CredentialRequestMetadata {
    CredentialRequestMetadata { master_secret_name: "ms-1".to_string(), nonce: "1".to_string() }
}

fn new_store() -> CredentialStore {
    let mut store = CredentialStore::new();
    store.create_master_secret(Some("ms-1".to_string())).unwrap();
    store
}

fn tag<'a>(tags: &'a [Tag], name: &str) -> Option<&'a str> {
    tags.iter().find(|t| t.name == name).map(|t| t.value.as_str())
}

#[test]
fn service_and_logger_types_exist() {
    let _service = AnoncredsService::new();
    let _logger = LoggerUtils {};
}

#[test]
fn stored_credential_gets_fixed_and_attribute_tags() {
    let mut store = new_store();
    store.store_credential(Some("c1".to_string()), &meta(), credential(&[("First Name", "Alice")]), None).unwrap();
    let tags = &store.credentials[0].tags;
    assert_eq!(tag(tags, "schema_id"), Some(SCHEMA_ID));
    assert_eq!(tag(tags, "schema_issuer_did"), Some("NcYxiDXkpYi6ov5FcYDi1e"));
    assert_eq!(tag(tags, "schema_name"), Some("gvt"));
    assert_eq!(tag(tags, "schema_version"), Some("1.0"));
    assert_eq!(tag(tags, "issuer_did"), Some("NcYxiDXkpYi6ov5FcYDi1e"));
    assert_eq!(tag(tags, "cred_def_id"), Some(CRED_DEF_ID));
    assert_eq!(tag(tags, "rev_reg_id"), Some("None"));
    assert_eq!(tag(tags, "attr::firstname::marker"), Some("1"));
    assert_eq!(tag(tags, "attr::firstname::value"), Some("Alice"));
    assert_eq!(tags.len(), 9);
}

#[test]
fn retroactive_policy_retags_existing_credentials() {
    let mut store = new_store();
    store.store_credential(Some("c1".to_string()), &meta(), credential(&[("ssn", "123"), ("city", "NY")]), None).unwrap();
    assert!(tag(&store.credentials[0].tags, "attr::ssn::value").is_some());
    store.set_credential_attr_tag_policy(&CRED_DEF_ID.to_string(), Some(vec!["City".to_string()]), true).unwrap();
    let tags = &store.credentials[0].tags;
    assert_eq!(tag(tags, "attr::ssn::marker"), None);
    assert_eq!(tag(tags, "attr::ssn::value"), None);
    assert_eq!(tag(tags, "attr::city::marker"), Some("1"));
    assert_eq!(tag(tags, "attr::city::value"), Some("NY"));
    assert_eq!(tag(tags, "cred_def_id"), Some(CRED_DEF_ID));
    assert_eq!(tag(tags, "schema_name"), Some("gvt"));
    assert_eq!(
        store.get_credential_attr_tag_policy(&CRED_DEF_ID.to_string()),
        Ok(Some(vec!["city".to_string()]))
    );
}

#[test]
fn non_retroactive_policy_applies_to_new_credentials_only() {
    let mut store = new_store();
    store.store_credential(Some("c1".to_string()), &meta(), credential(&[("ssn", "123")]), None).unwrap();
    store.set_credential_attr_tag_policy(&CRED_DEF_ID.to_string(), Some(vec![]), false).unwrap();
    store.store_credential(Some("c2".to_string()), &meta(), credential(&[("ssn", "456")]), None).unwrap();
    assert_eq!(tag(&store.credentials[0].tags, "attr::ssn::value"), Some("123"));
    assert_eq!(tag(&store.credentials[1].tags, "attr::ssn::value"), None);
    assert_eq!(store.credentials[1].tags.len(), 7);
    store.set_credential_attr_tag_policy(&CRED_DEF_ID.to_string(), None, false).unwrap();
    assert_eq!(store.get_credential_attr_tag_policy(&CRED_DEF_ID.to_string()), Ok(None));
    assert_eq!(
        store.set_credential_attr_tag_policy(&"bad".to_string(), None, true),
        Err(ErrorKind::InvalidStructure)
    );
}

#[test]
fn names_differing_in_case_and_spaces_tag_alike() {
    let mut store = new_store();
    store.store_credential(Some("a".to_string()), &meta(), credential(&[("First Name", "Al")]), None).unwrap();
    store.store_credential(Some("b".to_string()), &meta(), credential(&[("firstname", "Al")]), None).unwrap();
    let pairs = |i: usize| -> Vec<(String, String)> {
        store.credentials[i].tags.iter().map(|t| (t.name.clone(), t.value.clone())).collect()
    };
    assert_eq!(pairs(0), pairs(1));
}

#[test]
fn store_errors() {
    let mut store = new_store();
    assert_eq!(store.create_master_secret(Some("ms-1".to_string())), Err(ErrorKind::MasterSecretDuplicateName));
    let random = store.create_master_secret(None).unwrap();
    assert_eq!(random.len(), 36);
    for (i, c) in random.chars().enumerate() {
        if [8, 13, 18, 23].contains(&i) {
            assert_eq!(c, '-');
        } else {
            assert!(c.is_ascii_hexdigit() && !c.is_ascii_uppercase());
        }
    }
    assert!(CredentialStore::new().create_master_secret(None).is_ok());
    let bad_meta = CredentialRequestMetadata { master_secret_name: "nope".to_string(), nonce: "1".to_string() };
    assert_eq!(store.store_credential(Some("c".to_string()), &bad_meta, credential(&[]), None), Err(ErrorKind::MasterSecretNotFound));
    let mut bad = credential(&[]);
    bad.schema_id = "not-an-id".to_string();
    assert_eq!(store.store_credential(Some("c".to_string()), &meta(), bad, None), Err(ErrorKind::InvalidStructure));
    let mut wrong_encoding = credential(&[("age", "28")]);
    wrong_encoding.values[0].encoded = "29".to_string();
    assert_eq!(store.store_credential(Some("c".to_string()), &meta(), wrong_encoding, None), Err(ErrorKind::InvalidStructure));
    store.store_credential(Some("c".to_string()), &meta(), credential(&[]), None).unwrap();
    assert_eq!(store.store_credential(Some("c".to_string()), &meta(), credential(&[]), None), Err(ErrorKind::ItemAlreadyExists));
    let generated = store.store_credential(None, &meta(), credential(&[]), None).unwrap();
    assert_eq!(generated.len(), 36);
    assert!(matches!(store.get_credential(&"zzz".to_string()), Err(ErrorKind::ItemNotFound)));
    assert_eq!(store.delete_credential(&"zzz".to_string()), Err(ErrorKind::ItemNotFound));
    assert_eq!(store.delete_credential(&"c".to_string()), Ok(()));
    assert!(matches!(store.get_credential(&"c".to_string()), Err(ErrorKind::ItemNotFound)));
}

#[test]
fn stored_values_round_trip() {
    let mut store = new_store();
    let issued = [("name", "Alice"), ("age", "28"), ("Home Town", "Springfield")];
    store.store_credential(Some("c1".to_string()), &meta(), credential(&issued), None).unwrap();
    let stored = &store.credentials[0].credential.values;
    for (k, (n, r)) in issued.iter().enumerate() {
        assert_eq!(stored[k].name, *n);
        assert_eq!(stored[k].raw, *r);
        assert_eq!(stored[k].encoded, encode_attr(r));
    }
    assert_eq!(stored[1].encoded, "28");
}

#[test]
fn credential_info_carries_raw_values() {
    let mut store = new_store();
    store.store_credential(Some("c1".to_string()), &meta(), credential(&[("name", "Alice"), ("age", "28")]), None).unwrap();
    let info = store.get_credential(&"c1".to_string()).unwrap();
    assert_eq!(info.referent, "c1");
    assert_eq!(info.attrs.len(), 2);
    assert_eq!(info.attrs[1].name, "age");
    assert_eq!(info.attrs[1].raw, "28");
    assert_eq!(info.cred_def_id, CRED_DEF_ID);
    assert_eq!(info.rev_reg_id, None);
}

#[test]
fn wql_operators() {
    let mut store = new_store();
    for (id, city) in [("a", "NY"), ("b", "LA"), ("c", "SF")] {
        store.store_credential(Some(id.to_string()), &meta(), credential(&[("city", city)]), None).unwrap();
    }
    let ids = |q: &Query| -> Vec<String> { store.get_credentials(q).into_iter().map(|i| i.referent).collect() };
    assert_eq!(ids(&Query::All).len(), 3);
    assert_eq!(ids(&Query::Eq("attr::city::value".to_string(), "LA".to_string())), vec!["b"]);
    assert_eq!(ids(&Query::Neq("attr::city::value".to_string(), "LA".to_string())), vec!["a", "c"]);
    assert_eq!(
        ids(&Query::In("attr::city::value".to_string(), vec!["SF".to_string(), "NY".to_string()])),
        vec!["a", "c"]
    );
    let la = Box::new(Query::Eq("attr::city::value".to_string(), "LA".to_string()));
    let sf = Box::new(Query::Eq("attr::city::value".to_string(), "SF".to_string()));
    assert_eq!(ids(&Query::Or(la, sf)), vec!["b", "c"]);
    let la = Box::new(Query::Eq("attr::city::value".to_string(), "LA".to_string()));
    assert_eq!(ids(&Query::Not(la)), vec!["a", "c"]);
    let la = Box::new(Query::Eq("attr::city::value".to_string(), "LA".to_string()));
    let marker = Box::new(Query::Eq("attr::city::marker".to_string(), "1".to_string()));
    assert_eq!(ids(&Query::And(la, marker)), vec!["b"]);
    assert!(ids(&Query::Eq("attr::zip::value".to_string(), "1".to_string())).is_empty());
    let v = |s: &str| ("attr::city::value".to_string(), s.to_string());
    let (n, x) = v("NY");
    assert_eq!(ids(&Query::Gt(n, x)), vec!["c"]);
    let (n, x) = v("NY");
    assert_eq!(ids(&Query::Gte(n, x)), vec!["a", "c"]);
    let (n, x) = v("NY");
    assert_eq!(ids(&Query::Lt(n, x)), vec!["b"]);
    let (n, x) = v("NY");
    assert_eq!(ids(&Query::Lte(n, x)), vec!["a", "b"]);
    let (n, x) = v("N");
    assert_eq!(ids(&Query::Gt(n, x)), vec!["a", "c"]);
}

#[test]
fn paged_search_matches_full_listing() {
    let mut store = new_store();
    for i in 0..5 {
        store.store_credential(Some(format!("c{}", i)), &meta(), credential(&[("n", "1")]), None).unwrap();
    }
    let all: Vec<String> = store.get_credentials(&Query::All).into_iter().map(|i| i.referent).collect();
    let mut reg = SearchRegistry::new();
    let (h, total) = reg.search_credentials(&store, &Query::All).unwrap();
    assert!(h > 0);
    assert_eq!(total, 5);
    let mut seen: Vec<String> = Vec::new();
    loop {
        let batch = reg.fetch_credentials(h, 2).unwrap();
        let n = batch.len();
        seen.extend(batch.into_iter().map(|i| i.referent));
        if n < 2 {
            break;
        }
    }
    assert_eq!(seen, all);
    assert!(reg.fetch_credentials(h, 2).unwrap().is_empty());
    assert_eq!(reg.close_credentials_search(h), Ok(()));
    assert!(matches!(reg.fetch_credentials(h, 2), Err(ErrorKind::InvalidHandle)));
    assert_eq!(reg.close_credentials_search(h), Err(ErrorKind::InvalidHandle));
}

#[test]
fn search_handles_are_distinct_and_can_run_out() {
    let store = new_store();
    let mut reg = SearchRegistry::new();
    let (a, _) = reg.search_credentials(&store, &Query::All).unwrap();
    let (b, _) = reg.search_credentials(&store, &Query::All).unwrap();
    assert_ne!(a, b);
    let c = reg.search_credentials_for_proof_req(&store, &proof_request(), &vec![]).unwrap();
    assert_ne!(c, a);
    assert_ne!(c, b);
    reg.next_handle = i32::MAX;
    assert_eq!(reg.search_credentials(&store, &Query::All), Err(ErrorKind::InvalidState));
}

fn proof_request() -> ProofRequest {
    ProofRequest {
        name: "p".to_string(),
        version: "1.0".to_string(),
        nonce: "1".to_string(),
        requested_attributes: vec![AttributeInfo {
            referent: "attr1".to_string(),
            names: vec!["City".to_string()],
            restrictions: None,
            non_revoked: Some(Interval { from: None, to: Some(10) }),
        }],
        requested_predicates: vec![PredicateInfo {
            referent: "pred1".to_string(),
            name: "age".to_string(),
            p_type: PredicateType::GT,
            p_value: 10,
            restrictions: None,
            non_revoked: None,
        }],
        non_revoked: Some(Interval { from: Some(1), to: None }),
    }
}

#[test]
fn credentials_for_proof_request() {
    let mut store = new_store();
    store.store_credential(Some("a".to_string()), &meta(), credential(&[("city", "NY"), ("age", "20")]), None).unwrap();
    store.store_credential(Some("b".to_string()), &meta(), credential(&[("city", "LA")]), None).unwrap();
    let found = get_credentials_for_proof_req(&store, &proof_request());
    assert_eq!(found.attrs[0].referent, "attr1");
    let attr_ids: Vec<&str> = found.attrs[0].credentials.iter().map(|c| c.cred_info.referent.as_str()).collect();
    assert_eq!(attr_ids, vec!["a", "b"]);
    assert_eq!(found.attrs[0].credentials[0].interval, Some(Interval { from: None, to: Some(10) }));
    let pred_ids: Vec<&str> = found.predicates[0].credentials.iter().map(|c| c.cred_info.referent.as_str()).collect();
    assert_eq!(pred_ids, vec!["a"]);
    assert_eq!(found.predicates[0].credentials[0].interval, Some(Interval { from: Some(1), to: None }));
}

#[test]
fn paged_proof_request_search() {
    let mut store = new_store();
    store.store_credential(Some("a".to_string()), &meta(), credential(&[("city", "NY"), ("age", "20")]), None).unwrap();
    store.store_credential(Some("b".to_string()), &meta(), credential(&[("city", "LA")]), None).unwrap();
    let mut reg = SearchRegistry::new();
    let extra = vec![ExtraQuery {
        referent: "attr1".to_string(),
        query: Query::Eq("attr::city::value".to_string(), "LA".to_string()),
    }];
    let h = reg.search_credentials_for_proof_req(&store, &proof_request(), &extra).unwrap();
    let batch = reg.fetch_credentials_for_proof_req(h, &"attr1".to_string(), 5).unwrap();
    assert_eq!(batch.len(), 1);
    assert_eq!(batch[0].cred_info.referent, "b");
    assert!(reg.fetch_credentials_for_proof_req(h, &"attr1".to_string(), 5).unwrap().is_empty());
    let preds = reg.fetch_credentials_for_proof_req(h, &"pred1".to_string(), 1).unwrap();
    assert_eq!(preds[0].cred_info.referent, "a");
    assert!(matches!(reg.fetch_credentials_for_proof_req(h, &"nope".to_string(), 1), Err(ErrorKind::InvalidStructure)));
    assert_eq!(reg.close_credentials_search_for_proof_req(h), Ok(()));
    assert!(matches!(reg.fetch_credentials_for_proof_req(h, &"attr1".to_string(), 1), Err(ErrorKind::InvalidHandle)));
    let unknown = vec![ExtraQuery { referent: "zzz".to_string(), query: Query::All }];
    assert_eq!(reg.search_credentials_for_proof_req(&store, &proof_request(), &unknown), Err(ErrorKind::InvalidStructure));
}
