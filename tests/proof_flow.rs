use indy_anoncreds::credential::{AttributeValue, Credential};
use indy_anoncreds::encoding::encode_attr;
use indy_anoncreds::error::ErrorKind;
use indy_anoncreds::presentation::{Proof, RevRegEntry};
use indy_anoncreds::proof_request::{AttributeInfo, Interval, PredicateInfo, PredicateType, ProofRequest};
use indy_anoncreds::prover::{create_proof, RequestedAttribute, RequestedCredentials, RequestedPredicate};
use indy_anoncreds::store::{CredentialOffer, CredentialStore};
use indy_anoncreds::verification::verify_proof;
use indy_anoncreds::wql::Query;

const SCHEMA_ID: &str = "NcYxiDXkpYi6ov5FcYDi1e:2:gvt:1.0";
const CRED_DEF_ID: &str = "NcYxiDXkpYi6ov5FcYDi1e:3:CL:1:tag";
const OTHER_CRED_DEF_ID: &str = "VsKV7grR1BUE29mG2Fm2kX:3:CL:1:tag";

fn credential(cred_def_id: &str, attrs: &[(&str, &str)]) -> Credential {
    Credential {
        schema_id: SCHEMA_ID.to_string(),
        cred_def_id: cred_def_id.to_string(),
        rev_reg_id: None,
        cred_rev_id: None,
        values: attrs
            .iter()
            .map(|(n, r)| AttributeValue { name: n.to_string(), raw: r.to_string(), encoded: encode_attr(r) })
            .collect(),
    }
}

/// A store holding link secret "ms-1" and an issued credential "cred-1".
fn store_with_alice() -> CredentialStore {
    let mut store = CredentialStore::new();
    assert_eq!(store.create_master_secret(Some("ms-1".to_string())), Ok("ms-1".to_string()));
    let offer = CredentialOffer {
        schema_id: SCHEMA_ID.to_string(),
        cred_def_id: CRED_DEF_ID.to_string(),
        nonce: "123".to_string(),
    };
    let (req, meta) = store
        .create_credential_request(
            &"did:sov:prover".to_string(),
            &offer,
            &CRED_DEF_ID.to_string(),
            &"ms-1".to_string(),
            &"456".to_string(),
        )
        .unwrap();
    assert_eq!(req.cred_def_id, CRED_DEF_ID);
    assert_eq!(meta.master_secret_name, "ms-1");
    assert_eq!(meta.nonce, "456");
    let cred = credential(CRED_DEF_ID, &[("name", "Alice"), ("age", "28")]);
    assert_eq!(store.store_credential(Some("cred-1".to_string()), &meta, cred, None), Ok("cred-1".to_string()));
    store
}

fn request(min_age: i32, restrictions: Option<Query>) -> ProofRequest {
    ProofRequest {
        name: "proof".to_string(),
        version: "1.0".to_string(),
        nonce: "123432421212".to_string(),
        requested_attributes: vec![AttributeInfo {
            referent: "attr1_referent".to_string(),
            names: vec!["name".to_string()],
            restrictions,
            non_revoked: None,
        }],
        requested_predicates: vec![PredicateInfo {
            referent: "predicate1_referent".to_string(),
            name: "age".to_string(),
            p_type: PredicateType::GE,
            p_value: min_age,
            restrictions: None,
            non_revoked: None,
        }],
        non_revoked: None,
    }
}

fn selection() -> RequestedCredentials {
    RequestedCredentials {
        self_attested_attributes: vec![],
        requested_attributes: vec![RequestedAttribute {
            referent: "attr1_referent".to_string(),
            cred_id: "cred-1".to_string(),
            timestamp: None,
            revealed: true,
        }],
        requested_predicates: vec![RequestedPredicate {
            referent: "predicate1_referent".to_string(),
            cred_id: "cred-1".to_string(),
            timestamp: None,
        }],
    }
}

fn prove(store: &CredentialStore, req: &ProofRequest) -> Result<Proof, ErrorKind> {
    create_proof(
        store,
        req,
        &selection(),
        &"ms-1".to_string(),
        &vec![SCHEMA_ID.to_string()],
        &vec![CRED_DEF_ID.to_string()],
        &vec![],
    )
}

fn verify(req: &ProofRequest, proof: &Proof) -> Result<bool, ErrorKind> {
    verify_proof(req, proof, &vec![SCHEMA_ID.to_string()], &vec![CRED_DEF_ID.to_string()], &vec![], &vec![])
}

#[test]
fn happy_path_proof_verifies() {
    let store = store_with_alice();
    let req = request(18, None);
    let proof = prove(&store, &req).unwrap();
    assert_eq!(proof.proofs.len(), 1);
    assert_eq!(proof.identifiers[0].cred_def_id, CRED_DEF_ID);
    let revealed = &proof.requested_proof.revealed_attrs[0];
    assert_eq!(revealed.values[0].raw, "Alice");
    assert_eq!(revealed.values[0].encoded, encode_attr("Alice"));
    assert_eq!(verify(&req, &proof), Ok(true));
}

#[test]
fn unsatisfiable_predicate_is_rejected() {
    let store = store_with_alice();
    let req = request(30, None);
    assert!(matches!(prove(&store, &req), Err(ErrorKind::ProofRejected)));
}

#[test]
fn tampered_revealed_value_fails_verification() {
    let store = store_with_alice();
    let req = request(18, None);
    let mut proof = prove(&store, &req).unwrap();
    proof.requested_proof.revealed_attrs[0].values[0].raw = "Bob".to_string();
    assert_eq!(verify(&req, &proof), Ok(false));
}

#[test]
fn tampered_disclosed_encoding_fails_verification() {
    let store = store_with_alice();
    let req = request(18, None);
    let mut proof = prove(&store, &req).unwrap();
    proof.proofs[0].revealed[0].encoded = encode_attr("Bob");
    assert_eq!(verify(&req, &proof), Ok(false));
}

#[test]
fn restriction_on_other_cred_def_fails_verification() {
    let store = store_with_alice();
    let restriction = Query::Eq("cred_def_id".to_string(), OTHER_CRED_DEF_ID.to_string());
    let req = request(18, Some(restriction));
    let proof = prove(&store, &req).unwrap();
    assert_eq!(proof.identifiers[0].cred_def_id, CRED_DEF_ID);
    assert_eq!(verify(&req, &proof), Ok(false));
    let ok_req = request(18, Some(Query::Eq("cred_def_id".to_string(), CRED_DEF_ID.to_string())));
    assert_eq!(verify(&ok_req, &prove(&store, &ok_req).unwrap()), Ok(true));
}

#[test]
fn restriction_on_attribute_value_uses_normalized_name() {
    let store = store_with_alice();
    let restriction = Query::Eq("attr::name::value".to_string(), "Alice".to_string());
    let mut req = request(18, Some(restriction));
    req.requested_attributes[0].names = vec!["Name ".to_string()];
    let proof = prove(&store, &req).unwrap();
    assert_eq!(verify(&req, &proof), Ok(true));
}

#[test]
fn verification_is_deterministic() {
    let store = store_with_alice();
    let req = request(18, None);
    let first = prove(&store, &req).unwrap();
    let second = prove(&store, &req).unwrap();
    assert_eq!(verify(&req, &first), verify(&req, &second));
}

#[test]
fn missing_answer_is_a_structural_error() {
    let store = store_with_alice();
    let req = request(18, None);
    let mut proof = prove(&store, &req).unwrap();
    proof.requested_proof.predicates.clear();
    assert_eq!(verify(&req, &proof), Err(ErrorKind::InvalidStructure));
}

#[test]
fn unknown_schema_is_a_structural_error() {
    let store = store_with_alice();
    let req = request(18, None);
    let proof = prove(&store, &req).unwrap();
    let r = verify_proof(&req, &proof, &vec![], &vec![CRED_DEF_ID.to_string()], &vec![], &vec![]);
    assert_eq!(r, Err(ErrorKind::InvalidStructure));
}

#[test]
fn proof_needs_link_secret_and_credential() {
    let store = store_with_alice();
    let req = request(18, None);
    let r = create_proof(&store, &req, &selection(), &"ms-2".to_string(), &vec![SCHEMA_ID.to_string()], &vec![CRED_DEF_ID.to_string()], &vec![]);
    assert!(matches!(r, Err(ErrorKind::MasterSecretNotFound)));
    let mut sel = selection();
    sel.requested_attributes[0].cred_id = "cred-9".to_string();
    let r = create_proof(&store, &req, &sel, &"ms-1".to_string(), &vec![SCHEMA_ID.to_string()], &vec![CRED_DEF_ID.to_string()], &vec![]);
    assert!(matches!(r, Err(ErrorKind::ItemNotFound)));
}

#[test]
fn selection_missing_a_referent_is_rejected() {
    let store = store_with_alice();
    let req = request(18, None);
    let mut sel = selection();
    sel.requested_predicates.clear();
    let r = create_proof(&store, &req, &sel, &"ms-1".to_string(), &vec![SCHEMA_ID.to_string()], &vec![CRED_DEF_ID.to_string()], &vec![]);
    assert!(matches!(r, Err(ErrorKind::InvalidStructure)));
}

#[test]
fn revocable_credential_needs_known_revocation_state() {
    let mut store = CredentialStore::new();
    store.create_master_secret(Some("ms-1".to_string())).unwrap();
    let meta = indy_anoncreds::store::CredentialRequestMetadata { master_secret_name: "ms-1".to_string(), nonce: "1".to_string() };
    let rev_reg = "NcYxiDXkpYi6ov5FcYDi1e:4:NcYxiDXkpYi6ov5FcYDi1e:3:CL:1:tag:CL_ACCUM:TAG_1".to_string();
    let mut cred = credential(CRED_DEF_ID, &[("name", "Alice"), ("age", "28")]);
    cred.rev_reg_id = Some(rev_reg.clone());
    cred.cred_rev_id = Some("1".to_string());
    let again = credential(CRED_DEF_ID, &[("name", "Alice")]);
    let mut again_revocable = again;
    again_revocable.rev_reg_id = Some(rev_reg.clone());
    assert_eq!(store.store_credential(Some("c0".to_string()), &meta, again_revocable, None), Err(ErrorKind::RevocationRegistryNotFound));
    store.store_credential(Some("cred-1".to_string()), &meta, cred, Some(rev_reg.clone())).unwrap();
    let mut req = request(18, None);
    req.non_revoked = Some(Interval { from: Some(100), to: Some(200) });
    let mut sel = selection();
    sel.requested_attributes[0].timestamp = Some(150);
    sel.requested_predicates[0].timestamp = Some(150);
    let schemas = vec![SCHEMA_ID.to_string()];
    let defs = vec![CRED_DEF_ID.to_string()];
    let r = create_proof(&store, &req, &sel, &"ms-1".to_string(), &schemas, &defs, &vec![]);
    assert!(matches!(r, Err(ErrorKind::InvalidUserRevocId)));
    let states = vec![RevRegEntry { rev_reg_id: rev_reg.clone(), timestamp: 150 }];
    let proof = create_proof(&store, &req, &sel, &"ms-1".to_string(), &schemas, &defs, &states).unwrap();
    assert_eq!(proof.identifiers[0].timestamp, Some(150));
    assert_eq!(verify_proof(&req, &proof, &schemas, &defs, &vec![rev_reg.clone()], &states), Ok(true));
    let mut no_ts = selection();
    no_ts.requested_predicates[0].timestamp = Some(150);
    let r = create_proof(&store, &req, &no_ts, &"ms-1".to_string(), &schemas, &defs, &states);
    assert!(matches!(r, Err(ErrorKind::InvalidStructure)));
    let mut bare = create_proof(&store, &req, &sel, &"ms-1".to_string(), &schemas, &defs, &states).unwrap();
    bare.identifiers[0].timestamp = None;
    assert_eq!(verify_proof(&req, &bare, &schemas, &defs, &vec![], &states), Err(ErrorKind::InvalidStructure));
    let late = Interval { from: Some(300), to: Some(400) };
    req.non_revoked = Some(late);
    assert_eq!(verify_proof(&req, &proof, &schemas, &defs, &vec![rev_reg.clone()], &states), Ok(false));
}

#[test]
fn sub_proofs_are_ordered_by_credential_id() {
    let mut store = store_with_alice();
    let meta = indy_anoncreds::store::CredentialRequestMetadata { master_secret_name: "ms-1".to_string(), nonce: "1".to_string() };
    store.store_credential(Some("a-cred".to_string()), &meta, credential(CRED_DEF_ID, &[("age", "40")]), None).unwrap();
    let req = request(18, None);
    let mut sel = selection();
    sel.requested_predicates[0].cred_id = "a-cred".to_string();
    let proof = create_proof(&store, &req, &sel, &"ms-1".to_string(), &vec![SCHEMA_ID.to_string()], &vec![CRED_DEF_ID.to_string()], &vec![]).unwrap();
    assert_eq!(proof.proofs.len(), 2);
    assert_eq!(proof.requested_proof.predicates[0].sub_proof_index, 0);
    assert_eq!(proof.requested_proof.revealed_attrs[0].sub_proof_index, 1);
    assert_eq!(proof.proofs[0].predicates.len(), 1);
    assert_eq!(proof.proofs[1].revealed.len(), 1);
    assert_eq!(verify(&req, &proof), Ok(true));
}

#[test]
fn self_attested_and_unrevealed_answers() {
    let store = store_with_alice();
    let mut req = request(18, None);
    req.requested_attributes.push(AttributeInfo {
        referent: "phone".to_string(),
        names: vec!["phone".to_string()],
        restrictions: None,
        non_revoked: None,
    });
    let mut sel = selection();
    sel.requested_attributes[0].revealed = false;
    sel.self_attested_attributes.push(indy_anoncreds::prover::SelfAttestedValue {
        referent: "phone".to_string(),
        value: "123".to_string(),
    });
    let proof = create_proof(&store, &req, &sel, &"ms-1".to_string(), &vec![SCHEMA_ID.to_string()], &vec![CRED_DEF_ID.to_string()], &vec![]).unwrap();
    assert!(proof.requested_proof.revealed_attrs.is_empty());
    assert_eq!(proof.requested_proof.unrevealed_attrs[0].referent, "attr1_referent");
    assert_eq!(proof.requested_proof.self_attested_attrs[0].value, "123");
    assert_eq!(verify(&req, &proof), Ok(true));
    req.requested_attributes[1].restrictions = Some(Query::All);
    assert_eq!(verify(&req, &proof), Ok(false));
}
