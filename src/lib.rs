//! Prover and verifier logic of an anonymous-credential protocol: identifier
//! handling, credential tagging under attribute tag policies, a query language
//! over tags, paged searches, proof-request resolution and the structural
//! checks of proof construction and verification.
use vstd::prelude::*;

pub mod credential;
pub mod encoding;
pub mod error;
pub mod ids;
pub mod nonce;
pub mod presentation;
pub mod proof_request;
pub mod prover;
pub mod resolver;
pub mod search;
pub mod store;
pub mod tags;
pub mod text;
pub mod verification;
pub mod wql;

verus! {

/// Prover-side logic; stateless, all state lives in the credential store.
pub struct Prover {}

/// Verifier-side logic; stateless.
pub struct Verifier {}

/// The two roles of the protocol, bundled.
pub struct AnoncredsService {
    pub prover: Prover,
    pub verifier: Verifier,
}

impl AnoncredsService {
    pub fn new() -> (r: AnoncredsService)
        ensures
            r.prover == (Prover {}),
            r.verifier == (Verifier {}),
    {
        AnoncredsService { prover: Prover {}, verifier: Verifier {} }
    }
}

/// Marker type for the process-wide logger; its initialisation lives with the
/// application, which owns process setup.
pub struct LoggerUtils {}

} // verus!
