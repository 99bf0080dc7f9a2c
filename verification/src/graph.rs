//! Thin adapter over the embedded graph database's script runner.
//!
//! A side experiment keeps the crawled graph in an embedded Datalog
//! store and walks it with scripts. The engine itself is an outside
//! collaborator; these functions only run one script and fold the
//! engine's answer into a plain success-or-failure result, so callers
//! never touch the engine's own row and error types.

use vstd::prelude::*;

verus! {

#[verifier::external_type_specification]
#[verifier::external_body]
pub struct ExDbInstance(cozo::DbInstance);

/// A graph script that the engine rejected or failed to run.
#[derive(Debug, Clone, Copy, PartialEq, Eq, Structural)]
pub struct GraphQueryError;

/// Relies on cozo::DbInstance::run_script: runs one script mutably with
/// no parameters, against whatever state the database holds, and says
/// whether the engine reported success. Nothing more is assumed of the
/// outcome: it depends on the database state.
#[verifier::external_body]
fn run_script_mut(db: &cozo::DbInstance, script: &str) -> (ok: bool) {
    let params = std::collections::BTreeMap::new();
    db.run_script(script, params, cozo::ScriptMutability::Mutable).is_ok()
}

/// Runs one mutating script, discarding its rows: `Ok` exactly when the
/// engine accepted and executed it.
pub fn run_query(db: &cozo::DbInstance, query: &str) -> (r: Result<(), GraphQueryError>) {
    if run_script_mut(db, query) {
        Ok(())
    } else {
        Err(GraphQueryError)
    }
}

/// Runs one mutating script and swallows any failure: for best-effort
/// statements whose failure only means the work was already done.
pub fn run_and_forget(db: &cozo::DbInstance, query: &str) {
    let _ = run_script_mut(db, query);
}

} // verus!
