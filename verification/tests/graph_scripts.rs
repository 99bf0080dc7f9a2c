use cozo::DbInstance;
use crawl_core::graph::{run_and_forget, run_query};

#[test]
fn a_valid_script_runs_and_reports_success() {
    let db = DbInstance::new("mem", "", "").expect("in-memory engine");
    assert!(run_query(&db, "?[a] <- [[1]]").is_ok());
}

#[test]
fn a_mutating_script_leaves_state_a_later_script_sees() {
    let db = DbInstance::new("mem", "", "").expect("in-memory engine");
    run_query(&db, ":create artists {id: String => name: String}").expect("create");
    run_query(
        &db,
        "?[id, name] <- [['x', 'X']] :put artists {id => name}",
    )
    .expect("put");
    assert!(run_query(&db, "?[id, name] := *artists[id, name]").is_ok());
}

#[test]
fn a_rejected_script_reports_failure() {
    let db = DbInstance::new("mem", "", "").expect("in-memory engine");
    assert!(run_query(&db, "this is not a script (((").is_err());
}

#[test]
fn run_and_forget_swallows_both_outcomes() {
    let db = DbInstance::new("mem", "", "").expect("in-memory engine");
    run_and_forget(&db, ":create tracks {id: String => name: String}");
    run_and_forget(&db, ":create tracks {id: String => name: String}");
    run_and_forget(&db, "still not a script (((");
    assert!(run_query(&db, "?[id, name] := *tracks[id, name]").is_ok());
}
