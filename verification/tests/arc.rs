use osprey_codegen::arc::ArcLedger;
use osprey_codegen::names::NameSet;

/// Own a fresh value `%name` in slot `slot` and `let`-bind it to `name` in
/// lexical scope `scope`.
fn bind_owner(ledger: &mut ArcLedger, name: &str, scope: usize, slot: &str) {
    let operand = format!("%{name}");
    ledger.own(&operand, slot);
    assert!(ledger.bind_owned(name, &operand, Some(scope)));
}

#[test]
fn last_use_only_drains_the_current_lexical_scope() {
    let mut ledger = ArcLedger::new();
    bind_owner(&mut ledger, "outer", 0, "%arc.s0");
    bind_owner(&mut ledger, "inner", 1, "%arc.s1");

    let released = ledger.release_dead(&NameSet::new(), Some(1));

    assert_eq!(ledger.owner_names(), ["outer"]);
    assert_eq!(released, ["%arc.s1"]);
}

#[test]
fn sibling_scope_cannot_drain_another_arms_owner() {
    let mut ledger = ArcLedger::new();
    bind_owner(&mut ledger, "arm_owner", 1, "%arc.s0");

    let released = ledger.release_dead(&NameSet::new(), Some(2));

    assert_eq!(ledger.owner_names(), ["arm_owner"]);
    assert!(released.is_empty());
}

#[test]
fn a_live_name_survives_its_scope_check() {
    let mut ledger = ArcLedger::new();
    bind_owner(&mut ledger, "a", 0, "%arc.s0");
    bind_owner(&mut ledger, "b", 0, "%arc.s1");
    bind_owner(&mut ledger, "c", 0, "%arc.s2");
    let mut live = NameSet::new();
    live.insert("b");
    let released = ledger.release_dead(&live, Some(0));
    assert_eq!(ledger.owner_names(), ["b"]);
    assert_eq!(released, ["%arc.s2", "%arc.s0"]);
}

#[test]
fn a_region_releases_its_owners_newest_first() {
    let mut ledger = ArcLedger::new();
    ledger.push_frame();
    ledger.own("%a", "%arc.s0");
    ledger.own("%b", "%arc.s1");
    assert_eq!(ledger.drop_frame_inline(), ["%arc.s1", "%arc.s0"]);
    assert_eq!(ledger.frame_mark(), 2);
    assert_eq!(ledger.pop_frame(), ["%arc.s1", "%arc.s0"]);
    assert_eq!(ledger.frame_mark(), 0);
    assert!(ledger.pop_frame().is_empty());
    // With no region open, nothing is owned and nothing released.
    ledger.own("%c", "%arc.s2");
    assert_eq!(ledger.frame_mark(), 0);
    assert!(ledger.pop_frame().is_empty());
}

#[test]
fn a_let_moves_its_owner_out_of_the_statement_region() {
    let mut ledger = ArcLedger::new();
    ledger.push_frame();
    ledger.own("%v", "%arc.s0");
    assert!(ledger.bind_owned("v", "%v", Some(0)));
    // The statement region closes without releasing the bound value.
    assert!(ledger.pop_frame().is_empty());
    assert_eq!(ledger.owner_names(), ["v"]);
    // A borrow is not owned: the caller retains it and records it.
    ledger.push_frame();
    assert!(!ledger.bind_owned("w", "%w", Some(0)));
    ledger.bind_retained("w", "%w", Some(0), "%arc.s1");
    assert!(ledger.pop_frame().is_empty());
    assert_eq!(ledger.owner_names(), ["v", "w"]);
}

#[test]
fn a_cell_owner_outlives_its_defining_statement() {
    let mut ledger = ArcLedger::new();
    ledger.push_frame();
    ledger.own_beyond_stmt("%cell", "%arc.s0");
    assert!(ledger.pop_frame().is_empty());
    assert_eq!(ledger.pop_frame(), ["%arc.s0"]);
}

#[test]
fn a_fresh_pure_owner_is_retired_at_its_unwrap() {
    let mut ledger = ArcLedger::new();
    ledger.own("%r", "%arc.s0");
    // Not yet proved pure: not retirable.
    assert_eq!(ledger.consume_fresh("%r"), None);
    ledger.mark_pure_scalar("%other");
    assert_eq!(ledger.consume_fresh("%r"), None);
    ledger.mark_pure_scalar("%r");
    assert_eq!(ledger.consume_fresh("%q"), None);
    assert_eq!(ledger.consume_fresh("%r").as_deref(), Some("%arc.s0"));
    assert_eq!(ledger.frame_mark(), 0);
}

#[test]
fn an_owner_from_before_a_branch_is_never_retired_inside_it() {
    let mut ledger = ArcLedger::new();
    ledger.own("%r", "%arc.s0");
    ledger.mark_pure_scalar("%r");
    let mark = ledger.frame_mark();
    ledger.open_conditional(mark);
    assert_eq!(ledger.conditional_floor(), 1);
    assert_eq!(ledger.consume_fresh("%r"), None);
    // One produced inside the branch is.
    ledger.own("%s", "%arc.s1");
    ledger.mark_pure_scalar("%s");
    assert_eq!(ledger.consume_fresh("%s").as_deref(), Some("%arc.s1"));
    ledger.close_conditional();
    assert_eq!(ledger.conditional_floor(), 0);
    assert_eq!(ledger.consume_fresh("%r").as_deref(), Some("%arc.s0"));
    // A nested frame inside a conditional is wholly contained by it.
    ledger.open_conditional(0);
    ledger.push_frame();
    assert_eq!(ledger.conditional_floor(), 0);
}

#[test]
fn a_store_moves_an_unnamed_owner_instead_of_dup() {
    let mut ledger = ArcLedger::new();
    ledger.own("%x", "%arc.s0");
    ledger.own("%x", "%arc.s1");
    assert_eq!(ledger.consume_into_store("%x").as_deref(), Some("%arc.s1"));
    assert_eq!(ledger.consume_into_store("%y"), None);
    assert!(ledger.bind_owned("x", "%x", Some(0)));
    // A named owner may be read again: never moved into a store.
    assert_eq!(ledger.consume_into_store("%x"), None);
}

#[test]
fn a_phi_of_arm_owned_values_becomes_one_owner() {
    let mut ledger = ArcLedger::new();
    ledger.own("%scrutinee", "%arc.s0");
    let mark = ledger.frame_mark();
    ledger.own("%a", "%arc.s1");
    ledger.mark_pure_scalar("%a");
    ledger.own("%b", "%arc.s2");
    let incoming = vec!["%a".to_string(), "%b".to_string()];
    assert!(!ledger.incoming_all_pure(&incoming, mark));
    assert_eq!(ledger.move_phi_owners(&incoming, mark), Some(false));
    // Only the scrutinee is left to release.
    assert_eq!(ledger.drop_frame_inline(), ["%arc.s0"]);
    // A value that predates the arms is never consumed through the phi.
    let incoming = vec!["%scrutinee".to_string()];
    assert_eq!(ledger.move_phi_owners(&incoming, mark), None);
    assert_eq!(ledger.drop_frame_inline(), ["%arc.s0"]);
}

#[test]
fn a_pure_phi_stays_pure() {
    let mut ledger = ArcLedger::new();
    ledger.own("%a", "%arc.s0");
    ledger.mark_pure_scalar("%a");
    ledger.own("%b", "%arc.s1");
    ledger.mark_pure_scalar("%b");
    let incoming = vec!["%a".to_string(), "%b".to_string()];
    assert!(ledger.incoming_all_pure(&incoming, 0));
    assert_eq!(ledger.move_phi_owners(&incoming, 0), Some(true));
    assert!(ledger.drop_frame_inline().is_empty());
}

#[test]
fn the_epilogue_moves_an_owned_return_and_releases_the_rest() {
    let mut ledger = ArcLedger::new();
    ledger.own("%a", "%arc.s0");
    ledger.own("%ret", "%arc.s1");
    ledger.push_frame();
    ledger.own("%b", "%arc.s2");
    let (retain, released) = ledger.epilogue(Some("%ret"));
    assert!(!retain);
    assert_eq!(released, ["%arc.s2", "%arc.s0"]);
    assert_eq!(ledger.frame_mark(), 0);
    assert!(ledger.pop_frame().is_empty());
}

#[test]
fn the_epilogue_retains_a_borrowed_return() {
    let mut ledger = ArcLedger::default();
    ledger.own("%a", "%arc.s0");
    let (retain, released) = ledger.epilogue(Some("%param"));
    assert!(retain);
    assert_eq!(released, ["%arc.s0"]);
    let (retain, released) = ledger.epilogue(None);
    assert!(!retain);
    assert!(released.is_empty());
}

#[test]
fn an_owner_is_taken_from_the_outermost_frame_holding_it() {
    let mut ledger = ArcLedger::new();
    ledger.own("%v", "%arc.s0");
    ledger.push_frame();
    ledger.own("%v", "%arc.s1");
    assert!(ledger.take_owner_anywhere("%v"));
    assert_eq!(ledger.drop_frame_inline(), ["%arc.s1"]);
    assert!(!ledger.take_owner_anywhere("%w"));
}
