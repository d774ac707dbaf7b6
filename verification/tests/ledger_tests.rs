use demonlist::demon::PostDemon;
use demonlist::error::DemonlistError;
use demonlist::ledger::PositionLedger;
use demonlist::player::DatabasePlayer;

fn player(id: i32, name: &str) -> DatabasePlayer {
    DatabasePlayer { id, name: name.to_string(), banned: false }
}

fn post(name: &str, position: i16, requirement: i16) -> PostDemon {
    PostDemon {
        name: name.to_string(),
        position,
        requirement,
        verifier: player(900, "verifier"),
        publisher: player(901, "publisher"),
        creators: vec![player(902, "creator")],
        video: None,
    }
}

/// A ledger of `n` demons named d1..dn, inserted at the end one by one.
fn ledger_of(n: i16) -> PositionLedger {
    let mut ledger = PositionLedger::new();
    for k in 1..=n {
        let r = ledger.insert(post(&format!("d{}", k), k, 50), k as i64);
        assert!(r.is_ok());
    }
    ledger
}

fn assert_positions_dense(ledger: &PositionLedger) {
    let demons = ledger.demons();
    for (i, d) in demons.iter().enumerate() {
        assert_eq!(d.base.position as usize, i + 1);
    }
}

#[test]
fn empty_ledger_reports_max_position_one() {
    let ledger = PositionLedger::new();
    assert_eq!(ledger.max_position(), 1);
}

#[test]
fn first_insert_must_go_to_position_one() {
    let mut ledger = PositionLedger::new();
    let r = ledger.insert(post("a", 2, 50), 1);
    assert_eq!(r.unwrap_err(), DemonlistError::InvalidPosition { maximal: 1 });
    let r = ledger.insert(post("a", 1, 50), 1);
    assert!(r.is_ok());
    assert_eq!(ledger.max_position(), 1);
}

#[test]
fn positions_stay_dense_under_insert_move_remove() {
    let mut ledger = PositionLedger::new();
    let a = ledger.insert(post("a", 1, 50), 1).unwrap().demon.base.id;
    assert_positions_dense(&ledger);
    let b = ledger.insert(post("b", 1, 50), 2).unwrap().demon.base.id;
    assert_positions_dense(&ledger);
    let _c = ledger.insert(post("c", 2, 50), 3).unwrap().demon.base.id;
    assert_positions_dense(&ledger);
    ledger.move_demon(a, 1, 4).unwrap();
    assert_positions_dense(&ledger);
    ledger.remove(b, 5).unwrap();
    assert_positions_dense(&ledger);
    assert_eq!(ledger.max_position(), 2);
    ledger.move_demon(a, 2, 6).unwrap();
    assert_positions_dense(&ledger);
}

#[test]
fn insert_at_end_shifts_no_existing_row() {
    let mut ledger = ledger_of(5);
    let before: Vec<(i32, i16)> =
        ledger.demons().iter().map(|d| (d.base.id, d.base.position)).collect();
    let max = ledger.max_position();
    let r = ledger.insert(post("tail", max + 1, 50), 10);
    assert!(r.is_ok());
    let after: Vec<(i32, i16)> =
        ledger.demons().iter().map(|d| (d.base.id, d.base.position)).collect();
    assert_eq!(&after[..5], &before[..]);
    assert_eq!(after[5].1, 6);
}

#[test]
fn insert_beyond_end_is_rejected_with_valid_maximum() {
    let mut ledger = ledger_of(3);
    let r = ledger.insert(post("x", 5, 50), 10);
    assert_eq!(r.unwrap_err(), DemonlistError::InvalidPosition { maximal: 4 });
    let r = ledger.insert(post("x", 0, 50), 10);
    assert_eq!(r.unwrap_err(), DemonlistError::InvalidPosition { maximal: 4 });
    assert_eq!(ledger.demons().len(), 3);
    assert_eq!(ledger.log().len(), 3);
}

#[test]
fn insert_with_bad_requirement_is_rejected() {
    let mut ledger = ledger_of(1);
    let r = ledger.insert(post("x", 1, 101), 10);
    assert_eq!(r.unwrap_err(), DemonlistError::InvalidRequirement);
    let r = ledger.insert(post("x", 1, -1), 10);
    assert_eq!(r.unwrap_err(), DemonlistError::InvalidRequirement);
    assert_eq!(ledger.demons().len(), 1);
}

#[test]
fn insert_shifts_rows_at_or_after_target() {
    let mut ledger = ledger_of(3);
    let before: Vec<i32> = ledger.demons().iter().map(|d| d.base.id).collect();
    let fd = ledger.insert(post("mid", 2, 50), 10).unwrap();
    assert_eq!(fd.demon.base.position, 2);
    assert_eq!(fd.creators.len(), 1);
    assert!(fd.records.is_empty());
    let after: Vec<i32> = ledger.demons().iter().map(|d| d.base.id).collect();
    assert_eq!(after, vec![before[0], fd.demon.base.id, before[1], before[2]]);
    assert_positions_dense(&ledger);
}

#[test]
fn move_to_same_position_changes_nothing() {
    let mut ledger = ledger_of(4);
    let id = ledger.demons()[2].base.id;
    let rows_before: Vec<(i32, i16)> =
        ledger.demons().iter().map(|d| (d.base.id, d.base.position)).collect();
    let log_len_before = ledger.log().len();
    ledger.move_demon(id, 3, 99).unwrap();
    let rows_after: Vec<(i32, i16)> =
        ledger.demons().iter().map(|d| (d.base.id, d.base.position)).collect();
    assert_eq!(rows_before, rows_after);
    assert_eq!(ledger.log().len(), log_len_before);
}

#[test]
fn move_of_unknown_demon_is_rejected() {
    let mut ledger = ledger_of(2);
    let r = ledger.move_demon(777, 1, 10);
    assert_eq!(r.unwrap_err(), DemonlistError::DemonNotFound { demon_id: 777 });
    let r = ledger.move_demon(1, 3, 10);
    assert_eq!(r.unwrap_err(), DemonlistError::InvalidPosition { maximal: 2 });
}

#[test]
fn remove_of_unknown_demon_is_rejected() {
    let mut ledger = ledger_of(2);
    let r = ledger.remove(777, 10);
    assert_eq!(r.unwrap_err(), DemonlistError::DemonNotFound { demon_id: 777 });
}

#[test]
fn remove_shifts_later_rows_up() {
    // Fifty demons; deleting the one at position 10 turns positions 11-50
    // into 10-49, and the removed demon keeps no position.
    let mut ledger = ledger_of(50);
    let id10 = ledger.demons()[9].base.id;
    let ids_before: Vec<i32> = ledger.demons().iter().map(|d| d.base.id).collect();
    ledger.remove(id10, 100).unwrap();
    assert_eq!(ledger.demons().len(), 49);
    assert_positions_dense(&ledger);
    for (i, d) in ledger.demons().iter().enumerate() {
        let expected = if i < 9 { ids_before[i] } else { ids_before[i + 1] };
        assert_eq!(d.base.id, expected);
    }
    assert!(ledger.current_position_of(id10).is_none());
    assert_eq!(ledger.removed_demons().len(), 1);
    assert_eq!(ledger.removed_demons()[0].base.id, id10);
}

#[test]
fn current_position_reports_live_rank() {
    let mut ledger = ledger_of(3);
    let id = ledger.demons()[0].base.id;
    assert_eq!(ledger.current_position_of(id), Some(1));
    ledger.move_demon(id, 3, 10).unwrap();
    assert_eq!(ledger.current_position_of(id), Some(3));
    assert_eq!(ledger.current_position_of(424242), None);
}

#[test]
fn insert_assigns_fresh_sequential_ids() {
    let mut ledger = PositionLedger::new();
    let a = ledger.insert(post("a", 1, 50), 1).unwrap().demon.base.id;
    let b = ledger.insert(post("b", 2, 50), 2).unwrap().demon.base.id;
    assert_eq!(a, 1);
    assert_eq!(b, 2);
}
