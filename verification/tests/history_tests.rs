use demonlist::config::{ListConfig, ListSection};
use demonlist::demon::PostDemon;
use demonlist::history::resolve_timestamp;
use demonlist::ledger::PositionLedger;
use demonlist::player::DatabasePlayer;

fn player(id: i32, name: &str) -> DatabasePlayer {
    DatabasePlayer { id, name: name.to_string(), banned: false }
}

fn post(name: &str, position: i16, requirement: i16) -> PostDemon {
    PostDemon {
        name: name.to_string(),
        position,
        requirement,
        verifier: player(900, "verifier"),
        publisher: player(901, "publisher"),
        creators: vec![],
        video: None,
    }
}

fn ledger_of(n: i16) -> PositionLedger {
    let mut ledger = PositionLedger::new();
    for k in 1..=n {
        ledger.insert(post(&format!("d{}", k), k, 50), k as i64).unwrap();
    }
    ledger
}

#[test]
fn reconstruction_at_now_matches_live_list() {
    let mut ledger = ledger_of(6);
    let a = ledger.demons()[0].base.id;
    let b = ledger.demons()[3].base.id;
    ledger.move_demon(a, 5, 100).unwrap();
    ledger.remove(b, 101).unwrap();
    ledger.insert(post("late", 2, 50), 102).unwrap();

    let live = ledger.current_list();
    let replayed = ledger.list_at(9999);
    assert_eq!(live.len(), replayed.len());
    for (l, r) in live.iter().zip(replayed.iter()) {
        assert_eq!(l.id, r.id);
        assert_eq!(l.position, r.position);
        assert_eq!(l.name, r.name);
        // Nothing has changed since "now", so no annotation is shown.
        assert_eq!(r.current_position, None);
    }
}

#[test]
fn extended_demon_moved_up_shifts_the_range_and_logs_once() {
    // list_size = 75, extended_list_size = 150: position 76 is Extended.
    let config = ListConfig { list_size: 75, extended_list_size: 150 };
    assert_eq!(config.section_of(Some(76)), ListSection::Extended);
    assert_eq!(config.section_of(Some(75)), ListSection::Main);
    assert_eq!(config.section_of(Some(151)), ListSection::Legacy);
    assert_eq!(config.section_of(None), ListSection::Legacy);

    let mut ledger = ledger_of(80);
    let moved = ledger.demons()[75].base.id;
    let was_at_74 = ledger.demons()[73].base.id;
    let was_at_75 = ledger.demons()[74].base.id;
    let log_len_before = ledger.log().len();

    ledger.move_demon(moved, 74, 500).unwrap();

    // The demon previously at 74 (and everything between) moved up by one.
    assert_eq!(ledger.current_position_of(moved), Some(74));
    assert_eq!(ledger.current_position_of(was_at_74), Some(75));
    assert_eq!(ledger.current_position_of(was_at_75), Some(76));
    // Exactly one new log entry concerns the moved demon.
    let new_entries = &ledger.log()[log_len_before..];
    let for_moved = new_entries.iter().filter(|e| e.demon_id == moved).count();
    assert_eq!(for_moved, 1);
    assert_eq!(new_entries.len(), 3);
}

#[test]
fn time_machine_still_shows_a_demon_removed_later() {
    // Fifty demons; the one at position 10 is removed at time 100. A
    // reconstruction before the removal still shows it at position 10.
    let mut ledger = ledger_of(50);
    let id10 = ledger.demons()[9].base.id;
    ledger.remove(id10, 100).unwrap();

    let then = ledger.list_at(99);
    assert_eq!(then.len(), 50);
    assert_eq!(then[9].id, id10);
    assert_eq!(then[9].position, 10);
    assert_eq!(ledger.position_at_instant(id10, 99), Some(Some(10)));
    assert_eq!(ledger.position_at_instant(id10, 100), Some(None));
    assert_eq!(ledger.position_at_instant(id10, 9), None);
    // The removed demon has no live position, so no "Currently" annotation.
    assert_eq!(then[9].current_position, None);

    let now = ledger.list_at(100);
    assert_eq!(now.len(), 49);
    assert!(now.iter().all(|row| row.id != id10));
}

#[test]
fn reconstruction_omits_demons_that_did_not_exist_yet() {
    let mut ledger = PositionLedger::new();
    let a = ledger.insert(post("a", 1, 50), 10).unwrap().demon.base.id;
    let b = ledger.insert(post("b", 1, 50), 20).unwrap().demon.base.id;

    let before_b = ledger.list_at(15);
    assert_eq!(before_b.len(), 1);
    assert_eq!(before_b[0].id, a);
    assert_eq!(before_b[0].position, 1);
    // "a" has since been pushed to 2 by "b", and the reading says so.
    assert_eq!(before_b[0].current_position, Some(2));

    let before_everything = ledger.list_at(5);
    assert!(before_everything.is_empty());

    let after_b = ledger.list_at(20);
    assert_eq!(after_b.len(), 2);
    assert_eq!(after_b[0].id, b);
    assert_eq!(after_b[1].id, a);
}

#[test]
fn reconstruction_rows_carry_metadata() {
    let mut ledger = PositionLedger::new();
    let mut data = post("the level", 1, 50);
    data.video = Some("https://example.com/v".to_string());
    ledger.insert(data, 10).unwrap();
    let rows = ledger.list_at(10);
    assert_eq!(rows.len(), 1);
    assert_eq!(rows[0].name, "the level");
    assert_eq!(rows[0].publisher, "publisher");
    assert_eq!(rows[0].video.as_deref(), Some("https://example.com/v"));
}

#[test]
fn requested_timestamps_are_clamped_and_future_means_live() {
    let earliest = 1_000;
    let now = 9_000;
    assert_eq!(resolve_timestamp(500, earliest, now), Some(1_000));
    assert_eq!(resolve_timestamp(1_000, earliest, now), Some(1_000));
    assert_eq!(resolve_timestamp(4_321, earliest, now), Some(4_321));
    assert_eq!(resolve_timestamp(9_000, earliest, now), None);
    assert_eq!(resolve_timestamp(20_000, earliest, now), None);
}
