use demonlist::demon::{Demon, MinimalDemon, TimeShiftedDemon};
use demonlist::player::{DatabasePlayer, FullPlayer, Nationality, Player};
use demonlist::record::{MinimalRecordD, MinimalRecordP};
use demonlist::submitter::Submitter;

fn player(id: i32, name: &str) -> DatabasePlayer {
    DatabasePlayer { id, name: name.to_string(), banned: false }
}

#[test]
fn players_compare_by_all_fields() {
    assert_eq!(player(1, "alice"), player(1, "alice"));
    assert_ne!(player(1, "alice"), player(2, "alice"));
    assert_ne!(player(1, "alice"), player(1, "bob"));
    let banned = DatabasePlayer { id: 1, name: "alice".to_string(), banned: true };
    assert_ne!(player(1, "alice"), banned);
}

#[test]
fn model_types_hold_their_parts() {
    let base = MinimalDemon { id: 7, position: 3, name: "Azure Flare".to_string() };
    let demon = Demon {
        base: base.clone(),
        requirement: 80,
        video: Some("https://example.com/v".to_string()),
        publisher: player(1, "alice"),
        verifier: player(2, "bob"),
        level_id: Some(123456),
    };
    let shifted = TimeShiftedDemon { current_demon: demon, position_now: 9 };
    assert_eq!(shifted.current_demon.base.id, 7);
    assert_eq!(shifted.position_now, 9);

    let record_p = MinimalRecordP { id: 1, progress: 95, video: None, player: player(3, "carol") };
    assert_eq!(record_p.progress, 95);
    let record_d = MinimalRecordD { id: 2, progress: 100, video: None, demon: base };
    assert_eq!(record_d.demon.name, "Azure Flare");

    let full = FullPlayer {
        player: Player {
            base: player(3, "carol"),
            nationality: Some(Nationality {
                iso_country_code: "DE".to_string(),
                nation: "Germany".to_string(),
            }),
        },
        records: vec![record_d],
        created: vec![],
        verified: vec![],
        published: vec![],
    };
    assert_eq!(full.records.len(), 1);
    assert_eq!(full.player.nationality.as_ref().map(|n| n.iso_country_code.as_str()), Some("DE"));

    let submitter = Submitter { id: 4, banned: false };
    assert_eq!(submitter, Submitter { id: 4, banned: false });
}
