use demonlist::demon::{Demon, FullDemon, MinimalDemon};
use demonlist::error::DemonlistError;
use demonlist::head::{Meta, Script};
use demonlist::player::DatabasePlayer;

fn player(id: i32, name: &str) -> DatabasePlayer {
    DatabasePlayer { id, name: name.to_string(), banned: false }
}

fn full_demon(publisher: &str, verifier: &str, creators: Vec<&str>) -> FullDemon {
    FullDemon {
        demon: Demon {
            base: MinimalDemon { id: 1, position: 3, name: "Cataclysm".to_string() },
            requirement: 90,
            video: None,
            publisher: player(10, publisher),
            verifier: player(11, verifier),
            level_id: None,
        },
        creators: creators
            .into_iter()
            .enumerate()
            .map(|(i, name)| player(100 + i as i32, name))
            .collect(),
        records: vec![],
    }
}

#[test]
fn requirement_is_validated_against_zero_to_hundred() {
    assert!(Demon::validate_requirement(0).is_ok());
    assert!(Demon::validate_requirement(100).is_ok());
    assert_eq!(Demon::validate_requirement(-1), Err(DemonlistError::InvalidRequirement));
    assert_eq!(Demon::validate_requirement(101), Err(DemonlistError::InvalidRequirement));
}

#[test]
fn position_is_validated_against_one_to_maximal() {
    assert!(Demon::validate_position(1, 5).is_ok());
    assert!(Demon::validate_position(5, 5).is_ok());
    assert_eq!(Demon::validate_position(0, 5), Err(DemonlistError::InvalidPosition { maximal: 5 }));
    assert_eq!(Demon::validate_position(6, 5), Err(DemonlistError::InvalidPosition { maximal: 5 }));
}

#[test]
fn simple_getters_read_the_base_demon() {
    let fd = full_demon("pub", "ver", vec!["cr"]);
    assert_eq!(fd.position(), 3);
    assert_eq!(fd.name(), "Cataclysm");
}

#[test]
fn headline_collapses_equal_credits() {
    let all_same = full_demon("alice", "alice", vec!["alice"]);
    assert_eq!(all_same.headline(), "by alice");

    let verifier_publishes = full_demon("bob", "bob", vec!["alice"]);
    assert_eq!(verifier_publishes.headline(), "by alice, verified and published by bob");

    let all_different = full_demon("carol", "bob", vec!["alice"]);
    assert_eq!(all_different.headline(), "by alice, verified by bob, published by carol");

    let creator_verifies = full_demon("carol", "alice", vec!["alice"]);
    assert_eq!(creator_verifies.headline(), "by alice, published by carol");

    let creator_publishes = full_demon("alice", "bob", vec!["alice"]);
    assert_eq!(creator_publishes.headline(), "by alice, verified by bob");
}

#[test]
fn headline_credits_creator_lists() {
    let nobody = full_demon("carol", "bob", vec![]);
    assert_eq!(nobody.headline(), "by Unknown, verified by bob, published by carol");

    // All creators but the first, joined by commas, then "and" the first.
    let many = full_demon("carol", "bob", vec!["alice", "dave", "erin"]);
    assert_eq!(many.headline(), "by dave, erin and alice, verified by bob, published by carol");

    let two = full_demon("carol", "bob", vec!["alice", "dave"]);
    assert_eq!(two.headline(), "by dave and alice, verified by bob, published by carol");
}

#[test]
fn short_headline_collapses_equal_players() {
    let same = FullDemon {
        demon: Demon {
            base: MinimalDemon { id: 1, position: 1, name: "x".to_string() },
            requirement: 100,
            video: None,
            publisher: player(10, "alice"),
            verifier: player(10, "alice"),
            level_id: None,
        },
        creators: vec![],
        records: vec![],
    };
    assert_eq!(same.short_headline(), "verified and published by alice");

    let different = full_demon("carol", "bob", vec![]);
    assert_eq!(different.short_headline(), "published by carol, verified by bob");
}

#[test]
fn scripts_and_meta_tags_keep_their_fields() {
    let s = Script::new("js/demonlist.js".to_string());
    assert_eq!(s.src, "js/demonlist.js");
    assert!(!s.module);
    let m = Script::module("js/modules/form.js".to_string());
    assert_eq!(m.src, "js/modules/form.js");
    assert!(m.module);
    let meta = Meta::new("og:title".to_string(), "Demonlist".to_string());
    assert_eq!(meta.name, "og:title");
    assert_eq!(meta.content, "Demonlist");
}
