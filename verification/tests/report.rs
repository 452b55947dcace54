use wcl_tools::warcraft_logs::report::{fight_actors, fight_difficulty_name, Actor, Difficulty, WowDifficulty, Zone};

fn actor(name: &str) -> Actor {
    Actor { name: name.to_string(), server: Some("Realm".to_string()) }
}

#[test]
fn fight_actors_by_index() {
    let actors = vec![actor("a"), actor("b"), Actor { name: "pet".to_string(), server: None }];
    let r = fight_actors(&vec![2, 0, 0], &actors);
    assert_eq!(r.len(), 3);
    assert_eq!(r[0].name, "pet");
    assert!(r[0].server.is_none());
    assert_eq!(r[1].name, "a");
    assert_eq!(r[2].server.as_deref(), Some("Realm"));
    assert!(fight_actors(&vec![], &actors).is_empty());
}

#[test]
fn difficulty_names() {
    let zone = Zone {
        id: 1,
        difficulties: vec![Difficulty::new(14, "Normal".to_string()), Difficulty::new(16, "Mythic".to_string()), Difficulty::new(16, "Again".to_string())],
    };
    assert_eq!(fight_difficulty_name(Some(16), &zone), "Mythic");
    assert_eq!(fight_difficulty_name(Some(14), &zone), "Normal");
    assert_eq!(fight_difficulty_name(Some(15), &zone), "Unknown");
    assert_eq!(fight_difficulty_name(None, &zone), "Unknown");
    assert_eq!(zone.difficulties[1].id(), 16);
    assert_eq!(zone.difficulties[1].name(), "Mythic");
}

#[test]
fn wow_difficulty_ids() {
    assert_eq!(WowDifficulty::RaidMythic.id(), 16);
    assert_eq!(WowDifficulty::ClassicRaid25Heroic.id(), 194);
    assert_eq!(WowDifficulty::from_id(8), Some(WowDifficulty::MythicKeystone));
    assert_eq!(WowDifficulty::from_id(10), None);
    assert_eq!(WowDifficulty::from_id(-1), None);
    for id in -5..300 {
        if let Some(d) = WowDifficulty::from_id(id) {
            assert_eq!(d.id(), id);
        }
    }
    let d = WowDifficulty::ScenarioTorghast;
    assert_eq!(WowDifficulty::from_id(d.id()), Some(d));
}
