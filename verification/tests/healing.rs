use std::collections::HashMap;

use wcl_tools::healing::{
    analyze_heal_correctness, casts_are_named_check, parse_spell_line, parse_spell_map,
    spell_line_is_sliceable, spell_table_is_sliceable, HealRecord,
};
use wcl_tools::warcraft_logs::combat_log::{CombatLog, CombatLogEvent, EventResources, EventType};
use wcl_tools::warcraft_logs::report::Actor;

#[test]
fn spell_line_with_descriptor() {
    assert_eq!(parse_spell_line("Name: Flash Heal (id=2061)"), Some((2061, "Flash Heal".to_string())));
    assert_eq!(
        parse_spell_line("Name: Ascension (desc=Rank 2) (id=-42)"),
        Some((-42, "Ascension".to_string()))
    );
    assert_eq!(parse_spell_line("Name:   Renew   (id=+139)"), Some((139, "Renew".to_string())));
}

#[test]
fn spell_line_without_parenthesis_before_id() {
    // the text before `id=` keeps its trailing ` (` when no ` (` is found after trimming
    assert_eq!(parse_spell_line("Name: Halo(id=120517)"), Some((120517, "Halo(".to_string())));
}

#[test]
fn spell_line_name_with_extra_spaces() {
    // the descriptors are cut from the trimmed text, whatever whitespace leads it
    assert_eq!(parse_spell_line("Name:    Prayer of Mending (id=33076)"), Some((33076, "Prayer of Mending".to_string())));
    assert_eq!(parse_spell_line("Name:  Foo (desc=x) (id=5)"), Some((5, "Foo".to_string())));
    assert_eq!(parse_spell_line("Name:\tA B  (desc=x) (id=7)"), Some((7, "A B".to_string())));
}

#[test]
fn spell_line_unicode_name() {
    assert_eq!(parse_spell_line("Name: Sanctification (Ädd) (id=5)"), Some((5, "Sanctification".to_string())));
    assert_eq!(parse_spell_line("Name: Lumière (id=6)"), Some((6, "Lumière".to_string())));
}

#[test]
fn spell_line_rejects() {
    assert_eq!(parse_spell_line("Name: Flash Heal"), None);
    assert_eq!(parse_spell_line("Name: Flash Heal (id=2061"), None);
    assert_eq!(parse_spell_line("Name: Flash Heal (id=abc)"), None);
    assert_eq!(parse_spell_line("Name: Flash Heal (id=)"), None);
    assert_eq!(parse_spell_line("Name: Flash Heal (id=-)"), None);
    assert_eq!(parse_spell_line("Name: Flash Heal (id=99999999999999999999)"), None);
    assert_eq!(parse_spell_line("Name Flash Heal (id=2061)"), None);
    assert_eq!(parse_spell_line("Name: X (id=9223372036854775807)"), Some((i64::MAX, "X".to_string())));
    assert_eq!(parse_spell_line("Name: X (id=-9223372036854775808)"), Some((i64::MIN, "X".to_string())));
    assert_eq!(parse_spell_line("Name: X (id=9223372036854775808)"), None);
}

#[test]
fn spell_line_cuts() {
    assert!(spell_line_is_sliceable("Name: Flash Heal (id=2061)"));
    assert!(spell_line_is_sliceable("no id here"));
    // `:` after `id=`: the name would start after the id
    assert!(!spell_line_is_sliceable("Name (id=5): x"));
    // a multi-byte character right after `:`
    assert!(!spell_line_is_sliceable("Name:éx (id=5)"));
}

#[test]
fn spell_table_lines() {
    let text = "Name: Flash Heal (id=2061)\r\nOther: ignored (id=1)\nName: Renew (id=139)\n\nName: Heal (id=2061)\n";
    assert!(spell_table_is_sliceable(text));
    let map = parse_spell_map(text);
    assert_eq!(map.len(), 2);
    assert_eq!(map.get(&2061).map(|s| s.as_str()), Some("Heal"));
    assert_eq!(map.get(&139).map(|s| s.as_str()), Some("Renew"));
    assert!(map.get(&1).is_none());
    assert!(parse_spell_map("").is_empty());
    let map = parse_spell_map("Name: Smite (id=585)");
    assert_eq!(map.get(&585).map(|s| s.as_str()), Some("Smite"));
    assert!(!spell_table_is_sliceable("Name: ok (id=1)\nName (id=5): x\n"));
}

fn ev(ty: EventType, hp: Option<i64>) -> CombatLogEvent {
    let resources = hp.map(|hit_points| EventResources {
        hit_points, max_hit_points: 100, attack_power: 0, spell_power: 0, armor: 0, absorb: 0, x: 0, y: 0,
        facing: 0, map_id: 0, versatility: 0, avoidance: 0, item_level: 0,
    });
    CombatLogEvent { timestamp: 0, fight: 1, ty, source_marker: None, target_marker: None, resources }
}

fn info(source_id: i64, spec_id: i64) -> EventType {
    EventType::CombatantInfo {
        source_id, gear: vec![], auras: vec![], expansion: "dragonflight".to_string(), faction: 0, spec_id,
        strength: 0, agility: 0, stamina: 0, intellect: 0, dodge: 0, parry: 0, block: 0, armor: 0,
        crit_melee: 0, crit_ranged: 0, crit_spell: 0, haste_melee: 0, haste_ranged: 0, haste_spell: 0,
        speed: 0, leech: 0, avoidance: 0, mastery: 0, versatility_damage_done: 0,
        versatility_healing_done: 0, versatility_damage_reduction: 0, talent_tree: vec![], talents: vec![],
        pvp_talents: vec![], custom_power_set: vec![], secondary_custom_power_set: vec![],
        tertiary_custom_power_set: vec![],
    }
}

fn heal(source_id: i64, target_id: i64, ability_game_id: i64, overheal: Option<i64>, hp: Option<i64>) -> CombatLogEvent {
    ev(EventType::Heal { source_id, target_id, ability_game_id, hit_type: 1, amount: 10, overheal, tick: false }, hp)
}

fn damage(target_id: i64, hp: i64) -> CombatLogEvent {
    ev(EventType::Damage { source_id: 99, target_id, ability_game_id: 1, hit_type: 1, amount: 5, unmitigated_amount: None }, Some(hp))
}

fn names() -> HashMap<i64, String> {
    let mut m = HashMap::new();
    m.insert(2061, "Flash Heal".to_string());
    m.insert(10060, "Power Infusion".to_string());
    m
}

fn log(events: Vec<CombatLogEvent>) -> CombatLog {
    let actors = (0..4).map(|i| Actor { name: format!("p{}", i), server: Some("s".to_string()) }).collect();
    CombatLog::new("r".to_string(), 1, events, actors)
}

#[test]
fn heal_ranking_scenario() {
    let events = vec![
        ev(EventType::EncounterStart { encounter_id: 1, name: "Boss".to_string(), difficulty: 16, size: 20 }, None),
        ev(info(0, 257), None),
        ev(info(1, 71), None),
        ev(info(2, 62), None),
        ev(info(3, 105), None),
        ev(info(4, 257), None),
        damage(99, 1),
        ev(info(5, 257), None), // past the head of the log: not read
        ev(EventType::Cast { source_id: 0, target_id: 1, ability_game_id: 2061 }, None),
        ev(EventType::Cast { source_id: 3, target_id: 2, ability_game_id: 10060 }, None),
        damage(1, 50),
        damage(2, 20),
        damage(0, 80),
        heal(0, 2, 2061, None, Some(30)), // 3 and 4 (no health known: 0) rank below 2
        heal(0, 1, 2061, None, Some(60)), // health 0:80 1:50 2:30 3:0 4:0 -> 1 is at 3
        heal(0, 1, 2061, Some(5), None),  // overheal: not judged
        heal(1, 1, 2061, None, None),     // not a healer
        heal(3, 2, 10060, None, None),    // excluded spell
        heal(3, 2, 4242, None, None),     // unknown spell
        ev(EventType::Death { source_id: 99, target_id: 2, target_instance: None, ability_game_id: 1 }, None),
        heal(0, 2, 2061, None, None),     // dead target
        heal(3, 0, 2061, None, None),     // health 0:80 1:60 3:0 4:0 -> 0 at 3 of 4
    ];
    let l = log(events);
    let n = names();
    assert!(casts_are_named_check(&l, &n));
    let a = analyze_heal_correctness(&l, &n);
    assert_eq!(a.player_ids, vec![0, 1, 2, 3, 4]);
    assert_eq!(a.healer_ids, vec![0, 3, 4]);
    let mut spells = a.valid_heal_spells.clone();
    spells.sort();
    assert_eq!(spells, vec!["Atonement".to_string(), "Flash Heal".to_string()]);
    assert_eq!(
        a.heals,
        vec![
            HealRecord { healer_id: 0, position: 2, ranked: 5 },
            HealRecord { healer_id: 0, position: 3, ranked: 5 },
            HealRecord { healer_id: 3, position: 3, ranked: 4 },
        ]
    );
    for h in &a.heals {
        assert!(2 <= h.ranked && h.position < h.ranked);
    }
}

#[test]
fn heal_ties_rank_in_player_order() {
    let events = vec![
        ev(info(7, 256), None),
        ev(info(8, 70), None),
        ev(info(9, 70), None),
        ev(EventType::Cast { source_id: 7, target_id: 9, ability_game_id: 2061 }, None),
        heal(7, 9, 2061, None, None), // all at 0: 9 is third in player order
        heal(7, 8, 2061, None, None),
    ];
    let a = analyze_heal_correctness(&log(events), &names());
    assert_eq!(
        a.heals,
        vec![HealRecord { healer_id: 7, position: 2, ranked: 3 }, HealRecord { healer_id: 7, position: 1, ranked: 3 }]
    );
}

#[test]
fn heal_alone_is_not_ranked() {
    let events = vec![ev(info(7, 256), None), heal(7, 7, 2061, None, None)];
    let mut n = names();
    n.insert(1, "x".to_string());
    let a = analyze_heal_correctness(&log(events), &n);
    assert!(a.heals.is_empty());
    // Atonement is judged even when nobody casts it
    assert_eq!(a.valid_heal_spells, vec!["Atonement".to_string()]);
}

#[test]
fn unnamed_healer_cast_is_detected() {
    let events = vec![ev(info(7, 256), None), ev(info(8, 70), None), ev(EventType::Cast { source_id: 7, target_id: 8, ability_game_id: 31 }, None)];
    assert!(!casts_are_named_check(&log(events), &names()));
}

#[test]
fn canonical_spell_lines_read_back() {
    let names = ["Flash Heal", "Lumière", "Power Word: Shield", "Halo(", "x"];
    let ids = [0i64, 7, -42, 2061, i64::MAX, i64::MIN];
    for name in names.iter() {
        for id in ids.iter() {
            let line = format!("Name: {} (id={})", name, id);
            assert!(spell_line_is_sliceable(&line));
            assert_eq!(parse_spell_line(&line), Some((*id, name.to_string())));
        }
    }
}

#[test]
fn late_combatant_record_changes_nothing() {
    let base = || vec![
        ev(info(7, 256), None),
        ev(info(8, 70), None),
        damage(8, 40),
        ev(EventType::Cast { source_id: 7, target_id: 8, ability_game_id: 2061 }, None),
        heal(7, 8, 2061, None, Some(60)),
        heal(7, 7, 2061, None, None),
    ];
    let n = names();
    let a = analyze_heal_correctness(&log(base()), &n);
    for p in 3..=base().len() {
        for spec_id in [256i64, 70] {
            let mut events = base();
            events.insert(p, ev(info(9, spec_id), None));
            let b = analyze_heal_correctness(&log(events), &n);
            assert_eq!(b.player_ids, a.player_ids);
            assert_eq!(b.healer_ids, a.healer_ids);
            assert_eq!(b.valid_heal_spells, a.valid_heal_spells);
            assert_eq!(b.heals, a.heals);
        }
    }
    assert_eq!(a.player_ids, vec![7, 8]);
    assert_eq!(a.heals, vec![HealRecord { healer_id: 7, position: 1, ranked: 2 }, HealRecord { healer_id: 7, position: 0, ranked: 2 }]);
}
