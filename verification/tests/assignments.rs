use wcl_tools::assignments::{
    extract_assignments, get_default_spells, Assignment, AssignmentError,
    DynamicTimer, DynamicTimerType,
};
use wcl_tools::warcraft_logs::combat_log::{CombatLog, CombatLogEvent, EventResources, EventType};
use wcl_tools::warcraft_logs::report::{Actor, PlayerClass};

fn ev(timestamp: i64, ty: EventType) -> CombatLogEvent {
    CombatLogEvent { timestamp, fight: 1, ty, source_marker: None, target_marker: None, resources: None }
}

fn cast(source_id: i64, ability_game_id: i64) -> EventType {
    EventType::Cast { source_id, target_id: -1, ability_game_id }
}

fn player(name: &str, server: Option<&str>) -> Actor {
    Actor { name: name.to_string(), server: server.map(|s| s.to_string()) }
}

fn log(events: Vec<CombatLogEvent>, actors: Vec<Actor>) -> CombatLog {
    CombatLog::new("abc".to_string(), 3, events, actors)
}

#[test]
fn abbreviations_of_timer_types() {
    assert_eq!(DynamicTimerType::SpellCastSuccess.as_abbreviation(), "SCC");
    assert_eq!(DynamicTimerType::SpellCastStart.as_abbreviation(), "SCS");
    assert_eq!(DynamicTimerType::SpellAuraApplied.as_abbreviation(), "SAA");
    assert_eq!(DynamicTimerType::SpellAuraRemoved.as_abbreviation(), "SAR");
}

#[test]
fn abbreviations_are_distinct() {
    let all = [
        DynamicTimerType::SpellCastSuccess,
        DynamicTimerType::SpellCastStart,
        DynamicTimerType::SpellAuraApplied,
        DynamicTimerType::SpellAuraRemoved,
    ];
    for a in all.iter() {
        for b in all.iter() {
            assert_eq!(a == b, a.as_abbreviation() == b.as_abbreviation());
        }
    }
}

#[test]
fn priests_have_default_spells_others_none() {
    assert_eq!(get_default_spells(PlayerClass::Priest), vec![194509, 123040, 47536, 246287, 271466]);
    assert!(get_default_spells(PlayerClass::Mage).is_empty());
    assert!(get_default_spells(PlayerClass::Evoker).is_empty());
}

#[test]
fn timer_types_match_their_events() {
    let t = DynamicTimerType::SpellCastSuccess;
    assert!(t.does_event_match(&cast(1, 5), 5));
    assert!(!t.does_event_match(&cast(1, 5), 6));
    assert!(!t.does_event_match(&EventType::BeginCast { source_id: 1, target_id: 2, ability_game_id: 5 }, 5));
    let t = DynamicTimerType::SpellCastStart;
    assert!(t.does_event_match(&EventType::BeginCast { source_id: 1, target_id: 2, ability_game_id: 5 }, 5));
    assert!(!t.does_event_match(&cast(1, 5), 5));
    let t = DynamicTimerType::SpellAuraApplied;
    assert!(t.does_event_match(&EventType::ApplyBuff { source_id: 1, target_id: 2, ability_game_id: 7, absorb: None }, 7));
    assert!(t.does_event_match(&EventType::ApplyDebuffStack { source_id: 1, target_id: 2, ability_game_id: 7, stack: 2 }, 7));
    assert!(!t.does_event_match(&EventType::RemoveBuff { source_id: 1, target_id: 2, ability_game_id: 7 }, 7));
    let t = DynamicTimerType::SpellAuraRemoved;
    assert!(t.does_event_match(&EventType::RemoveDebuff { source_id: 1, target_id: 2, ability_game_id: 7 }, 7));
    assert!(t.does_event_match(&EventType::RemoveBuffStack { source_id: 1, target_id: 2, ability_game_id: 7, stack: 1 }, 7));
    assert!(!t.does_event_match(&EventType::Unknown, 7));
}

#[test]
fn assignment_text_without_timer() {
    let a = Assignment { spell_id: 194509, dynamic_timer: None, time: 65 };
    assert_eq!(a.to_string(), "{time:01:05} - {spell:194509}");
    let a = Assignment { spell_id: 7, dynamic_timer: None, time: 0 };
    assert_eq!(a.to_string(), "{time:00:00} - {spell:7}");
    let a = Assignment { spell_id: 7, dynamic_timer: None, time: 754 };
    assert_eq!(a.to_string(), "{time:12:34} - {spell:7}");
}

#[test]
fn assignment_text_with_timer() {
    let dt = DynamicTimer { ty: DynamicTimerType::SpellAuraApplied, spell_id: 1234, counter: 2 };
    let a = Assignment { spell_id: 47536, dynamic_timer: Some(dt), time: 30 };
    assert_eq!(a.to_string(), "{time:00:30,SAA:1234:2} - {spell:47536}");
    let dt = DynamicTimer { ty: DynamicTimerType::SpellCastStart, spell_id: -3, counter: 10 };
    let a = Assignment { spell_id: 1, dynamic_timer: Some(dt), time: 6000 };
    assert_eq!(a.to_string(), "{time:100:00,SCS:-3:10} - {spell:1}");
}

#[test]
fn assignment_text_negative_time() {
    let a = Assignment { spell_id: 1, dynamic_timer: None, time: -65 };
    assert_eq!(a.to_string(), format!("{{time:{:02}:{:02}}} - {{spell:1}}", -65i64 / 60, -65i64 % 60));
    assert_eq!(a.to_string(), "{time:-1:-5} - {spell:1}");
    let a = Assignment { spell_id: 1, dynamic_timer: None, time: -5 };
    assert_eq!(a.to_string(), "{time:00:-5} - {spell:1}");
    let a = Assignment { spell_id: i64::MIN, dynamic_timer: None, time: i64::MIN };
    let m = i64::MIN / 60;
    let s = i64::MIN % 60;
    assert_eq!(a.to_string(), format!("{{time:{:02}:{:02}}} - {{spell:{}}}", m, s, i64::MIN));
}

#[test]
fn combat_log_zero_time_is_first_event() {
    let l = log(vec![ev(500, EventType::Unknown), ev(900, EventType::Unknown)], vec![]);
    assert_eq!(l.first_event_timestamp, 500);
    assert_eq!(l.report_id, "abc");
    assert_eq!(l.fight_id, 3);
    let l = log(vec![], vec![]);
    assert_eq!(l.first_event_timestamp, 0);
}

#[test]
fn source_ids_of_events() {
    assert_eq!(cast(4, 1).source_id(), Some(4));
    assert_eq!(EventType::Death { source_id: 9, target_id: 2, target_instance: None, ability_game_id: 0 }.source_id(), Some(9));
    assert_eq!(EventType::Unknown.source_id(), None);
    assert_eq!(
        EventType::EncounterStart { encounter_id: 1, name: "x".to_string(), difficulty: 16, size: 20 }.source_id(),
        None
    );
    assert_eq!(
        EventType::EncounterEnd { encounter_id: 1, name: "x".to_string(), difficulty: 16, size: 20, kill: true }.source_id(),
        None
    );
}

fn actors() -> Vec<Actor> {
    vec![player("Pet", None), player("Other", Some("A")), player("Prie", None), player("Prie", Some("Realm"))]
}

#[test]
fn assignments_of_missing_player() {
    let l = log(vec![ev(0, cast(3, 194509))], actors());
    assert!(matches!(extract_assignments(&l, "Nobody", vec![]), Err(AssignmentError::PlayerNotFound)));
    // an actor without a server is not a player
    let l = log(vec![], vec![player("Prie", None)]);
    assert!(matches!(extract_assignments(&l, "Prie", vec![]), Err(AssignmentError::PlayerNotFound)));
}

#[test]
fn assignments_without_timers() {
    let events = vec![
        ev(1000, EventType::Unknown),
        ev(3500, cast(3, 194509)),
        ev(4000, cast(1, 194509)),
        ev(9999, cast(3, 12345)),
        ev(62000, cast(3, 47536)),
    ];
    let l = log(events, actors());
    let r = extract_assignments(&l, "Prie", vec![]).unwrap();
    assert_eq!(r.len(), 2);
    assert_eq!((r[0].spell_id, r[0].time), (194509, 2));
    assert!(r[0].dynamic_timer.is_none());
    assert_eq!((r[1].spell_id, r[1].time), (47536, 61));
    assert_eq!(r[1].to_string(), "{time:01:01} - {spell:47536}");
}

#[test]
fn assignments_relative_to_dynamic_timer() {
    let boss_cast = |t: i64| ev(t, EventType::Cast { source_id: 50, target_id: -1, ability_game_id: 777 });
    let events = vec![
        ev(0, EventType::Unknown),
        ev(5000, cast(3, 194509)),
        boss_cast(10000),
        ev(12000, cast(3, 123040)),
        boss_cast(20000),
        ev(25500, cast(3, 246287)),
        boss_cast(40000),
        ev(41000, cast(3, 271466)),
    ];
    let l = log(events, actors());
    let timers = vec![DynamicTimer { ty: DynamicTimerType::SpellCastSuccess, spell_id: 777, counter: 2 }];
    let r = extract_assignments(&l, "Prie", timers).unwrap();
    assert_eq!(r.len(), 4);
    assert_eq!(r[0].time, 5);
    assert!(r[0].dynamic_timer.is_none());
    assert_eq!(r[1].time, 12);
    assert!(r[1].dynamic_timer.is_none());
    // the second boss cast starts the timer
    assert_eq!(r[2].time, 5);
    assert_eq!(r[2].dynamic_timer.unwrap().spell_id, 777);
    // the timer fires once: the third boss cast changes nothing
    assert_eq!(r[3].time, 21);
    assert_eq!(r[3].to_string(), "{time:00:21,SCC:777:2} - {spell:271466}");
    let spells = get_default_spells(PlayerClass::Priest);
    for a in &r {
        assert!(spells.contains(&a.spell_id));
        assert!(a.dynamic_timer.map_or(true, |t| t.spell_id == 777 && t.counter == 2));
    }
}

#[test]
fn assignments_first_matching_timer_counts() {
    // two timers on the same event: only the first pending one counts it
    let events = vec![
        ev(0, EventType::ApplyBuff { source_id: 9, target_id: 3, ability_game_id: 11, absorb: None }),
        ev(2000, EventType::ApplyBuff { source_id: 9, target_id: 3, ability_game_id: 11, absorb: None }),
        ev(3000, cast(3, 47536)),
        ev(4000, EventType::ApplyBuff { source_id: 9, target_id: 3, ability_game_id: 11, absorb: None }),
        ev(9000, cast(3, 47536)),
    ];
    let l = log(events, actors());
    let timers = vec![
        DynamicTimer { ty: DynamicTimerType::SpellAuraApplied, spell_id: 11, counter: 2 },
        DynamicTimer { ty: DynamicTimerType::SpellAuraApplied, spell_id: 11, counter: 3 },
    ];
    let r = extract_assignments(&l, "Prie", timers).unwrap();
    assert_eq!(r.len(), 2);
    assert_eq!(r[0].time, 1);
    assert_eq!(r[0].dynamic_timer.unwrap().counter, 2);
    // the count is shared by kind and spell: the third aura starts the second timer
    assert_eq!(r[1].time, 5);
    assert_eq!(r[1].dynamic_timer.unwrap().counter, 3);
}

#[test]
fn assignment_times_truncate_toward_zero() {
    let events = vec![ev(10_000, EventType::Unknown), ev(8_500, cast(3, 194509)), ev(10_999, cast(3, 194509))];
    let l = log(events, actors());
    let r = extract_assignments(&l, "Prie", vec![]).unwrap();
    assert_eq!(r[0].time, -1);
    assert_eq!(r[1].time, 0);
}

#[test]
fn assignment_time_out_of_range() {
    // far-apart timestamps of other events do no harm
    let events = vec![ev(i64::MIN, EventType::Unknown), ev(i64::MAX, cast(9, 194509)), ev(1000, cast(3, 194509))];
    let mut l = log(events, actors());
    l.first_event_timestamp = 0;
    let r = extract_assignments(&l, "Prie", vec![]).unwrap();
    assert_eq!(r.len(), 1);
    assert_eq!(r[0].time, 1);
    // an assigned cast of the player too far from the time origin
    let events = vec![ev(0, EventType::Unknown), ev(i64::MIN, cast(3, 194509))];
    let mut l = log(events, actors());
    l.first_event_timestamp = 1;
    assert!(matches!(extract_assignments(&l, "Prie", vec![]), Err(AssignmentError::TimeOutOfRange)));
    // the player is looked for first
    assert!(matches!(extract_assignments(&l, "Nobody", vec![]), Err(AssignmentError::PlayerNotFound)));
}

#[test]
fn event_resources_are_carried() {
    let r = EventResources {
        hit_points: 1, max_hit_points: 2, attack_power: 3, spell_power: 4, armor: 5, absorb: 6, x: 7, y: 8,
        facing: 9, map_id: 10, versatility: 11, avoidance: 12, item_level: 13,
    };
    let e = CombatLogEvent { timestamp: 1, fight: 1, ty: EventType::Unknown, source_marker: None, target_marker: None, resources: Some(r) };
    assert_eq!(e.resources.as_ref().unwrap().hit_points, 1);
}
