use vstd::prelude::*;

use super::report::Actor;

verus! {

/// A JSON value of the log that the analysis carries through without reading it.
#[verifier::external_type_specification]
#[verifier::external_body]
pub struct ExJsonValue(serde_json::Value);

/// The events of one fight, with the report's actors.
#[derive(Debug)]
pub struct CombatLog {
    pub report_id: String,
    pub fight_id: i64,
    pub events: Vec<CombatLogEvent>,
    pub actors: Vec<Actor>,
    pub first_event_timestamp: i64,
}

impl CombatLog {
    /// Assembles the log of one fight; its zero time is the timestamp of the first
    /// event, or 0 when there is none.
    pub fn new(report_id: String, fight_id: i64, events: Vec<CombatLogEvent>, actors: Vec<Actor>) -> (r: CombatLog)
        ensures
            r.report_id == report_id,
            r.fight_id == fight_id,
            r.events == events,
            r.actors == actors,
            r.first_event_timestamp == (if events.len() > 0 { events@[0].timestamp } else { 0 }),
    {
        let first_event_timestamp = if events.len() > 0 { events[0].timestamp } else { 0 };
        CombatLog { report_id, fight_id, events, actors, first_event_timestamp }
    }
}

/// One event of a combat log.
#[derive(Debug)]
pub struct CombatLogEvent {
    pub timestamp: i64,
    pub fight: i64,
    pub ty: EventType,
    pub source_marker: Option<i64>,
    pub target_marker: Option<i64>,
    pub resources: Option<EventResources>,
}

/// The state of the unit that an event reports on.
#[derive(Debug)]
pub struct EventResources {
    pub hit_points: i64,
    pub max_hit_points: i64,
    pub attack_power: i64,
    pub spell_power: i64,
    pub armor: i64,
    pub absorb: i64,
    pub x: i64,
    pub y: i64,
    pub facing: i64,
    pub map_id: i64,
    pub versatility: i64,
    pub avoidance: i64,
    pub item_level: i64,
}

/// What happened in an event, with the fields that the kind of event carries.
#[derive(Debug)]
pub enum EventType {
    ApplyBuff {
        source_id: i64,
        target_id: i64,
        ability_game_id: i64,
        absorb: Option<i64>,
    },
    ApplyBuffStack {
        source_id: i64,
        target_id: i64,
        ability_game_id: i64,
        stack: i64,
    },
    ApplyDebuff {
        source_id: i64,
        target_id: i64,
        ability_game_id: i64,
    },
    ApplyDebuffStack {
        source_id: i64,
        target_id: i64,
        ability_game_id: i64,
        stack: i64,
    },
    AuraBroken {
        source_id: i64,
        target_id: i64,
        ability_game_id: i64,
        extra_ability_game_id: i64,
        is_buff: bool,
    },
    BeginCast {
        source_id: i64,
        target_id: i64,
        ability_game_id: i64,
    },
    Cast {
        source_id: i64,
        target_id: i64,
        ability_game_id: i64,
    },
    CombatantInfo {
        source_id: i64,
        gear: Vec<Gear>,
        auras: Vec<Aura>,
        expansion: String,
        faction: i64,
        spec_id: i64,
        strength: i64,
        agility: i64,
        stamina: i64,
        intellect: i64,
        dodge: i64,
        parry: i64,
        block: i64,
        armor: i64,
        crit_melee: i64,
        crit_ranged: i64,
        crit_spell: i64,
        haste_melee: i64,
        haste_ranged: i64,
        haste_spell: i64,
        speed: i64,
        leech: i64,
        avoidance: i64,
        mastery: i64,
        versatility_damage_done: i64,
        versatility_healing_done: i64,
        versatility_damage_reduction: i64,
        talent_tree: Vec<TalentTree>,
        talents: Vec<Option<serde_json::Value>>,
        pvp_talents: Vec<PvpTalent>,
        custom_power_set: Vec<Option<serde_json::Value>>,
        secondary_custom_power_set: Vec<Option<serde_json::Value>>,
        tertiary_custom_power_set: Vec<Option<serde_json::Value>>,
    },
    Damage {
        source_id: i64,
        target_id: i64,
        ability_game_id: i64,
        hit_type: i64,
        amount: i64,
        unmitigated_amount: Option<i64>,
    },
    EncounterStart {
        encounter_id: i64,
        name: String,
        difficulty: i64,
        size: i64,
    },
    Heal {
        source_id: i64,
        target_id: i64,
        ability_game_id: i64,
        hit_type: i64,
        amount: i64,
        overheal: Option<i64>,
        tick: bool,
    },
    RefreshBuff {
        source_id: i64,
        target_id: i64,
        ability_game_id: i64,
    },
    RefreshDebuff {
        source_id: i64,
        target_id: i64,
        ability_game_id: i64,
    },
    RemoveBuff {
        source_id: i64,
        target_id: i64,
        ability_game_id: i64,
    },
    RemoveDebuff {
        source_id: i64,
        target_id: i64,
        ability_game_id: i64,
    },
    ResourceChange {
        source_id: i64,
        target_id: i64,
        ability_game_id: i64,
        resource_change: i64,
        resource_change_type: i64,
        other_resource_change: i64,
        max_resource_amount: i64,
        waste: i64,
    },
    Summon {
        source_id: i64,
        target_id: i64,
        target_instance: Option<i64>,
        ability_game_id: i64,
    },
    Absorbed {
        source_id: i64,
        target_id: i64,
        ability_game_id: i64,
        attacker_id: i64,
        amount: i64,
        extra_ability_game_id: i64,
    },
    RemoveBuffStack {
        source_id: i64,
        target_id: i64,
        ability_game_id: i64,
        stack: i64,
    },
    ExtraAttacks {
        source_id: i64,
        target_id: i64,
        ability_game_id: i64,
        extra_attacks: i64,
    },
    InstaKill {
        source_id: i64,
        source_instance: Option<i64>,
        target_id: i64,
        target_instance: Option<i64>,
        ability_game_id: i64,
    },
    Death {
        source_id: i64,
        target_id: i64,
        target_instance: Option<i64>,
        ability_game_id: i64,
    },
    RemoveDebuffStack {
        source_id: i64,
        target_id: i64,
        ability_game_id: i64,
        stack: i64,
    },
    EmpowerStart {
        source_id: i64,
        target_id: i64,
        ability_game_id: i64,
    },
    EmpowerEnd {
        source_id: i64,
        target_id: i64,
        ability_game_id: i64,
        empowerment_level: i64,
    },
    Drain {
        source_id: i64,
        target_id: i64,
        ability_game_id: i64,
        resource_change: i64,
        resource_change_type: i64,
        other_resource_change: i64,
        max_resource_amount: i64,
    },
    Interrupt {
        source_id: i64,
        target_id: i64,
        target_instance: Option<i64>,
        target_is_friendly: Option<bool>,
        ability_game_id: i64,
        extra_ability_game_id: i64,
    },
    Destroy {
        source_id: i64,
        target_id: i64,
        target_instance: Option<i64>,
        ability_game_id: i64,
    },
    Dispel {
        source_id: i64,
        target_id: i64,
        ability_game_id: i64,
        extra_ability_game_id: i64,
        is_buff: bool,
    },
    Resurrect {
        source_id: i64,
        target_id: i64,
        ability_game_id: i64,
    },
    HealAbsorbed {
        source_id: i64,
        target_id: i64,
        ability_game_id: i64,
        healer_id: i64,
        amount: i64,
        extra_ability_game_id: i64,
    },
    EncounterEnd {
        encounter_id: i64,
        name: String,
        difficulty: i64,
        size: i64,
        kill: bool,
    },
    Unknown,
}

/// The id of the actor that caused an event; encounter markers and unknown events have none.
pub open spec fn event_source_id(ty: EventType) -> Option<i64> {
    match ty {
        EventType::ApplyBuff { source_id, .. } => Some(source_id),
        EventType::ApplyBuffStack { source_id, .. } => Some(source_id),
        EventType::ApplyDebuff { source_id, .. } => Some(source_id),
        EventType::ApplyDebuffStack { source_id, .. } => Some(source_id),
        EventType::AuraBroken { source_id, .. } => Some(source_id),
        EventType::BeginCast { source_id, .. } => Some(source_id),
        EventType::Cast { source_id, .. } => Some(source_id),
        EventType::CombatantInfo { source_id, .. } => Some(source_id),
        EventType::Damage { source_id, .. } => Some(source_id),
        EventType::Heal { source_id, .. } => Some(source_id),
        EventType::RefreshBuff { source_id, .. } => Some(source_id),
        EventType::RefreshDebuff { source_id, .. } => Some(source_id),
        EventType::RemoveBuff { source_id, .. } => Some(source_id),
        EventType::RemoveDebuff { source_id, .. } => Some(source_id),
        EventType::ResourceChange { source_id, .. } => Some(source_id),
        EventType::Summon { source_id, .. } => Some(source_id),
        EventType::Absorbed { source_id, .. } => Some(source_id),
        EventType::RemoveBuffStack { source_id, .. } => Some(source_id),
        EventType::ExtraAttacks { source_id, .. } => Some(source_id),
        EventType::InstaKill { source_id, .. } => Some(source_id),
        EventType::Death { source_id, .. } => Some(source_id),
        EventType::RemoveDebuffStack { source_id, .. } => Some(source_id),
        EventType::EmpowerStart { source_id, .. } => Some(source_id),
        EventType::EmpowerEnd { source_id, .. } => Some(source_id),
        EventType::Drain { source_id, .. } => Some(source_id),
        EventType::Interrupt { source_id, .. } => Some(source_id),
        EventType::Destroy { source_id, .. } => Some(source_id),
        EventType::Dispel { source_id, .. } => Some(source_id),
        EventType::Resurrect { source_id, .. } => Some(source_id),
        EventType::HealAbsorbed { source_id, .. } => Some(source_id),
        EventType::EncounterStart { .. } | EventType::EncounterEnd { .. } | EventType::Unknown => None,
    }
}

impl EventType {
    /// The id of the actor that caused the event, if the event has one.
    pub fn source_id(&self) -> (r: Option<i64>)
        ensures
            r == event_source_id(*self),
    {
        match self {
            EventType::ApplyBuff { source_id, .. } => Some(*source_id),
            EventType::ApplyBuffStack { source_id, .. } => Some(*source_id),
            EventType::ApplyDebuff { source_id, .. } => Some(*source_id),
            EventType::ApplyDebuffStack { source_id, .. } => Some(*source_id),
            EventType::AuraBroken { source_id, .. } => Some(*source_id),
            EventType::BeginCast { source_id, .. } => Some(*source_id),
            EventType::Cast { source_id, .. } => Some(*source_id),
            EventType::CombatantInfo { source_id, .. } => Some(*source_id),
            EventType::Damage { source_id, .. } => Some(*source_id),
            EventType::Heal { source_id, .. } => Some(*source_id),
            EventType::RefreshBuff { source_id, .. } => Some(*source_id),
            EventType::RefreshDebuff { source_id, .. } => Some(*source_id),
            EventType::RemoveBuff { source_id, .. } => Some(*source_id),
            EventType::RemoveDebuff { source_id, .. } => Some(*source_id),
            EventType::ResourceChange { source_id, .. } => Some(*source_id),
            EventType::Summon { source_id, .. } => Some(*source_id),
            EventType::Absorbed { source_id, .. } => Some(*source_id),
            EventType::RemoveBuffStack { source_id, .. } => Some(*source_id),
            EventType::ExtraAttacks { source_id, .. } => Some(*source_id),
            EventType::InstaKill { source_id, .. } => Some(*source_id),
            EventType::Death { source_id, .. } => Some(*source_id),
            EventType::RemoveDebuffStack { source_id, .. } => Some(*source_id),
            EventType::EmpowerStart { source_id, .. } => Some(*source_id),
            EventType::EmpowerEnd { source_id, .. } => Some(*source_id),
            EventType::Drain { source_id, .. } => Some(*source_id),
            EventType::Interrupt { source_id, .. } => Some(*source_id),
            EventType::Destroy { source_id, .. } => Some(*source_id),
            EventType::Dispel { source_id, .. } => Some(*source_id),
            EventType::Resurrect { source_id, .. } => Some(*source_id),
            EventType::HealAbsorbed { source_id, .. } => Some(*source_id),
            EventType::EncounterStart { .. } | EventType::EncounterEnd { .. } | EventType::Unknown => None,
        }
    }
}

/// An aura that a combatant carries when the fight starts.
#[derive(Debug)]
pub struct Aura {
    pub source: i64,
    pub ability: i64,
    pub stacks: i64,
    pub icon: String,
    pub name: String,
}

/// An item that a combatant wears.
#[derive(Debug)]
pub struct Gear {
    pub id: i64,
    pub quality: i64,
    pub icon: String,
    pub item_level: i64,
    pub permanent_enchant: Option<i64>,
    pub bonus_ids: Option<Vec<i64>>,
    pub gems: Option<Vec<Gem>>,
    pub set_id: Option<i64>,
    pub on_use_enchant: Option<i64>,
    pub temporary_enchant: Option<i64>,
}

/// A gem socketed into an item.
#[derive(Debug)]
pub struct Gem {
    pub id: i64,
    pub item_level: i64,
    pub icon: String,
}

/// A PvP talent of a combatant.
#[derive(Debug)]
pub struct PvpTalent {
    pub id: i64,
    pub icon: String,
}

/// One chosen node of a combatant's talent tree.
#[derive(Debug)]
pub struct TalentTree {
    pub id: i64,
    pub rank: i64,
    pub node_id: i64,
}

/// The expansion that a log was recorded in.
#[derive(Debug)]
pub enum Expansion {
    Dragonflight,
    Unknown,
}

} // verus!
