use vstd::prelude::*;

verus! {

/// A guild as reported by Warcraft Logs; `server` is the server's name.
#[derive(Debug, Clone)]
pub struct Guild {
    pub id: u64,
    pub name: String,
    pub server: String,
}

/// A zone and the difficulties that it offers.
#[derive(Debug, Clone)]
pub struct Zone {
    pub id: u64,
    pub difficulties: Vec<Difficulty>,
}

/// One difficulty of a zone: its numeric id and its display name.
#[derive(Debug, Clone)]
pub struct Difficulty {
    id: i64,
    name: String,
}

impl Difficulty {
    /// A difficulty with its id and name.
    pub fn new(id: i64, name: String) -> (r: Difficulty)
        ensures
            r.spec_id() == id,
            r.spec_name() == name@,
    {
        Difficulty { id, name }
    }

    /// The difficulty's id.
    pub closed spec fn spec_id(&self) -> i64 {
        self.id
    }

    /// The difficulty's name.
    pub closed spec fn spec_name(&self) -> Seq<char> {
        self.name@
    }

    /// The difficulty's id.
    pub fn id(&self) -> (r: i64)
        ensures
            r == self.spec_id(),
    {
        self.id
    }

    /// The difficulty's name.
    pub fn name(&self) -> (r: &str)
        ensures
            r@ == self.spec_name(),
    {
        self.name.as_str()
    }
}

/// The owner of a report.
#[derive(Debug, Clone)]
pub struct User {
    pub id: u64,
    pub name: String,
}

/// Who may see a report.
#[derive(Debug, Clone, Copy, PartialEq, Eq, Structural)]
pub enum ReportVisibility {
    Public,
    Private,
    Unlisted,
}

/// The actors (players, pets, NPCs) that appear in a report.
#[derive(Debug, Clone)]
pub struct MasterData {
    pub actors: Vec<Actor>,
}

/// An actor of a report; players carry the name of their server.
#[derive(Debug)]
pub struct Actor {
    pub name: String,
    pub server: Option<String>,
}

impl Clone for Actor {
    fn clone(&self) -> (r: Self)
        ensures
            r == *self,
    {
        let server = match &self.server {
            Some(s) => Some(s.clone()),
            None => None,
        };
        Actor { name: self.name.clone(), server }
    }
}

/// The actors that a fight lists by their indices into the report's actors.
pub fn fight_actors(indices: &Vec<u64>, actors: &Vec<Actor>) -> (r: Vec<Actor>)
    requires
        forall|i: int| 0 <= i < indices@.len() ==> (#[trigger] indices@[i] as usize) < actors@.len(),
    ensures
        r@.len() == indices@.len(),
        forall|i: int| 0 <= i < indices@.len() ==> #[trigger] r@[i] == actors@[(indices@[i] as usize) as int],
{
    let mut out: Vec<Actor> = Vec::new();
    let mut k: usize = 0;
    while k < indices.len()
        invariant
            0 <= k <= indices@.len(),
            forall|i: int| 0 <= i < indices@.len() ==> (#[trigger] indices@[i] as usize) < actors@.len(),
            out@.len() == k,
            forall|i: int| 0 <= i < k ==> #[trigger] out@[i] == actors@[(indices@[i] as usize) as int],
        decreases indices@.len() - k,
    {
        let idx = indices[k] as usize;
        out.push(actors[idx].clone());
        k += 1;
    }
    out
}

/// `i` is the first difficulty of `ds` with the id `id`.
pub open spec fn is_first_difficulty(ds: Seq<Difficulty>, id: i64, i: int) -> bool {
    &&& 0 <= i < ds.len()
    &&& ds[i].spec_id() == id
    &&& forall|j: int| 0 <= j < i ==> (#[trigger] ds[j]).spec_id() != id
}

/// The name of a fight's difficulty: that of the zone's first difficulty with its id, or
/// `Unknown` when the fight has none or the zone does not list it.
pub open spec fn difficulty_name_of(difficulty: Option<i64>, zone: Zone) -> Seq<char> {
    match difficulty {
        Some(id) => if exists|i: int| is_first_difficulty(zone.difficulties@, id, i) {
            zone.difficulties@[choose|i: int| is_first_difficulty(zone.difficulties@, id, i)].spec_name()
        } else {
            "Unknown"@
        },
        None => "Unknown"@,
    }
}

/// The name of a fight's difficulty in `zone`.
pub fn fight_difficulty_name(difficulty: Option<i64>, zone: &Zone) -> (r: String)
    ensures
        r@ == difficulty_name_of(difficulty, *zone),
{
    match difficulty {
        Some(id) => {
            let ds = &zone.difficulties;
            let mut k: usize = 0;
            while k < ds.len()
                invariant
                    0 <= k <= ds@.len(),
                    ds == &zone.difficulties,
                    difficulty == Some(id),
                    forall|j: int| 0 <= j < k ==> (#[trigger] ds@[j]).spec_id() != id,
                decreases ds@.len() - k,
            {
                if ds[k].id() == id {
                    proof {
                        assert(is_first_difficulty(ds@, id, k as int));
                        let c = choose|i: int| is_first_difficulty(ds@, id, i);
                        if c < k {
                            assert(ds@[c].spec_id() != id);
                        }
                        if k < c {
                            assert(ds@[k as int].spec_id() != id);
                        }

                    }
                    return ds[k].name().to_owned();
                }
                k += 1;
            }
            "Unknown".to_owned()
        },
        None => "Unknown".to_owned(),
    }
}

/// The playable classes.
#[derive(Debug, Clone, Copy, PartialEq, Eq, Structural)]
pub enum PlayerClass {
    Warrior,
    Paladin,
    Hunter,
    Rogue,
    Priest,
    DeathKnight,
    Shaman,
    Mage,
    Warlock,
    Monk,
    Druid,
    DemonHunter,
    Evoker,
}

/// The difficulty ids of the game; each variant stands for the id that
/// `wow_difficulty_id` gives it.
#[derive(Debug, Clone, Copy, PartialEq, Eq, Structural)]
pub enum WowDifficulty {
    PartyNormal,
    PartyHeroic,
    Raid10Normal,
    Raid25Normal,
    Raid10Heroic,
    Raid25Heroic,
    RaidLegacyLookingForRaid,
    MythicKeystone,
    Raid40,
    ScenarioHeroic,
    ScenarioNormal,
    RaidNormal,
    RaidHeroic,
    RaidMythic,
    RaidLookingForRaid,
    EventRaid,
    EventParty,
    EventScenario,
    PartyMythic,
    PartyTimeWalking,
    ScenarioWorldPvp,
    ScenarioPvEvP,
    ScenarioEvent,
    ScenarioWorldPvp2,
    RaidTimeWalking,
    Pvp,
    ScenarioNormal2,
    ScenarioHeroic2,
    ScenarioMythic,
    ScenarioPvp,
    WarfrontNormal,
    Raid20,
    WarfrontHeroic,
    PartyNormal2,
    RaidLookingForRaidTimeWalking,
    ScenarioVisionsOfNzoth,
    ScenarioTeemingIsland,
    ScenarioTorghast,
    ScenarioPathOfAscensionCourage,
    ScenarioPathOfAscensionLoyalty,
    ScenarioPathOfAscensionWisdom,
    ScenarioPathOfAscensionHumility,
    WorldBoss,
    ClassicPartyNormal,
    ClassicPartyHeroic,
    ClassicRaid10,
    ClassicRaid25,
    ChallengeLevel1,
    ClassicRaid10Heroic,
    ClassicRaid25Heroic,
}

/// The game's numeric id of a difficulty.
pub open spec fn wow_difficulty_id(d: WowDifficulty) -> i64 {
    match d {
        WowDifficulty::PartyNormal => 1,
        WowDifficulty::PartyHeroic => 2,
        WowDifficulty::Raid10Normal => 3,
        WowDifficulty::Raid25Normal => 4,
        WowDifficulty::Raid10Heroic => 5,
        WowDifficulty::Raid25Heroic => 6,
        WowDifficulty::RaidLegacyLookingForRaid => 7,
        WowDifficulty::MythicKeystone => 8,
        WowDifficulty::Raid40 => 9,
        WowDifficulty::ScenarioHeroic => 11,
        WowDifficulty::ScenarioNormal => 12,
        WowDifficulty::RaidNormal => 14,
        WowDifficulty::RaidHeroic => 15,
        WowDifficulty::RaidMythic => 16,
        WowDifficulty::RaidLookingForRaid => 17,
        WowDifficulty::EventRaid => 18,
        WowDifficulty::EventParty => 19,
        WowDifficulty::EventScenario => 20,
        WowDifficulty::PartyMythic => 23,
        WowDifficulty::PartyTimeWalking => 24,
        WowDifficulty::ScenarioWorldPvp => 25,
        WowDifficulty::ScenarioPvEvP => 29,
        WowDifficulty::ScenarioEvent => 30,
        WowDifficulty::ScenarioWorldPvp2 => 32,
        WowDifficulty::RaidTimeWalking => 33,
        WowDifficulty::Pvp => 34,
        WowDifficulty::ScenarioNormal2 => 38,
        WowDifficulty::ScenarioHeroic2 => 39,
        WowDifficulty::ScenarioMythic => 40,
        WowDifficulty::ScenarioPvp => 45,
        WowDifficulty::WarfrontNormal => 147,
        WowDifficulty::Raid20 => 148,
        WowDifficulty::WarfrontHeroic => 149,
        WowDifficulty::PartyNormal2 => 150,
        WowDifficulty::RaidLookingForRaidTimeWalking => 151,
        WowDifficulty::ScenarioVisionsOfNzoth => 152,
        WowDifficulty::ScenarioTeemingIsland => 153,
        WowDifficulty::ScenarioTorghast => 167,
        WowDifficulty::ScenarioPathOfAscensionCourage => 168,
        WowDifficulty::ScenarioPathOfAscensionLoyalty => 169,
        WowDifficulty::ScenarioPathOfAscensionWisdom => 170,
        WowDifficulty::ScenarioPathOfAscensionHumility => 171,
        WowDifficulty::WorldBoss => 172,
        WowDifficulty::ClassicPartyNormal => 173,
        WowDifficulty::ClassicPartyHeroic => 174,
        WowDifficulty::ClassicRaid10 => 175,
        WowDifficulty::ClassicRaid25 => 176,
        WowDifficulty::ChallengeLevel1 => 192,
        WowDifficulty::ClassicRaid10Heroic => 193,
        WowDifficulty::ClassicRaid25Heroic => 194,
    }
}

/// The difficulty that carries a numeric id, if any does.
pub open spec fn wow_difficulty_from_id(id: i64) -> Option<WowDifficulty> {
    match id {
        1 => Some(WowDifficulty::PartyNormal),
        2 => Some(WowDifficulty::PartyHeroic),
        3 => Some(WowDifficulty::Raid10Normal),
        4 => Some(WowDifficulty::Raid25Normal),
        5 => Some(WowDifficulty::Raid10Heroic),
        6 => Some(WowDifficulty::Raid25Heroic),
        7 => Some(WowDifficulty::RaidLegacyLookingForRaid),
        8 => Some(WowDifficulty::MythicKeystone),
        9 => Some(WowDifficulty::Raid40),
        11 => Some(WowDifficulty::ScenarioHeroic),
        12 => Some(WowDifficulty::ScenarioNormal),
        14 => Some(WowDifficulty::RaidNormal),
        15 => Some(WowDifficulty::RaidHeroic),
        16 => Some(WowDifficulty::RaidMythic),
        17 => Some(WowDifficulty::RaidLookingForRaid),
        18 => Some(WowDifficulty::EventRaid),
        19 => Some(WowDifficulty::EventParty),
        20 => Some(WowDifficulty::EventScenario),
        23 => Some(WowDifficulty::PartyMythic),
        24 => Some(WowDifficulty::PartyTimeWalking),
        25 => Some(WowDifficulty::ScenarioWorldPvp),
        29 => Some(WowDifficulty::ScenarioPvEvP),
        30 => Some(WowDifficulty::ScenarioEvent),
        32 => Some(WowDifficulty::ScenarioWorldPvp2),
        33 => Some(WowDifficulty::RaidTimeWalking),
        34 => Some(WowDifficulty::Pvp),
        38 => Some(WowDifficulty::ScenarioNormal2),
        39 => Some(WowDifficulty::ScenarioHeroic2),
        40 => Some(WowDifficulty::ScenarioMythic),
        45 => Some(WowDifficulty::ScenarioPvp),
        147 => Some(WowDifficulty::WarfrontNormal),
        148 => Some(WowDifficulty::Raid20),
        149 => Some(WowDifficulty::WarfrontHeroic),
        150 => Some(WowDifficulty::PartyNormal2),
        151 => Some(WowDifficulty::RaidLookingForRaidTimeWalking),
        152 => Some(WowDifficulty::ScenarioVisionsOfNzoth),
        153 => Some(WowDifficulty::ScenarioTeemingIsland),
        167 => Some(WowDifficulty::ScenarioTorghast),
        168 => Some(WowDifficulty::ScenarioPathOfAscensionCourage),
        169 => Some(WowDifficulty::ScenarioPathOfAscensionLoyalty),
        170 => Some(WowDifficulty::ScenarioPathOfAscensionWisdom),
        171 => Some(WowDifficulty::ScenarioPathOfAscensionHumility),
        172 => Some(WowDifficulty::WorldBoss),
        173 => Some(WowDifficulty::ClassicPartyNormal),
        174 => Some(WowDifficulty::ClassicPartyHeroic),
        175 => Some(WowDifficulty::ClassicRaid10),
        176 => Some(WowDifficulty::ClassicRaid25),
        192 => Some(WowDifficulty::ChallengeLevel1),
        193 => Some(WowDifficulty::ClassicRaid10Heroic),
        194 => Some(WowDifficulty::ClassicRaid25Heroic),
        _ => None,
    }
}

impl WowDifficulty {
    /// The game's numeric id of this difficulty.
    pub fn id(&self) -> (r: i64)
        ensures
            r == wow_difficulty_id(*self),
    {
        match self {
            WowDifficulty::PartyNormal => 1,
            WowDifficulty::PartyHeroic => 2,
            WowDifficulty::Raid10Normal => 3,
            WowDifficulty::Raid25Normal => 4,
            WowDifficulty::Raid10Heroic => 5,
            WowDifficulty::Raid25Heroic => 6,
            WowDifficulty::RaidLegacyLookingForRaid => 7,
            WowDifficulty::MythicKeystone => 8,
            WowDifficulty::Raid40 => 9,
            WowDifficulty::ScenarioHeroic => 11,
            WowDifficulty::ScenarioNormal => 12,
            WowDifficulty::RaidNormal => 14,
            WowDifficulty::RaidHeroic => 15,
            WowDifficulty::RaidMythic => 16,
            WowDifficulty::RaidLookingForRaid => 17,
            WowDifficulty::EventRaid => 18,
            WowDifficulty::EventParty => 19,
            WowDifficulty::EventScenario => 20,
            WowDifficulty::PartyMythic => 23,
            WowDifficulty::PartyTimeWalking => 24,
            WowDifficulty::ScenarioWorldPvp => 25,
            WowDifficulty::ScenarioPvEvP => 29,
            WowDifficulty::ScenarioEvent => 30,
            WowDifficulty::ScenarioWorldPvp2 => 32,
            WowDifficulty::RaidTimeWalking => 33,
            WowDifficulty::Pvp => 34,
            WowDifficulty::ScenarioNormal2 => 38,
            WowDifficulty::ScenarioHeroic2 => 39,
            WowDifficulty::ScenarioMythic => 40,
            WowDifficulty::ScenarioPvp => 45,
            WowDifficulty::WarfrontNormal => 147,
            WowDifficulty::Raid20 => 148,
            WowDifficulty::WarfrontHeroic => 149,
            WowDifficulty::PartyNormal2 => 150,
            WowDifficulty::RaidLookingForRaidTimeWalking => 151,
            WowDifficulty::ScenarioVisionsOfNzoth => 152,
            WowDifficulty::ScenarioTeemingIsland => 153,
            WowDifficulty::ScenarioTorghast => 167,
            WowDifficulty::ScenarioPathOfAscensionCourage => 168,
            WowDifficulty::ScenarioPathOfAscensionLoyalty => 169,
            WowDifficulty::ScenarioPathOfAscensionWisdom => 170,
            WowDifficulty::ScenarioPathOfAscensionHumility => 171,
            WowDifficulty::WorldBoss => 172,
            WowDifficulty::ClassicPartyNormal => 173,
            WowDifficulty::ClassicPartyHeroic => 174,
            WowDifficulty::ClassicRaid10 => 175,
            WowDifficulty::ClassicRaid25 => 176,
            WowDifficulty::ChallengeLevel1 => 192,
            WowDifficulty::ClassicRaid10Heroic => 193,
            WowDifficulty::ClassicRaid25Heroic => 194,
        }
    }

    /// The difficulty with the given numeric id, or `None` where no difficulty has it.
    pub fn from_id(id: i64) -> (r: Option<WowDifficulty>)
        ensures
            r == wow_difficulty_from_id(id),
    {
        match id {
            1 => Some(WowDifficulty::PartyNormal),
            2 => Some(WowDifficulty::PartyHeroic),
            3 => Some(WowDifficulty::Raid10Normal),
            4 => Some(WowDifficulty::Raid25Normal),
            5 => Some(WowDifficulty::Raid10Heroic),
            6 => Some(WowDifficulty::Raid25Heroic),
            7 => Some(WowDifficulty::RaidLegacyLookingForRaid),
            8 => Some(WowDifficulty::MythicKeystone),
            9 => Some(WowDifficulty::Raid40),
            11 => Some(WowDifficulty::ScenarioHeroic),
            12 => Some(WowDifficulty::ScenarioNormal),
            14 => Some(WowDifficulty::RaidNormal),
            15 => Some(WowDifficulty::RaidHeroic),
            16 => Some(WowDifficulty::RaidMythic),
            17 => Some(WowDifficulty::RaidLookingForRaid),
            18 => Some(WowDifficulty::EventRaid),
            19 => Some(WowDifficulty::EventParty),
            20 => Some(WowDifficulty::EventScenario),
            23 => Some(WowDifficulty::PartyMythic),
            24 => Some(WowDifficulty::PartyTimeWalking),
            25 => Some(WowDifficulty::ScenarioWorldPvp),
            29 => Some(WowDifficulty::ScenarioPvEvP),
            30 => Some(WowDifficulty::ScenarioEvent),
            32 => Some(WowDifficulty::ScenarioWorldPvp2),
            33 => Some(WowDifficulty::RaidTimeWalking),
            34 => Some(WowDifficulty::Pvp),
            38 => Some(WowDifficulty::ScenarioNormal2),
            39 => Some(WowDifficulty::ScenarioHeroic2),
            40 => Some(WowDifficulty::ScenarioMythic),
            45 => Some(WowDifficulty::ScenarioPvp),
            147 => Some(WowDifficulty::WarfrontNormal),
            148 => Some(WowDifficulty::Raid20),
            149 => Some(WowDifficulty::WarfrontHeroic),
            150 => Some(WowDifficulty::PartyNormal2),
            151 => Some(WowDifficulty::RaidLookingForRaidTimeWalking),
            152 => Some(WowDifficulty::ScenarioVisionsOfNzoth),
            153 => Some(WowDifficulty::ScenarioTeemingIsland),
            167 => Some(WowDifficulty::ScenarioTorghast),
            168 => Some(WowDifficulty::ScenarioPathOfAscensionCourage),
            169 => Some(WowDifficulty::ScenarioPathOfAscensionLoyalty),
            170 => Some(WowDifficulty::ScenarioPathOfAscensionWisdom),
            171 => Some(WowDifficulty::ScenarioPathOfAscensionHumility),
            172 => Some(WowDifficulty::WorldBoss),
            173 => Some(WowDifficulty::ClassicPartyNormal),
            174 => Some(WowDifficulty::ClassicPartyHeroic),
            175 => Some(WowDifficulty::ClassicRaid10),
            176 => Some(WowDifficulty::ClassicRaid25),
            192 => Some(WowDifficulty::ChallengeLevel1),
            193 => Some(WowDifficulty::ClassicRaid10Heroic),
            194 => Some(WowDifficulty::ClassicRaid25Heroic),
            _ => None,
        }
    }
}

/// Reading a difficulty back from its numeric id gives the same difficulty.
pub proof fn lemma_wow_difficulty_id_roundtrip(d: WowDifficulty)
    ensures
        wow_difficulty_from_id(wow_difficulty_id(d)) == Some(d),
{
}

/// A numeric id that names a difficulty is that difficulty's id.
pub proof fn lemma_wow_difficulty_from_id_inverse(id: i64)
    ensures
        wow_difficulty_from_id(id) matches Some(d) ==> wow_difficulty_id(d) == id,
{
}

} // verus!
