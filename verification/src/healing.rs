//! The healing analysis: which heals are judged, and where each judged heal's target stood
//! among the living players ranked by health.

use std::collections::HashMap;

use vstd::prelude::*;

use crate::warcraft_logs::combat_log::{CombatLog, CombatLogEvent, EventResources, EventType};

pub mod spell_table;

pub use spell_table::{parse_spell_line, parse_spell_map, spell_line_is_sliceable, spell_table_is_sliceable};

verus! {

broadcast use vstd::std_specs::hash::group_hash_axioms;

/// The specializations that heal: Restoration Druid, Mistweaver Monk, Holy Paladin,
/// Discipline Priest, Holy Priest, Restoration Shaman, Preservation Evoker.
pub open spec fn is_healer_spec(spec_id: i64) -> bool {
    ||| spec_id == 105
    ||| spec_id == 270
    ||| spec_id == 65
    ||| spec_id == 256
    ||| spec_id == 257
    ||| spec_id == 264
    ||| spec_id == 1468
}

/// Whether a specialization heals.
pub fn healer_spec(spec_id: i64) -> (r: bool)
    ensures
        r == is_healer_spec(spec_id),
{
    spec_id == 105 || spec_id == 270 || spec_id == 65 || spec_id == 256 || spec_id == 257 || spec_id == 264
        || spec_id == 1468
}

/// `s` with `x` added at the end unless it is already there.
pub open spec fn add_unique(s: Seq<i64>, x: i64) -> Seq<i64> {
    if s.contains(x) {
        s
    } else {
        s.push(x)
    }
}

/// The players and the healers that the combatant records at the head of the first `n`
/// events name, each once and in the order first seen, and whether that head has ended:
/// the head is made of encounter starts and combatant records, and ends at the first
/// other event.
pub open spec fn roster_upto(events: Seq<CombatLogEvent>, n: nat) -> (Seq<i64>, Seq<i64>, bool)
    decreases n,
{
    if n == 0 || n > events.len() {
        (seq![], seq![], false)
    } else {
        let (players, healers, ended) = roster_upto(events, (n - 1) as nat);
        if ended {
            (players, healers, true)
        } else {
            match events[n - 1].ty {
                EventType::EncounterStart { .. } => (players, healers, false),
                EventType::CombatantInfo { source_id, spec_id, .. } => (
                    add_unique(players, source_id),
                    if is_healer_spec(spec_id) { add_unique(healers, source_id) } else { healers },
                    false,
                ),
                _ => (players, healers, true),
            }
        }
    }
}

/// The players and healers of a log.
pub open spec fn roster(events: Seq<CombatLogEvent>) -> (Seq<i64>, Seq<i64>) {
    let r = roster_upto(events, events.len());
    (r.0, r.1)
}

fn contains_id(v: &Vec<i64>, x: i64) -> (r: bool)
    ensures
        r == v@.contains(x),
{
    let mut k: usize = 0;
    while k < v.len()
        invariant
            0 <= k <= v.len(),
            forall|j: int| 0 <= j < k ==> v@[j] != x,
        decreases v.len() - k,
    {
        if v[k] == x {
            return true;
        }
        k += 1;
    }
    false
}

fn push_unique(v: &mut Vec<i64>, x: i64)
    ensures
        final(v)@ == add_unique(old(v)@, x),
{
    if !contains_id(v, x) {
        v.push(x);
    }
}

/// Collects the players and the healers from the combatant records at the head of the log.
fn collect_roster(events: &Vec<CombatLogEvent>) -> (r: (Vec<i64>, Vec<i64>))
    ensures
        (r.0@, r.1@) == roster(events@),
{
    let mut players: Vec<i64> = Vec::new();
    let mut healers: Vec<i64> = Vec::new();
    let mut ended = false;
    let n = events.len();
    let mut i: usize = 0;
    while i < n
        invariant
            n == events@.len(),
            0 <= i <= n,
            roster_upto(events@, i as nat) == (players@, healers@, ended),
        decreases n - i,
    {
        if !ended {
            match &events[i].ty {
                EventType::EncounterStart { .. } => {},
                EventType::CombatantInfo { source_id, spec_id, .. } => {
                    if healer_spec(*spec_id) {
                        push_unique(&mut healers, *source_id);
                    }
                    push_unique(&mut players, *source_id);
                },
                _ => {
                    ended = true;
                },
            }
        }
        i += 1;
    }
    (players, healers)
}


/// Event `e` is a cast by one of `healers` on one of `players`.
pub open spec fn is_healer_cast_on_player(e: CombatLogEvent, healers: Seq<i64>, players: Seq<i64>) -> bool {
    match e.ty {
        EventType::Cast { source_id, target_id, .. } => healers.contains(source_id) && players.contains(target_id),
        _ => false,
    }
}

/// The ability of a cast.
pub open spec fn cast_ability(e: CombatLogEvent) -> i64 {
    match e.ty {
        EventType::Cast { ability_game_id, .. } => ability_game_id,
        _ => 0,
    }
}

/// The names of the spells that healers cast on players among the first `n` events.
pub open spec fn healer_cast_names(
    events: Seq<CombatLogEvent>,
    n: int,
    healers: Seq<i64>,
    players: Seq<i64>,
    names: Map<i64, String>,
) -> Set<Seq<char>> {
    Set::new(
        |name: Seq<char>|
            exists|i: int|
                0 <= i < n && #[trigger] is_healer_cast_on_player(events[i], healers, players)
                    && names[cast_ability(events[i])]@ == name,
    )
}

/// Spells that healers cast on players but that do not heal.
pub open spec fn is_excluded_spell(name: Seq<char>) -> bool {
    ||| name == "Power Infusion"@
    ||| name == "Blessing of Autumn"@
    ||| name == "Cleanse"@
    ||| name == "Naturalize"@
    ||| name == "Blessing of Winter"@
}

/// The spells whose heals are judged: Atonement and every spell that a healer casts on a
/// player somewhere in the log, but for the excluded ones.
pub open spec fn valid_heal_spell_names(
    events: Seq<CombatLogEvent>,
    healers: Seq<i64>,
    players: Seq<i64>,
    names: Map<i64, String>,
) -> Set<Seq<char>> {
    healer_cast_names(events, events.len() as int, healers, players, names).insert("Atonement"@).filter(
        |name: Seq<char>| !is_excluded_spell(name),
    )
}

/// Every spell that a healer casts on a player has a name in `names`.
pub open spec fn casts_are_named(events: Seq<CombatLogEvent>, healers: Seq<i64>, players: Seq<i64>, names: Map<i64, String>) -> bool {
    forall|i: int|
        0 <= i < events.len() && #[trigger] is_healer_cast_on_player(events[i], healers, players)
            ==> names.contains_key(cast_ability(events[i]))
}

/// The names held by `v`, as a set.
pub open spec fn name_set(v: Seq<String>) -> Set<Seq<char>> {
    Set::new(|name: Seq<char>| exists|i: int| 0 <= i < v.len() && (#[trigger] v[i])@ == name)
}

/// No name stands twice in `v`.
pub open spec fn names_distinct(v: Seq<String>) -> bool {
    forall|i: int, j: int| 0 <= i < j < v.len() ==> (#[trigger] v[i])@ != (#[trigger] v[j])@
}

fn contains_name(v: &Vec<String>, name: &String) -> (r: bool)
    ensures
        r == name_set(v@).contains(name@),
{
    let mut k: usize = 0;
    while k < v.len()
        invariant
            0 <= k <= v.len(),
            forall|j: int| 0 <= j < k ==> (#[trigger] v@[j])@ != name@,
        decreases v.len() - k,
    {
        if v[k] == *name {
            assert(name_set(v@).contains(name@)) by {
                assert(v@[k as int]@ == name@);
            }
            return true;
        }
        k += 1;
    }
    false
}

fn is_excluded(name: &String) -> (r: bool)
    ensures
        r == is_excluded_spell(name@),
{
    let a = "Power Infusion".to_owned();
    let b = "Blessing of Autumn".to_owned();
    let c = "Cleanse".to_owned();
    let d = "Naturalize".to_owned();
    let e = "Blessing of Winter".to_owned();
    *name == a || *name == b || *name == c || *name == d || *name == e
}

/// Collects the spells whose heals are judged, each once.
fn collect_valid_heal_spells(events: &Vec<CombatLogEvent>, healers: &Vec<i64>, players: &Vec<i64>, names: &HashMap<i64, String>) -> (r: Vec<String>)
    requires
        casts_are_named(events@, healers@, players@, names@),
    ensures
        name_set(r@) == valid_heal_spell_names(events@, healers@, players@, names@),
        names_distinct(r@),
{
    let mut found: Vec<String> = Vec::new();
    found.push("Atonement".to_owned());
    let n = events.len();
    let mut i: usize = 0;
    assert(name_set(found@) =~= healer_cast_names(events@, 0, healers@, players@, names@).insert("Atonement"@)) by {
        assert(found@[0]@ == "Atonement"@);
    }
    while i < n
        invariant
            n == events@.len(),
            0 <= i <= n,
            casts_are_named(events@, healers@, players@, names@),
            name_set(found@) == healer_cast_names(events@, i as int, healers@, players@, names@).insert("Atonement"@),
            names_distinct(found@),
        decreases n - i,
    {
        let ghost before = found@;
        match &events[i].ty {
            EventType::Cast { source_id, target_id, ability_game_id, .. } => {
                if contains_id(healers, *source_id) && contains_id(players, *target_id) {
                    assert(is_healer_cast_on_player(events@[i as int], healers@, players@));
                    let name = match names.get(ability_game_id) {
                        Some(nm) => nm,
                        None => {
                            assert(false);
                            return Vec::new();
                        },
                    };
                    if !contains_name(&found, name) {
                        found.push(name.clone());
                        assert(found@.drop_last() == before);
                        assert(found@[found@.len() - 1]@ == name@);
                    }
                    assert(name_set(found@).contains(names@[cast_ability(events@[i as int])]@));
                }
            },
            _ => {},
        }
        assert(is_healer_cast_on_player(events@[i as int], healers@, players@) ==> name_set(found@).contains(
            names@[cast_ability(events@[i as int])]@,
        ));
        assert(name_set(found@) =~= healer_cast_names(events@, i + 1, healers@, players@, names@).insert("Atonement"@)) by {
            assert forall|name: Seq<char>| name_set(found@).contains(name) implies healer_cast_names(events@, i + 1, healers@, players@, names@).insert("Atonement"@).contains(name) by {
                let j = choose|j: int| 0 <= j < found@.len() && (#[trigger] found@[j])@ == name;
                if j < before.len() {
                    assert(before[j] == found@[j]);
                    assert(name_set(before).contains(name));
                    if name != "Atonement"@ {
                        let k = choose|k: int| 0 <= k < i && #[trigger] is_healer_cast_on_player(events@[k], healers@, players@)
                            && names@[cast_ability(events@[k])]@ == name;
                    }
                }
            }
            assert forall|name: Seq<char>| healer_cast_names(events@, i + 1, healers@, players@, names@).insert("Atonement"@).contains(name) implies name_set(found@).contains(name) by {
                if name != "Atonement"@ {
                    let k = choose|k: int| 0 <= k < i + 1 && #[trigger] is_healer_cast_on_player(events@[k], healers@, players@)
                        && names@[cast_ability(events@[k])]@ == name;
                    if k < i {
                        assert(healer_cast_names(events@, i as int, healers@, players@, names@).contains(name));
                        assert(name_set(before).contains(name));
                        let j = choose|j: int| 0 <= j < before.len() && (#[trigger] before[j])@ == name;
                        assert(found@[j] == before[j]);
                    }
                } else {
                    assert(name_set(before).contains(name));
                    let j = choose|j: int| 0 <= j < before.len() && (#[trigger] before[j])@ == name;
                    assert(found@[j] == before[j]);
                }
            }
        }
        i += 1;
    }
    let mut kept: Vec<String> = Vec::new();
    let mut k: usize = 0;
    while k < found.len()
        invariant
            0 <= k <= found.len(),
            names_distinct(found@),
            forall|j: int| 0 <= j < kept@.len() ==> name_set(found@.take(k as int)).contains((#[trigger] kept@[j])@),
            name_set(kept@) == name_set(found@.take(k as int)).filter(|name: Seq<char>| !is_excluded_spell(name)),
            names_distinct(kept@),
        decreases found.len() - k,
    {
        let ghost before = kept@;
        let ghost prefix = found@.take(k as int);
        let ghost prefix2 = found@.take(k + 1);
        assert(prefix2 =~= prefix.push(found@[k as int]));
        assert(!name_set(prefix).contains(found@[k as int]@)) by {
            if name_set(prefix).contains(found@[k as int]@) {
                let j = choose|j: int| 0 <= j < prefix.len() && (#[trigger] prefix[j])@ == found@[k as int]@;
                assert(found@[j] == prefix[j]);
            }
        }
        if !is_excluded(&found[k]) {
            kept.push(found[k].clone());
            assert(kept@.drop_last() == before);
        }
        assert forall|j: int| 0 <= j < kept@.len() implies name_set(prefix2).contains((#[trigger] kept@[j])@) by {
            if j < before.len() {
                assert(kept@[j] == before[j]);
                let t = choose|t: int| 0 <= t < prefix.len() && (#[trigger] prefix[t])@ == before[j]@;
                assert(prefix2[t] == prefix[t]);
            } else {
                assert(prefix2[k as int] == found@[k as int]);
            }
        }
        assert(name_set(kept@) =~= name_set(prefix2).filter(|name: Seq<char>| !is_excluded_spell(name))) by {
            assert forall|name: Seq<char>| name_set(kept@).contains(name) implies name_set(prefix2).filter(|name: Seq<char>| !is_excluded_spell(name)).contains(name) by {
                let j = choose|j: int| 0 <= j < kept@.len() && (#[trigger] kept@[j])@ == name;
                if j < before.len() {
                    assert(kept@[j] == before[j]);
                    assert(name_set(before).contains(name));
                    let t = choose|t: int| 0 <= t < prefix.len() && (#[trigger] prefix[t])@ == name;
                    assert(prefix2[t] == prefix[t]);
                } else {
                    assert(prefix2[k as int] == found@[k as int]);
                }
            }
            assert forall|name: Seq<char>| name_set(prefix2).filter(|name: Seq<char>| !is_excluded_spell(name)).contains(name) implies name_set(kept@).contains(name) by {
                let t = choose|t: int| 0 <= t < prefix2.len() && (#[trigger] prefix2[t])@ == name;
                if t < prefix.len() {
                    assert(prefix[t] == prefix2[t]);
                    assert(name_set(prefix).filter(|name: Seq<char>| !is_excluded_spell(name)).contains(name));
                    assert(name_set(before).contains(name));
                    let j = choose|j: int| 0 <= j < before.len() && (#[trigger] before[j])@ == name;
                    assert(kept@[j] == before[j]);
                } else {
                    assert(kept@.last()@ == name);
                }
            }
        }
        assert(names_distinct(kept@)) by {
            assert forall|a: int, c: int| 0 <= a < c < kept@.len() implies (#[trigger] kept@[a])@ != (#[trigger] kept@[c])@ by {
                if c >= before.len() {
                    assert(kept@[a] == before[a]);
                    assert(name_set(prefix).contains(before[a]@));
                } else {
                    assert(kept@[a] == before[a]);
                    assert(kept@[c] == before[c]);
                }
            }
        }
        k += 1;
    }
    assert(found@.take(found@.len() as int) =~= found@);
    kept
}


/// One judged heal: the healer, where the target stood among the living players ranked by
/// health, lowest first (0 is the lowest), and how many players were ranked.
#[derive(Debug, Clone, Copy, PartialEq, Eq, Structural)]
pub struct HealRecord {
    pub healer_id: i64,
    pub position: usize,
    pub ranked: usize,
}

/// The last known hit points of a unit; 0 when none is known.
pub open spec fn health_of(h: Map<i64, i64>, id: i64) -> i64 {
    if h.contains_key(id) {
        h[id]
    } else {
        0
    }
}

/// How many units of `s` have less health than `v`.
pub open spec fn count_lower(s: Seq<i64>, h: Map<i64, i64>, v: i64) -> nat
    decreases s.len(),
{
    if s.len() == 0 {
        0
    } else {
        count_lower(s.drop_last(), h, v) + if health_of(h, s.last()) < v { 1nat } else { 0nat }
    }
}

/// How many units of `s` have exactly the health `v`.
pub open spec fn count_equal(s: Seq<i64>, h: Map<i64, i64>, v: i64) -> nat
    decreases s.len(),
{
    if s.len() == 0 {
        0
    } else {
        count_equal(s.drop_last(), h, v) + if health_of(h, s.last()) == v { 1nat } else { 0nat }
    }
}

/// Where `x` stands in `s`.
pub open spec fn index_in(s: Seq<i64>, x: i64) -> int {
    choose|i: int| 0 <= i < s.len() && s[i] == x
}

/// Where `t` stands when the units of `alive` are sorted by health, lowest first, by a
/// stable sort of `alive` in its order: the units with less health, then those with the
/// same health that come before `t`.
pub open spec fn rank_position(alive: Seq<i64>, h: Map<i64, i64>, t: i64) -> nat {
    let v = health_of(h, t);
    count_lower(alive, h, v) + count_equal(alive.take(index_in(alive, t)), h, v)
}

/// `s` without `x`.
pub open spec fn without(s: Seq<i64>, x: i64) -> Seq<i64>
    decreases s.len(),
{
    if s.len() == 0 {
        s
    } else if s.last() == x {
        without(s.drop_last(), x)
    } else {
        without(s.drop_last(), x).push(s.last())
    }
}

/// The name of a spell, or `Unknown` when the table has none.
pub open spec fn spell_name_or_unknown(names: Map<i64, String>, ability: i64) -> Seq<char> {
    if names.contains_key(ability) {
        names[ability]@
    } else {
        "Unknown"@
    }
}

/// The known hit points after an event that reports on unit `id`.
pub open spec fn record_health(h: Map<i64, i64>, id: i64, resources: Option<EventResources>) -> Map<i64, i64> {
    match resources {
        Some(r) => h.insert(id, r.hit_points),
        None => h,
    }
}

/// While the log is walked: the last known hit points, the living players and the heals
/// judged so far.
pub type HealState = (Map<i64, i64>, Seq<i64>, Seq<HealRecord>);

/// Whether a heal is judged: it is by a healer, of a judged spell, on a living player,
/// without overheal, and there is more than one living player to rank.
pub open spec fn is_judged_heal(
    st: HealState,
    e: CombatLogEvent,
    healers: Seq<i64>,
    valid: Set<Seq<char>>,
    names: Map<i64, String>,
) -> bool {
    match e.ty {
        EventType::Heal { source_id, target_id, ability_game_id, overheal, .. } => {
            &&& healers.contains(source_id)
            &&& valid.contains(spell_name_or_unknown(names, ability_game_id))
            &&& st.1.contains(target_id)
            &&& overheal is None
            &&& st.1.len() > 1
        },
        _ => false,
    }
}

/// One event: damage, resource changes and heals report the target's hit points, casts the
/// caster's; a judged heal is recorded with the target's rank before its own hit points are
/// taken in; a death removes the unit from the living players.
pub open spec fn heal_step(
    st: HealState,
    e: CombatLogEvent,
    healers: Seq<i64>,
    valid: Set<Seq<char>>,
    names: Map<i64, String>,
) -> HealState {
    let (h, alive, recs) = st;
    match e.ty {
        EventType::Damage { target_id, .. } => (record_health(h, target_id, e.resources), alive, recs),
        EventType::ResourceChange { target_id, .. } => (record_health(h, target_id, e.resources), alive, recs),
        EventType::Heal { source_id, target_id, .. } => {
            let recs2 = if is_judged_heal(st, e, healers, valid, names) {
                recs.push(
                    HealRecord {
                        healer_id: source_id,
                        position: rank_position(alive, h, target_id) as usize,
                        ranked: alive.len() as usize,
                    },
                )
            } else {
                recs
            };
            (record_health(h, target_id, e.resources), alive, recs2)
        },
        EventType::Cast { source_id, .. } => (record_health(h, source_id, e.resources), alive, recs),
        EventType::Death { target_id, .. } => (h, without(alive, target_id), recs),
        _ => st,
    }
}

/// The state after the first `n` events, from no known hit points and all `players` alive.
pub open spec fn heal_run(
    events: Seq<CombatLogEvent>,
    n: nat,
    players: Seq<i64>,
    healers: Seq<i64>,
    valid: Set<Seq<char>>,
    names: Map<i64, String>,
) -> HealState
    decreases n,
{
    if n == 0 || n > events.len() {
        (Map::empty(), players, seq![])
    } else {
        heal_step(heal_run(events, (n - 1) as nat, players, healers, valid, names), events[n - 1], healers, valid, names)
    }
}

proof fn lemma_add_unique_distinct(s: Seq<i64>, x: i64)
    requires
        s.no_duplicates(),
    ensures
        add_unique(s, x).no_duplicates(),
{
    if !s.contains(x) {
        let t = s.push(x);
        assert forall|i: int, j: int| 0 <= i < t.len() && 0 <= j < t.len() && i != j implies t[i] != t[j] by {
            if i < s.len() && j < s.len() {
                assert(t[i] == s[i] && t[j] == s[j]);
            } else if i == s.len() {
                assert(t[j] == s[j]);
            } else {
                assert(t[i] == s[i]);
            }
        }
    }
}

proof fn lemma_roster_distinct(events: Seq<CombatLogEvent>, n: nat)
    ensures
        roster_upto(events, n).0.no_duplicates(),
    decreases n,
{
    if n > 0 && n <= events.len() {
        lemma_roster_distinct(events, (n - 1) as nat);
        let players = roster_upto(events, (n - 1) as nat).0;
        match events[n - 1].ty {
            EventType::CombatantInfo { source_id, .. } => {
                lemma_add_unique_distinct(players, source_id);
            },
            _ => {},
        }
    }
}

proof fn lemma_without_subset(s: Seq<i64>, x: i64)
    ensures
        forall|y: i64| #[trigger] without(s, x).contains(y) ==> s.contains(y) && y != x,
        s.no_duplicates() ==> without(s, x).no_duplicates(),
        without(s, x).len() <= s.len(),
    decreases s.len(),
{
    if s.len() > 0 {
        let p = s.drop_last();
        lemma_without_subset(p, x);
        assert forall|y: i64| #[trigger] without(s, x).contains(y) implies s.contains(y) && y != x by {
            if s.last() != x {
                let w = without(p, x).push(s.last());
                let k = choose|k: int| 0 <= k < w.len() && w[k] == y;
                if k < w.len() - 1 {
                    assert(without(p, x)[k] == y);
                    assert(without(p, x).contains(y));
                    let m = choose|m: int| 0 <= m < p.len() && p[m] == y;
                    assert(s[m] == y);
                } else {
                    assert(s[s.len() - 1] == y);
                }
            } else {
                assert(without(p, x).contains(y));
                let m = choose|m: int| 0 <= m < p.len() && p[m] == y;
                assert(s[m] == y);
            }
        }
        if s.no_duplicates() {
            assert(p.no_duplicates()) by {
                assert forall|i: int, j: int| 0 <= i < p.len() && 0 <= j < p.len() && i != j implies p[i] != p[j] by {
                    assert(p[i] == s[i] && p[j] == s[j]);
                }
            }
            if s.last() != x {
                let w0 = without(p, x);
                let w = w0.push(s.last());
                assert(!w0.contains(s.last())) by {
                    if w0.contains(s.last()) {
                        let m = choose|m: int| 0 <= m < p.len() && p[m] == s.last();
                        assert(s[m] == s[s.len() - 1]);
                    }
                }
                assert forall|i: int, j: int| 0 <= i < w.len() && 0 <= j < w.len() && i != j implies w[i] != w[j] by {
                    if i < w0.len() && j < w0.len() {
                        assert(w[i] == w0[i] && w[j] == w0[j]);
                    } else if i == w0.len() {
                        assert(w[j] == w0[j]);
                    } else {
                        assert(w[i] == w0[i]);
                    }
                }
            }
        }
    }
}

proof fn lemma_count_disjoint(s: Seq<i64>, h: Map<i64, i64>, v: i64)
    ensures
        count_lower(s, h, v) + count_equal(s, h, v) <= s.len(),
    decreases s.len(),
{
    if s.len() > 0 {
        lemma_count_disjoint(s.drop_last(), h, v);
    }
}

proof fn lemma_rank_bound(s: Seq<i64>, h: Map<i64, i64>, v: i64, idx: int)
    requires
        0 <= idx <= s.len(),
    ensures
        count_lower(s, h, v) + count_equal(s.take(idx), h, v) + (if idx < s.len() && health_of(h, s[idx]) == v { 1int } else { 0int }) <= s.len(),
    decreases s.len(),
{
    if idx == s.len() {
        assert(s.take(idx) =~= s);
        lemma_count_disjoint(s, h, v);
    } else {
        let p = s.drop_last();
        if idx < s.len() - 1 {
            lemma_rank_bound(p, h, v, idx);
            assert(s.take(idx) =~= p.take(idx));
            assert(p[idx] == s[idx]);
        } else {
            assert(s.take(idx) =~= p);
            lemma_count_disjoint(p, h, v);
        }
    }
}

/// The last known hit points of a unit; 0 when none is known.
fn health_lookup(h: &HashMap<i64, i64>, id: i64) -> (r: i64)
    ensures
        r == health_of(h@, id),
{
    match h.get(&id) {
        Some(v) => *v,
        None => 0,
    }
}

/// Where `t` stands among `alive` ranked by health, lowest first.
fn rank_of(alive: &Vec<i64>, h: &HashMap<i64, i64>, t: i64) -> (r: usize)
    requires
        alive@.contains(t),
        alive@.no_duplicates(),
    ensures
        r == rank_position(alive@, h@, t),
        r < alive@.len(),
{
    let v = health_lookup(h, t);
    let n = alive.len();
    let mut idx: usize = 0;
    while idx < n && alive[idx] != t
        invariant
            n == alive@.len(),
            0 <= idx <= n,
            alive@.contains(t),
            forall|j: int| 0 <= j < idx ==> alive@[j] != t,
        decreases n - idx,
    {
        idx += 1;
    }
    proof {
        if idx == n {
            let k = choose|k: int| 0 <= k < alive@.len() && alive@[k] == t;
            assert(alive@[k] != t);
        }
    }
    assert(index_in(alive@, t) == idx) by {
        let k = choose|k: int| 0 <= k < alive@.len() && alive@[k] == t;
        assert(alive@[idx as int] == t);
    }
    proof {
        lemma_rank_bound(alive@, h@, v, idx as int);
    }
    let mut lower: usize = 0;
    let mut k: usize = 0;
    while k < n
        invariant
            n == alive@.len(),
            0 <= k <= n,
            v == health_of(h@, t),
            lower == count_lower(alive@.take(k as int), h@, v),
            lower <= k,
        decreases n - k,
    {
        assert(alive@.take(k + 1).drop_last() =~= alive@.take(k as int));
        if health_lookup(h, alive[k]) < v {
            lower += 1;
        }
        k += 1;
    }
    assert(alive@.take(n as int) =~= alive@);
    let mut equal: usize = 0;
    let mut k: usize = 0;
    while k < idx
        invariant
            n == alive@.len(),
            0 <= k <= idx < n,
            v == health_of(h@, t),
            equal == count_equal(alive@.take(idx as int).take(k as int), h@, v),
            equal <= k,
        decreases idx - k,
    {
        assert(alive@.take(idx as int).take(k + 1).drop_last() =~= alive@.take(idx as int).take(k as int));
        assert(alive@.take(idx as int)[k as int] == alive@[k as int]);
        if health_lookup(h, alive[k]) == v {
            equal += 1;
        }
        k += 1;
    }
    assert(alive@.take(idx as int).take(idx as int) =~= alive@.take(idx as int));
    lower + equal
}

/// `alive` without `x`.
fn remove_id(alive: &Vec<i64>, x: i64) -> (r: Vec<i64>)
    ensures
        r@ == without(alive@, x),
{
    let mut out: Vec<i64> = Vec::new();
    let mut k: usize = 0;
    while k < alive.len()
        invariant
            0 <= k <= alive.len(),
            out@ == without(alive@.take(k as int), x),
        decreases alive.len() - k,
    {
        assert(alive@.take(k + 1).drop_last() =~= alive@.take(k as int));
        if alive[k] != x {
            out.push(alive[k]);
        }
        k += 1;
    }
    assert(alive@.take(alive@.len() as int) =~= alive@);
    out
}


/// Whether every spell that a healer casts on a player has a name in `spell_names`
/// (`casts_are_named`).
pub fn casts_are_named_check(combat_log: &CombatLog, spell_names: &HashMap<i64, String>) -> (r: bool)
    ensures
        r == casts_are_named(combat_log.events@, roster(combat_log.events@).1, roster(combat_log.events@).0, spell_names@),
{
    let (players, healers) = collect_roster(&combat_log.events);
    let n = combat_log.events.len();
    let mut i: usize = 0;
    while i < n
        invariant
            n == combat_log.events@.len(),
            0 <= i <= n,
            (players@, healers@) == roster(combat_log.events@),
            forall|j: int|
                0 <= j < i && #[trigger] is_healer_cast_on_player(combat_log.events@[j], healers@, players@)
                    ==> spell_names@.contains_key(cast_ability(combat_log.events@[j])),
        decreases n - i,
    {
        match &combat_log.events[i].ty {
            EventType::Cast { source_id, target_id, ability_game_id, .. } => {
                if contains_id(&healers, *source_id) && contains_id(&players, *target_id) {
                    if !spell_names.contains_key(ability_game_id) {
                        assert(is_healer_cast_on_player(combat_log.events@[i as int], healers@, players@));
                        return false;
                    }
                }
            },
            _ => {},
        }
        i += 1;
    }
    true
}

fn copy_ids(v: &Vec<i64>) -> (r: Vec<i64>)
    ensures
        r@ == v@,
{
    let mut out: Vec<i64> = Vec::new();
    let mut k: usize = 0;
    while k < v.len()
        invariant
            0 <= k <= v.len(),
            out@ == v@.take(k as int),
        decreases v.len() - k,
    {
        out.push(v[k]);
        assert(out@ =~= v@.take(k + 1));
        k += 1;
    }
    assert(v@.take(v@.len() as int) =~= v@);
    out
}

/// What the healing analysis finds in a log: the players and healers from the combatant
/// records, the spells whose heals are judged, and every judged heal in log order.
pub struct HealingAnalysis {
    pub player_ids: Vec<i64>,
    pub healer_ids: Vec<i64>,
    pub valid_heal_spells: Vec<String>,
    pub heals: Vec<HealRecord>,
}

/// Judges the heals of a log: for each heal by a healer, of a spell that healers cast on
/// players (or Atonement, but not the excluded spells), on a living player and without
/// overheal, where the target stood among the living players ranked by health.
pub fn analyze_heal_correctness(combat_log: &CombatLog, spell_names: &HashMap<i64, String>) -> (r: HealingAnalysis)
    requires
        casts_are_named(
            combat_log.events@,
            roster(combat_log.events@).1,
            roster(combat_log.events@).0,
            spell_names@,
        ),
    ensures
        r.player_ids@ == roster(combat_log.events@).0,
        r.healer_ids@ == roster(combat_log.events@).1,
        name_set(r.valid_heal_spells@) == valid_heal_spell_names(
            combat_log.events@,
            roster(combat_log.events@).1,
            roster(combat_log.events@).0,
            spell_names@,
        ),
        names_distinct(r.valid_heal_spells@),
        r.heals@ == heal_run(
            combat_log.events@,
            combat_log.events@.len(),
            roster(combat_log.events@).0,
            roster(combat_log.events@).1,
            valid_heal_spell_names(
                combat_log.events@,
                roster(combat_log.events@).1,
                roster(combat_log.events@).0,
                spell_names@,
            ),
            spell_names@,
        ).2,
{
    let events = &combat_log.events;
    let ghost ev = events@;
    let (player_ids, healer_ids) = collect_roster(events);
    let valid = collect_valid_heal_spells(events, &healer_ids, &player_ids, spell_names);
    let ghost valid_set = name_set(valid@);
    let unknown = "Unknown".to_owned();
    proof {
        lemma_roster_distinct(ev, ev.len());
        reveal_strlit("Unknown");
    }
    let mut health: HashMap<i64, i64> = HashMap::new();
    let mut alive = copy_ids(&player_ids);
    let mut heals: Vec<HealRecord> = Vec::new();
    let n = events.len();
    let mut i: usize = 0;
    while i < n
        invariant
            n == ev.len(),
            ev == combat_log.events@,
            0 <= i <= n,
            unknown@ == "Unknown"@,
            valid_set == name_set(valid@),
            alive@.no_duplicates(),
            (health@, alive@, heals@) == heal_run(ev, i as nat, player_ids@, healer_ids@, valid_set, spell_names@),
        decreases n - i,
    {
        let event = &combat_log.events[i];
        let ghost st: HealState = (health@, alive@, heals@);
        match &event.ty {
            EventType::Damage { target_id, .. } | EventType::ResourceChange { target_id, .. } => {
                if let Some(res) = &event.resources {
                    health.insert(*target_id, res.hit_points);
                }
            },
            EventType::Heal { source_id, target_id, ability_game_id, overheal, .. } => {
                let judged_spell = match spell_names.get(ability_game_id) {
                    Some(nm) => contains_name(&valid, nm),
                    None => contains_name(&valid, &unknown),
                };
                if contains_id(&healer_ids, *source_id) && judged_spell && contains_id(&alive, *target_id)
                    && overheal.is_none() {
                    if alive.len() > 1 {
                        let position = rank_of(&alive, &health, *target_id);
                        heals.push(HealRecord { healer_id: *source_id, position, ranked: alive.len() });
                    }
                }
                assert(heals@ == heal_step(st, ev[i as int], healer_ids@, valid_set, spell_names@).2);
                if let Some(res) = &event.resources {
                    health.insert(*target_id, res.hit_points);
                }
            },
            EventType::Cast { source_id, .. } => {
                if let Some(res) = &event.resources {
                    health.insert(*source_id, res.hit_points);
                }
            },
            EventType::Death { target_id, .. } => {
                proof {
                    lemma_without_subset(alive@, *target_id);
                }
                alive = remove_id(&alive, *target_id);
            },
            _ => {},
        }
        assert((health@, alive@, heals@) == heal_step(st, ev[i as int], healer_ids@, valid_set, spell_names@));
        i += 1;
    }
    HealingAnalysis { player_ids, healer_ids, valid_heal_spells: valid, heals }
}


proof fn lemma_equal_prefix_bound(s: Seq<i64>, h: Map<i64, i64>, v: i64, idx: int)
    requires
        0 <= idx < s.len(),
        health_of(h, s[idx]) == v,
    ensures
        count_equal(s.take(idx), h, v) < count_equal(s, h, v),
    decreases s.len(),
{
    let p = s.drop_last();
    if idx < s.len() - 1 {
        lemma_equal_prefix_bound(p, h, v, idx);
        assert(s.take(idx) =~= p.take(idx));
        assert(p[idx] == s[idx]);
    } else {
        assert(s.take(idx) =~= p);
    }
}

/// However players of equal health are ordered, a target's rank lies between the number
/// of players with less health and that number plus the players with the same health:
/// the rank recorded is one that a stable sort by health gives for some order of the
/// living players.
pub proof fn lemma_rank_position_bounds(alive: Seq<i64>, h: Map<i64, i64>, t: i64)
    requires
        alive.contains(t),
    ensures
        count_lower(alive, h, health_of(h, t)) <= rank_position(alive, h, t),
        rank_position(alive, h, t) < count_lower(alive, h, health_of(h, t)) + count_equal(alive, h, health_of(h, t)),
        rank_position(alive, h, t) < alive.len(),
{
    let i = index_in(alive, t);
    let w = choose|w: int| 0 <= w < alive.len() && alive[w] == t;
    assert(0 <= i < alive.len() && alive[i] == t);
    lemma_equal_prefix_bound(alive, h, health_of(h, t), i);
    lemma_rank_bound(alive, h, health_of(h, t), i);
}

/// Every judged heal ranks at least two living players and places its target among them;
/// the living players never repeat.
pub proof fn lemma_heal_records_ranked(
    events: Seq<CombatLogEvent>,
    n: nat,
    players: Seq<i64>,
    healers: Seq<i64>,
    valid: Set<Seq<char>>,
    names: Map<i64, String>,
)
    requires
        players.no_duplicates(),
        players.len() <= usize::MAX,
    ensures
        heal_run(events, n, players, healers, valid, names).1.no_duplicates(),
        heal_run(events, n, players, healers, valid, names).1.len() <= players.len(),
        forall|k: int| 0 <= k < heal_run(events, n, players, healers, valid, names).2.len() ==> {
            let r = #[trigger] heal_run(events, n, players, healers, valid, names).2[k];
            &&& 2 <= r.ranked
            &&& r.position < r.ranked
        },
    decreases n,
{
    if n > 0 && n <= events.len() {
        lemma_heal_records_ranked(events, (n - 1) as nat, players, healers, valid, names);
        let st = heal_run(events, (n - 1) as nat, players, healers, valid, names);
        let e = events[n - 1];
        match e.ty {
            EventType::Death { target_id, .. } => {
                lemma_without_subset(st.1, target_id);
            },
            EventType::Heal { target_id, .. } => {
                if is_judged_heal(st, e, healers, valid, names) {
                    lemma_rank_position_bounds(st.1, st.0, target_id);
                }
                let r = heal_run(events, n, players, healers, valid, names);
                assert forall|k: int| 0 <= k < r.2.len() implies {
                    let x = #[trigger] r.2[k];
                    &&& 2 <= x.ranked
                    &&& x.position < x.ranked
                } by {
                    if k < st.2.len() {
                        assert(r.2[k] == st.2[k]);
                    }
                }
            },
            _ => {},
        }
    }
}

/// Event `e` belongs to the head of a log: an encounter start or a combatant record.
pub open spec fn is_head_event(e: CombatLogEvent) -> bool {
    e.ty is EncounterStart || e.ty is CombatantInfo
}

proof fn lemma_roster_insert_prefix(events: Seq<CombatLogEvent>, p: int, e: CombatLogEvent, k: nat)
    requires
        0 <= p <= events.len(),
        k <= p,
    ensures
        roster_upto(events.insert(p, e), k) == roster_upto(events, k),
    decreases k,
{
    events.insert_ensures(p, e);
    if k > 0 {
        lemma_roster_insert_prefix(events, p, e, (k - 1) as nat);
        assert(events.insert(p, e)[k - 1] == events[k - 1]);
    }
}

proof fn lemma_roster_ends(events: Seq<CombatLogEvent>, j: int, n: nat)
    requires
        0 <= j < n <= events.len(),
        !is_head_event(events[j]),
    ensures
        roster_upto(events, n).2,
    decreases n,
{
    if n - 1 > j {
        lemma_roster_ends(events, j, (n - 1) as nat);
    }
}

proof fn lemma_roster_frozen(events: Seq<CombatLogEvent>, n: nat, m: nat)
    requires
        n <= m <= events.len(),
        roster_upto(events, n).2,
    ensures
        roster_upto(events, m) == roster_upto(events, n),
    decreases m,
{
    if m > n {
        lemma_roster_frozen(events, n, (m - 1) as nat);
    }
}

proof fn lemma_heal_run_insert_prefix(
    events: Seq<CombatLogEvent>,
    p: int,
    e: CombatLogEvent,
    k: nat,
    players: Seq<i64>,
    healers: Seq<i64>,
    valid: Set<Seq<char>>,
    names: Map<i64, String>,
)
    requires
        0 <= p <= events.len(),
        k <= p,
    ensures
        heal_run(events.insert(p, e), k, players, healers, valid, names) == heal_run(events, k, players, healers, valid, names),
    decreases k,
{
    events.insert_ensures(p, e);
    if k > 0 {
        lemma_heal_run_insert_prefix(events, p, e, (k - 1) as nat, players, healers, valid, names);
        assert(events.insert(p, e)[k - 1] == events[k - 1]);
    }
}

proof fn lemma_heal_run_insert_suffix(
    events: Seq<CombatLogEvent>,
    p: int,
    e: CombatLogEvent,
    k: nat,
    players: Seq<i64>,
    healers: Seq<i64>,
    valid: Set<Seq<char>>,
    names: Map<i64, String>,
)
    requires
        0 <= p <= k <= events.len(),
        e.ty is CombatantInfo,
    ensures
        heal_run(events.insert(p, e), k + 1, players, healers, valid, names) == heal_run(events, k, players, healers, valid, names),
    decreases k,
{
    let e2 = events.insert(p, e);
    events.insert_ensures(p, e);
    if k == p {
        lemma_heal_run_insert_prefix(events, p, e, k, players, healers, valid, names);
        assert(e2[k as int] == e);
    } else {
        lemma_heal_run_insert_suffix(events, p, e, (k - 1) as nat, players, healers, valid, names);
        assert(e2[k as int] == events[k - 1]);
    }
}

proof fn lemma_casts_named_insert(
    events: Seq<CombatLogEvent>,
    p: int,
    e: CombatLogEvent,
    healers: Seq<i64>,
    players: Seq<i64>,
    names: Map<i64, String>,
)
    requires
        0 <= p <= events.len(),
        e.ty is CombatantInfo,
    ensures
        casts_are_named(events.insert(p, e), healers, players, names) == casts_are_named(events, healers, players, names),
{
    let e2 = events.insert(p, e);
    events.insert_ensures(p, e);
    assert(!is_healer_cast_on_player(e2[p], healers, players));
    if casts_are_named(events, healers, players, names) {
        assert forall|i: int| 0 <= i < e2.len() && #[trigger] is_healer_cast_on_player(e2[i], healers, players)
            implies names.contains_key(cast_ability(e2[i])) by {
            if i > p {
                assert(e2[(i - 1) + 1] == events[i - 1]);
                assert(is_healer_cast_on_player(events[i - 1], healers, players));
            } else if i < p {
                assert(is_healer_cast_on_player(events[i], healers, players));
            }
        }
    }
    if casts_are_named(e2, healers, players, names) {
        assert forall|i: int| 0 <= i < events.len() && #[trigger] is_healer_cast_on_player(events[i], healers, players)
            implies names.contains_key(cast_ability(events[i])) by {
            if i >= p {
                assert(e2[i + 1] == events[i]);
                assert(is_healer_cast_on_player(e2[i + 1], healers, players));
            } else {
                assert(e2[i] == events[i]);
                assert(is_healer_cast_on_player(e2[i], healers, players));
            }
        }
    }
}

proof fn lemma_cast_names_insert(
    events: Seq<CombatLogEvent>,
    p: int,
    e: CombatLogEvent,
    healers: Seq<i64>,
    players: Seq<i64>,
    names: Map<i64, String>,
)
    requires
        0 <= p <= events.len(),
        e.ty is CombatantInfo,
    ensures
        valid_heal_spell_names(events.insert(p, e), healers, players, names)
            == valid_heal_spell_names(events, healers, players, names),
{
    let e2 = events.insert(p, e);
    let n = events.len();
    events.insert_ensures(p, e);
    assert(!is_healer_cast_on_player(e2[p], healers, players));
    let cast_names2 = healer_cast_names(e2, e2.len() as int, healers, players, names);
    let cast_names = healer_cast_names(events, n as int, healers, players, names);
    assert forall|name: Seq<char>| cast_names2.contains(name) implies cast_names.contains(name) by {
        let i = choose|i: int| 0 <= i < e2.len() && #[trigger] is_healer_cast_on_player(e2[i], healers, players)
            && names[cast_ability(e2[i])]@ == name;
        if i < p {
            assert(is_healer_cast_on_player(events[i], healers, players));
        } else {
            assert(e2[(i - 1) + 1] == events[i - 1]);
            assert(is_healer_cast_on_player(events[i - 1], healers, players));
        }
    }
    assert forall|name: Seq<char>| cast_names.contains(name) implies cast_names2.contains(name) by {
        let i = choose|i: int| 0 <= i < n && #[trigger] is_healer_cast_on_player(events[i], healers, players)
            && names[cast_ability(events[i])]@ == name;
        if i < p {
            assert(e2[i] == events[i]);
            assert(is_healer_cast_on_player(e2[i], healers, players));
        } else {
            assert(e2[i + 1] == events[i]);
            assert(is_healer_cast_on_player(e2[i + 1], healers, players));
        }
    }
    assert(cast_names2 =~= cast_names);
}

/// A combatant record that comes after the head of the log has ended changes nothing that
/// the healing analysis finds: not the players and healers, not which casts must have a
/// name, not the judged spells, and not the judged heals.
pub proof fn lemma_late_combatant_info_ignored(
    events: Seq<CombatLogEvent>,
    j: int,
    p: int,
    e: CombatLogEvent,
    names: Map<i64, String>,
)
    requires
        0 <= j < p <= events.len(),
        !is_head_event(events[j]),
        e.ty is CombatantInfo,
    ensures
        roster(events.insert(p, e)) == roster(events),
        casts_are_named(events.insert(p, e), roster(events.insert(p, e)).1, roster(events.insert(p, e)).0, names)
            == casts_are_named(events, roster(events).1, roster(events).0, names),
        valid_heal_spell_names(events.insert(p, e), roster(events.insert(p, e)).1, roster(events.insert(p, e)).0, names)
            == valid_heal_spell_names(events, roster(events).1, roster(events).0, names),
        heal_run(
            events.insert(p, e),
            events.insert(p, e).len(),
            roster(events.insert(p, e)).0,
            roster(events.insert(p, e)).1,
            valid_heal_spell_names(events.insert(p, e), roster(events.insert(p, e)).1, roster(events.insert(p, e)).0, names),
            names,
        ) == heal_run(
            events,
            events.len(),
            roster(events).0,
            roster(events).1,
            valid_heal_spell_names(events, roster(events).1, roster(events).0, names),
            names,
        ),
{
    let e2 = events.insert(p, e);
    events.insert_ensures(p, e);
    let n = events.len();
    // the players and healers
    lemma_roster_ends(events, j, p as nat);
    lemma_roster_frozen(events, p as nat, n);
    lemma_roster_insert_prefix(events, p, e, p as nat);
    assert(e2[j] == events[j]);
    lemma_roster_ends(e2, j, p as nat);
    lemma_roster_frozen(e2, p as nat, e2.len());
    let (players, healers) = roster(events);
    // the casts that must have a name, and the judged spells
    lemma_casts_named_insert(events, p, e, healers, players, names);
    lemma_cast_names_insert(events, p, e, healers, players, names);
    // the judged heals
    let valid = valid_heal_spell_names(events, healers, players, names);
    lemma_heal_run_insert_suffix(events, p, e, n, players, healers, valid, names);
}

proof fn lemma_heal_run_agree(
    events1: Seq<CombatLogEvent>,
    events2: Seq<CombatLogEvent>,
    m: nat,
    players: Seq<i64>,
    healers: Seq<i64>,
    valid: Set<Seq<char>>,
    names: Map<i64, String>,
)
    requires
        m <= events1.len(),
        m <= events2.len(),
        forall|i: int| 0 <= i < m ==> events1[i] == events2[i],
    ensures
        heal_run(events1, m, players, healers, valid, names) == heal_run(events2, m, players, healers, valid, names),
    decreases m,
{
    if m > 0 {
        lemma_heal_run_agree(events1, events2, (m - 1) as nat, players, healers, valid, names);
    }
}

/// A heal is judged against the hit points known before it: two logs that agree on every
/// event before the `n`-th and on the kind and fields of the `n`-th, whatever hit points
/// the `n`-th reports, record the same heals up to it.
pub proof fn lemma_heal_judged_before_own_hit_points(
    events1: Seq<CombatLogEvent>,
    events2: Seq<CombatLogEvent>,
    n: nat,
    players: Seq<i64>,
    healers: Seq<i64>,
    valid: Set<Seq<char>>,
    names: Map<i64, String>,
)
    requires
        0 < n <= events1.len(),
        n <= events2.len(),
        forall|i: int| 0 <= i < n - 1 ==> events1[i] == events2[i],
        events1[n - 1].ty == events2[n - 1].ty,
    ensures
        heal_run(events1, n, players, healers, valid, names).2 == heal_run(events2, n, players, healers, valid, names).2,
{
    lemma_heal_run_agree(events1, events2, (n - 1) as nat, players, healers, valid, names);
}

/// What one event adds to the judged heals: nothing unless it is a judged heal; a judged
/// heal adds one record, by its healer, that ranks all the living players and places the
/// target, by the hit points known before the heal, after every living player with less
/// health and before those with more.
pub proof fn lemma_heal_record_of_event(
    events: Seq<CombatLogEvent>,
    n: nat,
    players: Seq<i64>,
    healers: Seq<i64>,
    valid: Set<Seq<char>>,
    names: Map<i64, String>,
)
    requires
        0 < n <= events.len(),
        players.no_duplicates(),
        players.len() <= usize::MAX,
    ensures
        ({
            let (h, alive, recs) = heal_run(events, (n - 1) as nat, players, healers, valid, names);
            let after = heal_run(events, n, players, healers, valid, names).2;
            match events[n - 1].ty {
                EventType::Heal { source_id, target_id, .. } => if is_judged_heal(
                    (h, alive, recs),
                    events[n - 1],
                    healers,
                    valid,
                    names,
                ) {
                    &&& after.len() == recs.len() + 1
                    &&& after.drop_last() == recs
                    &&& after.last().healer_id == source_id
                    &&& after.last().ranked == alive.len()
                    &&& count_lower(alive, h, health_of(h, target_id)) <= after.last().position
                    &&& after.last().position < count_lower(alive, h, health_of(h, target_id)) + count_equal(
                        alive,
                        h,
                        health_of(h, target_id),
                    )
                } else {
                    after == recs
                },
                _ => after == recs,
            }
        }),
{
    let st = heal_run(events, (n - 1) as nat, players, healers, valid, names);
    let e = events[n - 1];
    lemma_heal_records_ranked(events, (n - 1) as nat, players, healers, valid, names);
    match e.ty {
        EventType::Heal { source_id, target_id, .. } => {
            if is_judged_heal(st, e, healers, valid, names) {
                lemma_rank_position_bounds(st.1, st.0, target_id);
                let after = heal_run(events, n, players, healers, valid, names).2;
                assert(after.drop_last() =~= st.2);
            }
        },
        _ => {},
    }
}

} // verus!
