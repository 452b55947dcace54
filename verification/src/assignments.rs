use std::collections::HashMap;

use vstd::prelude::*;
use vstd::string::StringExecFns;

use crate::text::{decimal, decimal_width2, push_decimal, push_decimal_width2};
use crate::warcraft_logs::combat_log::{CombatLog, CombatLogEvent, EventType};
use crate::warcraft_logs::report::{Actor, PlayerClass};

verus! {

broadcast use vstd::std_specs::hash::group_hash_axioms;

/// The spells whose casts are assigned by default to a class.
pub open spec fn default_spells(player_class: PlayerClass) -> Seq<i64> {
    match player_class {
        PlayerClass::Priest => seq![194509i64, 123040i64, 47536i64, 246287i64, 271466i64],
        _ => seq![],
    }
}

/// The spells whose casts are assigned by default to a class.
pub fn get_default_spells(player_class: PlayerClass) -> (r: Vec<i64>)
    ensures
        r@ == default_spells(player_class),
{
    match player_class {
        PlayerClass::Priest => vec![194509, 123040, 47536, 246287, 271466],
        _ => vec![],
    }
}

/// The kind of combat-log event that a dynamic timer is anchored to.
#[derive(Debug, Clone, Copy, PartialEq, Eq, Structural, Hash)]
pub enum DynamicTimerType {
    SpellCastSuccess,
    SpellCastStart,
    SpellAuraApplied,
    SpellAuraRemoved,
}

/// The three-letter abbreviation of a timer type, as written in assignment notes.
pub open spec fn abbreviation_of(ty: DynamicTimerType) -> Seq<char> {
    match ty {
        DynamicTimerType::SpellCastSuccess => "SCC"@,
        DynamicTimerType::SpellCastStart => "SCS"@,
        DynamicTimerType::SpellAuraApplied => "SAA"@,
        DynamicTimerType::SpellAuraRemoved => "SAR"@,
    }
}

/// Whether `event` is of the kind that a timer of type `ty` listens to, for the spell `id`:
/// a successful cast, a cast start, an aura (buff or debuff, or one of their stacks) applied,
/// or one removed.
pub open spec fn event_matches(ty: DynamicTimerType, event: EventType, id: i64) -> bool {
    match ty {
        DynamicTimerType::SpellCastSuccess => match event {
            EventType::Cast { ability_game_id, .. } => ability_game_id == id,
            _ => false,
        },
        DynamicTimerType::SpellCastStart => match event {
            EventType::BeginCast { ability_game_id, .. } => ability_game_id == id,
            _ => false,
        },
        DynamicTimerType::SpellAuraApplied => match event {
            EventType::ApplyBuff { ability_game_id, .. } => ability_game_id == id,
            EventType::ApplyBuffStack { ability_game_id, .. } => ability_game_id == id,
            EventType::ApplyDebuff { ability_game_id, .. } => ability_game_id == id,
            EventType::ApplyDebuffStack { ability_game_id, .. } => ability_game_id == id,
            _ => false,
        },
        DynamicTimerType::SpellAuraRemoved => match event {
            EventType::RemoveBuff { ability_game_id, .. } => ability_game_id == id,
            EventType::RemoveBuffStack { ability_game_id, .. } => ability_game_id == id,
            EventType::RemoveDebuff { ability_game_id, .. } => ability_game_id == id,
            EventType::RemoveDebuffStack { ability_game_id, .. } => ability_game_id == id,
            _ => false,
        },
    }
}

impl DynamicTimerType {
    /// Whether a timer of this type listens to `event` for the spell `id`.
    pub fn does_event_match(&self, event: &EventType, id: i64) -> (r: bool)
        ensures
            r == event_matches(*self, *event, id),
    {
        match self {
            DynamicTimerType::SpellCastSuccess => match event {
                EventType::Cast { ability_game_id, .. } => *ability_game_id == id,
                _ => false,
            },
            DynamicTimerType::SpellCastStart => match event {
                EventType::BeginCast { ability_game_id, .. } => *ability_game_id == id,
                _ => false,
            },
            DynamicTimerType::SpellAuraApplied => match event {
                EventType::ApplyBuff { ability_game_id, .. } => *ability_game_id == id,
                EventType::ApplyBuffStack { ability_game_id, .. } => *ability_game_id == id,
                EventType::ApplyDebuff { ability_game_id, .. } => *ability_game_id == id,
                EventType::ApplyDebuffStack { ability_game_id, .. } => *ability_game_id == id,
                _ => false,
            },
            DynamicTimerType::SpellAuraRemoved => match event {
                EventType::RemoveBuff { ability_game_id, .. } => *ability_game_id == id,
                EventType::RemoveBuffStack { ability_game_id, .. } => *ability_game_id == id,
                EventType::RemoveDebuff { ability_game_id, .. } => *ability_game_id == id,
                EventType::RemoveDebuffStack { ability_game_id, .. } => *ability_game_id == id,
                _ => false,
            },
        }
    }

    /// The three-letter abbreviation of this timer type.
    pub fn as_abbreviation(&self) -> (r: &str)
        ensures
            r@ == abbreviation_of(*self),
    {
        match self {
            DynamicTimerType::SpellCastSuccess => "SCC",
            DynamicTimerType::SpellCastStart => "SCS",
            DynamicTimerType::SpellAuraApplied => "SAA",
            DynamicTimerType::SpellAuraRemoved => "SAR",
        }
    }
}

/// Distinct timer types are written with distinct abbreviations.
pub proof fn lemma_abbreviation_injective(a: DynamicTimerType, b: DynamicTimerType)
    requires
        a != b,
    ensures
        abbreviation_of(a) != abbreviation_of(b),
{
    reveal_strlit("SCC");
    reveal_strlit("SCS");
    reveal_strlit("SAA");
    reveal_strlit("SAR");
    assert(abbreviation_of(a)[2] != abbreviation_of(b)[2] || abbreviation_of(a)[1] != abbreviation_of(b)[1]);
}

/// A timer that starts when the `counter`-th event of kind `ty` for `spell_id` is seen.
#[derive(Debug, Clone, Copy)]
pub struct DynamicTimer {
    pub ty: DynamicTimerType,
    pub spell_id: i64,
    pub counter: i64,
}

/// A cast of `spell_id`, `time` seconds after the start of `dynamic_timer` (or of the fight).
pub struct Assignment {
    pub spell_id: i64,
    pub dynamic_timer: Option<DynamicTimer>,
    pub time: i64,
}


/// The note line of an assignment: `{time:MM:SS[,ABR:spell:counter]} - {spell:id}`, where
/// minutes and seconds come from Rust's truncating `/` and `%` and are padded to two places.
pub open spec fn assignment_text(a: Assignment) -> Seq<char> {
    let minutes = trunc_div(a.time as int, 60);
    let seconds = a.time - 60 * minutes;
    let timer = match a.dynamic_timer {
        Some(dt) => ","@ + abbreviation_of(dt.ty) + ":"@ + decimal(dt.spell_id as int) + ":"@ + decimal(dt.counter as int),
        None => Seq::<char>::empty(),
    };
    "{time:"@ + decimal_width2(minutes) + ":"@ + decimal_width2(seconds) + timer + "} - {spell:"@ + decimal(a.spell_id as int) + "}"@
}

impl Assignment {
    /// The note line of this assignment.
    pub fn to_string(&self) -> (r: String)
        ensures
            r@ == assignment_text(*self),
    {
        let time = self.time;
        let minutes: i64 = if time >= 0 {
            time / 60
        } else {
            -((-(time as i128)) / 60) as i64
        };
        assert(minutes == trunc_div(time as int, 60));
        let seconds: i64 = time - minutes * 60;
        let mut s = String::new();
        s.append("{time:");
        push_decimal_width2(&mut s, minutes);
        s.append(":");
        push_decimal_width2(&mut s, seconds);
        match &self.dynamic_timer {
            Some(dt) => {
                s.append(",");
                s.append(dt.ty.as_abbreviation());
                s.append(":");
                push_decimal(&mut s, dt.spell_id);
                s.append(":");
                push_decimal(&mut s, dt.counter);
            },
            None => {},
        }
        s.append("} - {spell:");
        push_decimal(&mut s, self.spell_id);
        s.append("}");
        assert(s@ =~= assignment_text(*self));
        s
    }
}

/// Why no assignments could be extracted.
#[derive(Debug, Clone, Copy, PartialEq, Eq, Structural)]
pub enum AssignmentError {
    PlayerNotFound,
    /// A cast of the player lies further from the time origin than an `i64` can count.
    TimeOutOfRange,
}

/// Rust's integer division, which rounds toward zero.
pub open spec fn trunc_div(a: int, b: int) -> int
    recommends
        b > 0,
{
    if a >= 0 {
        a / b
    } else {
        -((-a) / b)
    }
}

/// Whether `actor` is the player `name` (players carry a server; pets and NPCs do not).
pub open spec fn is_named_player(actor: Actor, name: Seq<char>) -> bool {
    actor.name@ == name && actor.server is Some
}

/// `i` is the index of the first actor that is the player `name`.
pub open spec fn is_first_player(actors: Seq<Actor>, name: Seq<char>, i: int) -> bool {
    &&& 0 <= i < actors.len()
    &&& is_named_player(actors[i], name)
    &&& forall|j: int| 0 <= j < i ==> !is_named_player(#[trigger] actors[j], name)
}

/// Whether the timer listens to this event.
pub open spec fn timer_matches(t: DynamicTimer, event: EventType) -> bool {
    event_matches(t.ty, event, t.spell_id)
}

/// `i` is the index of the first pending timer that listens to `event`.
pub open spec fn is_first_match(timers: Seq<DynamicTimer>, event: EventType, i: int) -> bool {
    &&& 0 <= i < timers.len()
    &&& timer_matches(timers[i], event)
    &&& forall|j: int| 0 <= j < i ==> !timer_matches(#[trigger] timers[j], event)
}

pub open spec fn has_match(timers: Seq<DynamicTimer>, event: EventType) -> bool {
    exists|i: int| 0 <= i < timers.len() && timer_matches(#[trigger] timers[i], event)
}

pub open spec fn first_match(timers: Seq<DynamicTimer>, event: EventType) -> int {
    choose|i: int| is_first_match(timers, event, i)
}

/// How often events of kind `key.0` for spell `key.1` have been counted.
pub open spec fn count_of(counts: Map<(DynamicTimerType, i64), int>, key: (DynamicTimerType, i64)) -> int {
    if counts.contains_key(key) {
        counts[key]
    } else {
        0
    }
}

/// The state of the timers while a log is walked: the timers still pending, the event
/// counts per (kind, spell), the time that assignments are measured from, and the
/// timer that last started.
pub type TimerState = (Seq<DynamicTimer>, Map<(DynamicTimerType, i64), int>, i64, Option<DynamicTimer>);

/// One event seen by the timers: the first pending timer that listens to it counts it
/// under its (kind, spell); when that count reaches the timer's `counter`, the timer
/// starts (time is measured from this event on) and leaves the pending list.
pub open spec fn timer_step(s: TimerState, event: CombatLogEvent) -> TimerState {
    let (timers, counts, zero_time, within) = s;
    if has_match(timers, event.ty) {
        let i = first_match(timers, event.ty);
        let t = timers[i];
        let key = (t.ty, t.spell_id);
        let c = count_of(counts, key) + 1;
        let counts2 = counts.insert(key, c);
        if c == t.counter {
            (timers.remove(i), counts2, event.timestamp, Some(t))
        } else {
            (timers, counts2, zero_time, within)
        }
    } else {
        s
    }
}

/// The assignment that an event gives once the timers have seen it: a cast by the
/// player of one of the assigned spells, in whole seconds since the time origin.
pub open spec fn assignment_for(s: TimerState, event: CombatLogEvent, actor: i64, spells: Seq<i64>) -> Option<Assignment> {
    match event.ty {
        EventType::Cast { source_id, ability_game_id, .. } => if source_id == actor && spells.contains(ability_game_id) {
            Some(Assignment {
                spell_id: ability_game_id,
                dynamic_timer: s.3,
                time: trunc_div(event.timestamp - s.2, 1000) as i64,
            })
        } else {
            None
        },
        _ => None,
    }
}

/// The timer state and the assignments after the first `n` events.
pub open spec fn run_assignments(events: Seq<CombatLogEvent>, n: nat, actor: i64, spells: Seq<i64>, init: TimerState) -> (TimerState, Seq<Assignment>)
    decreases n,
{
    if n == 0 || n > events.len() {
        (init, seq![])
    } else {
        let (s, out) = run_assignments(events, (n - 1) as nat, actor, spells, init);
        let s2 = timer_step(s, events[n - 1]);
        match assignment_for(s2, events[n - 1], actor, spells) {
            Some(a) => (s2, out.push(a)),
            None => (s2, out),
        }
    }
}

/// The timer state before the first event: all timers pending, nothing counted, time
/// measured from the first event of the log.
pub open spec fn initial_timer_state(log: CombatLog, timers: Seq<DynamicTimer>) -> TimerState {
    (timers, Map::empty(), log.first_event_timestamp, None)
}

/// The time difference that an event gives once the timers have seen it, where it is an
/// assigned cast of the player, fits in an `i64`.
pub open spec fn cast_time_fits(s: TimerState, event: CombatLogEvent, actor: i64, spells: Seq<i64>) -> bool {
    match event.ty {
        EventType::Cast { source_id, ability_game_id, .. } => (source_id == actor && spells.contains(ability_game_id))
            ==> i64::MIN <= event.timestamp - s.2 <= i64::MAX,
        _ => true,
    }
}

/// The time difference computed at the event `i` fits in an `i64`.
pub open spec fn step_time_fits(events: Seq<CombatLogEvent>, i: int, actor: i64, spells: Seq<i64>, init: TimerState) -> bool {
    cast_time_fits(timer_step(run_assignments(events, i as nat, actor, spells, init).0, events[i]), events[i], actor, spells)
}

/// Every time difference that walking the log computes fits in an `i64`.
pub open spec fn assignment_times_fit(events: Seq<CombatLogEvent>, actor: i64, spells: Seq<i64>, init: TimerState) -> bool {
    forall|i: int| 0 <= i < events.len() ==> #[trigger] step_time_fits(events, i, actor, spells, init)
}

/// The event counts, kept per timer kind and keyed by spell id.
struct TimerCounters {
    cast_success: HashMap<i64, i64>,
    cast_start: HashMap<i64, i64>,
    aura_applied: HashMap<i64, i64>,
    aura_removed: HashMap<i64, i64>,
}

impl TimerCounters {
    spec fn map_for(&self, ty: DynamicTimerType) -> Map<i64, i64> {
        match ty {
            DynamicTimerType::SpellCastSuccess => self.cast_success@,
            DynamicTimerType::SpellCastStart => self.cast_start@,
            DynamicTimerType::SpellAuraApplied => self.aura_applied@,
            DynamicTimerType::SpellAuraRemoved => self.aura_removed@,
        }
    }

    spec fn view(&self) -> Map<(DynamicTimerType, i64), int> {
        Map::new(
            |k: (DynamicTimerType, i64)| self.map_for(k.0).contains_key(k.1),
            |k: (DynamicTimerType, i64)| self.map_for(k.0)[k.1] as int,
        )
    }

    fn new() -> (r: TimerCounters)
        ensures
            r.view() == Map::<(DynamicTimerType, i64), int>::empty(),
    {
        let r = TimerCounters {
            cast_success: HashMap::new(),
            cast_start: HashMap::new(),
            aura_applied: HashMap::new(),
            aura_removed: HashMap::new(),
        };
        assert(r.view() =~= Map::<(DynamicTimerType, i64), int>::empty());
        r
    }

    fn bump_in(m: &mut HashMap<i64, i64>, id: i64) -> (r: i64)
        requires
            old(m)@.contains_key(id) ==> old(m)@[id] < i64::MAX,
        ensures
            r == (if old(m)@.contains_key(id) { old(m)@[id] as int } else { 0 }) + 1,
            final(m)@ == old(m)@.insert(id, r),
    {
        let c: i64 = match m.get(&id) {
            Some(v) => *v + 1,
            None => 1,
        };
        m.insert(id, c);
        c
    }

    /// Counts one more event of kind `ty` for `id` and returns the new count.
    fn bump(&mut self, ty: DynamicTimerType, id: i64) -> (r: i64)
        requires
            count_of(old(self).view(), (ty, id)) < i64::MAX,
        ensures
            r == count_of(old(self).view(), (ty, id)) + 1,
            final(self).view() == old(self).view().insert((ty, id), r as int),
    {
        let ghost old_view = self.view();
        let r = match ty {
            DynamicTimerType::SpellCastSuccess => Self::bump_in(&mut self.cast_success, id),
            DynamicTimerType::SpellCastStart => Self::bump_in(&mut self.cast_start, id),
            DynamicTimerType::SpellAuraApplied => Self::bump_in(&mut self.aura_applied, id),
            DynamicTimerType::SpellAuraRemoved => Self::bump_in(&mut self.aura_removed, id),
        };
        assert(self.view() =~= old_view.insert((ty, id), r as int));
        r
    }
}


/// The index of the first pending timer that listens to `event`.
fn find_first_match(timers: &Vec<DynamicTimer>, event: &EventType) -> (r: Option<usize>)
    ensures
        match r {
            Some(i) => is_first_match(timers@, *event, i as int),
            None => !has_match(timers@, *event),
        },
{
    let mut k: usize = 0;
    while k < timers.len()
        invariant
            0 <= k <= timers.len(),
            forall|j: int| 0 <= j < k ==> !timer_matches(#[trigger] timers@[j], *event),
        decreases timers.len() - k,
    {
        let t = timers[k];
        if t.ty.does_event_match(event, t.spell_id) {
            return Some(k);
        }
        k += 1;
    }
    None
}

/// The index of the first actor that is the player `name`.
fn find_player(actors: &Vec<Actor>, name: &str) -> (r: Option<usize>)
    ensures
        match r {
            Some(i) => is_first_player(actors@, name@, i as int),
            None => forall|j: int| 0 <= j < actors@.len() ==> !is_named_player(#[trigger] actors@[j], name@),
        },
{
    let target = name.to_owned();
    let mut k: usize = 0;
    while k < actors.len()
        invariant
            0 <= k <= actors.len(),
            target@ == name@,
            forall|j: int| 0 <= j < k ==> !is_named_player(#[trigger] actors@[j], name@),
        decreases actors.len() - k,
    {
        if actors[k].name == target && actors[k].server.is_some() {
            return Some(k);
        }
        k += 1;
    }
    None
}

fn contains_spell(spells: &Vec<i64>, id: i64) -> (r: bool)
    ensures
        r == spells@.contains(id),
{
    let mut k: usize = 0;
    while k < spells.len()
        invariant
            0 <= k <= spells.len(),
            forall|j: int| 0 <= j < k ==> spells@[j] != id,
        decreases spells.len() - k,
    {
        if spells[k] == id {
            return true;
        }
        k += 1;
    }
    false
}

/// First matches are unique.
proof fn lemma_first_match_unique(timers: Seq<DynamicTimer>, event: EventType, i: int)
    requires
        is_first_match(timers, event, i),
    ensures
        has_match(timers, event),
        first_match(timers, event) == i,
{
    let k = first_match(timers, event);
    assert(is_first_match(timers, event, k));
    if k < i {
        assert(!timer_matches(timers[k], event));
    }
    if i < k {
        assert(!timer_matches(timers[i], event));
    }
}

/// Lists, for the player `player_name`, the casts of the spells assigned to a priest, each
/// with the time in whole seconds since the dynamic timer that was running (or since the
/// first event), walking the events in order.
pub fn extract_assignments(combat_log: &CombatLog, player_name: &str, dynamic_timers: Vec<DynamicTimer>) -> (r: Result<Vec<Assignment>, AssignmentError>)
    requires
        combat_log.events.len() < i64::MAX,
    ensures
        match r {
            Err(e) => match e {
                AssignmentError::PlayerNotFound => forall|j: int|
                    0 <= j < combat_log.actors@.len() ==> !is_named_player(#[trigger] combat_log.actors@[j], player_name@),
                AssignmentError::TimeOutOfRange => exists|i: int| #[trigger] is_first_player(combat_log.actors@, player_name@, i)
                    && !assignment_times_fit(
                        combat_log.events@,
                        i as i64,
                        default_spells(PlayerClass::Priest),
                        initial_timer_state(*combat_log, dynamic_timers@),
                    ),
            },
            Ok(v) => exists|i: int| #[trigger] is_first_player(combat_log.actors@, player_name@, i)
                && assignment_times_fit(
                    combat_log.events@,
                    i as i64,
                    default_spells(PlayerClass::Priest),
                    initial_timer_state(*combat_log, dynamic_timers@),
                )
                && v@ == run_assignments(
                    combat_log.events@,
                    combat_log.events@.len(),
                    i as i64,
                    default_spells(PlayerClass::Priest),
                    initial_timer_state(*combat_log, dynamic_timers@),
                ).1,
        },
{
    let actor_index = match find_player(&combat_log.actors, player_name) {
        Some(i) => i,
        None => {
            return Err(AssignmentError::PlayerNotFound);
        },
    };
    let actor_id = #[verifier::truncate] (actor_index as i64);
    let assigned_spells = get_default_spells(PlayerClass::Priest);
    let ghost spells = default_spells(PlayerClass::Priest);
    let ghost init = initial_timer_state(*combat_log, dynamic_timers@);
    let ghost events = combat_log.events@;

    let mut assignments: Vec<Assignment> = Vec::new();
    let mut zero_time = combat_log.first_event_timestamp;
    let mut within_dynamic_timer: Option<DynamicTimer> = None;
    let mut counters = TimerCounters::new();
    let mut timers = dynamic_timers;

    let n = combat_log.events.len();
    let mut idx: usize = 0;
    while idx < n
        invariant
            n == combat_log.events.len(),
            events == combat_log.events@,
            n < i64::MAX,
            0 <= idx <= n,
            forall|j: int| 0 <= j < idx ==> #[trigger] step_time_fits(events, j, actor_id, spells, init),
            assigned_spells@ == spells,
            spells == default_spells(PlayerClass::Priest),
            actor_id == actor_index as i64,
            is_first_player(combat_log.actors@, player_name@, actor_index as int),
            init == initial_timer_state(*combat_log, dynamic_timers@),
            run_assignments(events, idx as nat, actor_id, spells, init) == (
                (timers@, counters.view(), zero_time, within_dynamic_timer),
                assignments@,
            ),
            forall|k: (DynamicTimerType, i64)| #[trigger] counters.view().contains_key(k) ==> counters.view()[k] <= idx,
        decreases n - idx,
    {
        let event = &combat_log.events[idx];
        let ghost s_before: TimerState = (timers@, counters.view(), zero_time, within_dynamic_timer);
        match find_first_match(&timers, &event.ty) {
            Some(k) => {
                proof {
                    lemma_first_match_unique(timers@, event.ty, k as int);
                }
                let t = timers[k];
                let c = counters.bump(t.ty, t.spell_id);
                if c == t.counter {
                    within_dynamic_timer = Some(t);
                    zero_time = event.timestamp;
                    timers.remove(k);
                }
            },
            None => {},
        }
        let ghost s_after: TimerState = (timers@, counters.view(), zero_time, within_dynamic_timer);
        assert(s_after == timer_step(s_before, events[idx as int]));
        match event.ty {
            EventType::Cast { source_id, ability_game_id, .. } => {
                if source_id == actor_id && contains_spell(&assigned_spells, ability_game_id) {
                    let wide = (event.timestamp as i128) - (zero_time as i128);
                    if wide < -0x8000_0000_0000_0000 || wide > 0x7fff_ffff_ffff_ffff {
                        assert(!step_time_fits(events, idx as int, actor_id, spells, init));
                        assert(is_first_player(combat_log.actors@, player_name@, actor_index as int));
                        return Err(AssignmentError::TimeOutOfRange);
                    }
                    let diff = event.timestamp - zero_time;
                    let time: i64 = if diff >= 0 {
                        diff / 1000
                    } else {
                        -((-(diff as i128)) / 1000) as i64
                    };
                    assignments.push(
                        Assignment { spell_id: ability_game_id, dynamic_timer: within_dynamic_timer, time },
                    );
                }
            },
            _ => {},
        }
        assert(step_time_fits(events, idx as int, actor_id, spells, init));
        idx += 1;
    }
    assert(combat_log.events@.len() == n);
    Ok(assignments)
}


/// What `run_assignments` keeps of the timers it starts with: the pending timers and the
/// running one are among them.
pub open spec fn timers_from(s: TimerState, timers: Seq<DynamicTimer>) -> bool {
    &&& forall|k: int| 0 <= k < s.0.len() ==> timers.contains(#[trigger] s.0[k])
    &&& s.3 matches Some(t) ==> timers.contains(t)
    &&& s.0.len() <= timers.len()
}

/// Walking a log never adds timers: the pending timers and the running one always come
/// from the timers given, their number never grows, and every assignment is a cast of one
/// of the assigned spells, timed against no timer or one of the timers given.
pub proof fn lemma_assignments_come_from_inputs(
    events: Seq<CombatLogEvent>,
    n: nat,
    actor: i64,
    spells: Seq<i64>,
    init: TimerState,
)
    requires
        init.3 is None,
    ensures
        timers_from(run_assignments(events, n, actor, spells, init).0, init.0),
        forall|k: int| 0 <= k < run_assignments(events, n, actor, spells, init).1.len() ==> {
            let a = #[trigger] run_assignments(events, n, actor, spells, init).1[k];
            &&& spells.contains(a.spell_id)
            &&& (a.dynamic_timer matches Some(t) ==> init.0.contains(t))
        },
    decreases n,
{
    if n == 0 || n > events.len() {
    } else {
        lemma_assignments_come_from_inputs(events, (n - 1) as nat, actor, spells, init);
        let (s, out) = run_assignments(events, (n - 1) as nat, actor, spells, init);
        let e = events[n - 1];
        let s2 = timer_step(s, e);
        if has_match(s.0, e.ty) {
            let i = first_match(s.0, e.ty);
            let w = choose|w: int| 0 <= w < s.0.len() && timer_matches(#[trigger] s.0[w], e.ty);
            assert(is_first_match(s.0, e.ty, i)) by {
                lemma_first_match_exists(s.0, e.ty, w);
            }
            assert(init.0.contains(s.0[i]));
            assert forall|k: int| 0 <= k < s2.0.len() implies init.0.contains(#[trigger] s2.0[k]) by {
                if s2.0 != s.0 {
                    if k < i {
                        assert(s2.0[k] == s.0[k]);
                    } else {
                        assert(s2.0[k] == s.0[k + 1]);
                    }
                }
            }
        }
        let r = run_assignments(events, n, actor, spells, init);
        assert forall|k: int| 0 <= k < r.1.len() implies {
            let a = #[trigger] r.1[k];
            &&& spells.contains(a.spell_id)
            &&& (a.dynamic_timer matches Some(t) ==> init.0.contains(t))
        } by {
            if k < out.len() {
                assert(r.1[k] == out[k]);
            }
        }
    }
}

/// Without dynamic timers, every assignment is timed from the first event of the log and
/// carries no timer.
pub proof fn lemma_no_timers_time_from_start(
    events: Seq<CombatLogEvent>,
    n: nat,
    actor: i64,
    spells: Seq<i64>,
    first_timestamp: i64,
)
    ensures
        run_assignments(events, n, actor, spells, (seq![], Map::empty(), first_timestamp, None)).0 == (
            Seq::<DynamicTimer>::empty(),
            Map::<(DynamicTimerType, i64), int>::empty(),
            first_timestamp,
            None::<DynamicTimer>,
        ),
        forall|k: int| 0 <= k < run_assignments(events, n, actor, spells, (seq![], Map::empty(), first_timestamp, None)).1.len() ==> {
            let a = #[trigger] run_assignments(events, n, actor, spells, (seq![], Map::empty(), first_timestamp, None)).1[k];
            &&& a.dynamic_timer is None
            &&& exists|i: int| 0 <= i < n && a.time == trunc_div(events[i].timestamp - first_timestamp, 1000) as i64
        },
    decreases n,
{
    let init: TimerState = (seq![], Map::empty(), first_timestamp, None);
    if n > 0 && n <= events.len() {
        lemma_no_timers_time_from_start(events, (n - 1) as nat, actor, spells, first_timestamp);
        let (st, out) = run_assignments(events, (n - 1) as nat, actor, spells, init);
        assert(!has_match(st.0, events[n - 1].ty));
        let r = run_assignments(events, n, actor, spells, init);
        assert forall|k: int| 0 <= k < r.1.len() implies {
            let a = #[trigger] r.1[k];
            &&& a.dynamic_timer is None
            &&& exists|i: int| 0 <= i < n && a.time == trunc_div(events[i].timestamp - first_timestamp, 1000) as i64
        } by {
            if k < out.len() {
                assert(r.1[k] == out[k]);
                let i = choose|i: int| 0 <= i < n - 1 && out[k].time == trunc_div(events[i].timestamp - first_timestamp, 1000) as i64;
            } else {
                assert(r.1[k].time == trunc_div(events[n - 1].timestamp - first_timestamp, 1000) as i64);
            }
        }
    }
}

/// Where some pending timer listens to an event, a first one does.
proof fn lemma_first_match_exists(timers: Seq<DynamicTimer>, event: EventType, w: int)
    requires
        0 <= w < timers.len(),
        timer_matches(timers[w], event),
    ensures
        is_first_match(timers, event, first_match(timers, event)),
    decreases w,
{
    if forall|j: int| 0 <= j < w ==> !timer_matches(#[trigger] timers[j], event) {
        assert(is_first_match(timers, event, w));
    } else {
        let j = choose|j: int| 0 <= j < w && !!timer_matches(#[trigger] timers[j], event);
        lemma_first_match_exists(timers, event, j);
    }
}

/// Which events each kind of timer listens to: a successful cast, a cast start, any
/// application of a buff or a debuff (or of a stack of one), or any removal of one; in
/// each case only with the timer's spell id as the event's ability.
pub proof fn lemma_timer_kinds_match(event: EventType, id: i64)
    ensures
        event_matches(DynamicTimerType::SpellCastSuccess, event, id) == (event matches EventType::Cast { ability_game_id, .. }
            && ability_game_id == id),
        event_matches(DynamicTimerType::SpellCastStart, event, id) == (event matches EventType::BeginCast {
            ability_game_id,
            ..
        } && ability_game_id == id),
        event_matches(DynamicTimerType::SpellAuraApplied, event, id) == {
            ||| (event matches EventType::ApplyBuff { ability_game_id, .. } && ability_game_id == id)
            ||| (event matches EventType::ApplyBuffStack { ability_game_id, .. } && ability_game_id == id)
            ||| (event matches EventType::ApplyDebuff { ability_game_id, .. } && ability_game_id == id)
            ||| (event matches EventType::ApplyDebuffStack { ability_game_id, .. } && ability_game_id == id)
        },
        event_matches(DynamicTimerType::SpellAuraRemoved, event, id) == {
            ||| (event matches EventType::RemoveBuff { ability_game_id, .. } && ability_game_id == id)
            ||| (event matches EventType::RemoveBuffStack { ability_game_id, .. } && ability_game_id == id)
            ||| (event matches EventType::RemoveDebuff { ability_game_id, .. } && ability_game_id == id)
            ||| (event matches EventType::RemoveDebuffStack { ability_game_id, .. } && ability_game_id == id)
        },
{
}

/// An assignment `60 * m + s` seconds from its origin, with `s` the remainder of the same
/// sign (`0 <= s < 60`, or `-60 < s <= 0` for a negative time), is written with the minutes
/// `m` first and the seconds `s` second, each padded to two places.
pub proof fn lemma_assignment_text_minutes_then_seconds(a: Assignment, m: int, s: int)
    requires
        a.time == 60 * m + s,
        (0 <= m && 0 <= s < 60) || (m <= 0 && -60 < s <= 0),
    ensures
        assignment_text(a) == "{time:"@ + decimal_width2(m) + ":"@ + decimal_width2(s) + match a.dynamic_timer {
            Some(dt) => ","@ + abbreviation_of(dt.ty) + ":"@ + decimal(dt.spell_id as int) + ":"@ + decimal(
                dt.counter as int,
            ),
            None => Seq::<char>::empty(),
        } + "} - {spell:"@ + decimal(a.spell_id as int) + "}"@,
{
    let t = a.time as int;
    if t >= 0 {
        if m < 0 {
            assert(t < 0);
        }
        if m == 0 && s < 0 {
            assert(t < 0);
        }
        assert(0 <= s < 60);
        vstd::arithmetic::div_mod::lemma_fundamental_div_mod_converse(t, 60, m, s);
        assert(trunc_div(t, 60) == m);
    } else {
        assert(m <= 0 && -60 < s <= 0) by {
            if m >= 0 && 0 <= s < 60 {
                assert(t >= 0);
            }
        }
        vstd::arithmetic::div_mod::lemma_fundamental_div_mod_converse(-t, 60, -m, -s);
        assert(trunc_div(t, 60) == m);
    }
}

/// The casts that `actor` itself made, of one of `spells`, among the first `n` events, in
/// log order (whatever their targets).
pub open spec fn own_casts(events: Seq<CombatLogEvent>, n: nat, actor: i64, spells: Seq<i64>) -> Seq<CombatLogEvent>
    decreases n,
{
    if n == 0 || n > events.len() {
        seq![]
    } else {
        let before = own_casts(events, (n - 1) as nat, actor, spells);
        if events[n - 1].ty matches EventType::Cast { source_id, ability_game_id, .. } && source_id == actor
            && spells.contains(ability_game_id) {
            before.push(events[n - 1])
        } else {
            before
        }
    }
}

/// The assignments are the player's own casts of the assigned spells, one for each such
/// cast and in log order, each with the cast's spell: a cast by any other actor gives none,
/// whoever it targets. With no timers, each is timed in whole seconds (rounded toward
/// zero) from the time origin it started with, and carries no timer.
pub proof fn lemma_assignments_are_own_casts(
    events: Seq<CombatLogEvent>,
    n: nat,
    actor: i64,
    spells: Seq<i64>,
    init: TimerState,
)
    ensures
        run_assignments(events, n, actor, spells, init).1.len() == own_casts(events, n, actor, spells).len(),
        forall|k: int| 0 <= k < own_casts(events, n, actor, spells).len() ==>
            ((#[trigger] own_casts(events, n, actor, spells)[k]).ty matches EventType::Cast { ability_game_id, .. }
                && ability_game_id == run_assignments(events, n, actor, spells, init).1[k].spell_id),
        init.0.len() == 0 && init.3 is None ==> forall|k: int| 0 <= k < own_casts(events, n, actor, spells).len() ==> {
            &&& (#[trigger] run_assignments(events, n, actor, spells, init).1[k]).dynamic_timer is None
            &&& run_assignments(events, n, actor, spells, init).1[k].time == trunc_div(
                own_casts(events, n, actor, spells)[k].timestamp - init.2,
                1000,
            ) as i64
        },
        init.0.len() == 0 ==> run_assignments(events, n, actor, spells, init).0 == init,
    decreases n,
{
    if n > 0 && n <= events.len() {
        lemma_assignments_are_own_casts(events, (n - 1) as nat, actor, spells, init);
        let (st, out) = run_assignments(events, (n - 1) as nat, actor, spells, init);
        let r = run_assignments(events, n, actor, spells, init).1;
        let c = own_casts(events, n, actor, spells);
        let c0 = own_casts(events, (n - 1) as nat, actor, spells);
        if init.0.len() == 0 {
            assert(!has_match(st.0, events[n - 1].ty));
        }
        assert forall|k: int| 0 <= k < c.len() implies ((#[trigger] c[k]).ty matches EventType::Cast { ability_game_id, .. }
            && ability_game_id == r[k].spell_id) by {
            if k < out.len() {
                assert(r[k] == out[k]);
                assert(c[k] == c0[k]);
            }
        }
        if init.0.len() == 0 && init.3 is None {
            assert forall|k: int| 0 <= k < c.len() implies {
                &&& (#[trigger] r[k]).dynamic_timer is None
                &&& r[k].time == trunc_div(c[k].timestamp - init.2, 1000) as i64
            } by {
                if k < out.len() {
                    assert(r[k] == out[k]);
                    assert(c[k] == c0[k]);
                }
            }
        }
    }
}

/// How many of the first `n` events the timer `t` listens to.
pub open spec fn timer_hits(events: Seq<CombatLogEvent>, n: nat, t: DynamicTimer) -> nat
    decreases n,
{
    if n == 0 || n > events.len() {
        0
    } else {
        timer_hits(events, (n - 1) as nat, t) + if event_matches(t.ty, events[n - 1].ty, t.spell_id) {
            1nat
        } else {
            0nat
        }
    }
}

proof fn lemma_single_timer_state(
    events: Seq<CombatLogEvent>,
    n: nat,
    actor: i64,
    spells: Seq<i64>,
    t: DynamicTimer,
    z0: i64,
)
    requires
        n <= events.len(),
        t.counter >= 1,
    ensures
        ({
            let st = run_assignments(events, n, actor, spells, (seq![t], Map::empty(), z0, None)).0;
            if timer_hits(events, n, t) < t.counter {
                &&& st.0 == seq![t]
                &&& count_of(st.1, (t.ty, t.spell_id)) == timer_hits(events, n, t)
                &&& st.2 == z0
                &&& st.3 is None
            } else {
                &&& st.0 == Seq::<DynamicTimer>::empty()
                &&& st.3 == Some(t)
                &&& exists|j: int|
                    0 <= j < n && #[trigger] event_matches(t.ty, events[j].ty, t.spell_id) && timer_hits(
                        events,
                        (j + 1) as nat,
                        t,
                    ) == t.counter && st.2 == events[j].timestamp
            }
        }),
    decreases n,
{
    let init: TimerState = (seq![t], Map::empty(), z0, None);
    if n > 0 {
        let m = (n - 1) as nat;
        lemma_single_timer_state(events, m, actor, spells, t, z0);
        let st = run_assignments(events, m, actor, spells, init).0;
        let e = events[m as int];
        if timer_hits(events, m, t) < t.counter {
            if timer_matches(t, e.ty) {
                assert(is_first_match(st.0, e.ty, 0));
                lemma_first_match_unique(st.0, e.ty, 0);
                if timer_hits(events, n, t) == t.counter {
                    assert(st.0.remove(0) =~= Seq::<DynamicTimer>::empty());
                    assert(event_matches(t.ty, events[m as int].ty, t.spell_id));
                }
            } else {
                assert(!has_match(st.0, e.ty));
            }
        } else {
            assert(!has_match(st.0, e.ty));
            let j = choose|j: int|
                0 <= j < m && #[trigger] event_matches(t.ty, events[j].ty, t.spell_id) && timer_hits(events, (j + 1) as nat, t)
                    == t.counter && st.2 == events[j].timestamp;
            assert(event_matches(t.ty, events[j].ty, t.spell_id));
        }
    }
}

/// With one timer, that starts at the `counter`-th event it listens to: a cast of the
/// player, made while the timer has seen fewer events, is assigned with no timer and timed
/// from the origin; made once it has seen that many (the cast itself counting), it is
/// assigned with the timer and timed from the event at which the count reached `counter`.
pub proof fn lemma_single_timer_assignment(
    events: Seq<CombatLogEvent>,
    n: nat,
    actor: i64,
    spells: Seq<i64>,
    t: DynamicTimer,
    z0: i64,
)
    requires
        0 < n <= events.len(),
        t.counter >= 1,
        events[n - 1].ty matches EventType::Cast { source_id, ability_game_id, .. } && source_id == actor
            && spells.contains(ability_game_id),
    ensures
        ({
            let out = run_assignments(events, n, actor, spells, (seq![t], Map::empty(), z0, None)).1;
            &&& out.len() > 0
            &&& if timer_hits(events, n, t) < t.counter {
                &&& out.last().dynamic_timer is None
                &&& out.last().time == trunc_div(events[n - 1].timestamp - z0, 1000) as i64
            } else {
                &&& out.last().dynamic_timer == Some(t)
                &&& exists|j: int|
                    0 <= j < n && #[trigger] event_matches(t.ty, events[j].ty, t.spell_id) && timer_hits(
                        events,
                        (j + 1) as nat,
                        t,
                    ) == t.counter && out.last().time == trunc_div(events[n - 1].timestamp - events[j].timestamp, 1000) as i64
            }
        }),
{
    lemma_single_timer_state(events, n, actor, spells, t, z0);
}

} // verus!
