//! Automatic pause, stop and mute of wallpapers while windows cover them or
//! the session is locked: each condition requests an action, keeps it
//! until a resume delay after the condition clears, and the requests merge
//! into the effects the router applies.

use vstd::prelude::*;

verus! {

pub const FLAG_NON_MINIMIZED: u32 = 1;

pub const FLAG_ACTIVE: u32 = 2;

pub const FLAG_MAXIMIZED: u32 = 4;

pub const FLAG_FULLSCREEN: u32 = 8;

pub const FLAGS_KNOWN: u32 = 15;

/// What the compositor and the session report.
#[derive(Debug, Clone, Copy, PartialEq, Eq, Structural)]
pub struct Facts {
    pub flags: u32,
    pub session_locked: bool,
    pub session_inactive: bool,
}

/// Who reported facts: one display or the session.
#[derive(Debug, Clone, Copy, PartialEq, Eq, Structural, Hash)]
pub enum Source {
    Display(u64),
    Session,
}

/// The actions to apply, merged over all conditions.
#[derive(Debug, Clone, Copy, PartialEq, Eq, Structural)]
pub struct Effects {
    pub pause: bool,
    pub pause_all: bool,
    pub stop: bool,
    pub stop_local: bool,
    pub mute: bool,
}

impl Default for Effects {
    fn default() -> (r: Self)
        ensures
            r == Effects::none(),
    {
        Effects { pause: false, pause_all: false, stop: false, stop_local: false, mute: false }
    }
}

impl Effects {
    pub open spec fn none() -> Effects {
        Effects { pause: false, pause_all: false, stop: false, stop_local: false, mute: false }
    }

    pub open spec fn union(self, other: Effects) -> Effects {
        Effects {
            pause: self.pause || other.pause,
            pause_all: self.pause_all || other.pause_all,
            stop: self.stop || other.stop,
            stop_local: self.stop_local || other.stop_local,
            mute: self.mute || other.mute,
        }
    }

    /// Adds the other's effects to these.
    pub fn merge(&mut self, other: Self)
        ensures
            *final(self) == old(self).union(other),
    {
        self.pause = self.pause || other.pause;
        self.pause_all = self.pause_all || other.pause_all;
        self.stop = self.stop || other.stop;
        self.stop_local = self.stop_local || other.stop_local;
        self.mute = self.mute || other.mute;
    }
}

/// Merging is commutative and idempotent, and nothing is its unit.
pub proof fn law_merge_is_a_union(a: Effects, b: Effects)
    ensures
        a.union(b) == b.union(a),
        a.union(a) == a,
        a.union(Effects::none()) == a,
{
}

/// A condition that can request an action.
#[derive(Debug, Clone, Copy, PartialEq, Eq, Structural)]
pub enum AutoCondition {
    AnyWindow,
    Focused,
    Maximized,
    Fullscreen,
    SessionLocked,
    SessionInactive,
}

impl AutoCondition {
    pub open spec fn spec_is_session(self) -> bool {
        self is SessionLocked || self is SessionInactive
    }

    /// Whether the session, rather than a display, reports this condition.
    pub fn is_session(self) -> (r: bool)
        ensures
            r == self.spec_is_session(),
    {
        match self {
            AutoCondition::SessionLocked | AutoCondition::SessionInactive => true,
            _ => false,
        }
    }

    /// The condition at a rule index, in the order rules are kept.
    pub open spec fn at(i: int) -> AutoCondition {
        if i == 0 {
            AutoCondition::AnyWindow
        } else if i == 1 {
            AutoCondition::Focused
        } else if i == 2 {
            AutoCondition::Maximized
        } else if i == 3 {
            AutoCondition::Fullscreen
        } else if i == 4 {
            AutoCondition::SessionLocked
        } else {
            AutoCondition::SessionInactive
        }
    }
}

#[derive(Debug, Clone, Copy, PartialEq, Eq, Structural)]
pub enum AutoAction {
    NoAction,
    Pause,
    Stop,
    Mute,
}

#[derive(Debug, Clone, Copy, PartialEq, Eq, Structural)]
pub enum AutoScope {
    CurrentDisplay,
    AllDisplays,
}

/// An action and where it applies.
#[derive(Debug, Clone, Copy, PartialEq, Eq, Structural)]
pub struct Contribution {
    pub action: AutoAction,
    pub scope: AutoScope,
}

pub open spec fn no_contribution() -> Contribution {
    Contribution { action: AutoAction::NoAction, scope: AutoScope::CurrentDisplay }
}

/// The configured action and scope of each condition, in rule order, and
/// the delay (milliseconds) before a released condition's action ends.
#[derive(Debug, Clone, Copy, PartialEq, Eq, Structural)]
pub struct AutoRules {
    pub any_window: Contribution,
    pub focused: Contribution,
    pub maximized: Contribution,
    pub fullscreen: Contribution,
    pub session_locked: Contribution,
    pub session_inactive: Contribution,
    pub resume_delay_ms: u32,
}

impl AutoRules {
    pub open spec fn spec_for(self, c: AutoCondition) -> Contribution {
        match c {
            AutoCondition::AnyWindow => self.any_window,
            AutoCondition::Focused => self.focused,
            AutoCondition::Maximized => self.maximized,
            AutoCondition::Fullscreen => self.fullscreen,
            AutoCondition::SessionLocked => self.session_locked,
            AutoCondition::SessionInactive => self.session_inactive,
        }
    }

    fn contribution_for(&self, c: AutoCondition) -> (r: Contribution)
        ensures
            r == self.spec_for(c),
    {
        match c {
            AutoCondition::AnyWindow => self.any_window,
            AutoCondition::Focused => self.focused,
            AutoCondition::Maximized => self.maximized,
            AutoCondition::Fullscreen => self.fullscreen,
            AutoCondition::SessionLocked => self.session_locked,
            AutoCondition::SessionInactive => self.session_inactive,
        }
    }
}

pub open spec fn spec_condition_matches(c: AutoCondition, facts: Facts) -> bool {
    match c {
        AutoCondition::AnyWindow => facts.flags & FLAG_NON_MINIMIZED != 0,
        AutoCondition::Focused => facts.flags & FLAG_ACTIVE != 0,
        AutoCondition::Maximized => facts.flags & FLAG_MAXIMIZED != 0,
        AutoCondition::Fullscreen => facts.flags & FLAG_FULLSCREEN != 0,
        AutoCondition::SessionLocked => facts.session_locked,
        AutoCondition::SessionInactive => facts.session_inactive,
    }
}

/// The window flag a window condition looks at.
pub open spec fn flag_of(c: AutoCondition) -> u32 {
    match c {
        AutoCondition::AnyWindow => FLAG_NON_MINIMIZED,
        AutoCondition::Focused => FLAG_ACTIVE,
        AutoCondition::Maximized => FLAG_MAXIMIZED,
        AutoCondition::Fullscreen => FLAG_FULLSCREEN,
        _ => 0,
    }
}

/// Each window condition holds exactly when the compositor reports its own
/// flag, whatever the other flags and the session say (a maximized window
/// that is not fullscreen matches `Maximized`); each session condition
/// holds exactly when the session reports it, whatever the window flags.
/// So two sets of facts that agree on a condition's own input agree on the
/// condition.
pub proof fn law_condition_reads_only_its_own_input(c: AutoCondition, a: Facts, b: Facts)
    ensures
        !c.spec_is_session() ==> (spec_condition_matches(c, a) <==> a.flags & flag_of(c) != 0),
        c == AutoCondition::SessionLocked ==> (spec_condition_matches(c, a) <==> a.session_locked),
        c == AutoCondition::SessionInactive ==> (spec_condition_matches(c, a) <==> a.session_inactive),
        !c.spec_is_session() && a.flags & flag_of(c) == b.flags & flag_of(c) ==> spec_condition_matches(c, a)
            == spec_condition_matches(c, b),
        c == AutoCondition::SessionLocked && a.session_locked == b.session_locked ==> spec_condition_matches(c, a)
            == spec_condition_matches(c, b),
        c == AutoCondition::SessionInactive && a.session_inactive == b.session_inactive ==> spec_condition_matches(
            c,
            a,
        ) == spec_condition_matches(c, b),
{
}

/// Whether the facts show the condition.
pub fn condition_matches(c: AutoCondition, facts: Facts) -> (r: bool)
    ensures
        r == spec_condition_matches(c, facts),
{
    match c {
        AutoCondition::AnyWindow => facts.flags & FLAG_NON_MINIMIZED != 0,
        AutoCondition::Focused => facts.flags & FLAG_ACTIVE != 0,
        AutoCondition::Maximized => facts.flags & FLAG_MAXIMIZED != 0,
        AutoCondition::Fullscreen => facts.flags & FLAG_FULLSCREEN != 0,
        AutoCondition::SessionLocked => facts.session_locked,
        AutoCondition::SessionInactive => facts.session_inactive,
    }
}

/// One condition's request and, once released, when it ends
/// (milliseconds on the daemon's monotonic clock).
#[derive(Debug, Clone, Copy, PartialEq, Eq, Structural)]
pub struct RuleState {
    pub requested: Contribution,
    pub resume_at: Option<u64>,
}

/// One rule's state after an update from `session` (or a display) at
/// `now_ms`: a matching condition of that owner requests its action; a reset
/// or a new request replaces the old one; a released request ends
/// `resume_delay_ms` after its release.
pub open spec fn rule_step(
    rule: RuleState,
    c: AutoCondition,
    rules: AutoRules,
    facts: Facts,
    session: bool,
    now_ms: u64,
    reset: bool,
) -> RuleState {
    let contribution = if c.spec_is_session() == session && spec_condition_matches(c, facts) {
        rules.spec_for(c)
    } else {
        no_contribution()
    };
    if reset || contribution.action != AutoAction::NoAction {
        RuleState { requested: contribution, resume_at: None }
    } else if rule.requested.action != AutoAction::NoAction {
        let at = match rule.resume_at {
            Some(t) => t as int,
            None => now_ms + rules.resume_delay_ms,
        };
        if now_ms >= at {
            RuleState { requested: no_contribution(), resume_at: None }
        } else {
            RuleState { requested: rule.requested, resume_at: Some(at as u64) }
        }
    } else {
        rule
    }
}

/// What one request adds to the effects.
pub open spec fn effect_of(c: Contribution) -> Effects {
    match c.action {
        AutoAction::NoAction => Effects::none(),
        AutoAction::Pause => if c.scope == AutoScope::CurrentDisplay {
            Effects { pause: true, ..Effects::none() }
        } else {
            Effects { pause_all: true, ..Effects::none() }
        },
        AutoAction::Stop => if c.scope == AutoScope::CurrentDisplay {
            Effects { stop_local: true, ..Effects::none() }
        } else {
            Effects { stop: true, ..Effects::none() }
        },
        AutoAction::Mute => Effects { mute: true, ..Effects::none() },
    }
}

/// The automatic-replay state of one owner.
pub struct AutoReplayState {
    pub last_flags: u32,
    pub stop_applied: bool,
    pub rules: Vec<RuleState>,
    pub resume_token: u64,
}

impl AutoReplayState {
    pub open spec fn well_formed(self) -> bool {
        self.rules@.len() == 6
    }

    /// No condition requests anything.
    pub fn new() -> (r: Self)
        ensures
            r.well_formed(),
            r.last_flags == 0 && !r.stop_applied && r.resume_token == 0,
            forall|i: int|
                0 <= i < 6 ==> #[trigger] r.rules@[i] == (RuleState {
                    requested: no_contribution(),
                    resume_at: None,
                }),
    {
        let idle = RuleState {
            requested: Contribution { action: AutoAction::NoAction, scope: AutoScope::CurrentDisplay },
            resume_at: None,
        };
        AutoReplayState {
            last_flags: 0,
            stop_applied: false,
            rules: vec![idle, idle, idle, idle, idle, idle],
            resume_token: 0,
        }
    }

    /// Applies new facts from one owner at `now_ms`; `reset` drops every
    /// request (the settings changed). Each update takes a new token.
    pub fn update(
        &mut self,
        rules: AutoRules,
        facts: Facts,
        session: bool,
        now_ms: u64,
        reset: bool,
    )
        requires
            old(self).well_formed(),
            old(self).resume_token < u64::MAX,
            now_ms + rules.resume_delay_ms <= u64::MAX,
        ensures
            final(self).well_formed(),
            final(self).last_flags == facts.flags,
            final(self).stop_applied == old(self).stop_applied,
            final(self).resume_token == old(self).resume_token + 1,
            forall|i: int|
                0 <= i < 6 ==> #[trigger] final(self).rules@[i] == rule_step(
                    old(self).rules@[i],
                    AutoCondition::at(i),
                    rules,
                    facts,
                    session,
                    now_ms,
                    reset,
                ),
    {
        self.last_flags = facts.flags;
        let conditions: [AutoCondition; 6] = [
            AutoCondition::AnyWindow,
            AutoCondition::Focused,
            AutoCondition::Maximized,
            AutoCondition::Fullscreen,
            AutoCondition::SessionLocked,
            AutoCondition::SessionInactive,
        ];
        let ghost before = self.rules@;
        let mut i: usize = 0;
        while i < 6
            invariant
                0 <= i <= 6,
                self.rules@.len() == 6,
                before.len() == 6,
                self.last_flags == facts.flags,
                self.stop_applied == old(self).stop_applied,
                self.resume_token == old(self).resume_token,
                old(self).resume_token < u64::MAX,
                now_ms + rules.resume_delay_ms <= u64::MAX,
                forall|j: int| 0 <= j < 6 ==> #[trigger] conditions@[j] == AutoCondition::at(j),
                forall|j: int|
                    0 <= j < i ==> #[trigger] self.rules@[j] == rule_step(
                        before[j],
                        AutoCondition::at(j),
                        rules,
                        facts,
                        session,
                        now_ms,
                        reset,
                    ),
                forall|j: int| i <= j < 6 ==> #[trigger] self.rules@[j] == before[j],
            decreases 6 - i,
        {
            let condition = conditions[i];
            let rule = self.rules[i];
            let contribution = if condition.is_session() == session && condition_matches(
                condition,
                facts,
            ) {
                rules.contribution_for(condition)
            } else {
                Contribution { action: AutoAction::NoAction, scope: AutoScope::CurrentDisplay }
            };
            let next = if reset || contribution.action != AutoAction::NoAction {
                RuleState { requested: contribution, resume_at: None }
            } else if rule.requested.action != AutoAction::NoAction {
                let at = match rule.resume_at {
                    Some(t) => t,
                    None => now_ms + rules.resume_delay_ms as u64,
                };
                if now_ms >= at {
                    RuleState {
                        requested: Contribution {
                            action: AutoAction::NoAction,
                            scope: AutoScope::CurrentDisplay,
                        },
                        resume_at: None,
                    }
                } else {
                    RuleState { requested: rule.requested, resume_at: Some(at) }
                }
            } else {
                rule
            };
            self.rules.set(i, next);
            i = i + 1;
        }
        self.resume_token = self.resume_token + 1;
    }

    /// The earliest pending release.
    pub fn next_deadline(&self) -> (r: Option<u64>)
        ensures
            match r {
                Some(t) => (exists|i: int|
                    0 <= i < self.rules@.len() && #[trigger] self.rules@[i].resume_at == Some(t))
                    && forall|i: int|
                    0 <= i < self.rules@.len() && #[trigger] self.rules@[i].resume_at is Some
                        ==> t <= self.rules@[i].resume_at->0,
                None => forall|i: int|
                    0 <= i < self.rules@.len() ==> #[trigger] self.rules@[i].resume_at is None,
            },
    {
        let mut best: Option<u64> = None;
        let mut i: usize = 0;
        while i < self.rules.len()
            invariant
                0 <= i <= self.rules@.len(),
                match best {
                    Some(t) => (exists|j: int|
                        0 <= j < i && #[trigger] self.rules@[j].resume_at == Some(t)) && forall|j: int|
                        0 <= j < i && #[trigger] self.rules@[j].resume_at is Some ==> t
                            <= self.rules@[j].resume_at->0,
                    None => forall|j: int| 0 <= j < i ==> #[trigger] self.rules@[j].resume_at is None,
                },
            decreases self.rules@.len() - i,
        {
            match self.rules[i].resume_at {
                Some(t) => {
                    best = match best {
                        Some(b) => if t < b {
                            Some(t)
                        } else {
                            Some(b)
                        },
                        None => Some(t),
                    };
                },
                None => {},
            }
            i = i + 1;
        }
        best
    }

    /// The requests merged into effects.
    pub fn effects(&self) -> (r: Effects)
        ensures
            r == effects_of(self.rules@),
    {
        let mut effects = Effects {
            pause: false,
            pause_all: false,
            stop: false,
            stop_local: false,
            mute: false,
        };
        let mut i: usize = 0;
        proof {
            assert(self.rules@.take(0) =~= Seq::<RuleState>::empty());
        }
        while i < self.rules.len()
            invariant
                0 <= i <= self.rules@.len(),
                effects == effects_of(self.rules@.take(i as int)),
            decreases self.rules@.len() - i,
        {
            proof {
                assert(self.rules@.take(i + 1).drop_last() =~= self.rules@.take(i as int));
            }
            let c = self.rules[i].requested;
            match c.action {
                AutoAction::NoAction => {},
                AutoAction::Pause => if c.scope == AutoScope::CurrentDisplay {
                    effects.pause = true;
                } else {
                    effects.pause_all = true;
                },
                AutoAction::Stop => if c.scope == AutoScope::CurrentDisplay {
                    effects.stop_local = true;
                } else {
                    effects.stop = true;
                },
                AutoAction::Mute => effects.mute = true,
            }
            i = i + 1;
        }
        proof {
            assert(self.rules@.take(self.rules@.len() as int) =~= self.rules@);
        }
        effects
    }
}

/// The effects of all requests.
pub open spec fn effects_of(rules: Seq<RuleState>) -> Effects
    decreases rules.len(),
{
    if rules.len() == 0 {
        Effects::none()
    } else {
        effects_of(rules.drop_last()).union(effect_of(rules.last().requested))
    }
}

/// What a display's effects add to every display's: its own pause and
/// local stop stay its own.
pub open spec fn shared_part(e: Effects) -> Effects {
    Effects { pause: false, stop_local: false, ..e }
}

/// The effects on every display: the session's, merged with the shared part
/// of each display's.
pub open spec fn global_effects_of(session: Effects, displays: Seq<Effects>) -> Effects
    decreases displays.len(),
{
    if displays.len() == 0 {
        session
    } else {
        global_effects_of(session, displays.drop_last()).union(shared_part(displays.last()))
    }
}

/// The effects on every display, from the session's and the displays'.
pub fn global_effects(session: Effects, displays: &[Effects]) -> (r: Effects)
    ensures
        r == global_effects_of(session, displays@),
{
    let mut r = session;
    let mut i: usize = 0;
    while i < displays.len()
        invariant
            0 <= i <= displays@.len(),
            r == global_effects_of(session, displays@.take(i as int)),
        decreases displays@.len() - i,
    {
        proof {
            assert(displays@.take(i + 1).drop_last() =~= displays@.take(i as int));
        }
        let d = displays[i];
        r.merge(Effects { pause: false, stop_local: false, ..d });
        i = i + 1;
    }
    proof {
        assert(displays@.take(displays@.len() as int) =~= displays@);
    }
    r
}

/// A display's own pause and local stop never reach the others: the
/// global effects pause or stop locally only where the session does, and
/// hold every display's shared part.
pub proof fn law_local_effects_stay_local(session: Effects, displays: Seq<Effects>)
    ensures
        global_effects_of(session, displays).pause == session.pause,
        global_effects_of(session, displays).stop_local == session.stop_local,
        forall|i: int| 0 <= i < displays.len() ==> {
            let g = global_effects_of(session, displays);
            let d = #[trigger] displays[i];
            &&& d.pause_all ==> g.pause_all
            &&& d.stop ==> g.stop
            &&& d.mute ==> g.mute
        },
    decreases displays.len(),
{
    if displays.len() > 0 {
        let prev = displays.drop_last();
        law_local_effects_stay_local(session, prev);
        let g = global_effects_of(session, displays);
        assert forall|i: int| 0 <= i < displays.len() implies {
            let d = #[trigger] displays[i];
            &&& d.pause_all ==> g.pause_all
            &&& d.stop ==> g.stop
            &&& d.mute ==> g.mute
        } by {
            if i < displays.len() - 1 {
                assert(displays[i] == prev[i]);
            }
        }
    }
}

/// Whether a display is paused automatically, under the effects on every
/// display and its own: a stop wins over a pause.
pub fn display_auto_paused(global: Effects, own: Effects) -> (r: bool)
    ensures
        r == (!global.stop && (global.pause_all || own.pause)),
{
    !global.stop && (global.pause_all || own.pause)
}

/// Whether a display's renderer is to be stopped automatically: by a stop
/// on every display or by its own local stop.
pub fn display_auto_stopped(global: Effects, own: Effects) -> (r: bool)
    ensures
        r == (global.stop || own.stop_local),
{
    global.stop || own.stop_local
}

/// A released request holds until its resume time and no longer; a
/// condition that matches again cancels the pending release; a reset
/// clears every request of the other owner.
pub proof fn law_release_after_delay(
    rule: RuleState,
    c: AutoCondition,
    rules: AutoRules,
    facts: Facts,
    session: bool,
    now_ms: u64,
)
    requires
        rule.requested.action != AutoAction::NoAction,
        now_ms + rules.resume_delay_ms <= u64::MAX,
    ensures
        ({
            let released = !(c.spec_is_session() == session && spec_condition_matches(c, facts)
                && rules.spec_for(c).action != AutoAction::NoAction);
            let next = rule_step(rule, c, rules, facts, session, now_ms, false);
            &&& !released ==> next.resume_at is None && next.requested == rules.spec_for(c)
            &&& released && rule.resume_at is None && rules.resume_delay_ms > 0 ==> next.requested
                == rule.requested && next.resume_at == Some((now_ms + rules.resume_delay_ms) as u64)
            &&& released && rule.resume_at is Some && now_ms < rule.resume_at->0 ==> next == rule
            &&& released && rule.resume_at is Some && now_ms >= rule.resume_at->0 ==> next.requested
                == no_contribution() && next.resume_at is None
        }),
        c.spec_is_session() != session ==> rule_step(rule, c, rules, facts, session, now_ms, true)
            == (RuleState { requested: no_contribution(), resume_at: None }),
{
}

} // verus!
