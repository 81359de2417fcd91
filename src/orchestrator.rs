//! The planning cadence: when a cycle starts, and what its outcome does to
//! the installed intents. The caller performs the planner call itself, off
//! the tick path, and reports back.
use vstd::prelude::*;
use crate::context::{DecisionContext, LlmEngineError, create_decision_context, recent};
use crate::game::GameWorld;
use crate::intent::{ActionPlan, Intent, merge_all};

verus! {

/// Gate for planning cycles, on simulation time.
#[derive(Debug, Clone, Copy, PartialEq, Eq, Structural)]
pub struct DecisionTimer {
    /// Start of the last cycle.
    pub last_decision_ms: u64,
    pub interval_ms: u64,
}

impl DecisionTimer {
    pub open spec fn due_at(self, now: int) -> bool {
        now >= self.last_decision_ms + self.interval_ms
    }

    /// The timer after a cycle starts at `now`; unchanged when not due.
    pub open spec fn stamped(self, now: u64) -> DecisionTimer {
        if self.due_at(now as int) { DecisionTimer { last_decision_ms: now, ..self } } else { self }
    }

    pub fn new(interval_ms: u64) -> (r: DecisionTimer)
        ensures
            r.last_decision_ms == 0,
            r.interval_ms == interval_ms,
    {
        DecisionTimer { last_decision_ms: 0, interval_ms }
    }

    pub fn is_due(&self, now: u64) -> (r: bool)
        ensures
            r == self.due_at(now as int),
    {
        now >= self.last_decision_ms && now - self.last_decision_ms >= self.interval_ms
    }

    /// Starts a cycle at `now` when one is due: the timer is stamped with the
    /// start time whether or not the planner turns out to be ready. Returns
    /// whether the planner should be called.
    pub fn begin_cycle(&mut self, now: u64, planner_ready: bool) -> (r: bool)
        ensures
            *final(self) == old(self).stamped(now),
            r == (old(self).due_at(now as int) && planner_ready),
    {
        if !self.is_due(now) {
            return false;
        }
        self.last_decision_ms = now;
        planner_ready
    }
}

/// The installed intents after a cycle's outcome: a plan is merged, an
/// error changes nothing.
pub open spec fn after_outcome(current: Seq<Intent>, outcome: Result<ActionPlan, LlmEngineError>) -> Seq<Intent> {
    match outcome {
        Ok(plan) => merge_all(current, plan.intents@),
        Err(_) => current,
    }
}

/// Applies a finished planning cycle to the world.
pub fn finish_cycle(world: &mut GameWorld, outcome: Result<ActionPlan, LlmEngineError>)
    ensures
        final(world).current_intents@ == after_outcome(old(world).current_intents@, outcome),
        final(world).players == old(world).players,
        final(world).ball == old(world).ball,
        final(world).match_state == old(world).match_state,
        final(world).events == old(world).events,
        outcome is Err ==> *final(world) == *old(world),
{
    match outcome {
        Ok(plan) => world.update_intents(plan.intents),
        Err(_) => {},
    }
}

/// One pass of the planning loop at the world's current time: when a cycle
/// is due and the planner is ready, stamps the timer and returns the
/// snapshot to plan from; when due but not ready, only stamps the timer.
pub fn request_plan(timer: &mut DecisionTimer, world: &GameWorld, planner_ready: bool) -> (r: Option<DecisionContext>)
    ensures
        *final(timer) == old(timer).stamped(world.match_state.time_ms),
        r is Some <==> (old(timer).due_at(world.match_state.time_ms as int) && planner_ready),
        match r {
            Some(c) => c.current_intents@ == world.current_intents@ && c.players@ == world.players@
                && c.current_time_ms == world.match_state.time_ms
                && c.recent_events@ == recent(world.events@)
                && c.match_state == world.match_state
                && c.tactics.attack_defense_balance == 500
                && c.tactics.pressing_intensity == 500
                && c.tactics.player_roles@.len() == 0,
            None => true,
        },
{
    if timer.begin_cycle(world.match_state.time_ms, planner_ready) {
        Some(create_decision_context(world))
    } else {
        None
    }
}

/// A failed cycle still moves the schedule to its start time, so it is not
/// retried before the next interval, and leaves every installed intent as
/// it was.
pub proof fn lemma_failed_cycle(timer: DecisionTimer, now: u64, current: Seq<Intent>, e: LlmEngineError, later: int)
    requires
        timer.due_at(now as int),
        now <= later < now + timer.interval_ms,
    ensures
        timer.stamped(now).last_decision_ms == now,
        !timer.stamped(now).due_at(later),
        after_outcome(current, Err(e)) == current,
{
}

/// An empty plan leaves the installed intents as they were.
pub proof fn lemma_empty_plan(current: Seq<Intent>, plan: ActionPlan)
    requires
        plan.intents@.len() == 0,
    ensures
        after_outcome(current, Ok(plan)) == current,
{
    assert(plan.intents@ == Seq::<Intent>::empty());
}

} // verus!
