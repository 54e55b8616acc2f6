//! Carrying out a configuration loaded anew: the chats no longer listened to
//! are dropped one after the other, then the new ones are added.
use vstd::prelude::*;
use crate::config::ReloadPlan;
use crate::replies;
use crate::replies::{AddOutcome, AddReply, Line, LineView};
use crate::text;

verus! {

/// How long to wait after each chat that is added, in seconds.
pub const RELOAD_PAUSE_SECS: u64 = 3;

/// What is to be done next.
#[derive(Debug, Clone, Copy, PartialEq, Eq, Structural)]
pub enum ReloadStep {
    /// Stop listening to the chat of this number among those to remove.
    Remove(usize),
    /// Listen to the chat of this number among those to add.
    Add(usize),
    /// Nothing any more.
    Done,
}

/// A reload under way.
#[derive(Debug, Clone)]
pub struct Reload {
    pub plan: ReloadPlan,
    pub step: ReloadStep,
    /// What became of the chats added so far, in order.
    pub outcomes: Vec<AddOutcome>,
}

/// The step once so many chats have been removed and so many added.
pub open spec fn step_after(
    removed: int,
    added: int,
    to_remove: int,
    to_add: int,
) -> ReloadStep {
    if removed < to_remove {
        ReloadStep::Remove(removed as usize)
    } else if added < to_add {
        ReloadStep::Add(added as usize)
    } else {
        ReloadStep::Done
    }
}

/// What an answer says about a chat to be added.
pub open spec fn outcome_of(reply: AddReply) -> AddOutcome {
    match reply {
        AddReply::Added => AddOutcome::Added,
        AddReply::Stopped => AddOutcome::Unasked,
        _ => AddOutcome::Failed,
    }
}

/// What an answer says about a chat to be added: without a worker nobody was
/// asked.
pub fn add_outcome(reply: &AddReply) -> (r: AddOutcome)
    ensures
        r == outcome_of(*reply),
{
    match reply {
        AddReply::Added => AddOutcome::Added,
        AddReply::Stopped => AddOutcome::Unasked,
        _ => AddOutcome::Failed,
    }
}

impl Reload {
    /// How many chats there are to remove.
    pub open spec fn to_remove(&self) -> int {
        self.plan.to_remove@.len() as int
    }

    /// How many chats there are to add.
    pub open spec fn to_add(&self) -> int {
        self.plan.to_add@.len() as int
    }

    /// Whether step and outcomes fit together.
    pub open spec fn wf(&self) -> bool {
        match self.step {
            ReloadStep::Remove(i) => i < self.to_remove() && self.outcomes@.len() == 0,
            ReloadStep::Add(i) => i < self.to_add() && self.outcomes@.len() == i,
            ReloadStep::Done => self.outcomes@.len() == self.to_add(),
        }
    }

    /// How many steps are left.
    pub open spec fn steps_left(&self) -> int {
        match self.step {
            ReloadStep::Remove(i) => self.to_remove() - i + self.to_add(),
            ReloadStep::Add(i) => self.to_add() - i,
            ReloadStep::Done => 0,
        }
    }

    /// The chat that the step is about.
    pub open spec fn chat(&self) -> Option<Seq<char>> {
        match self.step {
            ReloadStep::Remove(i) => Some(self.plan.to_remove@[i as int]@),
            ReloadStep::Add(i) => Some(self.plan.to_add@[i as int]@),
            ReloadStep::Done => None,
        }
    }

    /// Starts to carry a plan out.
    pub fn start(plan: ReloadPlan) -> (r: Reload)
        ensures
            r.wf(),
            r.plan == plan,
            r.step == step_after(
                0,
                0,
                plan.to_remove@.len() as int,
                plan.to_add@.len() as int,
            ),
            r.outcomes@.len() == 0,
    {
        let step = if plan.to_remove.len() > 0 {
            ReloadStep::Remove(0)
        } else if plan.to_add.len() > 0 {
            ReloadStep::Add(0)
        } else {
            ReloadStep::Done
        };
        Reload { plan, step, outcomes: Vec::new() }
    }

    /// The chat that the step is about.
    pub fn who(&self) -> (r: Option<String>)
        requires
            self.wf(),
        ensures
            text::opt_view(r) == self.chat(),
    {
        match self.step {
            ReloadStep::Remove(i) => Some(self.plan.to_remove[i].clone()),
            ReloadStep::Add(i) => Some(self.plan.to_add[i].clone()),
            ReloadStep::Done => None,
        }
    }

    /// Goes on once the chat of the step has been dropped, whether it was there
    /// or not. A step of another kind stays.
    pub fn removed(&mut self)
        requires
            old(self).wf(),
        ensures
            final(self).wf(),
            final(self).plan == old(self).plan,
            match old(self).step {
                ReloadStep::Remove(i) => {
                    &&& final(self).step == step_after(
                        i + 1,
                        0,
                        old(self).to_remove(),
                        old(self).to_add(),
                    )
                    &&& final(self).outcomes == old(self).outcomes
                    &&& final(self).steps_left() == old(self).steps_left() - 1
                },
                _ => *final(self) == *old(self),
            },
    {
        if let ReloadStep::Remove(i) = self.step {
            self.step = if i < self.plan.to_remove.len() - 1 {
                ReloadStep::Remove(i + 1)
            } else if self.plan.to_add.len() > 0 {
                ReloadStep::Add(0)
            } else {
                ReloadStep::Done
            };
        }
    }

    /// Goes on once the chat of the step has been asked for. A step of another
    /// kind stays.
    pub fn added(&mut self, reply: &AddReply)
        requires
            old(self).wf(),
        ensures
            final(self).wf(),
            final(self).plan == old(self).plan,
            match old(self).step {
                ReloadStep::Add(i) => {
                    &&& final(self).step == step_after(
                        old(self).to_remove(),
                        i + 1,
                        old(self).to_remove(),
                        old(self).to_add(),
                    )
                    &&& final(self).outcomes@ == old(self).outcomes@.push(outcome_of(*reply))
                    &&& final(self).steps_left() == old(self).steps_left() - 1
                },
                _ => *final(self) == *old(self),
            },
    {
        if let ReloadStep::Add(i) = self.step {
            self.outcomes.push(add_outcome(reply));
            self.step = if i < self.plan.to_add.len() - 1 {
                ReloadStep::Add(i + 1)
            } else {
                ReloadStep::Done
            };
        }
    }

    /// The line shown at the console before a step is taken, and at the end.
    pub open spec fn announcement(&self) -> LineView {
        match self.step {
            ReloadStep::Remove(i) => replies::info(
                "👂 /reload 移除监听: "@ + self.plan.to_remove@[i as int]@,
            ),
            ReloadStep::Add(i) => replies::info(
                "👂 /reload 添加监听: "@ + self.plan.to_add@[i as int]@,
            ),
            ReloadStep::Done => replies::info("⚙️ 配置已重新加载"@),
        }
    }

    /// The line shown at the console before a step is taken, and at the end.
    pub fn line(&self) -> (r: Line)
        requires
            self.wf(),
        ensures
            r@ == self.announcement(),
    {
        let text = match self.step {
            ReloadStep::Remove(i) => {
                let mut s = "👂 /reload 移除监听: ".to_owned();
                s.append(self.plan.to_remove[i].as_str());
                s
            },
            ReloadStep::Add(i) => {
                let mut s = "👂 /reload 添加监听: ".to_owned();
                s.append(self.plan.to_add[i].as_str());
                s
            },
            ReloadStep::Done => "⚙️ 配置已重新加载".to_owned(),
        };
        Line { warn: false, text }
    }

    /// The answer to a command from afar, once all is done.
    pub fn report(&self, old_delay: u64) -> (r: String)
        requires
            self.wf(),
            self.step == ReloadStep::Done,
        ensures
            r@ == replies::reload_text(
                old_delay,
                self.plan.at_delay_ms,
                text::views(self.plan.to_remove@),
                text::views(self.plan.to_add@),
                self.outcomes@,
            ),
    {
        replies::reload_report(old_delay, &self.plan, &self.outcomes)
    }
}

/// The step after so many answers, where each chat to remove is dropped and
/// each chat to add is asked for in turn.
pub open spec fn step_number(n: int, to_remove: int, to_add: int) -> ReloadStep {
    if n < to_remove {
        step_after(n, 0, to_remove, to_add)
    } else {
        step_after(to_remove, n - to_remove, to_remove, to_add)
    }
}

/// A reload takes every chat of its plan exactly once, those to remove first,
/// each kind in order, and is over after as many steps as the plan has chats.
pub proof fn law_reload_takes_each_chat_once(to_remove: int, to_add: int, n: int)
    requires
        0 <= to_remove <= usize::MAX,
        0 <= to_add <= usize::MAX,
        0 <= n,
    ensures
        n < to_remove ==> step_number(n, to_remove, to_add) == ReloadStep::Remove(n as usize),
        to_remove <= n < to_remove + to_add ==> step_number(n, to_remove, to_add)
            == ReloadStep::Add((n - to_remove) as usize),
        step_number(n, to_remove, to_add) == ReloadStep::Done <==> n >= to_remove + to_add,
        n < to_remove ==> step_number(n + 1, to_remove, to_add) == step_after(
            n + 1,
            0,
            to_remove,
            to_add,
        ),
        to_remove <= n ==> step_number(n + 1, to_remove, to_add) == step_after(
            to_remove,
            n - to_remove + 1,
            to_remove,
            to_add,
        ),
{
}

/// A chat counts as added only where the worker added it, as unasked only where
/// there was no worker, and as failed in every other case.
pub proof fn law_outcomes_tell_replies(reply: AddReply)
    ensures
        outcome_of(reply) == AddOutcome::Added <==> reply is Added,
        outcome_of(reply) == AddOutcome::Unasked <==> reply is Stopped,
        outcome_of(reply) == AddOutcome::Failed <==> reply is NotAdded || reply is Failed
            || reply is Closed,
{
}

} // verus!
