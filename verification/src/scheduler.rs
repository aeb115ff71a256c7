use std::collections::VecDeque;
use vstd::prelude::*;
use crate::runspec::{RunSpec, RunSpecView, RunState, RunStateView, Step, StepAction, StepActionView, StepView, clone_step, lemma_steps_view_index, steps_view};
use crate::text::{decimal, owned, push_decimal, push_str};

verus! {

/// The model of an optional step.
pub open spec fn opt_step_view(s: Option<Step>) -> Option<StepView> {
    match s {
        Some(x) => Some(x@),
        None => None,
    }
}

/// The model of what a scheduler hands back.
pub open spec fn next_result_view(r: Result<Option<Step>, String>) -> Result<Option<StepView>, Seq<char>> {
    match r {
        Ok(s) => Ok(opt_step_view(s)),
        Err(e) => Err(e@),
    }
}

/// Hands the kernel the next step of a run, or `None` when the run is done.
pub trait Scheduler {
    /// Whether `result` is an answer the scheduler may give for `spec` in `state`.
    spec fn may_propose(&self, spec: RunSpecView, state: RunStateView, result: Result<Option<StepView>, Seq<char>>) -> bool;

    fn next(&mut self, spec: &RunSpec, state: &RunState) -> (r: Result<Option<Step>, String>)
        ensures
            old(self).may_propose(spec@, state@, next_result_view(r)),
    ;
}

/// The step at the run's cursor in the model of a specification, if it has one.
pub open spec fn step_at_view(spec: RunSpecView, index: usize) -> Option<StepView> {
    if index < spec.steps.len() {
        Some(spec.steps[index as int])
    } else {
        None
    }
}

/// The step at the run's cursor, if the specification has one.
pub open spec fn step_at(spec: RunSpec, index: usize) -> Option<StepView> {
    if index < spec.steps@.len() {
        Some(steps_view(spec.steps@)[index as int])
    } else {
        None
    }
}

/// The step at `index` of the specification, copied.
pub fn scripted_step(spec: &RunSpec, index: usize) -> (r: Option<Step>)
    ensures
        opt_step_view(r) == step_at(*spec, index),
{
    proof {
        lemma_steps_view_index(spec.steps@);
    }
    if index < spec.steps.len() {
        Some(clone_step(&spec.steps[index]))
    } else {
        None
    }
}

/// Runs the specification's steps in order.
#[derive(Default)]
pub struct QueueScheduler;

impl Scheduler for QueueScheduler {
    /// The step at the run's cursor, always.
    open spec fn may_propose(&self, spec: RunSpecView, state: RunStateView, result: Result<Option<StepView>, Seq<char>>) -> bool {
        result == Ok::<Option<StepView>, Seq<char>>(step_at_view(spec, state.next_step_index))
    }

    fn next(&mut self, spec: &RunSpec, state: &RunState) -> (r: Result<Option<Step>, String>)
        ensures
            r matches Ok(s) && opt_step_view(s) == step_at(*spec, state.next_step_index),
    {
        proof {
            lemma_steps_view_index(spec.steps@);
        }
        Ok(scripted_step(spec, state.next_step_index))
    }
}

/// What a model may decide at a turn.
#[derive(Debug, PartialEq, Eq)]
pub enum ModelDecision {
    Invoke { capability_id: String, input: String },
    Respond { content: String },
    Finish,
}

pub enum ModelDecisionView {
    Invoke { capability_id: Seq<char>, input: Seq<char> },
    Respond { content: Seq<char> },
    Finish,
}

impl View for ModelDecision {
    type V = ModelDecisionView;

    open spec fn view(&self) -> ModelDecisionView {
        match self {
            ModelDecision::Invoke { capability_id, input } => ModelDecisionView::Invoke {
                capability_id: capability_id@,
                input: input@,
            },
            ModelDecision::Respond { content } => ModelDecisionView::Respond { content: content@ },
            ModelDecision::Finish => ModelDecisionView::Finish,
        }
    }
}

/// The model of a model's answer.
pub open spec fn decide_result_view(r: Result<ModelDecision, String>) -> Result<ModelDecisionView, Seq<char>> {
    match r {
        Ok(d) => Ok(d@),
        Err(e) => Err(e@),
    }
}

/// A model that decides what a run does once its scripted steps are spent.
pub trait ModelDriver {
    /// Whether `result` is an answer the model may give for `spec` in `state`.
    spec fn may_decide(&self, spec: RunSpecView, state: RunStateView, result: Result<ModelDecisionView, Seq<char>>) -> bool;

    fn decide(&mut self, spec: &RunSpec, state: &RunState) -> (r: Result<ModelDecision, String>)
        ensures
            old(self).may_decide(spec@, state@, decide_result_view(r)),
    ;
}

/// The step a decision at turn `turn` becomes: a tool call `react-<turn>-tool`
/// titled `invoke <id>`, an assistant message `react-<turn>-response`, or none.
pub open spec fn decision_step(turn: nat, decision: ModelDecisionView) -> Option<StepView> {
    match decision {
        ModelDecisionView::Invoke { capability_id, input } => Some(
            StepView {
                id: "react-"@ + decimal(turn) + "-tool"@,
                title: "invoke "@ + capability_id,
                action: StepActionView::CapabilityInvoke { capability_id, input },
            },
        ),
        ModelDecisionView::Respond { content } => Some(
            StepView {
                id: "react-"@ + decimal(turn) + "-response"@,
                title: "assistant response"@,
                action: StepActionView::Message { role: "assistant"@, content },
            },
        ),
        ModelDecisionView::Finish => None,
    }
}

/// Turns a model decision into the step for turn `turn`.
pub fn step_for_decision(turn: u128, decision: ModelDecision) -> (r: Option<Step>)
    ensures
        opt_step_view(r) == decision_step(turn as nat, decision@),
{
    match decision {
        ModelDecision::Invoke { capability_id, input } => {
            let mut id = owned("react-");
            push_decimal(&mut id, turn);
            push_str(&mut id, "-tool");
            let mut title = owned("invoke ");
            push_str(&mut title, capability_id.as_str());
            Some(Step { id, title, action: StepAction::CapabilityInvoke { capability_id, input } })
        },
        ModelDecision::Respond { content } => {
            let mut id = owned("react-");
            push_decimal(&mut id, turn);
            push_str(&mut id, "-response");
            Some(
                Step {
                    id,
                    title: owned("assistant response"),
                    action: StepAction::Message { role: owned("assistant"), content },
                },
            )
        },
        ModelDecision::Finish => None,
    }
}

/// Runs the scripted steps, then asks the model turn by turn.
pub struct ReActScheduler<M> {
    model: M,
}

impl<M> ReActScheduler<M> {
    pub fn new(model: M) -> (r: Self)
        ensures
            r.model() == model,
    {
        ReActScheduler { model }
    }

    pub closed spec fn model(&self) -> M {
        self.model
    }
}

impl<M: ModelDriver> Scheduler for ReActScheduler<M> {
    /// The scripted step at the cursor while there is one; after that, the
    /// model's error, or the step its decision at turn `cursor + 1` becomes.
    open spec fn may_propose(&self, spec: RunSpecView, state: RunStateView, result: Result<Option<StepView>, Seq<char>>) -> bool {
        if state.next_step_index < spec.steps.len() {
            result == Ok::<Option<StepView>, Seq<char>>(step_at_view(spec, state.next_step_index))
        } else {
            match result {
                Err(e) => self.model().may_decide(spec, state, Err(e)),
                Ok(s) => exists|d: ModelDecisionView|
                    #[trigger] self.model().may_decide(spec, state, Ok(d)) && s == decision_step(
                        (state.next_step_index + 1) as nat,
                        d,
                    ),
            }
        }
    }

    fn next(&mut self, spec: &RunSpec, state: &RunState) -> (r: Result<Option<Step>, String>)
        ensures
            state.next_step_index < spec.steps@.len() ==> (r matches Ok(s) && opt_step_view(s)
                == step_at(*spec, state.next_step_index)) && final(self).model() == old(self).model(),
            state.next_step_index >= spec.steps@.len() ==> (r matches Ok(s) ==> exists|
                d: ModelDecisionView,
            | opt_step_view(s) == #[trigger] decision_step((state.next_step_index + 1) as nat, d)),
    {
        proof {
            lemma_steps_view_index(spec.steps@);
        }
        if state.next_step_index < spec.steps.len() {
            return Ok(scripted_step(spec, state.next_step_index));
        }
        let turn: u128 = state.next_step_index as u128 + 1;
        let ghost model0 = self.model;
        let decision = match self.model.decide(spec, state) {
            Ok(d) => d,
            Err(e) => {
                assert(model0.may_decide(spec@, state@, Err(e@)));
                assert(old(self).model() == model0);
                return Err(e);
            },
        };
        let ghost d = decision@;
        assert(model0.may_decide(spec@, state@, Ok(d)));
        let step = step_for_decision(turn, decision);
        assert(opt_step_view(step) == decision_step((state.next_step_index + 1) as nat, d));
        assert(old(self).model() == model0);
        assert(old(self).model().may_decide(spec@, state@, Ok(d)));
        Ok(step)
    }
}

/// A model that replays a fixed list of decisions.
pub struct MockModelDriver {
    decisions: VecDeque<ModelDecision>,
}

/// The model of a list of decisions.
pub open spec fn decisions_view(d: Seq<ModelDecision>) -> Seq<ModelDecisionView> {
    d.map_values(|x: ModelDecision| x@)
}

impl MockModelDriver {
    /// The decisions not yet handed out, in order.
    pub closed spec fn remaining(&self) -> Seq<ModelDecisionView> {
        decisions_view(self.decisions@)
    }

    /// A model that will hand out `decisions` in order.
    pub fn scripted(decisions: Vec<ModelDecision>) -> (r: Self)
        ensures
            r.remaining() == decisions_view(decisions@),
    {
        let ghost all = decisions@;
        let mut rest = decisions;
        let mut queue: VecDeque<ModelDecision> = VecDeque::new();
        while rest.len() > 0
            invariant
                all == rest@ + queue@,
            decreases rest@.len(),
        {
            let ghost before = queue@;
            let d = rest.pop().unwrap();
            queue.push_front(d);
            assert(all =~= rest@ + queue@);
        }
        assert(queue@ =~= all);
        MockModelDriver { decisions: queue }
    }
}

impl ModelDriver for MockModelDriver {
    /// The first decision not yet handed out, or an error once they are spent.
    open spec fn may_decide(&self, spec: RunSpecView, state: RunStateView, result: Result<ModelDecisionView, Seq<char>>) -> bool {
        if self.remaining().len() == 0 {
            result == Err::<ModelDecisionView, Seq<char>>("mock_model_script_exhausted"@)
        } else {
            result == Ok::<ModelDecisionView, Seq<char>>(self.remaining()[0])
        }
    }

    fn decide(&mut self, spec: &RunSpec, state: &RunState) -> (r: Result<ModelDecision, String>)
        ensures
            old(self).remaining().len() == 0 ==> (r matches Err(e) && e@ == "mock_model_script_exhausted"@
                && final(self).remaining() == old(self).remaining()),
            old(self).remaining().len() > 0 ==> (r matches Ok(d) && d@ == old(self).remaining()[0]
                && final(self).remaining() == old(self).remaining().drop_first()),
    {
        match self.decisions.pop_front() {
            Some(d) => {
                assert(decisions_view(self.decisions@) =~= decisions_view(old(self).decisions@).drop_first());
                Ok(d)
            },
            None => Err(owned("mock_model_script_exhausted")),
        }
    }
}

} // verus!
