use vstd::prelude::*;
use crate::runspec::{RunSpec, RunSpecView, RunState, RunStateView, Step, StepAction, StepActionView, StepView, clone_step};
use crate::text::{contains_seq, contains_str, join_seq, join_strings, list_contains, owned, push_str, replace_seq, replace_str};

verus! {

/// What the shell answers about a step before it runs.
#[derive(Debug, PartialEq, Eq)]
pub enum ShellDecision {
    Allow,
    Rewrite { new_step: Step, reason: String },
    Deny { reason: String },
}

pub enum ShellDecisionView {
    Allow,
    Rewrite { new_step: StepView, reason: Seq<char> },
    Deny { reason: Seq<char> },
}

impl View for ShellDecision {
    type V = ShellDecisionView;

    open spec fn view(&self) -> ShellDecisionView {
        match self {
            ShellDecision::Allow => ShellDecisionView::Allow,
            ShellDecision::Rewrite { new_step, reason } => ShellDecisionView::Rewrite {
                new_step: new_step@,
                reason: reason@,
            },
            ShellDecision::Deny { reason } => ShellDecisionView::Deny { reason: reason@ },
        }
    }
}

/// The model of an optional decision.
pub open spec fn opt_decision_view(d: Option<ShellDecision>) -> Option<ShellDecisionView> {
    match d {
        Some(x) => Some(x@),
        None => None,
    }
}

/// Decides, before each step, whether it runs as proposed, rewritten, or not at all.
pub trait Shell {
    /// The decision for `step`.
    spec fn decision(&self, spec: RunSpecView, state: RunStateView, step: StepView) -> ShellDecisionView;

    fn before_step(&self, spec: &RunSpec, state: &RunState, step: &Step) -> (r: ShellDecision)
        ensures
            r@ == self.decision(spec@, state@, step@),
    ;
}

/// One stage of a composite shell; `None` leaves the step to the later stages.
pub trait ShellMiddleware {
    /// The stage's answer for `step`.
    spec fn verdict(&self, spec: RunSpecView, state: RunStateView, step: StepView) -> Option<
        ShellDecisionView,
    >;

    fn handle(&self, spec: &RunSpec, state: &RunState, step: &Step) -> (r: Option<ShellDecision>)
        ensures
            opt_decision_view(r) == self.verdict(spec@, state@, step@),
    ;
}

/// A stage held by a composite shell.
pub struct MiddlewareSlot {
    middleware: Box<dyn ShellMiddleware>,
}

fn slot_of<M: ShellMiddleware + 'static>(middleware: M) -> MiddlewareSlot {
    MiddlewareSlot { middleware: Box::new(middleware) }
}

impl MiddlewareSlot {
    pub closed spec fn verdict(&self, spec: RunSpecView, state: RunStateView, step: StepView) -> Option<
        ShellDecisionView,
    > {
        self.middleware.verdict(spec, state, step)
    }
}

/// The decision of a chain of stages: each stage sees the step as rewritten by
/// the stages before it; the first denial ends the chain; rewrites accumulate,
/// and their reasons are joined with `+`.
pub open spec fn chain_decision(
    stages: Seq<MiddlewareSlot>,
    spec: RunSpecView,
    state: RunStateView,
    step: StepView,
    reasons: Seq<Seq<char>>,
) -> ShellDecisionView
    decreases stages.len(),
{
    if stages.len() == 0 {
        if reasons.len() == 0 {
            ShellDecisionView::Allow
        } else {
            ShellDecisionView::Rewrite { new_step: step, reason: join_seq(reasons, "+"@) }
        }
    } else {
        match stages[0].verdict(spec, state, step) {
            Some(ShellDecisionView::Deny { reason }) => ShellDecisionView::Deny { reason },
            Some(ShellDecisionView::Rewrite { new_step, reason }) => chain_decision(
                stages.drop_first(),
                spec,
                state,
                new_step,
                reasons.push(reason),
            ),
            _ => chain_decision(stages.drop_first(), spec, state, step, reasons),
        }
    }
}

/// A shell made of stages applied in the order they were pushed.
pub struct CompositeShell {
    middlewares: Vec<MiddlewareSlot>,
}

impl CompositeShell {
    /// The stages, in order.
    pub closed spec fn stages(&self) -> Seq<MiddlewareSlot> {
        self.middlewares@
    }

    /// A shell with no stages, which allows every step.
    pub fn new() -> (r: Self)
        ensures
            r.stages() == Seq::<MiddlewareSlot>::empty(),
    {
        CompositeShell { middlewares: Vec::new() }
    }

    /// Adds a stage after the existing ones.
    pub fn push<M: ShellMiddleware + 'static>(&mut self, middleware: M)
        ensures
            final(self).stages().len() == old(self).stages().len() + 1,
            final(self).stages().subrange(0, old(self).stages().len() as int) == old(self).stages(),
    {
        let slot = slot_of(middleware);
        self.middlewares.push(slot);
    }
}

impl Default for CompositeShell {
    fn default() -> (r: Self)
        ensures
            r.stages() == Seq::<MiddlewareSlot>::empty(),
    {
        CompositeShell::new()
    }
}

impl Shell for CompositeShell {
    open spec fn decision(&self, spec: RunSpecView, state: RunStateView, step: StepView) -> ShellDecisionView {
        chain_decision(self.stages(), spec, state, step, Seq::empty())
    }

    fn before_step(&self, spec: &RunSpec, state: &RunState, step: &Step) -> (r: ShellDecision) {
        let mut current_step = clone_step(step);
        let mut rewrite_reasons: Vec<String> = Vec::new();
        let mut i: usize = 0;
        assert(self.middlewares@.subrange(0, self.middlewares@.len() as int) == self.middlewares@);
        assert(rewrite_reasons.deep_view() =~= Seq::<Seq<char>>::empty());
        while i < self.middlewares.len()
            invariant
                i <= self.middlewares@.len(),
                chain_decision(self.stages(), spec@, state@, step@, Seq::empty()) == chain_decision(
                    self.middlewares@.subrange(i as int, self.middlewares@.len() as int),
                    spec@,
                    state@,
                    current_step@,
                    rewrite_reasons.deep_view(),
                ),
            decreases self.middlewares@.len() - i,
        {
            let ghost rest = self.middlewares@.subrange(i as int, self.middlewares@.len() as int);
            let ghost next = self.middlewares@.subrange(i + 1, self.middlewares@.len() as int);
            assert(rest.drop_first() == next);
            assert(rest[0] == self.middlewares@[i as int]);
            let outcome = self.middlewares[i].middleware.handle(spec, state, &current_step);
            match outcome {
                Some(ShellDecision::Allow) => {},
                Some(ShellDecision::Rewrite { new_step, reason }) => {
                    current_step = new_step;
                    let ghost before = rewrite_reasons.deep_view();
                    rewrite_reasons.push(reason);
                    assert(rewrite_reasons.deep_view() =~= before.push(reason@));
                },
                Some(ShellDecision::Deny { reason }) => {
                    return ShellDecision::Deny { reason };
                },
                None => {},
            }
            i = i + 1;
        }
        if rewrite_reasons.len() == 0 {
            assert(rewrite_reasons.deep_view().len() == 0);
            ShellDecision::Allow
        } else {
            let reason = join_strings(&rewrite_reasons, "+");
            ShellDecision::Rewrite { new_step: current_step, reason }
        }
    }
}

/// Rules that may answer for a step.
pub trait PolicyEngine {
    /// The rule's answer for `step`.
    spec fn verdict(&self, spec: RunSpecView, state: RunStateView, step: StepView) -> Option<
        ShellDecisionView,
    >;

    fn evaluate(&self, spec: &RunSpec, state: &RunState, step: &Step) -> (r: Option<ShellDecision>)
        ensures
            opt_decision_view(r) == self.verdict(spec@, state@, step@),
    ;
}

/// Denies steps by title term and by capability id.
pub struct MinimalPolicyEngine {
    denied_capabilities: Vec<String>,
    denied_title_terms: Vec<String>,
}

/// The first term of `terms` that occurs in `title`.
pub open spec fn first_term_in(terms: Seq<Seq<char>>, title: Seq<char>) -> Option<Seq<char>>
    decreases terms.len(),
{
    if terms.len() == 0 {
        None
    } else if contains_seq(title, terms[0]) {
        Some(terms[0])
    } else {
        first_term_in(terms.drop_first(), title)
    }
}

/// What a minimal policy answers: a title term denies first, in the order the
/// terms were added; then a denied capability id; otherwise nothing.
pub open spec fn minimal_policy_verdict(
    denied_capabilities: Seq<Seq<char>>,
    denied_title_terms: Seq<Seq<char>>,
    step: StepView,
) -> Option<ShellDecisionView> {
    match first_term_in(denied_title_terms, step.title) {
        Some(term) => Some(ShellDecisionView::Deny { reason: "policy_denied_title_term:"@ + term }),
        None => match step.action {
            StepActionView::CapabilityInvoke { capability_id, .. } => if denied_capabilities.contains(
                capability_id,
            ) {
                Some(ShellDecisionView::Deny { reason: "policy_denied_capability:"@ + capability_id })
            } else {
                None
            },
            _ => None,
        },
    }
}

proof fn lemma_no_term_found(terms: Seq<Seq<char>>, title: Seq<char>)
    requires
        forall|t: int| 0 <= t < terms.len() ==> !contains_seq(title, #[trigger] terms[t]),
    ensures
        first_term_in(terms, title) is None,
    decreases terms.len(),
{
    if terms.len() > 0 {
        assert forall|t: int| 0 <= t < terms.drop_first().len() implies !contains_seq(title, #[trigger] terms.drop_first()[t]) by {
            assert(terms.drop_first()[t] == terms[t + 1]);
        }
        lemma_no_term_found(terms.drop_first(), title);
    }
}

proof fn lemma_term_found(terms: Seq<Seq<char>>, title: Seq<char>, t: int)
    requires
        0 <= t < terms.len(),
        contains_seq(title, terms[t]),
    ensures
        first_term_in(terms, title) matches Some(found) && contains_seq(title, found) && terms.contains(found),
    decreases terms.len(),
{
    if !contains_seq(title, terms[0]) {
        lemma_term_found(terms.drop_first(), title, t - 1);
        let found = first_term_in(terms.drop_first(), title)->Some_0;
        let k = choose|k: int| 0 <= k < terms.drop_first().len() && terms.drop_first()[k] == found;
        assert(terms[k + 1] == found);
    } else {
        assert(terms[0] == terms[0]);
    }
}

/// A step whose title holds a denied term is denied, for a term that the
/// title holds.
pub proof fn lemma_policy_denies_denied_terms(
    denied_capabilities: Seq<Seq<char>>,
    denied_title_terms: Seq<Seq<char>>,
    step: StepView,
    t: int,
)
    requires
        0 <= t < denied_title_terms.len(),
        contains_seq(step.title, denied_title_terms[t]),
    ensures
        minimal_policy_verdict(denied_capabilities, denied_title_terms, step) matches Some(
            ShellDecisionView::Deny { reason },
        ) && exists|term: Seq<char>|
            #![trigger denied_title_terms.contains(term)]
            denied_title_terms.contains(term) && contains_seq(step.title, term) && reason
                == "policy_denied_title_term:"@ + term,
{
    lemma_term_found(denied_title_terms, step.title, t);
    let term = first_term_in(denied_title_terms, step.title)->Some_0;
    assert(denied_title_terms.contains(term));
}

/// An invocation of a denied capability, wherever it stands among the denied
/// capabilities, is denied naming it when its title holds no denied term; and
/// the policy stays silent on a step exactly when its title holds no denied
/// term and it invokes no denied capability.
pub proof fn lemma_policy_denies_denied_capabilities(
    denied_capabilities: Seq<Seq<char>>,
    denied_title_terms: Seq<Seq<char>>,
    step: StepView,
)
    requires
        forall|t: int| 0 <= t < denied_title_terms.len() ==> !contains_seq(step.title, #[trigger] denied_title_terms[t]),
    ensures
        step.action matches StepActionView::CapabilityInvoke { capability_id, .. } ==> (denied_capabilities.contains(
            capability_id,
        ) ==> minimal_policy_verdict(denied_capabilities, denied_title_terms, step) == Some(
            ShellDecisionView::Deny { reason: "policy_denied_capability:"@ + capability_id },
        )),
        minimal_policy_verdict(denied_capabilities, denied_title_terms, step) is None <==> !(
        step.action matches StepActionView::CapabilityInvoke { capability_id, .. }
            && denied_capabilities.contains(capability_id)),
{
    lemma_no_term_found(denied_title_terms, step.title);
}

impl MinimalPolicyEngine {
    pub closed spec fn denied_capabilities(&self) -> Seq<Seq<char>> {
        self.denied_capabilities.deep_view()
    }

    pub closed spec fn denied_title_terms(&self) -> Seq<Seq<char>> {
        self.denied_title_terms.deep_view()
    }

    /// A policy that denies nothing.
    pub fn new() -> (r: Self)
        ensures
            r.denied_capabilities() == Seq::<Seq<char>>::empty(),
            r.denied_title_terms() == Seq::<Seq<char>>::empty(),
    {
        let r = MinimalPolicyEngine { denied_capabilities: Vec::new(), denied_title_terms: Vec::new() };
        assert(r.denied_capabilities.deep_view() =~= Seq::<Seq<char>>::empty());
        assert(r.denied_title_terms.deep_view() =~= Seq::<Seq<char>>::empty());
        r
    }

    /// The same policy, also denying invocations of `capability_id`.
    pub fn deny_capability(self, capability_id: &str) -> (r: Self)
        ensures
            r.denied_capabilities() == self.denied_capabilities().push(capability_id@),
            r.denied_title_terms() == self.denied_title_terms(),
    {
        let mut s = self;
        let ghost before = s.denied_capabilities.deep_view();
        s.denied_capabilities.push(owned(capability_id));
        assert(s.denied_capabilities.deep_view() =~= before.push(capability_id@));
        s
    }

    /// The same policy, also denying steps whose title contains `term`.
    pub fn deny_title_term(self, term: &str) -> (r: Self)
        ensures
            r.denied_title_terms() == self.denied_title_terms().push(term@),
            r.denied_capabilities() == self.denied_capabilities(),
    {
        let mut s = self;
        let ghost before = s.denied_title_terms.deep_view();
        s.denied_title_terms.push(owned(term));
        assert(s.denied_title_terms.deep_view() =~= before.push(term@));
        s
    }
}

impl Default for MinimalPolicyEngine {
    fn default() -> (r: Self)
        ensures
            r.denied_capabilities() == Seq::<Seq<char>>::empty(),
            r.denied_title_terms() == Seq::<Seq<char>>::empty(),
    {
        MinimalPolicyEngine::new()
    }
}

impl PolicyEngine for MinimalPolicyEngine {
    open spec fn verdict(&self, spec: RunSpecView, state: RunStateView, step: StepView) -> Option<
        ShellDecisionView,
    > {
        minimal_policy_verdict(self.denied_capabilities(), self.denied_title_terms(), step)
    }

    fn evaluate(&self, spec: &RunSpec, state: &RunState, step: &Step) -> (r: Option<ShellDecision>) {
        let mut i: usize = 0;
        assert(self.denied_title_terms().subrange(0, self.denied_title_terms().len() as int)
            == self.denied_title_terms());
        while i < self.denied_title_terms.len()
            invariant
                i <= self.denied_title_terms@.len(),
                first_term_in(self.denied_title_terms(), step@.title) == first_term_in(
                    self.denied_title_terms().subrange(i as int, self.denied_title_terms().len() as int),
                    step@.title,
                ),
            decreases self.denied_title_terms@.len() - i,
        {
            let ghost rest = self.denied_title_terms().subrange(
                i as int,
                self.denied_title_terms().len() as int,
            );
            assert(rest[0] == self.denied_title_terms@[i as int]@);
            assert(rest.drop_first() == self.denied_title_terms().subrange(
                i + 1,
                self.denied_title_terms().len() as int,
            ));
            if contains_str(step.title.as_str(), self.denied_title_terms[i].as_str()) {
                let mut reason = owned("policy_denied_title_term:");
                push_str(&mut reason, self.denied_title_terms[i].as_str());
                return Some(ShellDecision::Deny { reason });
            }
            i = i + 1;
        }
        assert(self.denied_title_terms().subrange(
            i as int,
            self.denied_title_terms().len() as int,
        ).len() == 0);
        match &step.action {
            StepAction::CapabilityInvoke { capability_id, .. } => {
                if list_contains(&self.denied_capabilities, capability_id.as_str()) {
                    let mut reason = owned("policy_denied_capability:");
                    push_str(&mut reason, capability_id.as_str());
                    Some(ShellDecision::Deny { reason })
                } else {
                    None
                }
            },
            _ => None,
        }
    }
}

/// A stage that asks a policy engine.
pub struct PolicyMiddleware<P> {
    engine: P,
}

impl<P> PolicyMiddleware<P> {
    pub fn new(engine: P) -> (r: Self)
        ensures
            r.engine() == engine,
    {
        PolicyMiddleware { engine }
    }

    pub closed spec fn engine(&self) -> P {
        self.engine
    }
}

impl<P: PolicyEngine> ShellMiddleware for PolicyMiddleware<P> {
    open spec fn verdict(&self, spec: RunSpecView, state: RunStateView, step: StepView) -> Option<
        ShellDecisionView,
    > {
        self.engine().verdict(spec, state, step)
    }

    fn handle(&self, spec: &RunSpec, state: &RunState, step: &Step) -> (r: Option<ShellDecision>) {
        self.engine.evaluate(spec, state, step)
    }
}

/// What the title rule answers: a title holding `[deny]` is denied; one
/// holding `[rewrite]` is rewritten with every `[rewrite]` turned into
/// `[rewritten]`; any other step is left alone.
pub open spec fn title_rule_verdict(step: StepView) -> Option<ShellDecisionView> {
    if contains_seq(step.title, "[deny]"@) {
        Some(ShellDecisionView::Deny { reason: "title_matched_deny_rule"@ })
    } else if contains_seq(step.title, "[rewrite]"@) {
        Some(
            ShellDecisionView::Rewrite {
                new_step: StepView {
                    id: step.id,
                    title: replace_seq(step.title, "[rewrite]"@, "[rewritten]"@),
                    action: step.action,
                },
                reason: "title_matched_rewrite_rule"@,
            },
        )
    } else {
        None
    }
}

/// A stage that denies or rewrites steps by markers in their titles.
#[derive(Default)]
pub struct TitlePolicyMiddleware;

impl ShellMiddleware for TitlePolicyMiddleware {
    open spec fn verdict(&self, spec: RunSpecView, state: RunStateView, step: StepView) -> Option<
        ShellDecisionView,
    > {
        title_rule_verdict(step)
    }

    fn handle(&self, spec: &RunSpec, state: &RunState, step: &Step) -> (r: Option<ShellDecision>) {
        if contains_str(step.title.as_str(), "[deny]") {
            return Some(ShellDecision::Deny { reason: owned("title_matched_deny_rule") });
        }
        if contains_str(step.title.as_str(), "[rewrite]") {
            let mut rewritten = clone_step(step);
            proof {
                reveal_strlit("[rewrite]");
            }
            rewritten.title = replace_str(step.title.as_str(), "[rewrite]", "[rewritten]");
            return Some(
                ShellDecision::Rewrite {
                    new_step: rewritten,
                    reason: owned("title_matched_rewrite_rule"),
                },
            );
        }
        None
    }
}

/// A shell that applies the title rule and allows whatever it leaves alone.
#[derive(Default)]
pub struct AuditShell;

impl Shell for AuditShell {
    open spec fn decision(&self, spec: RunSpecView, state: RunStateView, step: StepView) -> ShellDecisionView {
        match title_rule_verdict(step) {
            Some(d) => d,
            None => ShellDecisionView::Allow,
        }
    }

    fn before_step(&self, spec: &RunSpec, state: &RunState, step: &Step) -> (r: ShellDecision) {
        match TitlePolicyMiddleware.handle(spec, state, step) {
            Some(d) => d,
            None => ShellDecision::Allow,
        }
    }
}

} // verus!
