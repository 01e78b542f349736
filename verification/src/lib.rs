//! Validation of a GitOps delivery configuration: resolves the complete set
//! of applications that a set of entrypoint manifests leads to, and checks
//! every one of them against the access policy of its project.
//!
//! Reading files and running the templating command are not done here. The
//! run is a sequence of steps: each step takes what the outside world has
//! delivered and says what to do next.

use crate::argo::render::{RenderOutcome, RenderOutcomeView};
use crate::checks::{checked, run_checks, CheckReport, ReportView};
use crate::error::{Diagnostic, DiagnosticView, Error};
use crate::model::{State, StateView};
use crate::order::{
    independent, lemma_classified_all_registry, lemma_independent_permutation,
    lemma_merged_sortable, lemma_stored_permutation, lemma_stored_swap, sortable, unrelated,
};
use crate::resolve::{
    adds_no_application, classified_all, entry_documents, lemma_merged_concat,
    lemma_round_converges, load_entrypoints, merge_rendered, merged, parse_yaml, round, RenderJob,
    RenderJobView,
};
use crate::util::views;
use crate::yaml::{Document, Value};
use vstd::prelude::*;

pub mod argo;
pub mod checks;
pub mod config;
pub mod error;
pub mod model;
pub mod order;
pub mod registry;
pub mod resolve;
pub mod util;
pub mod yaml;

verus! {

/// What the outside world has delivered.
#[derive(Debug, Clone, PartialEq)]
pub enum Event {
    /// Nothing yet: the run begins.
    Start,
    /// The contents of the entrypoint files, in the order of the
    /// configuration.
    Loaded(Vec<String>),
    /// What rendering the applications of the last round gave, in any
    /// order.
    Rendered(Vec<RenderOutcome>),
}

/// The model of an event.
pub enum EventView {
    Start,
    Loaded(Seq<Seq<char>>),
    Rendered(Seq<RenderOutcomeView>),
}

impl View for Event {
    type V = EventView;

    open spec fn view(&self) -> EventView {
        match self {
            Event::Start => EventView::Start,
            Event::Loaded(texts) => EventView::Loaded(views(texts@)),
            Event::Rendered(outcomes) => EventView::Rendered(views(outcomes@)),
        }
    }
}

/// What to do next.
#[derive(Debug, Clone, PartialEq)]
pub enum Action {
    /// Read these files and come back with `Event::Loaded`.
    Load(Vec<String>),
    /// Render these applications and come back with `Event::Rendered`.
    Render(Vec<RenderJob>),
    /// Resolution has converged and every application was checked: the run
    /// ends with this report.
    Finish(CheckReport),
    /// The run cannot go on.
    Abort(Error),
}

/// The model of an action.
pub enum ActionView {
    Load(Seq<Seq<char>>),
    Render(Seq<RenderJobView>),
    Finish(ReportView),
    Abort(Error),
}

impl View for Action {
    type V = ActionView;

    open spec fn view(&self) -> ActionView {
        match self {
            Action::Load(paths) => ActionView::Load(views(paths@)),
            Action::Render(jobs) => ActionView::Render(views(jobs@)),
            Action::Finish(report) => ActionView::Finish(report@),
            Action::Abort(e) => ActionView::Abort(*e),
        }
    }
}

/// The outcome of one step: what to do next, and the failures of single
/// applications that the step came across.
#[derive(Debug, Clone, PartialEq)]
pub struct Step {
    pub action: Action,
    pub diagnostics: Vec<Diagnostic>,
}

/// The model of a step.
pub struct StepView {
    pub action: ActionView,
    pub diagnostics: Seq<DiagnosticView>,
}

impl View for Step {
    type V = StepView;

    open spec fn view(&self) -> StepView {
        StepView { action: self.action@, diagnostics: views(self.diagnostics@) }
    }
}

/// How a run ends once resolution has converged: with the report of the
/// checks, or with the malformed manifest that they hit.
pub open spec fn concluded(s: StateView) -> ActionView {
    match checked(s) {
        Ok(report) => ActionView::Finish(report),
        Err(e) => ActionView::Abort(e),
    }
}

/// A round over a batch of documents, and what follows from it: a failure
/// ends the run; a round that leaves nothing to render ends it with the
/// checks; every other round asks for its applications to be rendered.
/// The diagnostics of the round come behind those that the step already
/// has.
pub open spec fn advanced(
    s: StateView,
    documents: Seq<Value>,
    diagnostics: Seq<DiagnosticView>,
) -> (StateView, StepView) {
    let (next, result) = round(s, documents);
    match result {
        Err(e) => (next, StepView { action: ActionView::Abort(e), diagnostics }),
        Ok(asked) => if asked.jobs.len() == 0 {
            (
                next,
                StepView { action: concluded(next), diagnostics: diagnostics + asked.diagnostics },
            )
        } else {
            (
                next,
                StepView {
                    action: ActionView::Render(asked.jobs),
                    diagnostics: diagnostics + asked.diagnostics,
                },
            )
        },
    }
}

/// The state and the step that an event leads to. At the start, the
/// entrypoint files are asked for. Their contents are read as documents,
/// which make the first batch; a text that cannot be read ends the run.
/// The outcomes of a round of rendering are merged into the next batch and
/// added to the rendered documents of the state.
pub open spec fn stepped(s: StateView, event: EventView) -> (StateView, StepView) {
    match event {
        EventView::Start => (
            s,
            StepView {
                action: ActionView::Load(views(s.config.entrypoints@)),
                diagnostics: Seq::empty(),
            },
        ),
        EventView::Loaded(texts) => match entry_documents(texts) {
            Some(documents) => advanced(s, documents, Seq::empty()),
            None => (
                s,
                StepView {
                    action: ActionView::Abort(Error::MalformedManifest),
                    diagnostics: Seq::empty(),
                },
            ),
        },
        EventView::Rendered(outcomes) => {
            let batch = merged(outcomes);
            advanced(
                StateView { yaml: s.yaml + batch.documents, ..s },
                batch.documents,
                batch.diagnostics,
            )
        },
    }
}

/// A copy of a list of texts.
fn copy_texts(texts: &Vec<String>) -> (r: Vec<String>)
    ensures
        views(r@) == views(texts@),
{
    let mut r: Vec<String> = Vec::new();
    let mut i: usize = 0;
    while i < texts.len()
        invariant
            i <= texts.len(),
            r.len() == i,
            forall|j: int| 0 <= j < i ==> (#[trigger] r@[j])@ == texts@[j]@,
        decreases texts.len() - i,
    {
        r.push(texts[i].clone());
        i += 1;
    }
    assert(views(r@) =~= views(texts@));
    r
}

/// Runs a round over a batch of documents and says what follows from it.
fn advance(state: &mut State, documents: Vec<Document>, diagnostics: Vec<Diagnostic>) -> (r: Step)
    ensures
        final(state)@ == advanced(old(state)@, views(documents@), views(diagnostics@)).0,
        r@ == advanced(old(state)@, views(documents@), views(diagnostics@)).1,
{
    let mut diagnostics = diagnostics;
    let ghost earlier = views(diagnostics@);
    match parse_yaml(state, documents) {
        Err(e) => Step { action: Action::Abort(e), diagnostics },
        Ok(asked) => {
            let mut found = asked.diagnostics;
            let ghost added = views(found@);
            diagnostics.append(&mut found);
            assert(views(diagnostics@) =~= earlier + added);
            if asked.jobs.len() == 0 {
                match run_checks(state) {
                    Ok(report) => Step { action: Action::Finish(report), diagnostics },
                    Err(e) => Step { action: Action::Abort(e), diagnostics },
                }
            } else {
                Step { action: Action::Render(asked.jobs), diagnostics }
            }
        },
    }
}

/// One step of a run: takes what the outside world has delivered, updates
/// the state, and says what to do next.
pub fn check(state: &mut State, event: Event) -> (r: Step)
    ensures
        final(state)@ == stepped(old(state)@, event@).0,
        r@ == stepped(old(state)@, event@).1,
        final(state)@.distinct(),
{
    let step = match event {
        Event::Start => {
            let diagnostics: Vec<Diagnostic> = Vec::new();
            assert(views(diagnostics@) =~= Seq::<DiagnosticView>::empty());
            Step { action: Action::Load(copy_texts(&state.config.entrypoints)), diagnostics }
        },
        Event::Loaded(texts) => {
            let diagnostics: Vec<Diagnostic> = Vec::new();
            assert(views(diagnostics@) =~= Seq::<DiagnosticView>::empty());
            match load_entrypoints(&texts) {
                Ok(documents) => advance(state, documents, diagnostics),
                Err(e) => Step { action: Action::Abort(e), diagnostics },
            }
        },
        Event::Rendered(outcomes) => {
            let batch = merge_rendered(state, &outcomes);
            advance(state, batch.documents, batch.diagnostics)
        },
    };
    // The registries hold every name once: this is what `counts` shows.
    let _ = state.counts();
    step
}

/// A step never touches the registries but by sorting its batch of
/// documents in.
proof fn lemma_advanced_sorts(s: StateView, documents: Seq<Value>, diagnostics: Seq<DiagnosticView>)
    ensures
        advanced(s, documents, diagnostics).0.applications == classified_all(
            s,
            documents,
        ).0.applications,
        advanced(s, documents, diagnostics).0.app_projects == classified_all(
            s,
            documents,
        ).0.app_projects,
        advanced(s, documents, diagnostics).0.namespaces == classified_all(
            s,
            documents,
        ).0.namespaces,
{
}

/// Rendering that adds no application ends the resolution: where the
/// documents that a round of rendering gave hold no application that the
/// state does not know, the step that takes them asks for no further
/// rendering and counts no further round.
pub proof fn lemma_step_converges(s: StateView, outcomes: Seq<RenderOutcomeView>)
    requires
        forall|i: int|
            0 <= i < merged(outcomes).documents.len() ==> adds_no_application(
                s,
                #[trigger] merged(outcomes).documents[i],
            ),
    ensures
        !(stepped(s, EventView::Rendered(outcomes)).1.action is Render),
        stepped(s, EventView::Rendered(outcomes)).0.rounds == s.rounds,
{
    let batch = merged(outcomes);
    let kept = StateView { yaml: s.yaml + batch.documents, ..s };
    assert forall|i: int| 0 <= i < batch.documents.len() implies adds_no_application(
        kept,
        #[trigger] batch.documents[i],
    ) by {
        assert(adds_no_application(s, batch.documents[i]));
    }
    lemma_round_converges(kept, batch.documents);
}

/// The order in which the renderings of a round arrive does not show in
/// the registry. Where the documents that two lists of outcomes give are
/// sortable, and no kind and name occurs on both sides, the step leaves the
/// same applications, projects and namespaces under the same names
/// whichever list comes first.
pub proof fn lemma_render_order(
    s: StateView,
    first: Seq<RenderOutcomeView>,
    second: Seq<RenderOutcomeView>,
)
    requires
        s.distinct(),
        forall|i: int|
            0 <= i < merged(first).documents.len() ==> sortable(
                #[trigger] merged(first).documents[i],
            ),
        forall|j: int|
            0 <= j < merged(second).documents.len() ==> sortable(
                #[trigger] merged(second).documents[j],
            ),
        forall|i: int, j: int|
            0 <= i < merged(first).documents.len() && 0 <= j < merged(second).documents.len()
                ==> unrelated(
                #[trigger] merged(first).documents[i],
                #[trigger] merged(second).documents[j],
            ),
    ensures
        stepped(s, EventView::Rendered(first + second)).0.registry() == stepped(
            s,
            EventView::Rendered(second + first),
        ).0.registry(),
{
    let a = merged(first).documents;
    let b = merged(second).documents;
    lemma_merged_concat(first, second);
    lemma_merged_concat(second, first);
    let forth = merged(first + second);
    let back = merged(second + first);
    let kept_forth = StateView { yaml: s.yaml + forth.documents, ..s };
    let kept_back = StateView { yaml: s.yaml + back.documents, ..s };
    lemma_advanced_sorts(kept_forth, forth.documents, forth.diagnostics);
    lemma_advanced_sorts(kept_back, back.documents, back.diagnostics);
    assert forall|i: int| 0 <= i < (a + b).len() implies sortable(#[trigger] (a + b)[i]) by {
        if i < a.len() {
            assert((a + b)[i] == a[i]);
        } else {
            assert((a + b)[i] == b[i - a.len()]);
        }
    }
    assert forall|i: int| 0 <= i < (b + a).len() implies sortable(#[trigger] (b + a)[i]) by {
        if i < b.len() {
            assert((b + a)[i] == b[i]);
        } else {
            assert((b + a)[i] == a[i - b.len()]);
        }
    }
    lemma_classified_all_registry(kept_forth, a + b);
    lemma_classified_all_registry(kept_back, b + a);
    assert(kept_forth.registry() == s.registry());
    assert(kept_back.registry() == s.registry());
    lemma_stored_swap(s.registry(), a, b);
}

/// The order in which the renderings of a round arrive does not show in
/// the registry, however many there are. Take two states that hold the
/// same applications, projects and namespaces under the same names, and two
/// lists of the same outcomes. Where no outcome occurs twice, the documents
/// of every outcome are sortable, and no kind and name occurs in the
/// documents of two outcomes, the steps over the two lists again leave the
/// same applications, projects and namespaces under the same names.
pub proof fn lemma_render_permutation(
    s1: StateView,
    s2: StateView,
    first: Seq<RenderOutcomeView>,
    second: Seq<RenderOutcomeView>,
)
    requires
        s1.distinct(),
        s2.distinct(),
        s1.registry() == s2.registry(),
        first.to_multiset() == second.to_multiset(),
        independent(first),
    ensures
        stepped(s1, EventView::Rendered(first)).0.registry() == stepped(
            s2,
            EventView::Rendered(second),
        ).0.registry(),
        stepped(s1, EventView::Rendered(first)).0.distinct(),
        stepped(s2, EventView::Rendered(second)).0.distinct(),
{
    lemma_independent_permutation(first, second);
    let forth = merged(first);
    let back = merged(second);
    let kept_forth = StateView { yaml: s1.yaml + forth.documents, ..s1 };
    let kept_back = StateView { yaml: s2.yaml + back.documents, ..s2 };
    lemma_advanced_sorts(kept_forth, forth.documents, forth.diagnostics);
    lemma_advanced_sorts(kept_back, back.documents, back.diagnostics);
    lemma_merged_sortable(first);
    lemma_merged_sortable(second);
    lemma_classified_all_registry(kept_forth, forth.documents);
    lemma_classified_all_registry(kept_back, back.documents);
    assert(kept_forth.registry() == s1.registry());
    assert(kept_back.registry() == s2.registry());
    lemma_stored_permutation(s1.registry(), first, second);
}

/// The state after the renderings of several rounds were taken in, round
/// after round.
pub open spec fn after_rounds(s: StateView, rounds: Seq<Seq<RenderOutcomeView>>) -> StateView
    decreases rounds.len(),
{
    if rounds.len() == 0 {
        s
    } else {
        stepped(after_rounds(s, rounds.drop_last()), EventView::Rendered(rounds.last())).0
    }
}

/// The registry at the end of a run does not depend on the order in which
/// the renderings of any of its rounds arrive. Where two runs start from
/// the same registry and go through rounds that hold the same outcomes, and
/// the outcomes of every round are independent, the runs end with the same
/// applications, projects and namespaces under the same names.
pub proof fn lemma_run_order(
    s1: StateView,
    s2: StateView,
    first: Seq<Seq<RenderOutcomeView>>,
    second: Seq<Seq<RenderOutcomeView>>,
)
    requires
        s1.distinct(),
        s2.distinct(),
        s1.registry() == s2.registry(),
        first.len() == second.len(),
        forall|i: int|
            0 <= i < first.len() ==> (#[trigger] first[i]).to_multiset() == second[i].to_multiset()
                && independent(first[i]),
    ensures
        after_rounds(s1, first).registry() == after_rounds(s2, second).registry(),
        after_rounds(s1, first).distinct(),
        after_rounds(s2, second).distinct(),
    decreases first.len(),
{
    if first.len() > 0 {
        let earlier_first = first.drop_last();
        let earlier_second = second.drop_last();
        assert forall|i: int| 0 <= i < earlier_first.len() implies (
        #[trigger] earlier_first[i]).to_multiset() == earlier_second[i].to_multiset()
            && independent(earlier_first[i]) by {
            assert(earlier_first[i] == first[i]);
            assert(earlier_second[i] == second[i]);
        }
        lemma_run_order(s1, s2, earlier_first, earlier_second);
        assert(first.last() == first[first.len() - 1]);
        assert(second.last() == second[first.len() - 1]);
        lemma_render_permutation(
            after_rounds(s1, earlier_first),
            after_rounds(s2, earlier_second),
            first.last(),
            second.last(),
        );
    }
}

} // verus!
