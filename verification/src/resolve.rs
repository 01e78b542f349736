//! Resolution: sorting documents into the registry, finding the
//! applications that a batch of documents has added, planning how they are
//! rendered, and merging what rendering gave into the next batch.

use crate::argo::application::{application_of, planned, Application, RenderPlan, RenderPlanView};
use crate::argo::render::{
    rendered_text, result_text, RenderOutcome, RenderOutcomeView, RenderResult, RenderResultView,
};
use crate::error::{Diagnostic, DiagnosticView, Error};
use crate::model::{AppProject, AppProjectView, Namespace, NamespaceView, State, StateView};
use crate::registry::{
    entries_view, has_name, lemma_upserted_extends, names_distinct, names_of, upserted,
};
use crate::util::{name_of, same_text, text_of, views};
use crate::yaml::{child, loaded_documents, parse_documents, Document, Value};
use vstd::prelude::*;

verus! {

/// The kinds of document that the registry keeps.
#[derive(Debug, Clone, Copy, PartialEq, Eq, Structural)]
pub enum Kind {
    Application,
    AppProject,
    Namespace,
}

/// The kind that a document's `kind` field names, where it names one of
/// the three.
pub open spec fn kind_of(v: Value) -> Option<Kind> {
    match v.get("kind"@).as_str() {
        Some(kind) => if kind == "Application"@ {
            Some(Kind::Application)
        } else if kind == "AppProject"@ {
            Some(Kind::AppProject)
        } else if kind == "Namespace"@ {
            Some(Kind::Namespace)
        } else {
            None
        },
        None => None,
    }
}

/// The kind of a document, where the registry keeps it.
pub fn kind(document: &Document) -> (r: Option<Kind>)
    ensures
        r == kind_of(document@),
{
    match text_of(child(Some(document), "kind")) {
        Some(kind) => if same_text(kind, "Application") {
            Some(Kind::Application)
        } else if same_text(kind, "AppProject") {
            Some(Kind::AppProject)
        } else if same_text(kind, "Namespace") {
            Some(Kind::Namespace)
        } else {
            None
        },
        None => None,
    }
}

/// The state after one document was sorted in. A document of one of the
/// three kinds is stored under its name, in place of what was stored under
/// that name before; it is a `MalformedManifest` where it lacks its name
/// or, for an application, its project or target namespace. Every other
/// document leaves the state as it is.
pub open spec fn classified(s: StateView, v: Value) -> Result<StateView, Error> {
    match kind_of(v) {
        None => Ok(s),
        Some(Kind::Application) => match application_of(v) {
            Some(application) => Ok(
                StateView {
                    applications: upserted(s.applications, application.name, application),
                    ..s
                },
            ),
            None => Err(Error::MalformedManifest),
        },
        Some(Kind::AppProject) => match name_of(v) {
            Some(name) => Ok(
                StateView {
                    app_projects: upserted(s.app_projects, name, AppProjectView { name, yaml: v }),
                    ..s
                },
            ),
            None => Err(Error::MalformedManifest),
        },
        Some(Kind::Namespace) => match name_of(v) {
            Some(name) => Ok(
                StateView {
                    namespaces: upserted(s.namespaces, name, NamespaceView { name, yaml: v }),
                    ..s
                },
            ),
            None => Err(Error::MalformedManifest),
        },
    }
}

/// Sorts one document into the registry.
pub fn classify(state: &mut State, document: Document) -> (r: Result<(), Error>)
    ensures
        match classified(old(state)@, document@) {
            Ok(s) => r is Ok && final(state)@ == s,
            Err(e) => r == Err::<(), Error>(e) && final(state)@ == old(state)@,
        },
{
    match kind(&document) {
        None => Ok(()),
        Some(Kind::Application) => match Application::from(document) {
            Ok(application) => {
                state.applications.insert(application.name.clone(), application);
                Ok(())
            },
            Err(e) => Err(e),
        },
        Some(Kind::AppProject) => match AppProject::from(document) {
            Ok(project) => {
                state.app_projects.insert(project.name.clone(), project);
                Ok(())
            },
            Err(e) => Err(e),
        },
        Some(Kind::Namespace) => match Namespace::from(document) {
            Ok(namespace) => {
                state.namespaces.insert(namespace.name.clone(), namespace);
                Ok(())
            },
            Err(e) => Err(e),
        },
    }
}

/// The state after a batch of documents was sorted in, one after the
/// other, and the failure that stopped the sorting, if one did: the
/// documents before the failing one are sorted in, it and those behind it
/// are not.
pub open spec fn classified_all(s: StateView, documents: Seq<Value>) -> (StateView, Option<Error>)
    decreases documents.len(),
{
    if documents.len() == 0 {
        (s, None)
    } else {
        match classified(s, documents[0]) {
            Ok(next) => classified_all(next, documents.drop_first()),
            Err(e) => (s, Some(e)),
        }
    }
}

/// Sorting documents in touches nothing but the three registries, and in
/// the registry of applications it keeps every name in its place. So the
/// applications that a batch has added are the entries behind those that
/// were there, and their names are the names that were not known before.
pub proof fn lemma_classified_all_extends(s: StateView, documents: Seq<Value>)
    requires
        names_distinct(s.applications),
    ensures
        ({
            let after = classified_all(s, documents).0;
            &&& names_distinct(after.applications)
            &&& after.applications.len() >= s.applications.len()
            &&& forall|i: int|
                0 <= i < s.applications.len() ==> (#[trigger] after.applications[i]).0
                    == s.applications[i].0
            &&& forall|i: int|
                s.applications.len() <= i < after.applications.len() ==> !has_name(
                    s.applications,
                    (#[trigger] after.applications[i]).0,
                )
            &&& after.local_repos == s.local_repos
            &&& after.images == s.images
            &&& after.yaml == s.yaml
            &&& after.config == s.config
            &&& after.rounds == s.rounds
        }),
    decreases documents.len(),
{
    if documents.len() > 0 {
        match classified(s, documents[0]) {
            Ok(next) => {
                if kind_of(documents[0]) == Some(Kind::Application) {
                    let application = application_of(documents[0])->0;
                    lemma_upserted_extends(s.applications, application.name, application);
                }
                lemma_classified_all_extends(next, documents.drop_first());
                let after = classified_all(s, documents).0;
                assert forall|i: int|
                    s.applications.len() <= i < after.applications.len() implies !has_name(
                    s.applications,
                    (#[trigger] after.applications[i]).0,
                ) by {
                    if i < next.applications.len() {
                        assert(after.applications[i].0 == next.applications[i].0);
                    } else {
                        assert(!has_name(next.applications, after.applications[i].0));
                        if has_name(s.applications, after.applications[i].0) {
                            let j = choose|j: int|
                                0 <= j < s.applications.len() && (#[trigger] s.applications[j]).0
                                    == after.applications[i].0;
                            assert(next.applications[j].0 == after.applications[i].0);
                        }
                    }
                }
            },
            Err(_) => {},
        }
    }
}

/// What has to be rendered for one application.
#[derive(Debug, Clone, PartialEq, Eq)]
pub struct RenderJob {
    pub application: String,
    pub plan: RenderPlan,
}

/// The model of a render job.
pub struct RenderJobView {
    pub application: Seq<char>,
    pub plan: RenderPlanView,
}

impl View for RenderJob {
    type V = RenderJobView;

    open spec fn view(&self) -> RenderJobView {
        RenderJobView { application: self.application@, plan: self.plan@ }
    }
}

/// What a round asks for: the applications to render, and the
/// applications that cannot be rendered, each with the reason.
#[derive(Debug, Clone, PartialEq, Eq)]
pub struct Round {
    pub jobs: Vec<RenderJob>,
    pub diagnostics: Vec<Diagnostic>,
}

/// The model of a round.
pub struct RoundView {
    pub jobs: Seq<RenderJobView>,
    pub diagnostics: Seq<DiagnosticView>,
}

impl View for Round {
    type V = RoundView;

    open spec fn view(&self) -> RoundView {
        RoundView { jobs: views(self.jobs@), diagnostics: views(self.diagnostics@) }
    }
}

/// Plans for a run of applications, up to the malformed one that ends the
/// run, if there is one.
pub struct Plans {
    pub jobs: Seq<RenderJobView>,
    pub diagnostics: Seq<DiagnosticView>,
    pub fatal: Option<Error>,
}

impl Plans {
    /// What the round hands back: the jobs and diagnostics, or the failure
    /// that ended the planning.
    pub open spec fn outcome(self) -> Result<RoundView, Error> {
        match self.fatal {
            Some(e) => Err(e),
            None => Ok(RoundView { jobs: self.jobs, diagnostics: self.diagnostics }),
        }
    }
}

/// The plans for the applications at the places `from` to `to - 1` of the
/// registry, in order. An application with a plan becomes a job; one whose
/// source is not supported, or whose values cannot be emitted, becomes a
/// diagnostic; a malformed one ends the planning.
pub open spec fn plans(s: StateView, from: int, to: int) -> Plans
    decreases to - from,
{
    if to <= from {
        Plans { jobs: Seq::empty(), diagnostics: Seq::empty(), fatal: None }
    } else {
        let earlier = plans(s, from, to - 1);
        if earlier.fatal is Some {
            earlier
        } else {
            let name = s.applications[to - 1].0;
            match planned(s.applications[to - 1].1, s.local_repos) {
                Ok(plan) => Plans {
                    jobs: earlier.jobs.push(RenderJobView { application: name, plan }),
                    ..earlier
                },
                Err(e) => if e == Error::MalformedManifest {
                    Plans { fatal: Some(e), ..earlier }
                } else {
                    Plans {
                        diagnostics: earlier.diagnostics.push(
                            DiagnosticView { application: name, error: e },
                        ),
                        ..earlier
                    }
                },
            }
        }
    }
}

/// Whether another round of rendering may not be started: the counter is
/// at the configured maximum, or at the largest number it can hold.
pub open spec fn limit_reached(s: StateView) -> bool {
    s.rounds >= usize::MAX || match s.config.max_rounds {
        Some(max) => s.rounds >= max,
        None => false,
    }
}

/// One round of resolution over a batch of documents. The documents are
/// sorted in; a malformed one ends the round. Where that added no
/// application, the round asks for nothing: resolution has converged.
/// Otherwise a round of rendering is counted, unless the limit forbids it,
/// and the added applications are planned.
pub open spec fn round(s: StateView, documents: Seq<Value>) -> (
    StateView,
    Result<RoundView, Error>,
) {
    let (sorted, failed) = classified_all(s, documents);
    match failed {
        Some(e) => (sorted, Err(e)),
        None => if sorted.applications.len() <= s.applications.len() {
            (sorted, Ok(RoundView { jobs: Seq::empty(), diagnostics: Seq::empty() }))
        } else if limit_reached(sorted) {
            (sorted, Err(Error::ResolutionDidNotConverge))
        } else {
            let started = StateView { rounds: sorted.rounds + 1, ..sorted };
            (
                started,
                plans(
                    started,
                    s.applications.len() as int,
                    started.applications.len() as int,
                ).outcome(),
            )
        },
    }
}

/// Whether a round's result is the one that a model asks for.
pub open spec fn round_matches(r: Result<Round, Error>, wanted: Result<RoundView, Error>) -> bool {
    match r {
        Ok(round) => wanted == Ok::<RoundView, Error>(round@),
        Err(e) => wanted == Err::<RoundView, Error>(e),
    }
}

/// Sorts a batch of documents into the registry, every one or up to the
/// first malformed one.
pub fn classify_all(state: &mut State, documents: &Vec<Document>) -> (r: Result<(), Error>)
    ensures
        final(state)@ == classified_all(old(state)@, views(documents@)).0,
        match r {
            Ok(_) => classified_all(old(state)@, views(documents@)).1 is None,
            Err(e) => classified_all(old(state)@, views(documents@)).1 == Some(e),
        },
{
    let ghost all = views(documents@);
    assert(all.subrange(0, all.len() as int) =~= all);
    let mut i: usize = 0;
    while i < documents.len()
        invariant
            i <= documents.len(),
            all == views(documents@),
            classified_all(old(state)@, all) == classified_all(
                state@,
                all.subrange(i as int, all.len() as int),
            ),
        decreases documents.len() - i,
    {
        proof {
            let rest = all.subrange(i as int, all.len() as int);
            assert(rest[0] == documents@[i as int]@);
            assert(rest.drop_first() =~= all.subrange(i + 1, all.len() as int));
        }
        match classify(state, documents[i].clone()) {
            Ok(_) => {},
            Err(e) => { return Err(e); },
        }
        i += 1;
    }
    Ok(())
}

/// One round of resolution: sorts the documents in and plans the rendering
/// of the applications that they added.
pub fn parse_yaml(state: &mut State, documents: Vec<Document>) -> (r: Result<Round, Error>)
    ensures
        final(state)@ == round(old(state)@, views(documents@)).0,
        round_matches(r, round(old(state)@, views(documents@)).1),
{
    let known = state.applications.len();
    match classify_all(state, &documents) {
        Ok(_) => {},
        Err(e) => { return Err(e); },
    }
    let mut jobs: Vec<RenderJob> = Vec::new();
    let mut diagnostics: Vec<Diagnostic> = Vec::new();
    if state.applications.len() <= known {
        assert(views(jobs@) =~= Seq::<RenderJobView>::empty());
        assert(views(diagnostics@) =~= Seq::<DiagnosticView>::empty());
        return Ok(Round { jobs, diagnostics });
    }
    let limited = match state.config.max_rounds {
        Some(max) => state.rounds >= max,
        None => false,
    };
    if limited || state.rounds >= usize::MAX {
        return Err(Error::ResolutionDidNotConverge);
    }
    state.rounds = state.rounds + 1;
    let ghost started = state@;
    let ghost wanted = round(old(state)@, views(documents@));
    let applications = state.applications.entries();
    assert(views(jobs@) =~= Seq::<RenderJobView>::empty());
    assert(views(diagnostics@) =~= Seq::<DiagnosticView>::empty());
    let mut i: usize = known;
    while i < applications.len()
        invariant
            known <= i <= applications.len(),
            state@ == started,
            entries_view(applications@) == started.applications,
            wanted == round(old(state)@, views(documents@)),
            wanted.0 == started,
            wanted.1 == plans(started, known as int, applications.len() as int).outcome(),
            plans(started, known as int, i as int) == (Plans {
                jobs: views(jobs@),
                diagnostics: views(diagnostics@),
                fatal: None,
            }),
        decreases applications.len() - i,
    {
        let name = &applications[i].0;
        let application = &applications[i].1;
        assert(started.applications[i as int] == (name@, application@));
        match application.render(state) {
            Ok(plan) => {
                jobs.push(RenderJob { application: name.clone(), plan });
                assert(views(jobs@) =~= plans(started, known as int, i + 1).jobs);
            },
            Err(Error::MalformedManifest) => {
                assert(plans(started, known as int, i + 1).fatal == Some(Error::MalformedManifest));
                proof {
                    lemma_plans_fatal(started, known as int, i + 1, applications.len() as int);
                }
                return Err(Error::MalformedManifest);
            },
            Err(e) => {
                diagnostics.push(Diagnostic { application: name.clone(), error: e });
                assert(views(diagnostics@) =~= plans(started, known as int, i + 1).diagnostics);
            },
        }
        i += 1;
    }
    Ok(Round { jobs, diagnostics })
}

/// Planning that has met a malformed application stays as it is, however
/// many applications follow.
pub proof fn lemma_plans_fatal(s: StateView, from: int, at: int, to: int)
    requires
        at <= to,
        plans(s, from, at).fatal is Some,
    ensures
        plans(s, from, to) == plans(s, from, at),
    decreases to - at,
{
    if at < to {
        lemma_plans_fatal(s, from, at, to - 1);
    }
}

/// The documents that a render result holds: its text read as a stream of
/// documents. `RenderFailure` where rendering failed or the text cannot be
/// read.
pub open spec fn rendered_documents(result: RenderResultView) -> Result<Seq<Value>, Error> {
    match result_text(result) {
        Ok(text) => match loaded_documents(text) {
            Some(documents) => Ok(documents),
            None => Err(Error::RenderFailure),
        },
        Err(e) => Err(e),
    }
}

/// The model of a list of documents that may have failed to come about.
pub open spec fn parsed_view(parsed: Result<Vec<Document>, Error>) -> Result<Seq<Value>, Error> {
    match parsed {
        Ok(documents) => Ok(views(documents@)),
        Err(e) => Err(e),
    }
}

/// Reads the documents out of a render result.
pub fn render_documents(result: &RenderResult) -> (r: Result<Vec<Document>, Error>)
    ensures
        parsed_view(r) == rendered_documents(result@),
{
    match rendered_text(result) {
        Ok(text) => match parse_documents(text.as_str()) {
            Some(documents) => Ok(documents),
            None => Err(Error::RenderFailure),
        },
        Err(e) => Err(e),
    }
}

/// What a round of rendering gave, merged: the documents of every
/// application whose rendering could be read, and a diagnostic for every
/// other application.
#[derive(Debug, Clone, PartialEq)]
pub struct Merged {
    pub documents: Vec<Document>,
    pub diagnostics: Vec<Diagnostic>,
}

/// The model of a merged batch.
pub struct MergedView {
    pub documents: Seq<Value>,
    pub diagnostics: Seq<DiagnosticView>,
}

impl View for Merged {
    type V = MergedView;

    open spec fn view(&self) -> MergedView {
        MergedView { documents: views(self.documents@), diagnostics: views(self.diagnostics@) }
    }
}

/// What is merged after one more application: its documents behind the
/// others, or a diagnostic in its name.
pub open spec fn absorbed(
    merged: MergedView,
    application: Seq<char>,
    parsed: Result<Seq<Value>, Error>,
) -> MergedView {
    match parsed {
        Ok(documents) => MergedView { documents: merged.documents + documents, ..merged },
        Err(e) => MergedView {
            diagnostics: merged.diagnostics.push(DiagnosticView { application, error: e }),
            ..merged
        },
    }
}

/// What the outcomes of a round merge to, taken in the order given.
pub open spec fn merged(outcomes: Seq<RenderOutcomeView>) -> MergedView
    decreases outcomes.len(),
{
    if outcomes.len() == 0 {
        MergedView { documents: Seq::empty(), diagnostics: Seq::empty() }
    } else {
        absorbed(
            merged(outcomes.drop_last()),
            outcomes.last().application,
            rendered_documents(outcomes.last().result),
        )
    }
}

/// Adds what one application rendered to what is merged: its documents,
/// or a diagnostic that names it.
pub fn absorb(merged: &mut Merged, application: &str, parsed: Result<Vec<Document>, Error>)
    ensures
        final(merged)@ == absorbed(old(merged)@, application@, parsed_view(parsed)),
{
    match parsed {
        Ok(documents) => {
            let mut documents = documents;
            let ghost added = views(documents@);
            merged.documents.append(&mut documents);
            assert(views(merged.documents@) =~= old(merged)@.documents + added);
        },
        Err(e) => {
            merged.diagnostics.push(Diagnostic { application: application.to_owned(), error: e });
            assert(views(merged.diagnostics@) =~= old(merged)@.diagnostics.push(
                DiagnosticView { application: application@, error: e },
            ));
        },
    }
}

/// Merges the outcomes of a round of rendering into one batch of
/// documents, and adds that batch to the rendered documents that the state
/// keeps. A failure stays with the application it belongs to: it becomes a
/// diagnostic, and the other outcomes are merged all the same.
pub fn merge_rendered(state: &mut State, outcomes: &Vec<RenderOutcome>) -> (r: Merged)
    ensures
        r@ == merged(views(outcomes@)),
        final(state)@ == (StateView {
            yaml: old(state)@.yaml + merged(views(outcomes@)).documents,
            ..old(state)@
        }),
{
    let mut merged = Merged { documents: Vec::new(), diagnostics: Vec::new() };
    let ghost all = views(outcomes@);
    assert(views(merged.documents@) =~= Seq::<Value>::empty());
    assert(views(merged.diagnostics@) =~= Seq::<DiagnosticView>::empty());
    let mut i: usize = 0;
    while i < outcomes.len()
        invariant
            i <= outcomes.len(),
            all == views(outcomes@),
            merged@ == self::merged(all.subrange(0, i as int)),
        decreases outcomes.len() - i,
    {
        proof {
            let next = all.subrange(0, i + 1);
            assert(next.drop_last() =~= all.subrange(0, i as int));
            assert(next.last() == outcomes@[i as int]@);
        }
        let parsed = render_documents(&outcomes[i].result);
        absorb(&mut merged, outcomes[i].application.as_str(), parsed);
        i += 1;
    }
    assert(all.subrange(0, i as int) =~= all);
    let mut j: usize = 0;
    while j < merged.documents.len()
        invariant
            j <= merged.documents.len(),
            state@ == (StateView {
                yaml: old(state)@.yaml + views(merged.documents@).subrange(0, j as int),
                ..old(state)@
            }),
        decreases merged.documents.len() - j,
    {
        let ghost before = state@.yaml;
        state.yaml.push(merged.documents[j].clone());
        assert(state@.yaml =~= before.push(merged.documents@[j as int]@));
        assert(state@.yaml =~= old(state)@.yaml + views(merged.documents@).subrange(0, j + 1));
        j += 1;
    }
    assert(views(merged.documents@).subrange(0, j as int) =~= views(merged.documents@));
    merged
}

/// The documents of the entrypoint texts, one text after the other, where
/// every text can be read.
pub open spec fn entry_documents(texts: Seq<Seq<char>>) -> Option<Seq<Value>>
    decreases texts.len(),
{
    if texts.len() == 0 {
        Some(Seq::empty())
    } else {
        match (entry_documents(texts.drop_last()), loaded_documents(texts.last())) {
            (Some(earlier), Some(documents)) => Some(earlier + documents),
            _ => None,
        }
    }
}

/// Reads the entrypoint texts as documents. `MalformedManifest` where one
/// of them cannot be read.
pub fn load_entrypoints(texts: &Vec<String>) -> (r: Result<Vec<Document>, Error>)
    ensures
        match r {
            Ok(documents) => entry_documents(views(texts@)) == Some(views(documents@)),
            Err(e) => e == Error::MalformedManifest && entry_documents(views(texts@)) is None,
        },
{
    let mut documents: Vec<Document> = Vec::new();
    let ghost all = views(texts@);
    assert(views(documents@) =~= Seq::<Value>::empty());
    let mut i: usize = 0;
    while i < texts.len()
        invariant
            i <= texts.len(),
            all == views(texts@),
            entry_documents(all.subrange(0, i as int)) == Some(views(documents@)),
        decreases texts.len() - i,
    {
        proof {
            let next = all.subrange(0, i + 1);
            assert(next.drop_last() =~= all.subrange(0, i as int));
            assert(next.last() == texts@[i as int]@);
        }
        match parse_documents(texts[i].as_str()) {
            Some(parsed) => {
                let mut parsed = parsed;
                let ghost before = views(documents@);
                let ghost added = views(parsed@);
                documents.append(&mut parsed);
                assert(views(documents@) =~= before + added);
            },
            None => {
                proof {
                    lemma_entry_documents_none(all, i + 1);
                }
                return Err(Error::MalformedManifest);
            },
        }
        i += 1;
    }
    assert(all.subrange(0, i as int) =~= all);
    Ok(documents)
}

/// Where the first texts cannot all be read, neither can all of them.
pub proof fn lemma_entry_documents_none(texts: Seq<Seq<char>>, n: int)
    requires
        0 <= n <= texts.len(),
        entry_documents(texts.subrange(0, n)) is None,
    ensures
        entry_documents(texts) is None,
    decreases texts.len() - n,
{
    if n < texts.len() {
        assert(texts.subrange(0, n + 1).drop_last() =~= texts.subrange(0, n));
        lemma_entry_documents_none(texts, n + 1);
    } else {
        assert(texts.subrange(0, n) =~= texts);
    }
}

/// A document that adds no application to a state: it is no application,
/// or one that the state knows by name.
pub open spec fn adds_no_application(s: StateView, v: Value) -> bool {
    kind_of(v) == Some(Kind::Application) ==> match application_of(v) {
        Some(application) => has_name(s.applications, application.name),
        None => true,
    }
}

/// A batch of documents that add no application leaves the names of the
/// applications as they are.
pub proof fn lemma_nothing_added(s: StateView, documents: Seq<Value>)
    requires
        forall|i: int| 0 <= i < documents.len() ==> adds_no_application(s, #[trigger] documents[i]),
    ensures
        names_of(classified_all(s, documents).0.applications) == names_of(s.applications),
        classified_all(s, documents).0.rounds == s.rounds,
        classified_all(s, documents).1 matches Some(e) ==> e == Error::MalformedManifest,
    decreases documents.len(),
{
    if documents.len() > 0 {
        match classified(s, documents[0]) {
            Ok(next) => {
                assert(adds_no_application(s, documents[0]));
                assert(names_of(next.applications) =~= names_of(s.applications));
                let rest = documents.drop_first();
                assert forall|i: int| 0 <= i < rest.len() implies adds_no_application(
                    next,
                    #[trigger] rest[i],
                ) by {
                    assert(rest[i] == documents[i + 1]);
                    assert(adds_no_application(s, documents[i + 1]));
                    if kind_of(rest[i]) == Some(Kind::Application) && application_of(rest[i])
                        is Some {
                        let name = application_of(rest[i])->0.name;
                        let at = choose|at: int|
                            0 <= at < s.applications.len() && (#[trigger] s.applications[at]).0
                                == name;
                        assert(names_of(next.applications)[at] == names_of(s.applications)[at]);
                        assert(next.applications[at].0 == name);
                    }
                }
                lemma_nothing_added(next, rest);
            },
            Err(_) => {},
        }
    }
}

/// Resolution converges on a batch that adds no application: the round
/// asks for nothing to be rendered, reports nothing, and is not counted.
/// Nothing but a malformed document makes such a round fail.
pub proof fn lemma_round_converges(s: StateView, documents: Seq<Value>)
    requires
        forall|i: int| 0 <= i < documents.len() ==> adds_no_application(s, #[trigger] documents[i]),
    ensures
        round(s, documents).0.rounds == s.rounds,
        match round(s, documents).1 {
            Ok(asked) => asked.jobs.len() == 0 && asked.diagnostics.len() == 0,
            Err(e) => e == Error::MalformedManifest,
        },
{
    lemma_nothing_added(s, documents);
    let sorted = classified_all(s, documents).0;
    assert(names_of(sorted.applications).len() == names_of(s.applications).len());
}

/// Merging the outcomes of two lists, one behind the other, puts the
/// documents of the first before those of the second, and the diagnostics
/// likewise.
pub proof fn lemma_merged_concat(first: Seq<RenderOutcomeView>, second: Seq<RenderOutcomeView>)
    ensures
        merged(first + second).documents == merged(first).documents + merged(second).documents,
        merged(first + second).diagnostics == merged(first).diagnostics + merged(
            second,
        ).diagnostics,
    decreases second.len(),
{
    if second.len() == 0 {
        assert(first + second =~= first);
        assert(merged(first).documents + merged(second).documents =~= merged(first).documents);
        assert(merged(first).diagnostics + merged(second).diagnostics =~= merged(
            first,
        ).diagnostics);
    } else {
        assert((first + second).drop_last() =~= first + second.drop_last());
        assert((first + second).last() == second.last());
        lemma_merged_concat(first, second.drop_last());
        assert(merged(first + second).documents =~= merged(first).documents + merged(
            second,
        ).documents);
        assert(merged(first + second).diagnostics =~= merged(first).diagnostics + merged(
            second,
        ).diagnostics);
    }
}

} // verus!
