//! The access policy: every application may only target a namespace that
//! its project may write, and may only be sourced from a repository that
//! its project may use.

use crate::argo::application::{Application, ApplicationView};
use crate::error::{Diagnostic, DiagnosticView, Error};
use crate::model::{source_repos_of, writable_namespaces_of, State, StateView};
use crate::registry::{has_name, value_of};
use crate::util::{get_repo_url, repo_url_of, same_text, views};
use vstd::prelude::*;

verus! {

/// The verdict on one application. The checks come in this order, and the
/// first that fails decides: its project is known; its target namespace is
/// known; the project may write that namespace; the project may use the
/// application's source repository. A project or application document that
/// lacks what a check reads is a `MalformedManifest`.
pub open spec fn check_outcome(s: StateView, application: ApplicationView) -> Result<(), Error> {
    if !has_name(s.app_projects, application.project) {
        Err(Error::UnknownProject)
    } else if !has_name(s.namespaces, application.destination_namespace) {
        Err(Error::UnknownNamespace)
    } else {
        let project = value_of(s.app_projects, application.project);
        let namespace = value_of(s.namespaces, application.destination_namespace);
        match writable_namespaces_of(project.yaml) {
            None => Err(Error::MalformedManifest),
            Some(writable) => if !writable.contains(namespace.name) {
                Err(Error::NamespaceNotWritable)
            } else {
                match (repo_url_of(application.yaml), source_repos_of(project.yaml)) {
                    (Some(repo), Some(allowed)) => if !allowed.contains(repo) {
                        Err(Error::RepoNotAllowed)
                    } else {
                        Ok(())
                    },
                    _ => Err(Error::MalformedManifest),
                }
            },
        }
    }
}

/// Whether a list of texts holds a text.
pub fn contains_text(list: &Vec<String>, text: &str) -> (r: bool)
    ensures
        r == views(list@).contains(text@),
{
    let mut i: usize = 0;
    while i < list.len()
        invariant
            i <= list.len(),
            forall|j: int| 0 <= j < i ==> (#[trigger] views(list@)[j]) != text@,
        decreases list.len() - i,
    {
        if same_text(list[i].as_str(), text) {
            assert(views(list@)[i as int] == text@);
            return true;
        }
        i += 1;
    }
    false
}

/// Checks one application against its project and its target namespace.
pub fn run_check(state: &State, name: &str, application: &Application) -> (r: Result<(), Error>)
    ensures
        r == check_outcome(state@, application@),
{
    let project = match state.app_projects.get(application.project.as_str()) {
        Some(project) => project,
        None => { return Err(Error::UnknownProject); },
    };
    let namespace = match state.namespaces.get(application.destination_namespace.as_str()) {
        Some(namespace) => namespace,
        None => { return Err(Error::UnknownNamespace); },
    };
    let writable = match project.writable_namespaces() {
        Ok(writable) => writable,
        Err(e) => { return Err(e); },
    };
    if !contains_text(&writable, namespace.name.as_str()) {
        return Err(Error::NamespaceNotWritable);
    }
    let repo = match get_repo_url(&application.yaml) {
        Some(repo) => repo,
        None => { return Err(Error::MalformedManifest); },
    };
    let allowed = match project.source_repos() {
        Ok(allowed) => allowed,
        Err(e) => { return Err(e); },
    };
    if !contains_text(&allowed, repo) {
        return Err(Error::RepoNotAllowed);
    }
    Ok(())
}

/// What checking every application found.
#[derive(Debug, Clone, PartialEq, Eq)]
pub struct CheckReport {
    /// Whether every application passed every check.
    pub succeeded: bool,
    /// The applications that did not, in the order of the registry.
    pub violations: Vec<Diagnostic>,
}

/// The model of a report.
pub struct ReportView {
    pub succeeded: bool,
    pub violations: Seq<DiagnosticView>,
}

impl CheckReport {
    /// The exit code of the process: 0 where every application passed, 1
    /// where one did not.
    pub fn exit_code(&self) -> (code: i32)
        ensures
            code == if self.succeeded { 0i32 } else { 1i32 },
    {
        if self.succeeded {
            0
        } else {
            1
        }
    }
}

impl View for CheckReport {
    type V = ReportView;

    open spec fn view(&self) -> ReportView {
        ReportView { succeeded: self.succeeded, violations: views(self.violations@) }
    }
}

/// The violations among the first `n` applications, in order.
pub open spec fn violations_among(s: StateView, n: int) -> Seq<DiagnosticView>
    decreases n,
{
    if n <= 0 {
        Seq::empty()
    } else {
        let earlier = violations_among(s, n - 1);
        match check_outcome(s, s.applications[n - 1].1) {
            Err(e) => earlier.push(
                DiagnosticView { application: s.applications[n - 1].0, error: e },
            ),
            Ok(_) => earlier,
        }
    }
}

/// Whether the check of some application among the first `n` hits a
/// malformed manifest.
pub open spec fn malformed_among(s: StateView, n: int) -> bool {
    exists|i: int|
        0 <= i < n && i < s.applications.len() && check_outcome(
            s,
            (#[trigger] s.applications[i]).1,
        ) == Err::<(), Error>(Error::MalformedManifest)
}

/// The result of checking every application: a malformed manifest ends the
/// run; otherwise every violation is listed, and the run succeeds where
/// there is none.
pub open spec fn checked(s: StateView) -> Result<ReportView, Error> {
    let n = s.applications.len() as int;
    if malformed_among(s, n) {
        Err(Error::MalformedManifest)
    } else {
        Ok(
            ReportView {
                succeeded: violations_among(s, n).len() == 0,
                violations: violations_among(s, n),
            },
        )
    }
}

/// Checks every application. One that fails is listed, and the next one is
/// still checked.
pub fn run_checks(state: &State) -> (r: Result<CheckReport, Error>)
    ensures
        match r {
            Ok(report) => checked(state@) == Ok::<ReportView, Error>(report@),
            Err(e) => checked(state@) == Err::<ReportView, Error>(e),
        },
{
    let applications = state.applications.entries();
    let mut violations: Vec<Diagnostic> = Vec::new();
    let mut i: usize = 0;
    while i < applications.len()
        invariant
            i <= applications.len(),
            crate::registry::entries_view(applications@) == state@.applications,
            !malformed_among(state@, i as int),
            views(violations@) == violations_among(state@, i as int),
        decreases applications.len() - i,
    {
        let name = applications[i].0.as_str();
        let application = &applications[i].1;
        assert(state@.applications[i as int] == (name@, application@));
        match run_check(state, name, application) {
            Ok(_) => {},
            Err(Error::MalformedManifest) => {
                assert(malformed_among(state@, applications.len() as int));
                return Err(Error::MalformedManifest);
            },
            Err(e) => {
                violations.push(Diagnostic { application: name.to_owned(), error: e });
                assert(views(violations@) =~= violations_among(state@, i + 1));
            },
        }
        i += 1;
    }
    let succeeded = violations.len() == 0;
    Ok(CheckReport { succeeded, violations })
}

/// Every application that fails its check is listed with the failure.
pub proof fn lemma_violation_listed(s: StateView, i: int, n: int)
    requires
        0 <= i < n <= s.applications.len(),
        check_outcome(s, s.applications[i].1) is Err,
    ensures
        violations_among(s, n).contains(
            DiagnosticView {
                application: s.applications[i].0,
                error: check_outcome(s, s.applications[i].1)->Err_0,
            },
        ),
    decreases n,
{
    let wanted = DiagnosticView {
        application: s.applications[i].0,
        error: check_outcome(s, s.applications[i].1)->Err_0,
    };
    let earlier = violations_among(s, n - 1);
    if i == n - 1 {
        assert(violations_among(s, n) == earlier.push(wanted));
        assert(violations_among(s, n)[earlier.len() as int] == wanted);
    } else {
        lemma_violation_listed(s, i, n - 1);
        let at = choose|at: int| 0 <= at < earlier.len() && earlier[at] == wanted;
        assert(violations_among(s, n)[at] == wanted);
    }
}

/// An application whose project is not in the registry fails its check
/// with `UnknownProject`. A run over a registry that holds such an
/// application never succeeds: it ends with a report that lists the
/// application, unless the check of some application hits a malformed
/// manifest, which ends the run without a report.
pub proof fn lemma_unknown_project_fails(s: StateView, i: int)
    requires
        0 <= i < s.applications.len(),
        !has_name(s.app_projects, s.applications[i].1.project),
    ensures
        check_outcome(s, s.applications[i].1) == Err::<(), Error>(Error::UnknownProject),
        !(checked(s) matches Ok(report) && report.succeeded),
        checked(s) is Err <==> malformed_among(s, s.applications.len() as int),
        checked(s) matches Ok(report) ==> report.violations.contains(
            DiagnosticView { application: s.applications[i].0, error: Error::UnknownProject },
        ),
{
    lemma_violation_listed(s, i, s.applications.len() as int);
}

/// An application whose project is in the registry and whose target
/// namespace is not fails its check with `UnknownNamespace`. A run over a
/// registry that holds such an application never succeeds: it ends with a
/// report that lists the application, unless the check of some application
/// hits a malformed manifest, which ends the run without a report.
pub proof fn lemma_unknown_namespace_fails(s: StateView, i: int)
    requires
        0 <= i < s.applications.len(),
        has_name(s.app_projects, s.applications[i].1.project),
        !has_name(s.namespaces, s.applications[i].1.destination_namespace),
    ensures
        check_outcome(s, s.applications[i].1) == Err::<(), Error>(Error::UnknownNamespace),
        !(checked(s) matches Ok(report) && report.succeeded),
        checked(s) is Err <==> malformed_among(s, s.applications.len() as int),
        checked(s) matches Ok(report) ==> report.violations.contains(
            DiagnosticView {
                application: s.applications[i].0,
                error: Error::UnknownNamespace,
            },
        ),
{
    lemma_violation_listed(s, i, s.applications.len() as int);
}

/// An application whose project and target namespace are known, and whose
/// project does not list the namespace among those it may write, fails its
/// check with `NamespaceNotWritable`. The run never succeeds: it ends with
/// a report that lists the application, unless the check of some
/// application hits a malformed manifest.
pub proof fn lemma_namespace_not_writable_fails(s: StateView, i: int)
    requires
        0 <= i < s.applications.len(),
        has_name(s.app_projects, s.applications[i].1.project),
        has_name(s.namespaces, s.applications[i].1.destination_namespace),
        writable_namespaces_of(value_of(s.app_projects, s.applications[i].1.project).yaml)
            matches Some(writable) && !writable.contains(
            value_of(s.namespaces, s.applications[i].1.destination_namespace).name,
        ),
    ensures
        check_outcome(s, s.applications[i].1) == Err::<(), Error>(Error::NamespaceNotWritable),
        !(checked(s) matches Ok(report) && report.succeeded),
        checked(s) is Err <==> malformed_among(s, s.applications.len() as int),
        checked(s) matches Ok(report) ==> report.violations.contains(
            DiagnosticView {
                application: s.applications[i].0,
                error: Error::NamespaceNotWritable,
            },
        ),
{
    lemma_violation_listed(s, i, s.applications.len() as int);
}

/// An application that passes the checks of project and namespace, and
/// whose source repository its project does not list, fails its check with
/// `RepoNotAllowed`. The run never succeeds: it ends with a report that
/// lists the application, unless the check of some application hits a
/// malformed manifest.
pub proof fn lemma_repo_not_allowed_fails(s: StateView, i: int)
    requires
        0 <= i < s.applications.len(),
        has_name(s.app_projects, s.applications[i].1.project),
        has_name(s.namespaces, s.applications[i].1.destination_namespace),
        writable_namespaces_of(value_of(s.app_projects, s.applications[i].1.project).yaml)
            matches Some(writable) && writable.contains(
            value_of(s.namespaces, s.applications[i].1.destination_namespace).name,
        ),
        repo_url_of(s.applications[i].1.yaml) matches Some(repo) && source_repos_of(
            value_of(s.app_projects, s.applications[i].1.project).yaml,
        ) matches Some(allowed) && !allowed.contains(repo),
    ensures
        check_outcome(s, s.applications[i].1) == Err::<(), Error>(Error::RepoNotAllowed),
        !(checked(s) matches Ok(report) && report.succeeded),
        checked(s) is Err <==> malformed_among(s, s.applications.len() as int),
        checked(s) matches Ok(report) ==> report.violations.contains(
            DiagnosticView { application: s.applications[i].0, error: Error::RepoNotAllowed },
        ),
{
    lemma_violation_listed(s, i, s.applications.len() as int);
}

/// A run succeeds exactly where every application passes every check.
pub proof fn lemma_succeeds_iff_all_pass(s: StateView)
    ensures
        (checked(s) matches Ok(report) && report.succeeded) <==> forall|i: int|
            0 <= i < s.applications.len() ==> check_outcome(s, (#[trigger] s.applications[i]).1)
                is Ok,
{
    let n = s.applications.len() as int;
    if forall|i: int| 0 <= i < n ==> check_outcome(s, (#[trigger] s.applications[i]).1) is Ok {
        lemma_none_among(s, n);
    } else {
        let i = choose|i: int|
            0 <= i < n && !(check_outcome(s, (#[trigger] s.applications[i]).1) is Ok);
        lemma_violation_listed(s, i, n);
    }
}

/// Where the first `n` applications pass, none of them is listed.
proof fn lemma_none_among(s: StateView, n: int)
    requires
        0 <= n <= s.applications.len(),
        forall|i: int| 0 <= i < n ==> check_outcome(s, (#[trigger] s.applications[i]).1) is Ok,
    ensures
        violations_among(s, n).len() == 0,
        !malformed_among(s, n),
    decreases n,
{
    if n > 0 {
        lemma_none_among(s, n - 1);
    }
}

} // verus!
