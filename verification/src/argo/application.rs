//! Applications: deployable units whose source renders into further
//! manifests.

use crate::error::Error;
use crate::model::State;
use crate::registry::{has_name, value_of};
use crate::util::{
    chart_name_of, get_chart_name, get_name, get_repo_url, name_of, repo_url_of, text_of, views,
};
use crate::yaml::{child, emit_document, emitted_text, Document, Value};
use vstd::prelude::*;

verus! {

/// How an application's manifests are produced.
#[derive(Debug, Clone, Copy, PartialEq, Eq, Structural)]
pub enum SourceType {
    HelmChart,
    GitRepo,
}

/// A deployable unit, with the document it was read from.
#[derive(Debug, Clone, PartialEq)]
pub struct Application {
    pub name: String,
    pub destination_namespace: String,
    pub project: String,
    pub yaml: Document,
}

/// The model of an application.
pub struct ApplicationView {
    pub name: Seq<char>,
    pub destination_namespace: Seq<char>,
    pub project: Seq<char>,
    pub yaml: Value,
}

impl View for Application {
    type V = ApplicationView;

    open spec fn view(&self) -> ApplicationView {
        ApplicationView {
            name: self.name@,
            destination_namespace: self.destination_namespace@,
            project: self.project@,
            yaml: self.yaml@,
        }
    }
}

/// The text at `spec.destination.namespace`.
pub open spec fn destination_namespace_of(v: Value) -> Option<Seq<char>> {
    v.get("spec"@).get("destination"@).get("namespace"@).as_str()
}

/// The text at `spec.project`.
pub open spec fn project_of(v: Value) -> Option<Seq<char>> {
    v.get("spec"@).get("project"@).as_str()
}

/// The application that a document describes, where it has a name, a
/// target namespace and a project.
pub open spec fn application_of(v: Value) -> Option<ApplicationView> {
    match (name_of(v), destination_namespace_of(v), project_of(v)) {
        (Some(name), Some(destination_namespace), Some(project)) => Some(
            ApplicationView { name, destination_namespace, project, yaml: v },
        ),
        _ => None,
    }
}

impl Application {
    /// The application that a document describes. `MalformedManifest`
    /// where the name, the target namespace or the project is missing.
    pub fn from(value: Document) -> (r: Result<Application, Error>)
        ensures
            match r {
                Ok(application) => application_of(value@) == Some(application@)
                    && application.yaml == value,
                Err(e) => e == Error::MalformedManifest && application_of(value@) is None,
            },
    {
        let name = match get_name(&value) {
            Some(name) => name.to_owned(),
            None => { return Err(Error::MalformedManifest); },
        };
        let namespace = match text_of(
            child(child(child(Some(&value), "spec"), "destination"), "namespace"),
        ) {
            Some(namespace) => namespace.to_owned(),
            None => { return Err(Error::MalformedManifest); },
        };
        let project = match text_of(child(child(Some(&value), "spec"), "project")) {
            Some(project) => project.to_owned(),
            None => { return Err(Error::MalformedManifest); },
        };
        Ok(Application { name, destination_namespace: namespace, project, yaml: value })
    }
}

/// What has to be done outside to render an application.
#[derive(Debug, Clone, PartialEq, Eq)]
pub enum RenderPlan {
    /// Read every regular file that lies directly in the directory `path`
    /// of the checkout at `root`.
    StaticRepo { root: String, path: String },
    /// Template the chart `chart` of the repository `repo_url` as the
    /// release `release_name`, with a values file that holds `values`.
    /// Where there are none, nothing is written, and the path of the values
    /// file is handed to the command all the same.
    HelmChart { repo_url: String, chart: String, release_name: String, values: Option<String> },
}

/// The model of a render plan.
pub enum RenderPlanView {
    StaticRepo { root: Seq<char>, path: Seq<char> },
    HelmChart {
        repo_url: Seq<char>,
        chart: Seq<char>,
        release_name: Seq<char>,
        values: Option<Seq<char>>,
    },
}

impl View for RenderPlan {
    type V = RenderPlanView;

    open spec fn view(&self) -> RenderPlanView {
        match self {
            RenderPlan::StaticRepo { root, path } => RenderPlanView::StaticRepo {
                root: root@,
                path: path@,
            },
            RenderPlan::HelmChart { repo_url, chart, release_name, values } => {
                RenderPlanView::HelmChart {
                    repo_url: repo_url@,
                    chart: chart@,
                    release_name: release_name@,
                    values: match values {
                        Some(text) => Some(text@),
                        None => None,
                    },
                }
            },
        }
    }
}

/// A document with a text that is not empty at `spec.source.chart` is
/// sourced from a chart; every other one from a repository path.
pub open spec fn source_type_of(v: Value) -> SourceType {
    match chart_name_of(v) {
        Some(chart) => if chart.len() > 0 {
            SourceType::HelmChart
        } else {
            SourceType::GitRepo
        },
        None => SourceType::GitRepo,
    }
}

/// The plan for a repository path: the local checkout of
/// `spec.source.repoURL` and the directory `spec.source.path` in it.
pub open spec fn static_plan(v: Value, local_repos: Seq<(Seq<char>, Seq<char>)>) -> Result<
    RenderPlanView,
    Error,
> {
    match repo_url_of(v) {
        None => Err(Error::MalformedManifest),
        Some(url) => if has_name(local_repos, url) {
            match v.get("spec"@).get("source"@).get("path"@).as_str() {
                Some(path) => Ok(
                    RenderPlanView::StaticRepo { root: value_of(local_repos, url), path },
                ),
                None => Err(Error::MalformedManifest),
            }
        } else {
            Err(Error::UnsupportedSource)
        },
    }
}

/// What goes into the values file, given the document's
/// `spec.source.helm`: the text at `values` where there is anything; else
/// the emitted form of `valuesObject` where there is anything; else
/// nothing.
pub open spec fn helm_values(helm: Value) -> Result<Option<Seq<char>>, Error> {
    if !helm.get("values"@).is_badvalue() {
        match helm.get("values"@).as_str() {
            Some(text) => Ok(Some(text)),
            None => Err(Error::MalformedManifest),
        }
    } else if !helm.get("valuesObject"@).is_badvalue() {
        let object = helm.get("valuesObject"@);
        if !object.distinct_keys() {
            Err(Error::MalformedManifest)
        } else {
            match emitted_text(object) {
                Some(text) => Ok(Some(text)),
                None => Err(Error::RenderFailure),
            }
        }
    } else {
        Ok(None)
    }
}

/// The plan for a chart: repository and chart from `spec.source`, the
/// release named by `spec.source.helm.releaseName` or else after the
/// application, and the values.
pub open spec fn helm_plan(application: ApplicationView) -> Result<RenderPlanView, Error> {
    let v = application.yaml;
    let helm = v.get("spec"@).get("source"@).get("helm"@);
    match (repo_url_of(v), chart_name_of(v)) {
        (Some(repo_url), Some(chart)) => match helm_values(helm) {
            Ok(values) => Ok(
                RenderPlanView::HelmChart {
                    repo_url,
                    chart,
                    release_name: match helm.get("releaseName"@).as_str() {
                        Some(release_name) => release_name,
                        None => application.name,
                    },
                    values,
                },
            ),
            Err(e) => Err(e),
        },
        _ => Err(Error::MalformedManifest),
    }
}

/// The plan for an application, by the kind of its source.
pub open spec fn planned(
    application: ApplicationView,
    local_repos: Seq<(Seq<char>, Seq<char>)>,
) -> Result<RenderPlanView, Error> {
    match source_type_of(application.yaml) {
        SourceType::GitRepo => static_plan(application.yaml, local_repos),
        SourceType::HelmChart => helm_plan(application),
    }
}

/// Whether a plan is the one that a model asks for.
pub open spec fn plan_matches(
    r: Result<RenderPlan, Error>,
    wanted: Result<RenderPlanView, Error>,
) -> bool {
    match r {
        Ok(plan) => wanted == Ok::<RenderPlanView, Error>(plan@),
        Err(e) => wanted == Err::<RenderPlanView, Error>(e),
    }
}

impl Application {
    /// What has to be done to render this application: a plan for reading
    /// its repository path or for templating its chart.
    pub fn render(&self, state: &State) -> (r: Result<RenderPlan, Error>)
        ensures
            plan_matches(r, planned(self@, state.local_repos@)),
    {
        match self.identify_application_source() {
            SourceType::GitRepo => self.render_static_repo(state),
            SourceType::HelmChart => self.render_helm_chart(state),
        }
    }

    fn render_static_repo(&self, state: &State) -> (r: Result<RenderPlan, Error>)
        ensures
            plan_matches(r, static_plan(self.yaml@, state.local_repos@)),
    {
        let repo_url = match get_repo_url(&self.yaml) {
            Some(url) => url,
            None => { return Err(Error::MalformedManifest); },
        };
        match state.local_repos.get(repo_url) {
            Some(root) => {
                let source = child(child(Some(&self.yaml), "spec"), "source");
                match text_of(child(source, "path")) {
                    Some(path) => Ok(
                        RenderPlan::StaticRepo { root: root.clone(), path: path.to_owned() },
                    ),
                    None => Err(Error::MalformedManifest),
                }
            },
            None => Err(Error::UnsupportedSource),
        }
    }

    fn render_helm_chart(&self, state: &State) -> (r: Result<RenderPlan, Error>)
        ensures
            plan_matches(r, helm_plan(self@)),
    {
        let repo_url = match get_repo_url(&self.yaml) {
            Some(url) => url,
            None => { return Err(Error::MalformedManifest); },
        };
        let chart = match get_chart_name(&self.yaml) {
            Some(chart) => chart,
            None => { return Err(Error::MalformedManifest); },
        };
        let helm = child(child(child(Some(&self.yaml), "spec"), "source"), "helm");
        let release_name = match text_of(child(helm, "releaseName")) {
            Some(release_name) => release_name.to_owned(),
            None => self.name.clone(),
        };
        let literal = child(helm, "values");
        let object = child(helm, "valuesObject");
        let values = match (literal, object) {
            (Some(d), _) if !d.is_badvalue() => match d.as_str() {
                Some(text) => Some(text.to_owned()),
                None => { return Err(Error::MalformedManifest); },
            },
            (_, Some(d)) if !d.is_badvalue() => match emit_document(d) {
                Ok(text) => Some(text),
                Err(e) => { return Err(e); },
            },
            _ => None,
        };
        Ok(
            RenderPlan::HelmChart {
                repo_url: repo_url.to_owned(),
                chart: chart.to_owned(),
                release_name,
                values,
            },
        )
    }

    /// Whether this application is sourced from a chart or from a
    /// repository path.
    pub fn identify_application_source(&self) -> (r: SourceType)
        ensures
            r == source_type_of(self.yaml@),
    {
        match get_chart_name(&self.yaml) {
            Some(chart) => if chart.is_empty() {
                SourceType::GitRepo
            } else {
                SourceType::HelmChart
            },
            None => SourceType::GitRepo,
        }
    }
}

impl RenderPlan {
    /// The arguments that a chart plan hands to the templating command,
    /// given the path of the values file: `template --repo <repository>
    /// -f <values file> <release> <chart>`.
    pub open spec fn arguments(self, values_file: Seq<char>) -> Option<Seq<Seq<char>>> {
        match self {
            RenderPlan::StaticRepo { .. } => None,
            RenderPlan::HelmChart { repo_url, chart, release_name, .. } => Some(
                seq![
                    "template"@,
                    "--repo"@,
                    repo_url@,
                    "-f"@,
                    values_file,
                    release_name@,
                    chart@,
                ],
            ),
        }
    }

    /// The arguments for the templating command, where this is a chart
    /// plan.
    pub fn helm_arguments(&self, values_file: &str) -> (r: Option<Vec<String>>)
        ensures
            match r {
                Some(arguments) => self.arguments(values_file@) == Some(views(arguments@)),
                None => self.arguments(values_file@) is None,
            },
    {
        match self {
            RenderPlan::StaticRepo { .. } => None,
            RenderPlan::HelmChart { repo_url, chart, release_name, .. } => {
                let mut arguments: Vec<String> = Vec::new();
                arguments.push("template".to_owned());
                arguments.push("--repo".to_owned());
                arguments.push(repo_url.clone());
                arguments.push("-f".to_owned());
                arguments.push(values_file.to_owned());
                arguments.push(release_name.clone());
                arguments.push(chart.clone());
                assert(views(arguments@) =~= self.arguments(values_file@)->0);
                Some(arguments)
            },
        }
    }
}

} // verus!
