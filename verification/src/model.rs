//! Everything that resolution has discovered so far: the applications,
//! projects and namespaces by name, the repositories with a local checkout,
//! and the rendered documents.

use crate::argo::application::{Application, ApplicationView};
use crate::config::{Config, LocalRepo};
use crate::error::Error;
use crate::registry::{names_distinct, upserted, NameMap};
use crate::util::{get_name, name_of, text_of, views};
use crate::yaml::{child, Document, Value};
use vstd::prelude::*;

verus! {

/// The texts at `namespace` of the items, in order, where every item has
/// one.
pub open spec fn namespace_texts(items: Seq<Value>) -> Option<Seq<Seq<char>>> {
    if forall|i: int|
        0 <= i < items.len() ==> (#[trigger] items[i]).get("namespace"@).as_str() is Some {
        Some(Seq::new(items.len(), |i: int| items[i].get("namespace"@).as_str()->0))
    } else {
        None
    }
}

/// The items as texts, in order, where every item is one.
pub open spec fn item_texts(items: Seq<Value>) -> Option<Seq<Seq<char>>> {
    if forall|i: int| 0 <= i < items.len() ==> (#[trigger] items[i]).as_str() is Some {
        Some(Seq::new(items.len(), |i: int| items[i].as_str()->0))
    } else {
        None
    }
}

/// The namespaces that a project document lets its applications write:
/// `spec.destinations[].namespace`.
pub open spec fn writable_namespaces_of(v: Value) -> Option<Seq<Seq<char>>> {
    match v.get("spec"@).get("destinations"@).as_vec() {
        Some(items) => namespace_texts(items),
        None => None,
    }
}

/// The repositories that a project document lets its applications use:
/// `spec.sourceRepos[]`.
pub open spec fn source_repos_of(v: Value) -> Option<Seq<Seq<char>>> {
    match v.get("spec"@).get("sourceRepos"@).as_vec() {
        Some(items) => item_texts(items),
        None => None,
    }
}

/// An authorization boundary: which namespaces its applications may target
/// and which repositories they may be sourced from.
#[derive(Debug, Clone, PartialEq)]
pub struct AppProject {
    pub name: String,
    pub yaml: Document,
}

/// The model of a project.
pub struct AppProjectView {
    pub name: Seq<char>,
    pub yaml: Value,
}

impl View for AppProject {
    type V = AppProjectView;

    open spec fn view(&self) -> AppProjectView {
        AppProjectView { name: self.name@, yaml: self.yaml@ }
    }
}

impl AppProject {
    /// The project that a document describes. `MalformedManifest` where the
    /// document has no name.
    pub fn from(value: Document) -> (r: Result<AppProject, Error>)
        ensures
            match r {
                Ok(project) => name_of(value@) == Some(project.name@) && project.yaml == value,
                Err(e) => e == Error::MalformedManifest && name_of(value@) is None,
            },
    {
        let name = match get_name(&value) {
            Some(name) => name.to_owned(),
            None => { return Err(Error::MalformedManifest); },
        };
        Ok(AppProject { name, yaml: value })
    }

    /// The namespaces that applications of this project may target, read
    /// from the document each time. `MalformedManifest` where
    /// `spec.destinations` is no list or an item of it has no text at
    /// `namespace`.
    pub fn writable_namespaces(&self) -> (r: Result<Vec<String>, Error>)
        ensures
            match r {
                Ok(names) => writable_namespaces_of(self.yaml@) == Some(views(names@)),
                Err(e) => e == Error::MalformedManifest && writable_namespaces_of(self.yaml@)
                    is None,
            },
    {
        let found = child(child(Some(&self.yaml), "spec"), "destinations");
        let items = match found {
            Some(d) => match d.as_vec() {
                Some(items) => items,
                None => { return Err(Error::MalformedManifest); },
            },
            None => { return Err(Error::MalformedManifest); },
        };
        let mut names: Vec<String> = Vec::new();
        let mut i: usize = 0;
        while i < items.len()
            invariant
                i <= items.len(),
                names.len() == i,
                self.yaml@.get("spec"@).get("destinations"@).as_vec() == Some(views(items@)),
                forall|j: int|
                    0 <= j < i ==> (#[trigger] views(items@)[j]).get("namespace"@).as_str()
                        == Some(names@[j]@),
            decreases items.len() - i,
        {
            match text_of(child(Some(&items[i]), "namespace")) {
                Some(name) => {
                    names.push(name.to_owned());
                },
                None => {
                    assert(views(items@)[i as int].get("namespace"@).as_str() is None);
                    return Err(Error::MalformedManifest);
                },
            }
            i += 1;
        }
        assert(namespace_texts(views(items@))->0 =~= views(names@));
        Ok(names)
    }

    /// The repositories that applications of this project may be sourced
    /// from, read from the document each time. `MalformedManifest` where
    /// `spec.sourceRepos` is no list of texts.
    pub fn source_repos(&self) -> (r: Result<Vec<String>, Error>)
        ensures
            match r {
                Ok(repos) => source_repos_of(self.yaml@) == Some(views(repos@)),
                Err(e) => e == Error::MalformedManifest && source_repos_of(self.yaml@) is None,
            },
    {
        let found = child(child(Some(&self.yaml), "spec"), "sourceRepos");
        let items = match found {
            Some(d) => match d.as_vec() {
                Some(items) => items,
                None => { return Err(Error::MalformedManifest); },
            },
            None => { return Err(Error::MalformedManifest); },
        };
        let mut repos: Vec<String> = Vec::new();
        let mut i: usize = 0;
        while i < items.len()
            invariant
                i <= items.len(),
                repos.len() == i,
                self.yaml@.get("spec"@).get("sourceRepos"@).as_vec() == Some(views(items@)),
                forall|j: int|
                    0 <= j < i ==> (#[trigger] views(items@)[j]).as_str() == Some(repos@[j]@),
            decreases items.len() - i,
        {
            match items[i].as_str() {
                Some(repo) => {
                    repos.push(repo.to_owned());
                },
                None => {
                    assert(views(items@)[i as int].as_str() is None);
                    return Err(Error::MalformedManifest);
                },
            }
            i += 1;
        }
        assert(item_texts(views(items@))->0 =~= views(repos@));
        Ok(repos)
    }
}

/// A deployment target, known by its name.
#[derive(Debug, Clone, PartialEq)]
pub struct Namespace {
    pub name: String,
    pub yaml: Document,
}

/// The model of a namespace.
pub struct NamespaceView {
    pub name: Seq<char>,
    pub yaml: Value,
}

impl View for Namespace {
    type V = NamespaceView;

    open spec fn view(&self) -> NamespaceView {
        NamespaceView { name: self.name@, yaml: self.yaml@ }
    }
}

impl Namespace {
    /// The namespace that a document describes. `MalformedManifest` where
    /// the document has no name.
    pub fn from(value: Document) -> (r: Result<Namespace, Error>)
        ensures
            match r {
                Ok(namespace) => name_of(value@) == Some(namespace.name@) && namespace.yaml
                    == value,
                Err(e) => e == Error::MalformedManifest && name_of(value@) is None,
            },
    {
        let name = match get_name(&value) {
            Some(name) => name.to_owned(),
            None => { return Err(Error::MalformedManifest); },
        };
        Ok(Namespace { name, yaml: value })
    }
}

/// The local checkouts of a configuration, by repository URL: for a URL
/// that is listed twice, the later path.
pub open spec fn checkouts_of(repos: Seq<LocalRepo>) -> Seq<(Seq<char>, Seq<char>)>
    decreases repos.len(),
{
    if repos.len() == 0 {
        Seq::empty()
    } else {
        upserted(checkouts_of(repos.drop_last()), repos.last().repo@, repos.last().path@)
    }
}

/// Everything discovered so far.
#[derive(Debug)]
pub struct State {
    /// Repository URL to the path of its local checkout.
    pub local_repos: NameMap<String>,
    pub applications: NameMap<Application>,
    pub app_projects: NameMap<AppProject>,
    pub namespaces: NameMap<Namespace>,
    pub images: Vec<String>,
    /// The documents that rendering has produced, in the order they were
    /// merged.
    pub yaml: Vec<Document>,
    pub config: Config,
    /// How many rounds of rendering were started.
    pub rounds: usize,
}

/// The model of the state: every registry as its entries in order of
/// discovery.
pub struct StateView {
    pub local_repos: Seq<(Seq<char>, Seq<char>)>,
    pub applications: Seq<(Seq<char>, ApplicationView)>,
    pub app_projects: Seq<(Seq<char>, AppProjectView)>,
    pub namespaces: Seq<(Seq<char>, NamespaceView)>,
    pub images: Seq<Seq<char>>,
    pub yaml: Seq<Value>,
    pub config: Config,
    pub rounds: nat,
}

impl View for State {
    type V = StateView;

    open spec fn view(&self) -> StateView {
        StateView {
            local_repos: self.local_repos@,
            applications: self.applications@,
            app_projects: self.app_projects@,
            namespaces: self.namespaces@,
            images: views(self.images@),
            yaml: views(self.yaml@),
            config: self.config,
            rounds: self.rounds as nat,
        }
    }
}

impl StateView {
    /// No registry holds a name twice. This holds of every state, as
    /// `State::counts` shows.
    pub open spec fn distinct(self) -> bool {
        &&& names_distinct(self.applications)
        &&& names_distinct(self.app_projects)
        &&& names_distinct(self.namespaces)
    }

    /// The state in which nothing is known yet, under a configuration.
    pub open spec fn start(config: Config) -> StateView {
        StateView {
            local_repos: checkouts_of(config.local_repos@),
            applications: Seq::empty(),
            app_projects: Seq::empty(),
            namespaces: Seq::empty(),
            images: Seq::empty(),
            yaml: Seq::empty(),
            config,
            rounds: 0,
        }
    }
}

impl Default for State {
    fn default() -> (r: State)
        ensures
            r@ == StateView::start(r.config),
            r.config.entrypoints@.len() == 0,
            r.config.local_repos@.len() == 0,
            !r.config.fuzz,
            r.config.max_rounds is None,
    {
        State::new(Config::default())
    }
}

impl State {
    /// How many applications, projects and namespaces are known, in this
    /// order.
    pub fn counts(&self) -> (n: (usize, usize, usize))
        ensures
            n.0 == self@.applications.len(),
            n.1 == self@.app_projects.len(),
            n.2 == self@.namespaces.len(),
            self@.distinct(),
    {
        (self.applications.len(), self.app_projects.len(), self.namespaces.len())
    }

    /// The state at the start of a run: nothing discovered, and the local
    /// checkouts that the configuration lists.
    pub fn new(config: Config) -> (r: State)
        ensures
            r@ == StateView::start(config),
    {
        let mut local_repos: NameMap<String> = NameMap::new();
        let mut i: usize = 0;
        while i < config.local_repos.len()
            invariant
                i <= config.local_repos.len(),
                local_repos@ == checkouts_of(config.local_repos@.subrange(0, i as int)),
            decreases config.local_repos.len() - i,
        {
            let repo = &config.local_repos[i];
            proof {
                let next = config.local_repos@.subrange(0, i + 1);
                assert(next.drop_last() =~= config.local_repos@.subrange(0, i as int));
                assert(next.last() == config.local_repos@[i as int]);
            }
            local_repos.insert(repo.repo.clone(), repo.path.clone());
            i += 1;
        }
        assert(config.local_repos@.subrange(0, i as int) =~= config.local_repos@);
        let r = State {
            local_repos,
            applications: NameMap::new(),
            app_projects: NameMap::new(),
            namespaces: NameMap::new(),
            images: Vec::new(),
            yaml: Vec::new(),
            config,
            rounds: 0,
        };
        assert(r@.images =~= Seq::empty());
        assert(r@.yaml =~= Seq::empty());
        r
    }
}

} // verus!
