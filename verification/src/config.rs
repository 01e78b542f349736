//! Run configuration: where the entrypoint manifests are, and which
//! repositories have a local checkout.

use vstd::prelude::*;

verus! {

/// A repository that is mirrored on the local file system.
#[derive(Debug, Clone, PartialEq, Eq)]
pub struct LocalRepo {
    /// The repository's URL.
    pub repo: String,
    /// The path of its local checkout.
    pub path: String,
}

impl LocalRepo {
    /// The checkout at `path` of the repository `repo`.
    pub fn new(repo: String, path: String) -> (r: LocalRepo)
        ensures
            r.repo == repo,
            r.path == path,
    {
        LocalRepo { repo, path }
    }
}

/// The configuration of one run.
#[derive(Debug, Clone, PartialEq, Eq)]
pub struct Config {
    /// Paths of the entrypoint manifest files, in the order they are read.
    pub entrypoints: Vec<String>,
    pub local_repos: Vec<LocalRepo>,
    pub fuzz: bool,
    /// The most rounds of rendering that a run may take; `None` sets no
    /// limit.
    pub max_rounds: Option<usize>,
}

impl Default for Config {
    fn default() -> (r: Config)
        ensures
            r.entrypoints@.len() == 0,
            r.local_repos@.len() == 0,
            !r.fuzz,
            r.max_rounds is None,
    {
        Config { entrypoints: Vec::new(), local_repos: Vec::new(), fuzz: false, max_rounds: None }
    }
}

/// Settings as they come out of the configuration sources, before it is
/// known whether the required ones are there.
#[derive(Debug, Clone, PartialEq, Eq)]
pub struct Settings {
    pub entrypoints: Option<Vec<String>>,
    pub local_repos: Option<Vec<LocalRepo>>,
    pub fuzz: Option<bool>,
    pub max_rounds: Option<usize>,
}

/// Why settings make no configuration.
#[derive(Debug, Clone, Copy, PartialEq, Eq, Structural)]
pub enum ConfigError {
    MissingEntrypoints,
    MissingLocalRepos,
}

impl Config {
    /// The configuration that `settings` describe. `entrypoints` and
    /// `local_repos` are required, and asked for in this order; `fuzz` is
    /// off unless set; `max_rounds` is taken as it is.
    pub open spec fn loaded(settings: Settings) -> Result<Config, ConfigError> {
        match (settings.entrypoints, settings.local_repos) {
            (None, _) => Err(ConfigError::MissingEntrypoints),
            (Some(_), None) => Err(ConfigError::MissingLocalRepos),
            (Some(entrypoints), Some(local_repos)) => Ok(
                Config {
                    entrypoints,
                    local_repos,
                    fuzz: match settings.fuzz {
                        Some(fuzz) => fuzz,
                        None => false,
                    },
                    max_rounds: settings.max_rounds,
                },
            ),
        }
    }

    /// Builds the configuration from merged settings.
    pub fn load(settings: Settings) -> (r: Result<Config, ConfigError>)
        ensures
            r == Config::loaded(settings),
    {
        let Settings { entrypoints, local_repos, fuzz, max_rounds } = settings;
        let entrypoints = match entrypoints {
            Some(entrypoints) => entrypoints,
            None => { return Err(ConfigError::MissingEntrypoints); },
        };
        let local_repos = match local_repos {
            Some(local_repos) => local_repos,
            None => { return Err(ConfigError::MissingLocalRepos); },
        };
        let fuzz = match fuzz {
            Some(fuzz) => fuzz,
            None => false,
        };
        Ok(Config { entrypoints, local_repos, fuzz, max_rounds })
    }
}

} // verus!
