use argocd_lint::argo::application::{Application, RenderPlan, SourceType};
use argocd_lint::argo::render::{
    command_result, files_result, is_white_space, join_contents, rendered_text, RenderOutcome,
    RenderResult,
};
use argocd_lint::check;
use argocd_lint::checks::CheckReport;
use argocd_lint::config::{Config, LocalRepo};
use argocd_lint::error::{Diagnostic, Error};
use argocd_lint::model::State;
use argocd_lint::resolve::{
    absorb, classify, classify_all, kind, load_entrypoints, merge_rendered, parse_yaml,
    render_documents, Kind, Merged, RenderJob, Round,
};
use argocd_lint::yaml::{parse_documents, Document};
use argocd_lint::{Action, Event, Step};

fn config(max_rounds: Option<usize>) -> Config {
    Config {
        entrypoints: vec!["entry.yaml".to_string()],
        local_repos: vec![LocalRepo::new("repo1".to_string(), "/checkouts/repo1".to_string())],
        fuzz: false,
        max_rounds,
    }
}

fn static_app(name: &str, repo: &str, path: &str) -> String {
    format!(
        "kind: Application\nmetadata:\n  name: {name}\nspec:\n  project: team\n  destination:\n    namespace: ns1\n  source:\n    repoURL: {repo}\n    path: {path}\n"
    )
}

fn helm_app(name: &str, helm: &str) -> String {
    format!(
        "kind: Application\nmetadata:\n  name: {name}\nspec:\n  project: team\n  destination:\n    namespace: ns1\n  source:\n    repoURL: https://charts\n    chart: web\n{helm}"
    )
}

fn namespace(name: &str) -> String {
    format!("kind: Namespace\nmetadata:\n  name: {name}\n")
}

fn project(name: &str) -> String {
    format!(
        "kind: AppProject\nmetadata:\n  name: {name}\nspec:\n  destinations:\n    - namespace: ns1\n  sourceRepos:\n    - repo1\n"
    )
}

fn one(text: &str) -> Document {
    parse_documents(text).unwrap().remove(0)
}

fn app_of(text: &str) -> Application {
    Application::from(one(text)).unwrap()
}

fn static_plan(path: &str) -> RenderPlan {
    RenderPlan::StaticRepo { root: "/checkouts/repo1".to_string(), path: path.to_string() }
}

fn job(application: &str, plan: RenderPlan) -> RenderJob {
    RenderJob { application: application.to_string(), plan }
}

fn diagnostic(application: &str, error: Error) -> Diagnostic {
    Diagnostic { application: application.to_string(), error }
}

fn files(application: &str, contents: &[&str]) -> RenderOutcome {
    RenderOutcome {
        application: application.to_string(),
        result: RenderResult::Files(contents.iter().map(|c| c.to_string()).collect()),
    }
}

fn names(state: &State) -> Vec<String> {
    state.applications.entries().iter().map(|e| e.0.clone()).collect()
}

#[test]
fn kinds_are_told_by_the_kind_field() {
    assert_eq!(kind(&one("kind: Application\n")), Some(Kind::Application));
    assert_eq!(kind(&one("kind: AppProject\n")), Some(Kind::AppProject));
    assert_eq!(kind(&one("kind: Namespace\n")), Some(Kind::Namespace));
    assert_eq!(kind(&one("kind: ConfigMap\n")), None);
    assert_eq!(kind(&one("kind: namespace\n")), None);
    assert_eq!(kind(&one("kind: 3\n")), None);
    assert_eq!(kind(&one("metadata:\n  name: x\n")), None);
    assert_eq!(kind(&Document::Null), None);
}

#[test]
fn classify_stores_each_kind_in_its_own_registry() {
    let mut state = State::default();
    assert_eq!(classify(&mut state, one(&static_app("same", "repo1", "a"))), Ok(()));
    assert_eq!(classify(&mut state, one(&project("same"))), Ok(()));
    assert_eq!(classify(&mut state, one(&namespace("same"))), Ok(()));
    assert_eq!(state.counts(), (1, 1, 1));
    assert_eq!(state.applications.get("same").unwrap().project, "team");
    assert_eq!(state.app_projects.get("same").unwrap().name, "same");
    assert!(state.namespaces.get("same").unwrap().yaml == one(&namespace("same")));
}

#[test]
fn classify_ignores_other_documents() {
    let mut state = State::default();
    assert_eq!(classify(&mut state, one("kind: ConfigMap\ndata: {}\n")), Ok(()));
    assert_eq!(classify(&mut state, one("just: data\n")), Ok(()));
    assert_eq!(classify(&mut state, Document::BadValue), Ok(()));
    assert_eq!(state.counts(), (0, 0, 0));
}

#[test]
fn classify_overwrites_what_was_stored_under_the_name() {
    let mut state = State::default();
    classify(&mut state, one(&static_app("app", "repo1", "old"))).unwrap();
    classify(&mut state, one(&static_app("other", "repo1", "x"))).unwrap();
    classify(&mut state, one(&static_app("app", "repo1", "new"))).unwrap();
    assert_eq!(names(&state), vec!["app".to_string(), "other".to_string()]);
    assert!(state.applications.get("app").unwrap().yaml == one(&static_app("app", "repo1", "new")));
}

#[test]
fn classify_fails_on_a_recognized_kind_without_its_fields() {
    let mut state = State::default();
    assert_eq!(
        classify(&mut state, one("kind: Namespace\nmetadata: {}\n")),
        Err(Error::MalformedManifest)
    );
    assert_eq!(
        classify(&mut state, one("kind: AppProject\n")),
        Err(Error::MalformedManifest)
    );
    assert_eq!(
        classify(&mut state, one("kind: Application\nmetadata:\n  name: app\nspec:\n  project: p\n")),
        Err(Error::MalformedManifest)
    );
    assert_eq!(state.applications.len(), 0);
    assert_eq!(state.app_projects.len(), 0);
    assert_eq!(state.namespaces.len(), 0);
}

#[test]
fn classify_all_stops_at_the_first_malformed_document() {
    let mut state = State::default();
    let documents = vec![
        one(&namespace("before")),
        one("kind: Namespace\n"),
        one(&namespace("after")),
    ];
    assert_eq!(classify_all(&mut state, &documents), Err(Error::MalformedManifest));
    assert!(state.namespaces.contains_key("before"));
    assert!(!state.namespaces.contains_key("after"));
}

#[test]
fn sorting_a_document_in_twice_changes_nothing() {
    let mut once = State::default();
    classify(&mut once, one(&static_app("app", "repo1", "a"))).unwrap();
    let mut twice = State::default();
    classify(&mut twice, one(&static_app("app", "repo1", "a"))).unwrap();
    classify(&mut twice, one(&static_app("app", "repo1", "a"))).unwrap();
    assert_eq!(once.applications.entries(), twice.applications.entries());
}

fn source_with(chart: &str) -> String {
    format!(
        "kind: Application\nmetadata:\n  name: a\nspec:\n  project: p\n  destination:\n    namespace: n\n  source:\n    repoURL: repo1\n    path: x\n    chart: {chart}\n"
    )
}

#[test]
fn the_source_is_a_chart_where_the_chart_field_is_a_text_that_is_not_empty() {
    assert_eq!(app_of(&helm_app("a", "")).identify_application_source(), SourceType::HelmChart);
    assert_eq!(app_of(&source_with("web")).identify_application_source(), SourceType::HelmChart);
    assert_eq!(app_of(&source_with("' '")).identify_application_source(), SourceType::HelmChart);
    assert_eq!(
        app_of(&static_app("a", "repo1", "x")).identify_application_source(),
        SourceType::GitRepo
    );
    let no_source =
        "kind: Application\nmetadata:\n  name: a\nspec:\n  project: p\n  destination:\n    namespace: n\n";
    assert_eq!(app_of(no_source).identify_application_source(), SourceType::GitRepo);
}

#[test]
fn an_empty_chart_field_leaves_the_source_static() {
    for chart in ["''", "\"\"", "~", "null", "", "7", "true", "[web]", "{name: web}"] {
        let app = app_of(&source_with(chart));
        assert_eq!(app.identify_application_source(), SourceType::GitRepo);
        let state = State::new(config(None));
        assert_eq!(app.render(&state), Ok(static_plan("x")));
    }
}

#[test]
fn a_repository_path_is_read_from_the_local_checkout() {
    let state = State::new(config(None));
    let app = app_of(&static_app("root", "repo1", "apps/base"));
    assert_eq!(app.render(&state), Ok(static_plan("apps/base")));
}

#[test]
fn a_repository_without_a_checkout_is_not_supported() {
    let state = State::new(config(None));
    let app = app_of(&static_app("root", "https://elsewhere", "apps"));
    assert_eq!(app.render(&state), Err(Error::UnsupportedSource));
}

#[test]
fn a_repository_source_needs_its_url_and_its_path() {
    let state = State::new(config(None));
    let no_path = "kind: Application\nmetadata:\n  name: a\nspec:\n  project: p\n  destination:\n    namespace: n\n  source:\n    repoURL: repo1\n";
    assert_eq!(app_of(no_path).render(&state), Err(Error::MalformedManifest));
    let no_url = "kind: Application\nmetadata:\n  name: a\nspec:\n  project: p\n  destination:\n    namespace: n\n  source:\n    path: x\n";
    assert_eq!(app_of(no_url).render(&state), Err(Error::MalformedManifest));
}

#[test]
fn a_chart_is_released_under_the_application_name_by_default() {
    let state = State::new(config(None));
    let plan = app_of(&helm_app("svc", "")).render(&state).unwrap();
    assert_eq!(
        plan,
        RenderPlan::HelmChart {
            repo_url: "https://charts".to_string(),
            chart: "web".to_string(),
            release_name: "svc".to_string(),
            values: None,
        }
    );
}

#[test]
fn a_chart_takes_its_release_name_and_literal_values() {
    let state = State::new(config(None));
    let helm = "    helm:\n      releaseName: prod\n      values: |\n        replicas: 3\n      valuesObject:\n        ignored: true\n";
    let plan = app_of(&helm_app("svc", helm)).render(&state).unwrap();
    assert_eq!(
        plan,
        RenderPlan::HelmChart {
            repo_url: "https://charts".to_string(),
            chart: "web".to_string(),
            release_name: "prod".to_string(),
            values: Some("replicas: 3\n".to_string()),
        }
    );
}

#[test]
fn a_chart_takes_its_values_object_as_emitted_text() {
    let state = State::new(config(None));
    let helm = "    helm:\n      valuesObject:\n        replicas: 3\n        image:\n          tag: v2\n";
    let plan = app_of(&helm_app("svc", helm)).render(&state).unwrap();
    assert_eq!(
        plan,
        RenderPlan::HelmChart {
            repo_url: "https://charts".to_string(),
            chart: "web".to_string(),
            release_name: "svc".to_string(),
            values: Some("---\nreplicas: 3\nimage:\n  tag: v2".to_string()),
        }
    );
}

#[test]
fn a_chart_needs_texts_for_repository_and_values() {
    let state = State::new(config(None));
    let bad_values = "    helm:\n      values:\n        replicas: 3\n";
    assert_eq!(app_of(&helm_app("svc", bad_values)).render(&state), Err(Error::MalformedManifest));
    let no_url = "kind: Application\nmetadata:\n  name: a\nspec:\n  project: p\n  destination:\n    namespace: n\n  source:\n    chart: web\n";
    assert_eq!(app_of(no_url).render(&state), Err(Error::MalformedManifest));
}

#[test]
fn a_values_object_with_a_repeated_key_is_malformed() {
    let state = State::new(config(None));
    let mut app = app_of(&helm_app("svc", ""));
    let twice = Document::Hash(vec![
        (Document::String("k".to_string()), Document::Integer(1)),
        (Document::String("k".to_string()), Document::Integer(2)),
    ]);
    app.yaml = Document::Hash(vec![(
        Document::String("spec".to_string()),
        Document::Hash(vec![(
            Document::String("source".to_string()),
            Document::Hash(vec![
                (Document::String("repoURL".to_string()), Document::String("r".to_string())),
                (Document::String("chart".to_string()), Document::String("c".to_string())),
                (
                    Document::String("helm".to_string()),
                    Document::Hash(vec![(Document::String("valuesObject".to_string()), twice)]),
                ),
            ]),
        )]),
    )]);
    assert_eq!(app.render(&state), Err(Error::MalformedManifest));
}

#[test]
fn the_templating_command_gets_its_arguments_in_order() {
    let plan = RenderPlan::HelmChart {
        repo_url: "https://charts".to_string(),
        chart: "web".to_string(),
        release_name: "prod".to_string(),
        values: None,
    };
    assert_eq!(
        plan.helm_arguments("/tmp/x/values.yaml"),
        Some(
            ["template", "--repo", "https://charts", "-f", "/tmp/x/values.yaml", "prod", "web"]
                .iter()
                .map(|s| s.to_string())
                .collect()
        )
    );
    assert_eq!(static_plan("apps").helm_arguments("/tmp/values.yaml"), None);
}

#[test]
fn file_contents_are_joined_without_separators() {
    assert_eq!(join_contents(&vec!["a: 1\n".to_string(), "".to_string(), "b: 2".to_string()]), "a: 1\nb: 2");
    assert_eq!(join_contents(&Vec::new()), "");
    assert_eq!(
        rendered_text(&RenderResult::Files(vec!["x".to_string(), "y".to_string()])),
        Ok("xy".to_string())
    );
}

#[test]
fn command_output_is_decoded_and_trimmed() {
    let output = b" \n\tkind: Namespace\nname: caf\xc3\xa9 \xff end\n \n".to_vec();
    assert_eq!(
        rendered_text(&RenderResult::Stdout(output)),
        Ok("kind: Namespace\nname: caf\u{e9} \u{fffd} end".to_string())
    );
    assert_eq!(rendered_text(&RenderResult::Stdout(b"   \n ".to_vec())), Ok(String::new()));
    assert_eq!(rendered_text(&RenderResult::Stdout(Vec::new())), Ok(String::new()));
}

#[test]
fn failed_rendering_gives_no_text() {
    assert_eq!(rendered_text(&RenderResult::Failed), Err(Error::RenderFailure));
    assert_eq!(render_documents(&RenderResult::Failed), Err(Error::RenderFailure));
}

#[test]
fn rendered_text_is_read_as_documents() {
    let result = RenderResult::Files(vec![namespace("a"), "---\n".to_string(), namespace("b")]);
    let documents = render_documents(&result).unwrap();
    assert_eq!(documents.len(), 2);
    assert!(documents[1] == one(&namespace("b")));
    let unreadable = RenderResult::Stdout(b"a: [unclosed".to_vec());
    assert_eq!(render_documents(&unreadable), Err(Error::RenderFailure));
}

#[test]
fn absorb_keeps_documents_and_failures_apart() {
    let mut merged = Merged { documents: Vec::new(), diagnostics: Vec::new() };
    absorb(&mut merged, "a", Ok(vec![one(&namespace("x")), one(&namespace("y"))]));
    absorb(&mut merged, "b", Err(Error::RenderFailure));
    absorb(&mut merged, "c", Ok(vec![one(&namespace("z"))]));
    absorb(&mut merged, "d", Ok(Vec::new()));
    assert_eq!(merged.documents.len(), 3);
    assert!(merged.documents[2] == one(&namespace("z")));
    assert_eq!(merged.diagnostics, vec![diagnostic("b", Error::RenderFailure)]);
}

#[test]
fn merging_isolates_the_failure_of_one_application() {
    let mut state = State::new(config(None));
    let outcomes = vec![
        files("good", &[&namespace("n1")]),
        RenderOutcome { application: "broken".to_string(), result: RenderResult::Failed },
        RenderOutcome {
            application: "garbled".to_string(),
            result: RenderResult::Stdout(b"{".to_vec()),
        },
        files("also-good", &[&namespace("n2"), "---\n", &namespace("n3")]),
    ];
    let merged = merge_rendered(&mut state, &outcomes);
    assert_eq!(merged.documents.len(), 3);
    assert_eq!(
        merged.diagnostics,
        vec![diagnostic("broken", Error::RenderFailure), diagnostic("garbled", Error::RenderFailure)]
    );
    assert_eq!(state.yaml.len(), 3);
    assert!(state.yaml[0] == one(&namespace("n1")));
    assert!(state.yaml[2] == one(&namespace("n3")));
    assert_eq!(state.namespaces.len(), 0);
}

#[test]
fn merging_adds_to_the_rendered_documents_of_earlier_rounds() {
    let mut state = State::new(config(None));
    merge_rendered(&mut state, &vec![files("a", &[&namespace("n1")])]);
    merge_rendered(&mut state, &vec![files("b", &[&namespace("n2")])]);
    assert_eq!(state.yaml.len(), 2);
    assert!(state.yaml[1] == one(&namespace("n2")));
}

#[test]
fn entrypoints_are_read_in_order() {
    let texts = vec![namespace("a"), format!("{}---\n{}", namespace("b"), namespace("c")), String::new()];
    let documents = load_entrypoints(&texts).unwrap();
    assert_eq!(documents.len(), 3);
    assert!(documents[0] == one(&namespace("a")));
    assert!(documents[2] == one(&namespace("c")));
    assert_eq!(load_entrypoints(&Vec::new()), Ok(Vec::new()));
}

#[test]
fn an_unreadable_entrypoint_is_fatal() {
    let texts = vec![namespace("a"), "a: [".to_string(), namespace("c")];
    assert_eq!(load_entrypoints(&texts), Err(Error::MalformedManifest));
}

#[test]
fn a_round_plans_the_applications_it_added() {
    let mut state = State::new(config(None));
    classify(&mut state, one(&static_app("known", "repo1", "k"))).unwrap();
    let documents = vec![
        one(&static_app("first", "repo1", "one")),
        one(&static_app("known", "repo1", "changed")),
        one(&namespace("ns1")),
        one(&static_app("second", "https://elsewhere", "two")),
        one(&static_app("third", "repo1", "three")),
    ];
    let round = parse_yaml(&mut state, documents).unwrap();
    assert_eq!(
        round,
        Round {
            jobs: vec![job("first", static_plan("one")), job("third", static_plan("three"))],
            diagnostics: vec![diagnostic("second", Error::UnsupportedSource)],
        }
    );
    assert_eq!(state.rounds, 1);
    assert_eq!(
        names(&state),
        vec!["known".to_string(), "first".to_string(), "second".to_string(), "third".to_string()]
    );
    assert!(state.namespaces.contains_key("ns1"));
}

#[test]
fn a_round_that_adds_no_application_asks_for_nothing() {
    let mut state = State::new(config(None));
    classify(&mut state, one(&static_app("known", "repo1", "k"))).unwrap();
    let documents = vec![
        one(&namespace("ns1")),
        one(&project("team")),
        one(&static_app("known", "repo1", "again")),
        one("kind: ConfigMap\n"),
    ];
    let round = parse_yaml(&mut state, documents).unwrap();
    assert_eq!(round, Round { jobs: Vec::new(), diagnostics: Vec::new() });
    assert_eq!(state.rounds, 0);
    assert_eq!(parse_yaml(&mut state, Vec::new()), Ok(Round { jobs: Vec::new(), diagnostics: Vec::new() }));
    assert_eq!(state.rounds, 0);
}

#[test]
fn a_malformed_document_ends_the_round() {
    let mut state = State::new(config(None));
    let documents = vec![one(&static_app("a", "repo1", "x")), one("kind: Application\n")];
    assert_eq!(parse_yaml(&mut state, documents), Err(Error::MalformedManifest));
    assert_eq!(state.rounds, 0);
    assert_eq!(names(&state), vec!["a".to_string()]);
}

#[test]
fn a_malformed_source_ends_the_round() {
    let mut state = State::new(config(None));
    let no_url = "kind: Application\nmetadata:\n  name: a\nspec:\n  project: p\n  destination:\n    namespace: n\n  source:\n    path: x\n";
    let documents = vec![one(&static_app("fine", "repo1", "x")), one(no_url)];
    assert_eq!(parse_yaml(&mut state, documents), Err(Error::MalformedManifest));
    assert_eq!(state.rounds, 1);
}

#[test]
fn rounds_are_counted_up_to_the_maximum() {
    let mut state = State::new(config(Some(2)));
    assert!(parse_yaml(&mut state, vec![one(&static_app("a", "repo1", "x"))]).is_ok());
    assert!(parse_yaml(&mut state, vec![one(&static_app("b", "repo1", "x"))]).is_ok());
    assert_eq!(state.rounds, 2);
    assert_eq!(
        parse_yaml(&mut state, vec![one(&static_app("c", "repo1", "x"))]),
        Err(Error::ResolutionDidNotConverge)
    );
    assert_eq!(state.rounds, 2);
    assert!(state.applications.contains_key("c"));
    assert_eq!(
        parse_yaml(&mut state, vec![one(&namespace("n"))]),
        Ok(Round { jobs: Vec::new(), diagnostics: Vec::new() })
    );
}

#[test]
fn a_maximum_of_zero_allows_no_rendering() {
    let mut state = State::new(config(Some(0)));
    assert_eq!(
        parse_yaml(&mut state, vec![one(&static_app("a", "repo1", "x"))]),
        Err(Error::ResolutionDidNotConverge)
    );
}

#[test]
fn the_run_begins_by_asking_for_the_entrypoints() {
    let mut state = State::new(config(None));
    let step = check(&mut state, Event::Start);
    assert_eq!(
        step,
        Step { action: Action::Load(vec!["entry.yaml".to_string()]), diagnostics: Vec::new() }
    );
    assert_eq!(state.applications.len(), 0);
}

#[test]
fn an_unreadable_entrypoint_aborts_the_run() {
    let mut state = State::new(config(None));
    let step = check(&mut state, Event::Loaded(vec!["a: [".to_string()]));
    assert_eq!(step, Step { action: Action::Abort(Error::MalformedManifest), diagnostics: Vec::new() });
}

#[test]
fn a_static_render_without_manifests_converges_after_one_round() {
    let mut state = State::new(config(None));
    let entry = format!("{}---\n{}---\n{}", static_app("root", "repo1", "apps"), project("team"), namespace("ns1"));
    let first = check(&mut state, Event::Loaded(vec![entry]));
    assert_eq!(
        first,
        Step { action: Action::Render(vec![job("root", static_plan("apps"))]), diagnostics: Vec::new() }
    );
    assert_eq!(state.rounds, 1);
    let rendered = vec![files("root", &["kind: ConfigMap\ndata:\n  a: b\n", "---\nplain: text\n"])];
    let second = check(&mut state, Event::Rendered(rendered));
    assert_eq!(
        second,
        Step {
            action: Action::Finish(CheckReport { succeeded: true, violations: Vec::new() }),
            diagnostics: Vec::new(),
        }
    );
    assert_eq!(state.rounds, 1);
    assert_eq!(state.yaml.len(), 2);
    assert_eq!(names(&state), vec!["root".to_string()]);
}

#[test]
fn rendered_applications_are_discovered_and_rendered_in_turn() {
    let mut state = State::new(config(None));
    let entry = format!("{}---\n{}", static_app("root", "repo1", "apps"), project("team"));
    let first = check(&mut state, Event::Loaded(vec![entry]));
    assert_eq!(
        first.action,
        Action::Render(vec![job("root", static_plan("apps"))])
    );
    let child = static_app("child", "repo1", "child");
    let rendered = vec![files("root", &[&child, "---\n", &namespace("ns1")])];
    let second = check(&mut state, Event::Rendered(rendered));
    assert_eq!(
        second,
        Step { action: Action::Render(vec![job("child", static_plan("child"))]), diagnostics: Vec::new() }
    );
    assert_eq!(names(&state), vec!["root".to_string(), "child".to_string()]);
    assert!(state.namespaces.contains_key("ns1"));
    assert_eq!(state.rounds, 2);
    let third = check(&mut state, Event::Rendered(vec![files("child", &[])]));
    assert_eq!(
        third,
        Step {
            action: Action::Finish(CheckReport { succeeded: true, violations: Vec::new() }),
            diagnostics: Vec::new(),
        }
    );
    assert_eq!(state.rounds, 2);
    assert_eq!(state.applications.len(), 2);
    assert_eq!(state.namespaces.len(), 1);
}

#[test]
fn the_run_ends_with_the_violations_it_found() {
    let mut state = State::new(config(None));
    let entry = format!(
        "{}---\n{}---\n{}---\n{}",
        static_app("svc1", "repo1", "apps"),
        project("team"),
        namespace("ns1"),
        static_app("stray", "https://elsewhere", "apps")
    );
    let first = check(&mut state, Event::Loaded(vec![entry]));
    assert_eq!(first.action, Action::Render(vec![job("svc1", static_plan("apps"))]));
    assert_eq!(first.diagnostics, vec![diagnostic("stray", Error::UnsupportedSource)]);
    let failed = vec![RenderOutcome { application: "svc1".to_string(), result: RenderResult::Failed }];
    let second = check(&mut state, Event::Rendered(failed));
    assert_eq!(second.diagnostics, vec![diagnostic("svc1", Error::RenderFailure)]);
    let report = CheckReport {
        succeeded: false,
        violations: vec![diagnostic("stray", Error::RepoNotAllowed)],
    };
    assert_eq!(second.action, Action::Finish(report.clone()));
    assert_eq!(report.exit_code(), 1);
}

#[test]
fn applications_that_cannot_be_planned_leave_nothing_to_render() {
    let mut state = State::new(config(None));
    let entry = static_app("stray", "https://elsewhere", "apps");
    let step = check(&mut state, Event::Loaded(vec![entry]));
    assert_eq!(step.diagnostics, vec![diagnostic("stray", Error::UnsupportedSource)]);
    assert_eq!(
        step.action,
        Action::Finish(CheckReport {
            succeeded: false,
            violations: vec![diagnostic("stray", Error::UnknownProject)],
        })
    );
}

#[test]
fn a_malformed_rendering_aborts_the_run() {
    let mut state = State::new(config(None));
    check(&mut state, Event::Loaded(vec![static_app("root", "repo1", "apps")]));
    let step = check(&mut state, Event::Rendered(vec![files("root", &["kind: Application\n"])]));
    assert_eq!(step, Step { action: Action::Abort(Error::MalformedManifest), diagnostics: Vec::new() });
}

#[test]
fn ever_new_applications_hit_the_round_limit() {
    let mut state = State::new(config(Some(3)));
    let mut step = check(&mut state, Event::Loaded(vec![static_app("app0", "repo1", "x")]));
    let mut rounds = 0;
    while let Action::Render(jobs) = &step.action {
        rounds += 1;
        assert!(rounds <= 3);
        let next = static_app(&format!("app{rounds}"), "repo1", "x");
        let outcomes = vec![files(&jobs[0].application, &[&next])];
        step = check(&mut state, Event::Rendered(outcomes));
    }
    assert_eq!(rounds, 3);
    assert_eq!(step.action, Action::Abort(Error::ResolutionDidNotConverge));
}

#[test]
fn the_registry_does_not_depend_on_the_order_of_the_outcomes() {
    let entry = format!("{}---\n{}", static_app("a", "repo1", "a"), static_app("b", "repo1", "b"));
    let from_a = files("a", &[&static_app("a-child", "repo1", "x"), "---\n", &namespace("ns-a")]);
    let from_b = files("b", &[&static_app("b-child", "repo1", "y"), "---\n", &project("team")]);

    let mut forth = State::new(config(None));
    check(&mut forth, Event::Loaded(vec![entry.clone()]));
    check(&mut forth, Event::Rendered(vec![from_a.clone(), from_b.clone()]));
    let mut back = State::new(config(None));
    check(&mut back, Event::Loaded(vec![entry]));
    check(&mut back, Event::Rendered(vec![from_b, from_a]));

    assert_eq!(forth.applications.len(), 4);
    assert_eq!(back.applications.len(), 4);
    for (name, application) in forth.applications.entries() {
        assert_eq!(back.applications.get(name), Some(application));
    }
    for (name, namespace) in forth.namespaces.entries() {
        assert_eq!(back.namespaces.get(name), Some(namespace));
    }
    for (name, project) in forth.app_projects.entries() {
        assert_eq!(back.app_projects.get(name), Some(project));
    }
    assert_eq!(names(&forth)[2], "a-child");
    assert_eq!(names(&back)[2], "b-child");
}

#[test]
fn running_twice_over_the_same_inputs_gives_the_same_registry() {
    let entry = format!("{}---\n{}", static_app("root", "repo1", "apps"), namespace("ns1"));
    let rendered = vec![files("root", &[&static_app("child", "https://elsewhere", "c")])];
    let mut first = State::new(config(None));
    let a1 = check(&mut first, Event::Loaded(vec![entry.clone()]));
    let a2 = check(&mut first, Event::Rendered(rendered.clone()));
    let mut second = State::new(config(None));
    let b1 = check(&mut second, Event::Loaded(vec![entry]));
    let b2 = check(&mut second, Event::Rendered(rendered));
    assert_eq!(a1, b1);
    assert_eq!(a2, b2);
    assert_eq!(first.applications.entries(), second.applications.entries());
    assert_eq!(first.namespaces.entries(), second.namespaces.entries());
    assert_eq!(first.yaml, second.yaml);
    assert_eq!(first.rounds, second.rounds);
}

#[test]
fn a_command_that_did_not_run_to_success_has_failed() {
    assert_eq!(command_result(true, true, b"out".to_vec()), RenderResult::Stdout(b"out".to_vec()));
    assert_eq!(command_result(true, true, Vec::new()), RenderResult::Stdout(Vec::new()));
    assert_eq!(command_result(true, false, b"out".to_vec()), RenderResult::Failed);
    assert_eq!(command_result(false, false, Vec::new()), RenderResult::Failed);
    assert_eq!(command_result(false, true, b"out".to_vec()), RenderResult::Failed);
}

#[test]
fn a_path_that_could_not_be_read_has_failed() {
    assert_eq!(
        files_result(Some(vec!["a".to_string(), "b".to_string()])),
        RenderResult::Files(vec!["a".to_string(), "b".to_string()])
    );
    assert_eq!(files_result(Some(Vec::new())), RenderResult::Files(Vec::new()));
    assert_eq!(files_result(None), RenderResult::Failed);
}

#[test]
fn trimming_removes_exactly_the_white_space_characters() {
    let mut white = 0;
    for code in 0..=0x10FFFFu32 {
        let Some(c) = char::from_u32(code) else { continue };
        let padded = format!("{c}a{c}");
        let trimmed = rendered_text(&RenderResult::Stdout(padded.clone().into_bytes())).unwrap();
        if is_white_space(c) {
            white += 1;
            assert_eq!(trimmed, "a", "U+{code:04X}");
        } else {
            assert_eq!(trimmed, padded, "U+{code:04X}");
        }
    }
    assert_eq!(white, 25);
}

#[test]
fn trimming_keeps_white_space_inside_the_text() {
    let output = "\u{3000}\r\n a \t\u{a0} b\u{2028}\u{85}".as_bytes().to_vec();
    assert_eq!(rendered_text(&RenderResult::Stdout(output)), Ok("a \t\u{a0} b".to_string()));
}

#[test]
fn any_order_of_independent_outcomes_gives_the_same_registry() {
    let entry = format!(
        "{}---\n{}---\n{}",
        static_app("a", "repo1", "a"),
        static_app("b", "repo1", "b"),
        static_app("c", "repo1", "c")
    );
    let outcomes = [
        files("a", &[&static_app("a-child", "repo1", "x"), "---\n", &namespace("ns-a")]),
        files("b", &[&project("team"), "---\n", &static_app("b-child", "repo1", "y")]),
        files("c", &[&namespace("ns-c"), "---\n", &project("other")]),
    ];
    let orders = [[0, 1, 2], [0, 2, 1], [1, 0, 2], [1, 2, 0], [2, 0, 1], [2, 1, 0]];
    let mut reference = State::new(config(None));
    check(&mut reference, Event::Loaded(vec![entry.clone()]));
    check(&mut reference, Event::Rendered(outcomes.to_vec()));
    assert_eq!(reference.counts(), (5, 2, 2));
    for order in orders {
        let mut state = State::new(config(None));
        check(&mut state, Event::Loaded(vec![entry.clone()]));
        let permuted: Vec<RenderOutcome> = order.iter().map(|i| outcomes[*i].clone()).collect();
        check(&mut state, Event::Rendered(permuted));
        assert_eq!(state.counts(), reference.counts());
        for (name, application) in reference.applications.entries() {
            assert_eq!(state.applications.get(name), Some(application));
        }
        for (name, project) in reference.app_projects.entries() {
            assert_eq!(state.app_projects.get(name), Some(project));
        }
        for (name, namespace) in reference.namespaces.entries() {
            assert_eq!(state.namespaces.get(name), Some(namespace));
        }
    }
}
