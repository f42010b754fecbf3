use devendra::common::{Composition, Configuration, Persona, RebootStrategy, RegistrationToken, ApplicationStatus};
use devendra::name_map::NameMap;
use devendra::server::{agent_persona, branch_reference, repository_dir_name, status_label, HttpStatus, ServerConfig, ServerState};

fn s(x: &str) -> String {
    x.to_string()
}

fn config(desc: &str) -> Configuration {
    Configuration {
        desc: s(desc),
        variable_map: None,
        file_map: None,
        template_map: None,
        commands: None,
        services: None,
        dependency_map: None,
        reboot: RebootStrategy::No,
    }
}

fn state() -> ServerState {
    let mut st = ServerState::new();
    st.record_configurations(&s("rev1"), vec![(s("base"), config("base")), (s("web"), config("web"))]);
    st.record_configurations(&s("rev2"), vec![(s("db"), config("db"))]);
    st.record_compositions(vec![
        (s("common"), Composition { desc: s("c"), configurations: vec![s("base"), s("missing")] }),
        (s("frontend"), Composition { desc: s("f"), configurations: vec![s("web"), s("base")] }),
    ]);
    st.record_personas(vec![(
        s("webserver"),
        Persona { name: s("webserver"), id: 1, compositions: vec![s("common"), s("nope"), s("frontend")] },
    )]);
    st
}

fn names_and_revisions(st: &ServerState, persona: &str, current: &NameMap<String>) -> Vec<(String, String)> {
    st.check_configurations(&s(persona), current)
        .updates_available
        .iter()
        .map(|u| (u.configuration_name.clone(), u.new_revision.clone()))
        .collect()
}

#[test]
fn new_agent_receives_all_its_configurations() {
    let st = state();
    let current = NameMap::new();
    assert_eq!(
        names_and_revisions(&st, "webserver", &current),
        vec![(s("base"), s("rev1")), (s("web"), s("rev1")), (s("base"), s("rev1"))]
    );
    let resp = st.check_configurations(&s("webserver"), &current);
    assert_eq!(resp.updates_available[1].configuration.desc, "web");
}

#[test]
fn unknown_persona_receives_nothing() {
    let st = state();
    assert!(names_and_revisions(&st, "ghost", &NameMap::new()).is_empty());
}

#[test]
fn only_changed_revisions_are_sent() {
    let st = state();
    let mut current = NameMap::new();
    current.insert(s("base"), s("rev1"));
    current.insert(s("web"), s("old"));
    assert_eq!(names_and_revisions(&st, "webserver", &current), vec![(s("web"), s("rev1"))]);
}

#[test]
fn after_applying_updates_nothing_is_pending() {
    let st = state();
    let mut current = NameMap::new();
    current.insert(s("web"), s("old"));
    for (name, rev) in names_and_revisions(&st, "webserver", &current) {
        current.insert(name, rev);
    }
    assert!(names_and_revisions(&st, "webserver", &current).is_empty());
}

#[test]
fn sync_marks_revisions() {
    let st = state();
    assert_eq!(st.config_revisions.get(&s("base")), Some(&s("rev1")));
    assert_eq!(st.config_revisions.get(&s("db")), Some(&s("rev2")));
    assert!(st.configurations.contains_key(&s("db")));
}

fn with_token(token: &str, expires_at: i64, single_use: bool) -> ServerState {
    let mut st = ServerState::new();
    st.registration_tokens.insert(s(token), RegistrationToken { token: s(token), expires_at, single_use });
    st
}

#[test]
fn unknown_token_is_refused() {
    let st = with_token("t", 100, false);
    assert_eq!(st.authorize_registration(&s("other"), 50), Err(HttpStatus::Unauthorized));
}

#[test]
fn expired_token_is_refused() {
    let st = with_token("t", 100, false);
    assert_eq!(st.authorize_registration(&s("t"), 101), Err(HttpStatus::Unauthorized));
    assert_eq!(st.authorize_registration(&s("t"), 100), Ok(false));
}

#[test]
fn single_use_token_is_consumed() {
    let mut st = with_token("t", 100, true);
    let single = st.authorize_registration(&s("t"), 10).unwrap();
    assert!(single);
    let resp = st.complete_registration(&s("t"), single, true, 42, s("auth")).ok().unwrap();
    assert_eq!((resp.agent_id, resp.auth_token.as_str()), (42, "auth"));
    assert_eq!(st.authorize_registration(&s("t"), 10), Err(HttpStatus::Unauthorized));
}

#[test]
fn reusable_token_stays() {
    let mut st = with_token("t", 100, false);
    let single = st.authorize_registration(&s("t"), 10).unwrap();
    assert!(st.complete_registration(&s("t"), single, true, 1, s("a")).is_ok());
    assert_eq!(st.authorize_registration(&s("t"), 10), Ok(false));
}

#[test]
fn failed_store_keeps_token_and_reports_internal_error() {
    let mut st = with_token("t", 100, true);
    let r = st.complete_registration(&s("t"), true, false, 1, s("a"));
    assert!(matches!(r, Err(HttpStatus::InternalServerError)));
    assert_eq!(st.authorize_registration(&s("t"), 10), Ok(true));
}

#[test]
fn status_codes_and_labels() {
    assert_eq!(HttpStatus::Success.code(), 200);
    assert_eq!(HttpStatus::Unauthorized.code(), 401);
    assert_eq!(HttpStatus::InternalServerError.code(), 500);
    assert_eq!(status_label(ApplicationStatus::Success), "success");
    assert_eq!(status_label(ApplicationStatus::Failed), "failed");
    assert_eq!(status_label(ApplicationStatus::Retrying { attempt: 1, max_attempts: 3 }), "retrying");
}

#[test]
fn server_defaults_and_names() {
    let c = ServerConfig::with_id(9);
    assert_eq!((c.id, c.bind_address.as_str(), c.git_repos.len(), c.sync_interval_secs), (9, "0.0.0.0:8080", 0, 300));
    assert_eq!(repository_dir_name(0), "repo_0");
    assert_eq!(repository_dir_name(12), "repo_12");
    assert_eq!(branch_reference("main"), "refs/heads/main");
}

#[test]
fn agent_lookup_outcomes() {
    assert_eq!(agent_persona(false, Some(s("web"))), Err(HttpStatus::InternalServerError));
    assert_eq!(agent_persona(true, None), Err(HttpStatus::Unauthorized));
    assert_eq!(agent_persona(true, Some(s("web"))), Ok(s("web")));
}
