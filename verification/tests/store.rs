use ominiforge::session::SessionId;
use ominiforge::store::{build, log_lines, OpenAiProviderSpec, ProviderType, ResolvedModel, SessionStore, EVENTS_FILE, META_FILE};

#[test]
fn session_files_live_under_the_session_dir() {
    let store = SessionStore::new("/g/.omini/sessions".to_owned());
    let id = SessionId("01J5M3HKEA7V2X3P1YKRN9C4WG".to_owned());
    assert_eq!(store.session_dir(&id), "/g/.omini/sessions/01J5M3HKEA7V2X3P1YKRN9C4WG");
    assert_eq!(store.meta_path(&id), "/g/.omini/sessions/01J5M3HKEA7V2X3P1YKRN9C4WG/session.toml");
    assert_eq!(store.events_path(&id), "/g/.omini/sessions/01J5M3HKEA7V2X3P1YKRN9C4WG/events.jsonl");
    assert_eq!(META_FILE, "session.toml");
    assert_eq!(EVENTS_FILE, "events.jsonl");
}

#[test]
fn log_lines_skip_blanks_and_line_endings() {
    assert_eq!(log_lines("{\"seq\":0}\n\n  \n{\"seq\":1}\r\n{\"seq\":2}"), vec![
        "{\"seq\":0}".to_owned(),
        "{\"seq\":1}".to_owned(),
        "{\"seq\":2}".to_owned(),
    ]);
    assert!(log_lines("").is_empty());
    assert!(log_lines("\n \t\n").is_empty());
}

#[test]
fn only_openai_chat_providers_are_built() {
    let resolved = ResolvedModel {
        provider_type: ProviderType::OpenaiChat,
        provider_name: "openai".to_owned(),
        base_url: "https://api.openai.com/v1".to_owned(),
        api_key: Some("k".to_owned()),
        model: "gpt-4o".to_owned(),
    };
    assert_eq!(
        build(&resolved),
        Some(OpenAiProviderSpec {
            name: "openai".to_owned(),
            base_url: "https://api.openai.com/v1".to_owned(),
            api_key: Some("k".to_owned()),
        })
    );
    let other = ResolvedModel { provider_type: ProviderType::Other("anthropic".to_owned()), ..resolved };
    assert_eq!(build(&other), None);
}
