use immich_cli::config::{expand_tilde, Config, LlmConfig, PathMapEntry, People};
use immich_cli::error::Error;

fn config(server_url: &str, api_key: &str, path_map: Vec<(&str, &str)>) -> Config {
    Config {
        server_url: server_url.into(),
        api_key: api_key.into(),
        path_map: path_map
            .into_iter()
            .map(|(server, local)| PathMapEntry {
                server: server.into(),
                local: local.into(),
            })
            .collect(),
        timeout_secs: 60,
        llm: None,
        people: People::new(),
    }
}

fn llm(base_url: &str, api_key: &str, model: &str, vision_model: Option<&str>) -> LlmConfig {
    LlmConfig {
        base_url: base_url.into(),
        api_key: api_key.into(),
        model: model.into(),
        vision_model: vision_model.map(|m| m.into()),
        timeout_secs: 120,
    }
}

fn refusal(llm: LlmConfig) -> Error {
    let mut cfg = config("http://x", "k", vec![]);
    cfg.llm = Some(llm);
    match cfg.normalize(None) {
        Ok(_) => panic!("the configuration was accepted"),
        Err(e) => e,
    }
}

#[test]
fn parses_minimum_config() {
    let cfg = config("http://example.com:2283/", "abc", vec![])
        .normalize(None)
        .ok()
        .unwrap();
    // Trailing slash is stripped so URL joins are predictable.
    assert_eq!(cfg.server_url, "http://example.com:2283");
    assert_eq!(cfg.api_key, "abc");
    assert!(cfg.path_map.is_empty());
    assert_eq!(cfg.timeout_secs, 60);
}

#[test]
fn parses_path_map_and_strips_trailing_slashes() {
    let mut cfg = config(
        "http://x",
        "k",
        vec![("/mnt/a/", "/home/u/A/"), ("/mnt/b", "/home/u/B")],
    );
    cfg.timeout_secs = 5;
    let cfg = cfg.normalize(None).ok().unwrap();
    assert_eq!(cfg.timeout_secs, 5);
    assert_eq!(cfg.path_map.len(), 2);
    assert_eq!(cfg.path_map[0].server, "/mnt/a");
    assert_eq!(cfg.path_map[0].local, "/home/u/A");
    assert_eq!(cfg.path_map[1].server, "/mnt/b");
    assert_eq!(cfg.path_map[1].local, "/home/u/B");
}

#[test]
fn tilde_in_local_path_is_expanded() {
    let home = "/home/u";
    let cfg = config("http://x", "k", vec![("/mnt/a", "~/Pictures")])
        .normalize(Some(home))
        .ok()
        .unwrap();
    assert_eq!(cfg.path_map[0].local, format!("{home}/Pictures"));
}

#[test]
fn rejects_empty_server_url() {
    let err = config("", "k", vec![]).normalize(None).err().unwrap().message();
    assert!(err.contains("server_url"), "got: {err}");
}

#[test]
fn rejects_empty_api_key() {
    let err = config("http://x", "", vec![])
        .normalize(None)
        .err()
        .unwrap()
        .message();
    assert!(err.contains("api_key"), "got: {err}");
}

#[test]
fn a_server_url_of_slashes_is_empty() {
    let err = config("//", "", vec![]).normalize(None).err().unwrap();
    assert!(matches!(err, Error::ServerUrlEmpty));
}

#[test]
fn language_models_need_an_address_a_key_and_a_name() {
    assert!(matches!(
        refusal(llm("/", "", "", None)),
        Error::LlmBaseUrlEmpty
    ));
    assert!(matches!(
        refusal(llm("http://m", "", "", None)),
        Error::LlmApiKeyEmpty
    ));
    assert!(matches!(
        refusal(llm("http://m", "k", "", None)),
        Error::LlmModelEmpty
    ));
    let err = refusal(llm("http://m", "k", "m", Some("")));
    assert!(matches!(err, Error::VisionModelEmpty));
    assert_eq!(
        err.message(),
        "config.llm.vision_model is empty (omit the field if you don't want to set it)"
    );
}

#[test]
fn the_address_of_the_model_loses_its_slashes() {
    let mut cfg = config("http://x", "k", vec![]);
    cfg.llm = Some(llm("http://m//", "k", "m", Some("v")));
    let cfg = cfg.normalize(None).ok().unwrap();
    let llm = cfg.llm.unwrap();
    assert_eq!(llm.base_url, "http://m");
    assert_eq!(llm.vision_model.as_deref(), Some("v"));
    assert_eq!(llm.timeout_secs, 120);
}

#[test]
fn tildes_stand_for_the_home_directory_only_in_front() {
    assert_eq!(expand_tilde("~", Some("/home/u")), "/home/u");
    assert_eq!(expand_tilde("~/a", Some("/home/u/")), "/home/u/a");
    assert_eq!(expand_tilde("~x/a", Some("/home/u")), "~x/a");
    assert_eq!(expand_tilde("/a/~", Some("/home/u")), "/a/~");
    assert_eq!(expand_tilde("~/a", None), "~/a");
}

#[test]
fn people_are_found_by_name() {
    let mut people = People::new();
    assert!(people.is_empty());
    people.insert("甲".into(), vec!["女儿".into()]);
    assert!(!people.is_empty());
    assert_eq!(people.get("甲").unwrap(), &vec!["女儿".to_string()]);
    assert!(people.get("乙").is_none());
}
