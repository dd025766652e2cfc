use gatewayapi::content::{
    contents_url, discover_sources, snapshot_path, token_dir_path, ContentEntry, ContentKind,
    RepoConfig,
};
use gatewayapi::dates::CivilDate;
use gatewayapi::errors::EngineError;
use gatewayapi::service::{history_cache_key, stats_cache_key};

fn entry(name: &str, kind: ContentKind) -> ContentEntry {
    ContentEntry {
        name: name.to_string(),
        path: format!("data/slow/{}", name),
        kind,
        content: None,
        encoding: None,
        url: String::new(),
        html_url: None,
        download_url: None,
    }
}

#[test]
fn snapshot_path_convention() {
    // The entity is lowercased; year and month are zero-padded.
    let d = CivilDate { year: 2025, month: 12, day: 28 };
    let p = snapshot_path("TBDAI", "ascendex", d);
    assert_eq!(p, "data/tbdai/ascendex/2025/12/2025-12-28-raw.json");
}

#[test]
fn snapshot_path_pads_single_digits() {
    let d = CivilDate { year: 2024, month: 3, day: 7 };
    let p = snapshot_path("kaspa", "mexc", d);
    assert_eq!(p, "data/kaspa/mexc/2024/03/2024-03-07-raw.json");
}

#[test]
fn token_directory_is_lowercased() {
    assert_eq!(token_dir_path("Kaspa"), "data/kaspa");
    assert_eq!(token_dir_path("slow"), "data/slow");
}

#[test]
fn contents_url_trims_leading_slashes() {
    let config = RepoConfig {
        source: "github".to_string(),
        owner: "KaspaDev".to_string(),
        repo: "Kaspa-Exchange-Data".to_string(),
    };
    assert_eq!(
        contents_url(&config, "/README.md"),
        "https://api.github.com/repos/KaspaDev/Kaspa-Exchange-Data/contents/README.md"
    );
    assert_eq!(
        contents_url(&config, "data/slow"),
        "https://api.github.com/repos/KaspaDev/Kaspa-Exchange-Data/contents/data/slow"
    );
}

#[test]
fn discover_sources_keeps_directories_in_order() {
    let entries = vec![
        entry("ascendex", ContentKind::Dir),
        entry("README.md", ContentKind::File),
        entry("mexc", ContentKind::Dir),
        entry("notes.txt", ContentKind::Other),
        entry("gate", ContentKind::Dir),
    ];
    let sources = discover_sources(&entries).unwrap();
    assert_eq!(sources, vec!["ascendex", "mexc", "gate"]);
}

#[test]
fn discover_sources_of_no_directories_is_the_unknown_entity_error() {
    // A listing without a single directory entry fails with the
    // no-sources-found condition, for stats and history alike.
    let entries = vec![entry("README.md", ContentKind::File)];
    assert_eq!(discover_sources(&entries), Err(EngineError::NoSourcesFound));
    let empty: Vec<ContentEntry> = vec![];
    assert_eq!(discover_sources(&empty), Err(EngineError::NoSourcesFound));
}

#[test]
fn cache_keys_are_deterministic() {
    assert_eq!(stats_cache_key("kaspa", "7d"), "v1:ticker:kaspa:stats:7d");
    assert_eq!(stats_cache_key("kaspa", "7d"), stats_cache_key("kaspa", "7d"));
    assert_eq!(
        history_cache_key("slow", "30d", "1h"),
        "v1:ticker:slow:history:30d:1h"
    );
}

#[test]
fn error_labels() {
    assert_eq!(EngineError::Network.label(), "network error");
    assert_eq!(EngineError::RateLimitExhausted.label(), "rate limit exhausted");
    assert_eq!(EngineError::Upstream(404).label(), "upstream error");
    assert_eq!(EngineError::NoSourcesFound.label(), "no sources found");
}
