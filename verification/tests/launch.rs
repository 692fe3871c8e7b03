use lspgraph::config::{Config, ServerConfig};
use lspgraph::tui::launch::{
    config_path_in, has_listed_extension, is_skipped_dir, resolve_servers_toml, unknown_language, Candidate,
};

fn missing(p: &str) -> Candidate {
    Candidate { path: p.into(), is_file: false }
}

fn present(p: &str) -> Candidate {
    Candidate { path: p.into(), is_file: true }
}

#[test]
fn an_override_that_does_not_exist_is_named_rather_than_silently_ignored() {
    let e = resolve_servers_toml(Some(missing("/definitely/not/here/servers.toml")), missing("servers.toml"), None)
        .unwrap_err();
    assert!(e.contains("/definitely/not/here/servers.toml"), "{e}");
}

#[test]
fn the_failure_lists_every_path_it_looked_in() {
    let e = resolve_servers_toml(
        None,
        missing("/no/such/cwd/servers.toml"),
        Some(missing("/no/such/home/.config/lspgraph/servers.toml")),
    )
    .unwrap_err();
    assert!(e.contains("/no/such/cwd/servers.toml"), "{e}");
    assert!(
        e.contains("/no/such/home/.config/lspgraph/servers.toml"),
        "the user-level path must be named, or the user cannot know where to put the file:\n{e}"
    );
}

#[test]
fn the_user_level_file_is_used_when_the_working_directory_has_none() {
    let got = resolve_servers_toml(None, missing("/no/such/cwd/servers.toml"), Some(present("/u/servers.toml")))
        .unwrap();
    assert_eq!(got, "/u/servers.toml");
}

#[test]
fn an_existing_override_wins_over_everything() {
    let got = resolve_servers_toml(Some(present("/o.toml")), present("/cwd.toml"), Some(present("/u.toml"))).unwrap();
    assert_eq!(got, "/o.toml");
    let got = resolve_servers_toml(None, present("/cwd.toml"), Some(present("/u.toml"))).unwrap();
    assert_eq!(got, "/cwd.toml");
}

#[test]
fn the_not_found_message_shows_a_minimal_file() {
    let e = resolve_servers_toml(None, missing("a"), None).unwrap_err();
    assert!(e.starts_with("no servers.toml found. Looked in:\n  a\n\n"), "{e}");
    assert!(e.ends_with("extensions = [\"py\"]"), "{e}");
}

#[test]
fn the_user_config_path_is_under_the_platform_config_directory() {
    let p = config_path_in("/xdg");
    assert_eq!(p, "/xdg/lspgraph/servers.toml");
    assert_eq!(config_path_in("/xdg/"), "/xdg/lspgraph/servers.toml");
}

#[test]
fn build_and_vendor_directories_are_skipped() {
    for d in [".git", "node_modules", "target", "vendor"] {
        assert!(is_skipped_dir(d), "{d}");
    }
    assert!(!is_skipped_dir("src"));
    let exts = vec!["rs".to_string(), "toml".to_string()];
    assert!(has_listed_extension(Some("rs"), &exts));
    assert!(!has_listed_extension(Some("md"), &exts));
    assert!(!has_listed_extension(None, &exts));
}

#[test]
fn an_unknown_language_names_the_defined_ones_in_order() {
    let server = |cmd: &str| ServerConfig { cmd: cmd.into(), extensions: vec![], ready_timeout_secs: 300, concurrency: 1 };
    let mut cfg = Config::new();
    cfg.servers.insert("typescript".into(), server("vtsls"));
    cfg.servers.insert("rust".into(), server("rust-analyzer"));
    cfg.servers.insert("go".into(), server("gopls"));
    assert_eq!(
        unknown_language(&format!("{:?}", "cobol"), "/etc/servers.toml", &cfg),
        "no language named \"cobol\" in /etc/servers.toml. It defines: go, rust, typescript"
    );
}
