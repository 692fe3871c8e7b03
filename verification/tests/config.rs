use lspgraph::config::{default_concurrency, default_ready_timeout, split_whitespace, Config, ServerConfig};

fn server(cmd: &str, exts: &[&str]) -> ServerConfig {
    ServerConfig {
        cmd: cmd.into(),
        extensions: exts.iter().map(|e| e.to_string()).collect(),
        ready_timeout_secs: default_ready_timeout(),
        concurrency: default_concurrency(),
    }
}

fn sample() -> Config {
    let mut c = Config::new();
    c.servers.insert("typescript".into(), server("vtsls --stdio", &["ts", "tsx"]));
    c.servers.insert("rust".into(), server("rust-analyzer", &["rs"]));
    c
}

#[test]
fn applies_documented_defaults() {
    assert_eq!(default_ready_timeout(), 300);
    assert_eq!(default_concurrency(), 1);
}

#[test]
fn splits_command_into_program_and_args() {
    let c = sample();
    let (prog, args) = c.servers.get("typescript").unwrap().command();
    assert_eq!(prog, "vtsls");
    assert_eq!(args, vec!["--stdio".to_string()]);
}

#[test]
fn an_empty_command_has_no_program() {
    let (prog, args) = server("  \t ", &[]).command();
    assert_eq!(prog, "");
    assert!(args.is_empty());
    assert_eq!(split_whitespace(" a  b\tc\n"), vec!["a".to_string(), "b".to_string(), "c".to_string()]);
}

#[test]
fn resolves_extension_to_language() {
    let c = sample();
    assert_eq!(c.for_extension("tsx").unwrap().0, "typescript");
    assert_eq!(c.for_extension("rs").unwrap().0, "rust");
    assert!(c.for_extension("go").is_none());
}

#[test]
fn servers_are_kept_in_name_order_and_replaced_by_name() {
    let mut c = sample();
    c.servers.insert("c".into(), server("clangd", &["c", "h"]));
    c.servers.insert("rust".into(), server("ra-multiplex", &["rs"]));
    let names: Vec<&str> = c.servers.entries().iter().map(|(k, _)| k.as_str()).collect();
    assert_eq!(names, vec!["c", "rust", "typescript"]);
    assert_eq!(c.servers.get("rust").unwrap().cmd, "ra-multiplex");
    assert_eq!(c.servers.len(), 3);
}

#[test]
fn the_first_language_in_order_wins_a_shared_extension() {
    let mut c = Config::new();
    c.servers.insert("zig".into(), server("zls", &["h"]));
    c.servers.insert("c".into(), server("clangd", &["h"]));
    assert_eq!(c.for_extension("h").unwrap().0, "c");
}
