use lspgraph::clock::{Duration, Instant};
use lspgraph::config::ServerConfig;
use lspgraph::error::Error;
use lspgraph::readiness::{even_stride, remaining_budget, Gathering, PollStep, ReadinessConfig};
use lspgraph::symbols::{DocumentSymbol, Position, SymbolKind};

#[test]
fn stride_returns_everything_when_under_the_cap() {
    let v = vec![1, 2, 3];
    assert_eq!(even_stride(&v, 10), vec![&1, &2, &3]);
}

#[test]
fn stride_spreads_across_the_whole_slice() {
    let v: Vec<i32> = (0..100).collect();
    let picked = even_stride(&v, 5);
    assert_eq!(picked.len(), 5);
    assert!(**picked.last().unwrap() >= 80, "clustered: {picked:?}");
    assert_eq!(**picked.first().unwrap(), 0);
}

#[test]
fn stride_handles_empty_and_zero_max() {
    let empty: Vec<i32> = Vec::new();
    assert!(even_stride(&empty, 5).is_empty());
    let v = vec![1, 2, 3];
    assert!(even_stride(&v, 0).is_empty());
}

#[test]
fn stride_picks_every_nth_item() {
    let v: Vec<i32> = (0..10).collect();
    assert_eq!(even_stride(&v, 3), vec![&0, &3, &6]);
    assert_eq!(even_stride(&v, 4), vec![&0, &2, &4, &6]);
}

#[test]
fn defaults_match_the_spec() {
    let c = ReadinessConfig::default();
    assert_eq!(c.max_files, 40);
    assert_eq!(c.per_file, 3);
    assert_eq!(c.timeout, Duration::from_secs(300));
}

#[test]
fn the_server_config_sets_the_timeout() {
    let s = ServerConfig { cmd: "x".into(), extensions: vec![], ready_timeout_secs: 12, concurrency: 1 };
    let c = ReadinessConfig::from_server_config(&s);
    assert_eq!(c.timeout, Duration::from_secs(12));
    assert_eq!(c.max_files, 40);
}

fn at_secs(s: u64) -> Instant {
    Instant::from_nanos(s as u128 * 1_000_000_000)
}

#[test]
fn remaining_budget_reports_time_left_when_deadline_is_ahead() {
    let now = at_secs(100);
    let deadline = now + Duration::from_secs(10);
    let left = remaining_budget(deadline, now).expect("deadline is ahead");
    assert!(left <= Duration::from_secs(10) && left > Duration::from_secs(9));
}

#[test]
fn remaining_budget_is_none_at_or_past_the_deadline() {
    let now = at_secs(100);
    assert!(remaining_budget(now, now).is_none());
    let past_deadline = now - Duration::from_secs(1);
    assert!(remaining_budget(past_deadline, now).is_none());
}

#[test]
fn zero_candidates_reports_no_candidates_not_a_zero_timeout() {
    let err = Error::NoCandidates { files_attempted: 5, files_failed: 3 };
    let msg = err.to_string();
    assert!(msg.contains('5') && msg.contains('3'), "message should mention both counts: {msg}");
    assert!(
        msg.contains("files examined") && msg.contains("failed to respond"),
        "message should describe the gathering outcome: {msg}"
    );
    assert!(!matches!(err, Error::NotReady { .. }));
}

fn sym(name: &str, line: u32) -> DocumentSymbol {
    DocumentSymbol {
        name: name.into(),
        kind: SymbolKind::FUNCTION,
        selection_start: Position { line, character: 0 },
        children: None,
    }
}

#[test]
fn gathering_counts_files_and_keeps_a_few_candidates_per_file() {
    let cfg = ReadinessConfig { max_files: 40, per_file: 2, timeout: Duration::from_secs(60) };
    let start = at_secs(1);
    let mut g = Gathering::start(&cfg, 2, start);
    assert!(g.in_time(at_secs(30)));
    g.record_file(None, "file:///broken.rs");
    let syms = vec![sym("a", 1), sym("b", 2), sym("c", 3)];
    g.record_file(Some(syms.as_slice()), "file:///ok.rs");
    let p = match g.finish() {
        Ok(p) => p,
        Err(e) => panic!("candidates were found: {}", e.to_string()),
    };
    let names: Vec<&str> = p.candidates().iter().map(|c| c.name.as_str()).collect();
    assert_eq!(names, vec!["a", "b"]);
    assert!(p.in_time(at_secs(60)));
    assert!(!p.in_time(at_secs(61)));
    match p.give_up() {
        Error::NotReady { timeout, tried } => {
            assert_eq!(timeout, Duration::from_secs(60));
            assert_eq!(tried, 2);
        }
        other => panic!("expected NotReady, got {}", other.to_string()),
    }
}

#[test]
fn gathering_nothing_is_no_candidates() {
    let cfg = ReadinessConfig::default();
    let mut g = Gathering::start(&cfg, 2, at_secs(0));
    g.record_file(None, "file:///x.rs");
    let none: Vec<DocumentSymbol> = Vec::new();
    g.record_file(Some(none.as_slice()), "file:///y.rs");
    match g.finish() {
        Err(Error::NoCandidates { files_attempted, files_failed }) => {
            assert_eq!(files_attempted, 2);
            assert_eq!(files_failed, 1);
        }
        _ => panic!("expected NoCandidates"),
    }
}

#[test]
fn a_real_answer_is_ready_and_an_empty_one_asks_on_until_the_deadline() {
    let cfg = ReadinessConfig { max_files: 40, per_file: 2, timeout: Duration::from_secs(60) };
    let mut g = Gathering::start(&cfg, 1, at_secs(1));
    g.record_file(Some(vec![sym("a", 1)].as_slice()), "file:///ok.rs");
    let p = match g.finish() {
        Ok(p) => p,
        Err(e) => panic!("candidates were found: {}", e.to_string()),
    };
    assert_eq!(p.after_answer(Some(1), at_secs(30)), PollStep::Ready);
    assert_eq!(p.after_answer(Some(3), at_secs(90)), PollStep::Ready);
    assert_eq!(p.after_answer(Some(0), at_secs(30)), PollStep::AskOn);
    assert_eq!(p.after_answer(None, at_secs(30)), PollStep::AskOn);
    assert_eq!(p.after_answer(Some(0), at_secs(61)), PollStep::GiveUp);
    assert_eq!(p.after_answer(None, at_secs(61)), PollStep::GiveUp);
}

#[test]
fn gathering_visits_the_stride_sample_in_order_and_no_more() {
    let cfg = ReadinessConfig { max_files: 3, per_file: 1, timeout: Duration::from_secs(60) };
    let mut g = Gathering::start(&cfg, 10, at_secs(1));
    let mut visited = Vec::new();
    while let Some(i) = g.next_file() {
        visited.push(i);
        let syms = vec![sym("a", 1), sym("b", 2)];
        g.record_file(Some(syms.as_slice()), "file:///f.rs");
    }
    assert_eq!(visited, vec![0, 3, 6]);
    let files: Vec<usize> = (0..10).collect();
    let sample: Vec<usize> = even_stride(&files, 3).into_iter().copied().collect();
    assert_eq!(visited, sample);
    let p = match g.finish() {
        Ok(p) => p,
        Err(e) => panic!("candidates were found: {}", e.to_string()),
    };
    assert_eq!(p.candidates().len(), 3);
}
