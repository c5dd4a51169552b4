use metrics_proxy::config::{ConfigLabelFilter, ConfigLabelFilterAction};
use metrics_proxy::exposition::{parse_document, serialize_snapshot};
use metrics_proxy::filter::{apply_filters, match_key, rule_matches, FilterState};

fn filter(labels: &[&str], sep: &str, regex: &str, actions: Vec<ConfigLabelFilterAction>) -> ConfigLabelFilter {
    ConfigLabelFilter {
        source_labels: labels.iter().map(|l| l.to_string()).collect(),
        separator: sep.to_string(),
        regex: regex.to_string(),
        actions,
    }
}

fn run(body: &str, filters: &Vec<ConfigLabelFilter>, state: &mut FilterState, now: u64) -> String {
    let snap = parse_document(body).unwrap();
    let out = apply_filters(snap, filters, state, now);
    serialize_snapshot(&out)
}

#[test]
fn anchoring_exact_match() {
    // A key equal to the pattern matches; a strict substring of the pattern
    // does not; the pattern never matches inside a longer key.
    assert!(rule_matches("a", "a"));
    assert!(rule_matches("up;a", "up;a"));
    assert!(!rule_matches("abc", "ab"));
    assert!(!rule_matches("abc", "bc"));
    assert!(!rule_matches("b", "abc"));
}

#[test]
fn regex_patterns_match_whole_key() {
    assert!(rule_matches("a+", "aaa"));
    assert!(!rule_matches("a+", "aab"));
    assert!(rule_matches("up|down", "down"));
    // The anchors wrap the raw pattern text, so an unparenthesized
    // alternation binds them to its branches.
    assert!(rule_matches("up|down", "updown"));
    assert!(!rule_matches("(up|down)", "updown"));
    assert!(rule_matches("(up|down)", "down"));
}

#[test]
fn match_key_joins_source_labels() {
    let snap = parse_document("up{job=\"a\",instance=\"x\"} 1\n").unwrap();
    let s = &snap.families[0].samples[0];
    let labels = vec!["job".to_string(), "instance".to_string()];
    assert_eq!(match_key(s, &labels, &";".to_string()), "a;x");
    let names = vec!["__name__".to_string(), "job".to_string()];
    assert_eq!(match_key(s, &names, &"/".to_string()), "up/a");
    let missing = vec!["job".to_string(), "nope".to_string()];
    assert_eq!(match_key(s, &missing, &";".to_string()), "a;");
}

#[test]
fn drop_action_removes_matching_series() {
    let filters = vec![filter(&["job"], ";", "a", vec![ConfigLabelFilterAction::Drop])];
    let mut state = FilterState::new();
    let out = run("up{job=\"a\"} 1\nup{job=\"b\"} 0\n", &filters, &mut state, 0);
    assert_eq!(out, "up{job=\"b\"} 0\n");
}

#[test]
fn keep_action_passes_series_unchanged() {
    let filters = vec![filter(&["job"], ";", "a|b", vec![ConfigLabelFilterAction::Keep])];
    let mut state = FilterState::new();
    let body = "up{job=\"a\"} 1\nup{job=\"b\"} 0\n";
    let out = run(body, &filters, &mut state, 0);
    assert_eq!(out, body);
}

#[test]
fn unmatched_series_kept_by_default() {
    // A single drop rule leaves every non-matching series untouched.
    let filters = vec![filter(&["job"], ";", "a", vec![ConfigLabelFilterAction::Drop])];
    let mut state = FilterState::new();
    let out = run("up{job=\"b\"} 0\nup{job=\"c\"} 2\n", &filters, &mut state, 0);
    assert_eq!(out, "up{job=\"b\"} 0\nup{job=\"c\"} 2\n");
}

#[test]
fn empty_families_dropped_from_output() {
    let filters = vec![filter(&["__name__"], ";", "up", vec![ConfigLabelFilterAction::Drop])];
    let mut state = FilterState::new();
    let out = run("# TYPE up gauge\nup 1\n# TYPE ok gauge\nok 2\n", &filters, &mut state, 0);
    assert_eq!(out, "# TYPE ok gauge\nok 2\n");
}

#[test]
fn reduce_time_resolution_limits_update_rate() {
    let filters = vec![filter(
        &["__name__"],
        ";",
        "up",
        vec![ConfigLabelFilterAction::ReduceTimeResolution { resolution_millis: 5000 }],
    )];
    let mut state = FilterState::new();
    // First pass records and forwards the live value.
    let out = run("up 1\n", &filters, &mut state, 0);
    assert_eq!(out, "up 1\n");
    // Within the resolution window the recorded value is repeated even
    // though the backend moved on.
    let out = run("up 2\n", &filters, &mut state, 3000);
    assert_eq!(out, "up 1\n");
    // At the window's edge the live value is forwarded and re-recorded.
    let out = run("up 3\n", &filters, &mut state, 5000);
    assert_eq!(out, "up 3\n");
    let out = run("up 4\n", &filters, &mut state, 7000);
    assert_eq!(out, "up 3\n");
}

#[test]
fn reduce_time_resolution_is_per_series() {
    let filters = vec![filter(
        &["__name__"],
        ";",
        "up",
        vec![ConfigLabelFilterAction::ReduceTimeResolution { resolution_millis: 5000 }],
    )];
    let mut state = FilterState::new();
    let out = run("up{job=\"a\"} 1\nup{job=\"b\"} 5\n", &filters, &mut state, 0);
    assert_eq!(out, "up{job=\"a\"} 1\nup{job=\"b\"} 5\n");
    // Each fingerprint holds its own recorded value.
    let out = run("up{job=\"a\"} 2\nup{job=\"b\"} 6\n", &filters, &mut state, 1000);
    assert_eq!(out, "up{job=\"a\"} 1\nup{job=\"b\"} 5\n");
}

#[test]
fn rules_apply_in_declaration_order() {
    // The first matching terminating action decides: keep before drop.
    let filters = vec![
        filter(&["job"], ";", "a", vec![ConfigLabelFilterAction::Keep]),
        filter(&["job"], ";", "a|b", vec![ConfigLabelFilterAction::Drop]),
    ];
    let mut state = FilterState::new();
    let out = run("up{job=\"a\"} 1\nup{job=\"b\"} 2\nup{job=\"c\"} 3\n", &filters, &mut state, 0);
    assert_eq!(out, "up{job=\"a\"} 1\nup{job=\"c\"} 3\n");
}
