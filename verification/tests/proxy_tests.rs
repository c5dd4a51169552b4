use metrics_proxy::cache::{cache_lookup, cache_store, CacheEntry};
use metrics_proxy::config::{ConfigLabelFilter, ConfigLabelFilterAction};
use metrics_proxy::exposition::{parse_document, serialize_snapshot};
use metrics_proxy::filter::FilterState;
use metrics_proxy::metrics::MetricType;
use metrics_proxy::proxy::{
    finish_request, handle_fetched, process_scrape_response, remap_timeout_status, FetchOutcome,
    HttpResponse, ScrapeError,
};
use metrics_proxy::text::decimal_string;

#[test]
fn end_to_end_drop_filter() {
    // Backend snapshot with two series; the filter drops job "a"; the
    // client sees only job "b" under a 200.
    let filters = vec![ConfigLabelFilter {
        source_labels: vec!["job".to_string()],
        separator: ";".to_string(),
        regex: "a".to_string(),
        actions: vec![ConfigLabelFilterAction::Drop],
    }];
    let mut state = FilterState::new();
    let outcome = FetchOutcome::Fetched {
        status: 200,
        headers: Vec::new(),
        body: "up{job=\"a\"} 1\nup{job=\"b\"} 0\n".to_string(),
    };
    let r = handle_fetched(outcome, &filters, &mut state, 0);
    assert_eq!(r.status, 200);
    assert_eq!(r.body, "up{job=\"b\"} 0\n");
    assert_eq!(r.content_type, "text/plain; version=0.0.4");
}

#[test]
fn transport_failure_maps_to_bad_gateway() {
    let filters = Vec::new();
    let mut state = FilterState::new();
    let outcome = FetchOutcome::TransportFailure { detail: "connection refused".to_string() };
    let r = handle_fetched(outcome, &filters, &mut state, 0);
    assert_eq!(r.status, 502);
    assert_eq!(r.body, "fetch failed: connection refused");
}

#[test]
fn backend_error_maps_to_bad_gateway() {
    let filters = Vec::new();
    let mut state = FilterState::new();
    let outcome = FetchOutcome::Fetched {
        status: 500,
        headers: Vec::new(),
        body: "boom".to_string(),
    };
    let r = handle_fetched(outcome, &filters, &mut state, 0);
    assert_eq!(r.status, 502);
    assert_eq!(r.body, "backend returned status 500\nboom");
}

#[test]
fn unparseable_body_maps_to_bad_gateway() {
    let filters = Vec::new();
    let mut state = FilterState::new();
    let outcome = FetchOutcome::Fetched {
        status: 200,
        headers: Vec::new(),
        body: "{not metrics}".to_string(),
    };
    let r = handle_fetched(outcome, &filters, &mut state, 0);
    assert_eq!(r.status, 502);
    assert_eq!(r.body, "unparseable metrics from backend");
}

#[test]
fn scrape_response_processing() {
    let r = process_scrape_response(404, Vec::new(), "missing".to_string());
    match r {
        Err(ScrapeError::Non200(e)) => {
            assert_eq!(e.status, 404);
            assert_eq!(e.data, "missing");
        }
        _ => panic!("expected a backend-level error"),
    }
    let r = process_scrape_response(200, Vec::new(), "up 1\n".to_string()).unwrap();
    assert_eq!(r.series.families.len(), 1);
    assert_eq!(r.series.families[0].samples[0].value, "1");
}

#[test]
fn deadline_expiry_yields_gateway_timeout() {
    // A missed deadline is 504, not 502 and not the transport layer's 408.
    let r = finish_request(None);
    assert_eq!(r.status, 504);
    assert_ne!(r.status, 502);
    let inner = HttpResponse {
        status: 408,
        content_type: "text/plain".to_string(),
        body: String::new(),
    };
    let r = finish_request(Some(inner));
    assert_eq!(r.status, 504);
    let ok = HttpResponse {
        status: 200,
        content_type: "text/plain".to_string(),
        body: "up 1\n".to_string(),
    };
    let r = finish_request(Some(ok));
    assert_eq!(r.status, 200);
    assert_eq!(r.body, "up 1\n");
    assert_eq!(remap_timeout_status(408), 504);
    assert_eq!(remap_timeout_status(502), 502);
}

#[test]
fn parse_document_families_and_comments() {
    let body = "# HELP up Whether the target is up.\n# TYPE up gauge\nup{job=\"a\"} 1\n# just a comment\n\nrequests_total 7 1700000000\n";
    let snap = parse_document(body).unwrap();
    assert_eq!(snap.families.len(), 2);
    let up = &snap.families[0];
    assert_eq!(up.name, "up");
    assert_eq!(up.help, Some("Whether the target is up.".to_string()));
    assert_eq!(up.metric_type, Some(MetricType::Gauge));
    assert_eq!(up.samples.len(), 1);
    assert_eq!(up.samples[0].labels[0].name, "job");
    assert_eq!(up.samples[0].labels[0].value, "a");
    let rt = &snap.families[1];
    assert_eq!(rt.name, "requests_total");
    assert_eq!(rt.metric_type, None);
    assert_eq!(rt.samples[0].value, "7");
    assert_eq!(rt.samples[0].timestamp, Some("1700000000".to_string()));
}

#[test]
fn parse_document_rejects_malformed_lines() {
    assert!(parse_document("up\n").is_none());
    assert!(parse_document("up{job=\"a\" 1\n").is_none());
    assert!(parse_document("1up 1\n").is_none());
    assert!(parse_document("up{job=\"a\"}1\n").is_none());
}

#[test]
fn label_escapes_round_trip() {
    let body = "m{l=\"a\\nb\",q=\"say \\\"hi\\\"\",s=\"back\\\\slash\"} 1\n";
    let snap = parse_document(body).unwrap();
    let s = &snap.families[0].samples[0];
    assert_eq!(s.labels[0].value, "a\nb");
    assert_eq!(s.labels[1].value, "say \"hi\"");
    assert_eq!(s.labels[2].value, "back\\slash");
    assert_eq!(serialize_snapshot(&snap), body);
}

#[test]
fn serializer_emits_declared_lines() {
    let body = "# HELP up Up.\n# TYPE up gauge\nup 1\n";
    let snap = parse_document(body).unwrap();
    assert_eq!(serialize_snapshot(&snap), body);
}

#[test]
fn trailing_comma_in_labels_accepted() {
    let snap = parse_document("m{a=\"1\",} 2\n").unwrap();
    assert_eq!(snap.families[0].samples[0].labels.len(), 1);
    assert_eq!(serialize_snapshot(&snap), "m{a=\"1\"} 2\n");
}

#[test]
fn cache_round_trip() {
    // With a 5-second TTL, a request within the window is served the stored
    // bytes without a fresh dispatch; after the window a fresh dispatch is
    // asked for.
    let resp = HttpResponse {
        status: 200,
        content_type: "text/plain; version=0.0.4".to_string(),
        body: "up 1\n".to_string(),
    };
    let mut slot: Option<CacheEntry> = None;
    cache_store(&mut slot, &resp, 0, 5000);
    let hit = cache_lookup(&slot, 3000, 5000);
    assert_eq!(hit.unwrap().body, "up 1\n");
    assert!(cache_lookup(&slot, 5000, 5000).is_none());
    assert!(cache_lookup(&slot, 9000, 5000).is_none());
}

#[test]
fn cache_disabled_with_zero_ttl() {
    let resp = HttpResponse {
        status: 200,
        content_type: "text/plain".to_string(),
        body: "up 1\n".to_string(),
    };
    let mut slot: Option<CacheEntry> = None;
    cache_store(&mut slot, &resp, 0, 0);
    assert!(slot.is_none());
    assert!(cache_lookup(&slot, 0, 0).is_none());
}

#[test]
fn non_200_never_cached() {
    let resp = HttpResponse {
        status: 502,
        content_type: "text/plain".to_string(),
        body: "fetch failed: x".to_string(),
    };
    let mut slot: Option<CacheEntry> = None;
    cache_store(&mut slot, &resp, 0, 5000);
    assert!(slot.is_none());
}

#[test]
fn decimal_rendering() {
    assert_eq!(decimal_string(0), "0");
    assert_eq!(decimal_string(504), "504");
    assert_eq!(decimal_string(18446744073709551615), "18446744073709551615");
}

#[test]
fn histogram_components_join_their_family() {
    let body = "# TYPE h histogram\nh_bucket{le=\"1\"} 2\nh_bucket{le=\"+Inf\"} 5\nh_sum 7\nh_count 5\n";
    let snap = parse_document(body).unwrap();
    assert_eq!(snap.families.len(), 1);
    assert_eq!(snap.families[0].name, "h");
    assert_eq!(snap.families[0].metric_type, Some(MetricType::Histogram));
    assert_eq!(snap.families[0].samples.len(), 4);
    assert_eq!(serialize_snapshot(&snap), body);
}

#[test]
fn summary_components_join_their_family() {
    let body = "# TYPE s summary\ns{quantile=\"0.5\"} 1\ns_sum 3\ns_count 2\n";
    let snap = parse_document(body).unwrap();
    assert_eq!(snap.families.len(), 1);
    assert_eq!(snap.families[0].samples.len(), 3);
    assert_eq!(serialize_snapshot(&snap), body);
}

#[test]
fn component_suffixes_without_declaration_stand_alone() {
    // With no histogram declared, a `_bucket` sample is its own family, and
    // a counter's `_sum` suffix does not leak into it.
    let body = "# TYPE c counter\nc_sum 3\n";
    let snap = parse_document(body).unwrap();
    assert_eq!(snap.families.len(), 2);
    assert_eq!(snap.families[1].name, "c_sum");
}
