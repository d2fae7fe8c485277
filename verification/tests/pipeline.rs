use fireplan_relay::dedup::DedupSet;
use fireplan_relay::dispatch::{step, Event, Outcome};
use fireplan_relay::fireplan::{build_alarm, build_alarms, success_log_line};
use fireplan_relay::token_cache::TokenCache;
use fireplan_relay::types::{Configuration, ParsedData, Ric, SubmitPayload};
use fireplan_relay::web::{classify_inbound, example_payload, fmt_bytes_gib_mib, InboundResponse};

fn target(text: &str, ric: &str) -> Ric {
    Ric { text: text.to_string(), ric: ric.to_string(), subric: "B".to_string() }
}

fn record(incident: &str, rics: Vec<Ric>) -> ParsedData {
    ParsedData {
        rics,
        einsatznrlst: incident.to_string(),
        strasse: "Hauptstraße".to_string(),
        hausnummer: "247".to_string(),
        ort: "Musterstadt".to_string(),
        ortsteil: "Altstadt".to_string(),
        objektname: "Halle".to_string(),
        koordinaten: "48.1,11.5".to_string(),
        einsatzstichwort: "FEUER2".to_string(),
        zusatzinfo: "Feuer im Keller".to_string(),
    }
}

fn config(trigger: Option<&str>) -> Configuration {
    Configuration {
        fireplan_api_key: "SECRET-REDACTED".to_string(),
        regex_einsatzstichwort: String::new(),
        regex_strasse: String::new(),
        regex_ort: "Ort: (.+)".to_string(),
        regex_hausnummer: String::new(),
        regex_ortsteil: "Ortsteil: (.+)".to_string(),
        regex_einsatznrleitstelle: String::new(),
        regex_koordinaten: String::new(),
        regex_zusatzinfo: String::new(),
        regex_objektname: "Objekt: (.+)".to_string(),
        simple_trigger: trigger.map(|s| s.to_string()),
        rics: vec![],
        http_port: 8443,
        http_host: "localhost".to_string(),
    }
}

#[test]
fn same_target_claimed_at_most_once() {
    let mut dedup = DedupSet::new();
    let first = dedup.claim(&record("E-1", vec![target("A", "0000001")]));
    assert_eq!(first.len(), 1);
    assert_eq!(first[0].ric, "0000001");
    let second = dedup.claim(&record("E-1", vec![target("A", "0000001")]));
    assert!(second.is_empty());
}

#[test]
fn new_target_of_known_incident_still_claimed() {
    let mut dedup = DedupSet::new();
    let first = dedup.claim(&record("E-1", vec![target("A", "0000001")]));
    assert_eq!(first.len(), 1);
    let second = dedup.claim(
        &record("E-1", vec![target("A", "0000001"), target("B", "0000002")]),
    );
    assert_eq!(second.len(), 1);
    assert_eq!(second[0].ric, "0000002");
}

#[test]
fn same_code_under_other_incident_claimed() {
    let mut dedup = DedupSet::new();
    let first = dedup.claim(&record("E-1", vec![target("A", "0000001")]));
    assert_eq!(first.len(), 1);
    let second = dedup.claim(&record("E-2", vec![target("A", "0000001")]));
    assert_eq!(second.len(), 1);
}

#[test]
fn duplicate_target_within_one_record_claimed_once() {
    let mut dedup = DedupSet::new();
    let kept = dedup.claim(
        &record("E-1", vec![target("A", "0000001"), target("A", "0000001")]),
    );
    assert_eq!(kept.len(), 1);
}

#[test]
fn token_returned_before_thirty_minutes_fresh_fetch_after() {
    let mut cache = TokenCache::new();
    let fetched_at: u64 = 1000;
    let stored = cache.accept_fetch(
        &"Verwaltung".to_string(),
        Some("{\"utoken\":\"tok-123\"}".to_string()),
        fetched_at,
    );
    assert_eq!(stored, Some("tok-123".to_string()));
    let at_29 = cache.lookup(&"Verwaltung".to_string(), fetched_at + 29 * 60);
    assert_eq!(at_29, Some("tok-123".to_string()));
    let at_31 = cache.lookup(&"Verwaltung".to_string(), fetched_at + 31 * 60);
    assert!(at_31.is_none());
}

#[test]
fn token_cache_failure_paths_store_nothing() {
    let mut cache = TokenCache::new();
    let site = "Verwaltung".to_string();
    assert!(cache.accept_fetch(&site, None, 5).is_none());
    assert!(cache.accept_fetch(&site, Some("not json".to_string()), 5).is_none());
    assert!(cache.accept_fetch(&site, Some("{\"other\":\"x\"}".to_string()), 5).is_none());
    assert!(cache.accept_fetch(&site, Some("{\"utoken\":5}".to_string()), 5).is_none());
    assert!(cache.lookup(&site, 5).is_none());
}

#[test]
fn token_cache_is_per_site() {
    let mut cache = TokenCache::new();
    cache.accept_fetch(&"A".to_string(), Some("{\"utoken\":\"ta\"}".to_string()), 10);
    cache.accept_fetch(&"B".to_string(), Some("{\"utoken\":\"tb\"}".to_string()), 10);
    assert_eq!(cache.lookup(&"A".to_string(), 20), Some("ta".to_string()));
    assert_eq!(cache.lookup(&"B".to_string(), 20), Some("tb".to_string()));
    assert!(cache.lookup(&"C".to_string(), 20).is_none());
}

#[test]
fn token_refreshed_token_replaces_old() {
    let mut cache = TokenCache::new();
    let site = "A".to_string();
    cache.accept_fetch(&site, Some("{\"utoken\":\"old\"}".to_string()), 0);
    cache.accept_fetch(&site, Some("{\"utoken\":\"new\"}".to_string()), 2000);
    assert_eq!(cache.lookup(&site, 2100), Some("new".to_string()));
}

#[test]
fn alarm_combines_record_and_target() {
    let data = record("E-9", vec![]);
    let alarm = build_alarm(&data, &target("Florian 1", "0001234"));
    assert_eq!(alarm.ric, "0001234");
    assert_eq!(alarm.sub_ric, "B");
    assert_eq!(alarm.einsatznrlst, "E-9");
    assert_eq!(alarm.strasse, "Hauptstraße");
    assert_eq!(alarm.hausnummer, "247");
    assert_eq!(alarm.ort, "Musterstadt");
    assert_eq!(alarm.ortsteil, "Altstadt");
    assert_eq!(alarm.objektname, "Halle");
    assert_eq!(alarm.koordinaten, "48.1,11.5");
    assert_eq!(alarm.einsatzstichwort, "FEUER2");
    assert_eq!(alarm.zusatzinfo, "Feuer im Keller");
}

#[test]
fn one_alarm_per_target() {
    let data = record("E-9", vec![target("A", "0000001"), target("B", "0000002")]);
    let alarms = build_alarms(&data);
    assert_eq!(alarms.len(), 2);
    assert_eq!(alarms[0].ric, "0000001");
    assert_eq!(alarms[1].ric, "0000002");
}

#[test]
fn log_line_format() {
    let line = success_log_line("2024-05-01T12:00:00+00:00", "E-9", "FEUER2");
    assert_eq!(line, "2024-05-01T12:00:00+00:00\tE-9 - FEUER2\n");
}

#[test]
fn raw_event_yields_normalized_record() {
    let mut dedup = DedupSet::new();
    let data = SubmitPayload {
        id: 1,
        foreign_id: "E-1".to_string(),
        title: "FEUER2".to_string(),
        text: "Einsatzmittel: UW 1/1".to_string(),
        address: "Weg 3, Stadt".to_string(),
        lat: "1".to_string(),
        lng: "2".to_string(),
        priority: 1,
        cluster: vec![],
        group: vec![],
        vehicle: vec![],
        ts_create: 0,
        ts_update: 0,
    };
    let outcome = step(Event::RawReceived(data), &config(None), &mut dedup);
    match outcome {
        Outcome::Enqueue(rec) => {
            assert_eq!(rec.einsatznrlst, "E-1");
            assert_eq!(rec.strasse, "Weg");
            assert_eq!(rec.rics.len(), 2);
        },
        _ => panic!("expected the extracted record to be enqueued"),
    }
}

#[test]
fn normalized_event_delivers_then_skips() {
    let mut dedup = DedupSet::new();
    let outcome = step(
        Event::Normalized(record("E-1", vec![target("A", "0000001")])),
        &config(Some("/usr/local/bin/notify")),
        &mut dedup,
    );
    match outcome {
        Outcome::Deliver(out, run_trigger) => {
            assert_eq!(out.rics.len(), 1);
            assert!(run_trigger);
        },
        _ => panic!("expected delivery of the fresh target"),
    }
    let again = step(
        Event::Normalized(record("E-1", vec![target("A", "0000001")])),
        &config(Some("/usr/local/bin/notify")),
        &mut dedup,
    );
    assert!(matches!(again, Outcome::Skip));
}

#[test]
fn shutdown_stops_the_loop() {
    let mut dedup = DedupSet::new();
    let outcome = step(Event::Shutdown, &config(None), &mut dedup);
    assert!(matches!(outcome, Outcome::Stop));
}

#[test]
fn inbound_token_mismatch_is_unauthorized_whatever_the_body() {
    let expected = "secret".to_string();
    let wrong = "other".to_string();
    let r1 = classify_inbound(&wrong, &expected, true);
    assert!(matches!(r1, InboundResponse::Unauthorized));
    assert_eq!(r1.status_code(), 401);
    let r2 = classify_inbound(&wrong, &expected, false);
    assert!(matches!(r2, InboundResponse::Unauthorized));
    assert_eq!(r2.status_code(), 401);
}

#[test]
fn inbound_malformed_body_is_bad_request_with_example() {
    let token = "secret".to_string();
    let r = classify_inbound(&token, &token, false);
    assert!(matches!(r, InboundResponse::BadRequest));
    assert_eq!(r.status_code(), 400);
    let example = example_payload();
    assert_eq!(example.id, 247);
    assert_eq!(example.title, "FEUER3");
    assert_eq!(example.address, "Hauptstraße 247, 12345 Musterstadt");
    assert_eq!(example.group, vec!["Gruppe 1".to_string(), "Gruppe 2".to_string()]);
}

#[test]
fn inbound_well_formed_body_is_accepted() {
    let token = "secret".to_string();
    let r = classify_inbound(&token, &token, true);
    assert!(matches!(r, InboundResponse::Submitted));
    assert_eq!(r.status_code(), 200);
}

#[test]
fn byte_counts_format_in_gib_and_mib() {
    assert_eq!(fmt_bytes_gib_mib(1073741824), "1.00 GiB");
    assert_eq!(fmt_bytes_gib_mib(1610612736), "1.50 GiB");
    assert_eq!(fmt_bytes_gib_mib(1073741823), "1024.00 MiB");
    assert_eq!(fmt_bytes_gib_mib(1048576), "1.00 MiB");
    assert_eq!(fmt_bytes_gib_mib(1572864), "1.50 MiB");
    assert_eq!(fmt_bytes_gib_mib(0), "0.00 MiB");
    assert_eq!(fmt_bytes_gib_mib(5242880), "5.00 MiB");
}

#[test]
fn target_equality_is_on_the_triple() {
    let a = target("A", "0000001");
    let b = target("A", "0000001");
    assert!(a.same_as(&b));
    let c = target("A", "0000002");
    assert!(!a.same_as(&c));
    let d = Ric { text: "A".to_string(), ric: "0000001".to_string(), subric: "C".to_string() };
    assert!(!a.same_as(&d));
}
