use fireplan_relay::parser::parse;
use fireplan_relay::types::{Configuration, Ric, SubmitPayload};

fn rule(text: &str, ric: &str, subric: &str) -> Ric {
    Ric { text: text.to_string(), ric: ric.to_string(), subric: subric.to_string() }
}

fn base_config(rics: Vec<Ric>) -> Configuration {
    Configuration {
        fireplan_api_key: "SECRET-REDACTED".to_string(),
        regex_einsatzstichwort: String::new(),
        regex_strasse: String::new(),
        regex_ort: "Ort: (.+)".to_string(),
        regex_hausnummer: String::new(),
        regex_ortsteil: "Ortsteil: (.+)".to_string(),
        regex_einsatznrleitstelle: String::new(),
        regex_koordinaten: String::new(),
        regex_zusatzinfo: String::new(),
        regex_objektname: "Objekt: (.+)".to_string(),
        simple_trigger: None,
        rics,
        http_port: 8443,
        http_host: "localhost".to_string(),
    }
}

fn payload(text: &str, address: &str) -> SubmitPayload {
    SubmitPayload {
        id: 1,
        foreign_id: "E-2024-001".to_string(),
        title: "FEUER2".to_string(),
        text: text.to_string(),
        address: address.to_string(),
        lat: "48.1".to_string(),
        lng: "11.5".to_string(),
        priority: 1,
        cluster: vec![],
        group: vec![],
        vehicle: vec![],
        ts_create: 0,
        ts_update: 0,
    }
}

#[test]
fn street_and_house_number() {
    let data = payload("", "Hauptstraße 247, 12345 Musterstadt");
    let result = parse(&data, &base_config(vec![]));
    assert_eq!(result.strasse, "Hauptstraße");
    assert_eq!(result.hausnummer, "247");
}

#[test]
fn street_without_house_number() {
    let data = payload("", "Hauptstraße, 12345 Musterstadt");
    let result = parse(&data, &base_config(vec![]));
    assert_eq!(result.strasse, "Hauptstraße");
    assert_eq!(result.hausnummer, "");
}

#[test]
fn vehicle_list_rule_and_fallbacks() {
    let rics = vec![rule("Florian Musterstadt 1", "1234567", "A")];
    let data = payload("Einsatzmittel: UW 1/1, Florian Musterstadt 1", "");
    let result = parse(&data, &base_config(rics));
    assert_eq!(result.rics.len(), 3);
    assert_eq!(result.rics[0].text, "Florian Musterstadt 1");
    assert_eq!(result.rics[0].ric, "1234567");
    assert_eq!(result.rics[0].subric, "A");
    assert_eq!(result.rics[1].text, "Dummy KdoW");
    assert_eq!(result.rics[1].ric, "0999995");
    assert_eq!(result.rics[2].text, "Dummy Abt 1");
    assert_eq!(result.rics[2].ric, "0999991");
}

#[test]
fn target_code_zero_padded() {
    let rics = vec![rule("Florian Musterstadt 1", "12", "B")];
    let data = payload("Einsatzmittel: Florian Musterstadt 1", "");
    let result = parse(&data, &base_config(rics));
    assert_eq!(result.rics[0].ric, "0000012");
}

#[test]
fn containment_tie_break_short_rule_first() {
    let rics = vec![rule("Florian X", "1111111", "A"), rule("Florian X 1", "2222222", "A")];
    let data = payload("Einsatzmittel: Florian X 1", "");
    let result = parse(&data, &base_config(rics));
    let own: Vec<&Ric> = result.rics.iter().filter(|r| r.text == "Florian X").collect();
    assert!(own.is_empty());
    let specific: Vec<&Ric> = result.rics.iter().filter(|r| r.text == "Florian X 1").collect();
    assert_eq!(specific.len(), 1);
    assert_eq!(specific[0].ric, "2222222");
}

#[test]
fn containment_tie_break_long_rule_first() {
    let rics = vec![rule("Florian X 1", "2222222", "A"), rule("Florian X", "1111111", "A")];
    let data = payload("Einsatzmittel: Florian X 1", "");
    let result = parse(&data, &base_config(rics));
    let own: Vec<&Ric> = result.rics.iter().filter(|r| r.text == "Florian X").collect();
    assert!(own.is_empty());
    let specific: Vec<&Ric> = result.rics.iter().filter(|r| r.text == "Florian X 1").collect();
    assert_eq!(specific.len(), 1);
}

#[test]
fn command_vehicle_always_appended() {
    let data = payload("no vehicle marker here", "");
    let result = parse(&data, &base_config(vec![]));
    assert_eq!(result.rics.len(), 1);
    assert_eq!(result.rics[0].ric, "0999995");
    assert_eq!(result.rics[0].subric, "B");
}

#[test]
fn group_fallback_appended_once() {
    let data = payload("Einsatzmittel: UW 2/1, UW 2/2, UW 4/9", "");
    let result = parse(&data, &base_config(vec![]));
    let abt2: Vec<&Ric> = result.rics.iter().filter(|r| r.ric == "0999992").collect();
    assert_eq!(abt2.len(), 1);
    let abt4: Vec<&Ric> = result.rics.iter().filter(|r| r.ric == "0999994").collect();
    assert_eq!(abt4.len(), 1);
    assert!(result.rics.iter().all(|r| r.ric != "0999991"));
    assert!(result.rics.iter().all(|r| r.ric != "0999993"));
}

#[test]
fn free_text_note_between_markers() {
    let data = payload("Alarm Meldung: Feuer im Keller Schlagwort: F2 Ende", "");
    let result = parse(&data, &base_config(vec![]));
    assert_eq!(result.zusatzinfo, "Feuer im Keller");
}

#[test]
fn free_text_note_missing_end_marker() {
    let data = payload("Alarm Meldung: Feuer im Keller", "");
    let result = parse(&data, &base_config(vec![]));
    assert_eq!(result.zusatzinfo, "");
}

#[test]
fn free_text_note_missing_start_marker() {
    let data = payload("Feuer im Keller Schlagwort: F2", "");
    let result = parse(&data, &base_config(vec![]));
    assert_eq!(result.zusatzinfo, "");
}

#[test]
fn field_pattern_last_matching_line_wins() {
    let data = payload("Ort: Altstadt\nOrt: Neustadt\nObjekt: Halle 3", "");
    let result = parse(&data, &base_config(vec![]));
    assert_eq!(result.ort, "Neustadt");
    assert_eq!(result.objektname, "Halle 3");
    assert_eq!(result.ortsteil, "");
}

#[test]
fn invalid_pattern_leaves_field_empty() {
    let mut config = base_config(vec![]);
    config.regex_ort = "(".to_string();
    let data = payload("Ort: Musterstadt", "");
    let result = parse(&data, &config);
    assert_eq!(result.ort, "");
}

#[test]
fn windows_line_endings_removed_before_scanning() {
    let data = payload("Ort: Altstadt\r\nOrtsteil: Hafen\r\n", "");
    let result = parse(&data, &base_config(vec![]));
    assert_eq!(result.ort, "Altstadt");
    assert_eq!(result.ortsteil, "Hafen");
}

#[test]
fn coordinates_join_trimmed_lat_lng() {
    let mut data = payload("", "");
    data.lat = " 48.137 ".to_string();
    data.lng = "11.575\n".to_string();
    let result = parse(&data, &base_config(vec![]));
    assert_eq!(result.koordinaten, "48.137,11.575");
}

#[test]
fn keyword_and_incident_id_trimmed() {
    let mut data = payload("", "");
    data.title = "  FEUER3  ".to_string();
    data.foreign_id = " E-77 ".to_string();
    let result = parse(&data, &base_config(vec![]));
    assert_eq!(result.einsatzstichwort, "FEUER3");
    assert_eq!(result.einsatznrlst, "E-77");
}

#[test]
fn extractor_is_deterministic() {
    let rics = vec![rule("Florian Musterstadt 1", "1234567", "A")];
    let data = payload("Einsatzmittel: UW 1/1, Florian Musterstadt 1\nOrt: Musterstadt", "Weg 1, Ort");
    let a = parse(&data, &base_config(rics.clone()));
    let b = parse(&data, &base_config(rics));
    assert_eq!(a.rics.len(), b.rics.len());
    assert_eq!(a.ort, b.ort);
    assert_eq!(a.strasse, b.strasse);
    assert_eq!(a.hausnummer, b.hausnummer);
    assert_eq!(a.koordinaten, b.koordinaten);
    assert_eq!(a.zusatzinfo, b.zusatzinfo);
    assert_eq!(a.einsatzstichwort, b.einsatzstichwort);
    assert_eq!(a.einsatznrlst, b.einsatznrlst);
    for (x, y) in a.rics.iter().zip(b.rics.iter()) {
        assert_eq!(x.text, y.text);
        assert_eq!(x.ric, y.ric);
        assert_eq!(x.subric, y.subric);
    }
}

#[test]
fn pattern_without_capture_group_leaves_field_empty() {
    let mut config = base_config(vec![]);
    config.regex_ort = "Ort: .+".to_string();
    let data = payload("Ort: Musterstadt", "");
    let result = parse(&data, &config);
    assert_eq!(result.ort, "");
}

#[test]
fn empty_required_fields_are_named() {
    let mut data = payload("", "");
    data.title = String::new();
    data.foreign_id = "E-1".to_string();
    let result = parse(&data, &base_config(vec![]));
    let missing = fireplan_relay::parser::empty_required_fields(&result);
    assert_eq!(
        missing,
        vec![
            "EINSATZSTICHWORT".to_string(),
            "ORTSTEIL".to_string(),
            "OBJEKTNAME".to_string(),
            "ORT".to_string(),
            "STRASSE".to_string(),
            "HAUSNUMMER".to_string(),
        ]
    );
}
