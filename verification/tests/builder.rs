use odx_desktop::builder::{
    cached_uds_services, ecu_summary, family_options, insert_sorted_unique, lex_less,
    normalize_sid, select_services, services_for_ecu, uds_builder_summary_for_services,
    uds_ecu_names_for_services, uds_family_name_rust, uds_mdd_service_cache,
};
use odx_desktop::error::DecodeError;
use odx_desktop::uds::UdsMddService;

fn service(ecu: &str, name: &str, sid: Option<&str>) -> UdsMddService {
    UdsMddService {
        id: format!("{ecu}:{name}"),
        name: name.to_string(),
        long_name: None,
        source_layer: ecu.trim().to_string(),
        source_ecu: ecu.to_string(),
        sid_hex: sid.map(|s| s.to_string()),
        positive_sid_hex: None,
        parameters: Vec::new(),
        positive_parameters: Vec::new(),
        negative_parameters: Vec::new(),
    }
}

fn sample() -> Vec<UdsMddService> {
    vec![
        service("ECU_A", "ReadVin", Some("22")),
        service("ECU_A", "ReadPartNumber", Some("22")),
        service("ecu_a", "DefaultSession", Some("10")),
        service("ECU_B", "HardReset", Some("11")),
        service("ECU_A", "Routine", Some("31")),
        service("ECU_A", "Unknown", None),
    ]
}

fn names(services: &[UdsMddService]) -> Vec<String> {
    services.iter().map(|s| s.name.clone()).collect()
}

#[test]
fn ecu_names_are_trimmed_sorted_and_unique() {
    let services = vec![
        service(" B ", "x", None),
        service("A", "y", None),
        service("  ", "z", None),
        service("B", "w", None),
    ];
    assert_eq!(uds_ecu_names_for_services(&services), vec!["A".to_string(), "B".to_string()]);
    assert!(uds_ecu_names_for_services(&[]).is_empty());
}

#[test]
fn family_names_follow_the_uds_table() {
    assert_eq!(uds_family_name_rust("10"), "DiagnosticSessionControl");
    assert_eq!(uds_family_name_rust("22"), "ReadDataByIdentifier");
    assert_eq!(uds_family_name_rust("2E"), "WriteDataByIdentifier");
    assert_eq!(uds_family_name_rust("85"), "ControlDTCSetting");
    assert_eq!(uds_family_name_rust("2e"), "UDS service");
    assert_eq!(uds_family_name_rust("99"), "UDS service");
}

#[test]
fn summary_counts_families_in_identifier_order() {
    let summary = uds_builder_summary_for_services(&sample());
    assert_eq!(summary.service_count, 6);
    assert_eq!(summary.family_count, 4);
    let families: Vec<(String, String, usize)> = summary
        .families
        .iter()
        .map(|f| (f.sid_hex.clone(), f.name.clone(), f.option_count))
        .collect();
    assert_eq!(
        families,
        vec![
            ("10".to_string(), "DiagnosticSessionControl".to_string(), 1),
            ("11".to_string(), "ECUReset".to_string(), 1),
            ("22".to_string(), "ReadDataByIdentifier".to_string(), 2),
            ("31".to_string(), "RoutineControl".to_string(), 1),
        ]
    );
    assert_eq!(
        summary.ecu_names,
        vec!["ECU_A".to_string(), "ECU_B".to_string(), "ecu_a".to_string()]
    );
}

#[test]
fn summary_puts_unparsable_identifiers_last() {
    let services = vec![service("E", "a", Some("zz")), service("E", "b", Some("3E"))];
    let summary = uds_builder_summary_for_services(&services);
    let sids: Vec<String> = summary.families.iter().map(|f| f.sid_hex.clone()).collect();
    assert_eq!(sids, vec!["3E".to_string(), "zz".to_string()]);
    assert_eq!(summary.families[1].name, "UDS service");
}

#[test]
fn services_for_ecu_ignores_case_and_whitespace() {
    let services = sample();
    let chosen = services_for_ecu(&services, "  Ecu_A ").unwrap();
    assert_eq!(
        names(&chosen),
        vec!["ReadVin", "ReadPartNumber", "DefaultSession", "Routine", "Unknown"]
    );
    assert_eq!(services_for_ecu(&services, "   ").unwrap_err(), "Choose an ECU first.");
    assert!(services_for_ecu(&services, "ECU_C").unwrap().is_empty());
}

#[test]
fn select_services_filters_by_identifier() {
    let services = sample();
    assert_eq!(names(&select_services(&services, "ecu_a", Some("22"))), vec!["ReadVin", "ReadPartNumber"]);
    assert_eq!(names(&select_services(&services, "ECU_B", None)), vec!["HardReset"]);
}

#[test]
fn normalize_sid_strips_prefix_and_uppercases() {
    assert_eq!(normalize_sid(" 0x2e "), "2E");
    assert_eq!(normalize_sid("0x0x22"), "22");
    assert_eq!(normalize_sid("0X22"), "0X22");
    assert_eq!(normalize_sid("ab"), "AB");
}

#[test]
fn family_options_normalise_inputs() {
    let services = sample();
    assert_eq!(names(&family_options(&services, "0x22", " ecu_a ")), vec!["ReadVin", "ReadPartNumber"]);
    assert_eq!(names(&family_options(&services, "10", "ECU_A")), vec!["DefaultSession"]);
    assert!(family_options(&services, "27", "ECU_A").is_empty());
}

#[test]
fn ecu_summary_of_a_variant() {
    let summary = ecu_summary(&sample(), " ECU_B ").unwrap();
    assert_eq!(summary.service_count, 1);
    assert_eq!(summary.family_count, 1);
    assert_eq!(summary.families[0].sid_hex, "11");
    assert_eq!(summary.ecu_names, vec!["ECU_B".to_string()]);
}

#[test]
fn ecu_summary_errors() {
    assert_eq!(
        ecu_summary(&sample(), "  ").unwrap_err(),
        "Choose an ECU before loading its diagnostic services."
    );
    assert_eq!(
        ecu_summary(&sample(), "Gateway").unwrap_err(),
        "No diagnostic service was found in the MDD for ECU 'Gateway'. MDD variants: ECU_A, ECU_B, ecu_a"
    );
    assert_eq!(
        ecu_summary(&[], "Gateway").unwrap_err(),
        "No diagnostic service was found in the MDD for ECU 'Gateway'. MDD variants: none"
    );
}

#[test]
fn lex_less_is_character_order() {
    assert!(lex_less(&['a'], &['b']));
    assert!(lex_less(&['a'], &['a', 'a']));
    assert!(!lex_less(&['a', 'a'], &['a']));
    assert!(!lex_less(&['B'], &['B']));
    assert!(lex_less(&['Z'], &['a']));
}

#[test]
fn insert_sorted_unique_keeps_order_without_repeats() {
    let mut v: Vec<String> = Vec::new();
    for n in ["m", "c", "x", "c", "a"] {
        insert_sorted_unique(&mut v, n.to_string());
    }
    assert_eq!(v, vec!["a", "c", "m", "x"]);
}

#[test]
fn cache_does_not_keep_files_that_fail_to_decode() {
    let mut cache = uds_mdd_service_cache();
    let r = cached_uds_services(&mut cache, " \"a.mdd\" ", b"short");
    assert!(matches!(r, Err(DecodeError::MddTooSmall)));
    assert!(cache.lookup("a.mdd").is_none());
}
