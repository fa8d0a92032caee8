use odx_desktop::workspace::{
    checked_library, chosen_output_dir, collect_ecu_names, conversion_ecu_names,
    conversion_output_name, conversion_report, file_stem, has_source_stored_at,
    link_generated_mdd, millis_as_u64, now_ms, pdx_validation_outcome, persist_mdd_ecu_names,
    record_conversion, remove_source, scan_source_ecus, select_sources_for_conversion, source_id,
    add_generated_mdd, check_sequence_state_version, generated_mdd_entry, importable_kind,
    imported_source_entry, selected_path,
    DiagnosticSourceEntry, DiagnosticSourceLibrary, ScanFormat,
};

fn entry(id: &str, kind: &str, name: &str, stored: &str) -> DiagnosticSourceEntry {
    DiagnosticSourceEntry {
        id: id.to_string(),
        name: name.to_string(),
        kind: kind.to_string(),
        original_path: format!("/in/{name}"),
        stored_path: stored.to_string(),
        ecu_names: Vec::new(),
        generated_mdd_path: None,
        imported_at_ms: 1,
    }
}

fn library() -> DiagnosticSourceLibrary {
    let mut pdx = entry("src_1_0", "pdx", "vehicle.pdx", "/ws/src_1_0/vehicle.pdx");
    pdx.generated_mdd_path = Some("/out/vehicle_5.mdd".to_string());
    let odx1 = entry("src_1_1", "odx", "a.odx-d", "/ws/src_1_1/a.odx-d");
    let odx2 = entry("src_1_2", "odx", "b.odx-c", "/ws/src_1_2/b.odx-c");
    let mdd = entry("mdd_5", "mdd", "vehicle_5.mdd", "/out/vehicle_5.mdd");
    DiagnosticSourceLibrary { format_version: 1, sources: vec![pdx, odx1, odx2, mdd] }
}

fn ids(lib: &DiagnosticSourceLibrary) -> Vec<String> {
    lib.sources.iter().map(|e| e.id.clone()).collect()
}

fn strings(v: &[&str]) -> Vec<String> {
    v.iter().map(|s| s.to_string()).collect()
}

#[test]
fn default_library_is_empty_version_one() {
    let lib = DiagnosticSourceLibrary::default();
    assert_eq!(lib.format_version, 1);
    assert!(lib.sources.is_empty());
}

#[test]
fn checked_library_keeps_sources_whose_files_exist() {
    let lib = checked_library(library(), &[true, false, true]).unwrap();
    assert_eq!(ids(&lib), vec!["src_1_0", "src_1_2"]);
    let mut old = library();
    old.format_version = 2;
    assert_eq!(
        checked_library(old, &[true; 4]).unwrap_err(),
        "Unsupported diagnostic source library version: 2"
    );
}

#[test]
fn removing_a_source_unlinks_its_file() {
    let mut lib = library();
    let removed = remove_source(&mut lib, "mdd_5").unwrap();
    assert_eq!(removed.stored_path, "/out/vehicle_5.mdd");
    assert_eq!(ids(&lib), vec!["src_1_0", "src_1_1", "src_1_2"]);
    assert_eq!(lib.sources[0].generated_mdd_path, None);
    // Removing it again changes nothing.
    assert!(remove_source(&mut lib, "mdd_5").is_none());
    assert_eq!(ids(&lib), vec!["src_1_0", "src_1_1", "src_1_2"]);
}

#[test]
fn removing_an_unknown_source_keeps_links() {
    let mut lib = library();
    assert!(remove_source(&mut lib, "nope").is_none());
    assert_eq!(ids(&lib).len(), 4);
    assert_eq!(lib.sources[0].generated_mdd_path.as_deref(), Some("/out/vehicle_5.mdd"));
}

#[test]
fn persisting_ecu_names_touches_matching_sources_once() {
    let mut lib = library();
    let names = strings(&["ECU_A", "ECU_B"]);
    assert!(persist_mdd_ecu_names(&mut lib, " \"/out/vehicle_5.mdd\" ", &names));
    assert_eq!(lib.sources[0].ecu_names, names);
    assert_eq!(lib.sources[3].ecu_names, names);
    assert!(lib.sources[1].ecu_names.is_empty());
    assert!(!persist_mdd_ecu_names(&mut lib, "/out/vehicle_5.mdd", &names));
    assert!(!persist_mdd_ecu_names(&mut lib, "/out/vehicle_5.mdd", &Vec::new()));
}

#[test]
fn selecting_sources_for_conversion() {
    let lib = library();
    let sel = select_sources_for_conversion(&lib, &strings(&["src_1_2", "src_1_1"])).unwrap();
    assert_eq!(sel.iter().map(|e| e.id.as_str()).collect::<Vec<_>>(), vec!["src_1_2", "src_1_1"]);
    let one = select_sources_for_conversion(&lib, &strings(&["src_1_0"])).unwrap();
    assert_eq!(one[0].name, "vehicle.pdx");
}

#[test]
fn selecting_sources_for_conversion_errors() {
    let lib = library();
    assert_eq!(
        select_sources_for_conversion(&lib, &Vec::new()).unwrap_err(),
        "Select one saved PDX or one/more saved ODX files."
    );
    assert_eq!(
        select_sources_for_conversion(&lib, &strings(&["src_1_1", "gone"])).unwrap_err(),
        "One or more selected diagnostic sources no longer exist."
    );
    assert_eq!(
        select_sources_for_conversion(&lib, &strings(&["src_1_0", "src_1_1"])).unwrap_err(),
        "Convert either one PDX file or a group containing only ODX files."
    );
    assert_eq!(
        select_sources_for_conversion(&lib, &strings(&["mdd_5"])).unwrap_err(),
        "Convert either one PDX file or a group containing only ODX files."
    );
    assert_eq!(
        select_sources_for_conversion(&lib, &strings(&["src_1_0", "src_1_0"])).unwrap_err(),
        "Select exactly one PDX file for conversion."
    );
}

#[test]
fn file_stems() {
    assert_eq!(file_stem("vehicle.pdx"), "vehicle");
    assert_eq!(file_stem("archive.tar.gz"), "archive.tar");
    assert_eq!(file_stem(".hidden"), ".hidden");
    assert_eq!(file_stem("noext"), "noext");
    assert_eq!(file_stem(".."), "");
    assert_eq!(file_stem(""), "");
}

#[test]
fn conversion_output_names() {
    let lib = library();
    assert_eq!(conversion_output_name(&vec![lib.sources[0].clone()], 42), "vehicle_42.mdd");
    let two = vec![lib.sources[1].clone(), lib.sources[2].clone()];
    assert_eq!(conversion_output_name(&two, 7), "odx_group_7.mdd");
    let odd = vec![entry("x", "pdx", "My File#1.pdx", "/s")];
    assert_eq!(conversion_output_name(&odd, 3), "My File_1_3.mdd");
    let blank = vec![entry("y", "pdx", "..pdx", "/s")];
    assert_eq!(conversion_output_name(&blank, 3), "diagnostic_3.mdd");
}

#[test]
fn recording_a_conversion_links_sources_and_adds_the_mdd() {
    let mut lib = library();
    let mdd = entry("mdd_9", "mdd", "odx_group_9.mdd", "/out/odx_group_9.mdd");
    record_conversion(&mut lib, &strings(&["src_1_1", "src_1_2"]), mdd);
    assert_eq!(ids(&lib), vec!["src_1_0", "src_1_1", "src_1_2", "mdd_5", "mdd_9"]);
    assert_eq!(lib.sources[1].generated_mdd_path.as_deref(), Some("/out/odx_group_9.mdd"));
    assert_eq!(lib.sources[2].generated_mdd_path.as_deref(), Some("/out/odx_group_9.mdd"));
    assert_eq!(lib.sources[0].generated_mdd_path.as_deref(), Some("/out/vehicle_5.mdd"));
}

#[test]
fn conversion_ecu_names_merge_every_origin() {
    let mut a = entry("a", "odx", "a.odx", "/a");
    a.ecu_names = strings(&["ECU_B", "ECU_A"]);
    let mut b = entry("b", "odx", "b.odx", "/b");
    b.ecu_names = strings(&["ECU_C"]);
    let names = conversion_ecu_names(&vec![a.clone(), b], Some("ECU_A".to_string()), &strings(&["ECU_D", "ECU_B"]));
    assert_eq!(names, strings(&["ECU_A", "ECU_B", "ECU_C", "ECU_D"]));
    let blank = conversion_ecu_names(&vec![a], Some("   ".to_string()), &Vec::new());
    assert_eq!(blank, strings(&["ECU_A", "ECU_B"]));
}

#[test]
fn linking_a_converted_pdx() {
    let mut lib = library();
    link_generated_mdd(&mut lib, &[true, true, false], &"/out/new.mdd".to_string());
    assert_eq!(lib.sources[0].generated_mdd_path.as_deref(), Some("/out/new.mdd"));
    assert_eq!(lib.sources[1].generated_mdd_path, None);
    assert!(has_source_stored_at(&lib, &"/out/vehicle_5.mdd".to_string()));
    assert!(!has_source_stored_at(&lib, &"/out/new.mdd".to_string()));
}

#[test]
fn output_dir_preference() {
    assert_eq!(chosen_output_dir(Some(" \"/data/out\" ")).as_deref(), Some("/data/out"));
    assert_eq!(chosen_output_dir(Some("  ")), None);
    assert_eq!(chosen_output_dir(None), None);
}

#[test]
fn validation_outcomes() {
    assert_eq!(pdx_validation_outcome(true, "  ", "", Some(0)), Ok("PDX file is valid.".to_string()));
    assert_eq!(pdx_validation_outcome(true, " ok \n", "", Some(0)), Ok("ok".to_string()));
    assert_eq!(pdx_validation_outcome(false, "out", " bad ", Some(1)), Err("bad".to_string()));
    assert_eq!(pdx_validation_outcome(false, "out", "", Some(1)), Err("out".to_string()));
    assert_eq!(
        pdx_validation_outcome(false, "", "", Some(-2)),
        Err("PDX validation failed with exit code Some(-2).".to_string())
    );
    assert_eq!(
        pdx_validation_outcome(false, "", "", None),
        Err("PDX validation failed with exit code None.".to_string())
    );
}

#[test]
fn source_ids_and_reports() {
    assert_eq!(source_id("src", 1700000000000, Some(3)), "src_1700000000000_3");
    assert_eq!(source_id("mdd", 12, None), "mdd_12");
    assert_eq!(
        conversion_report("/out/v.mdd", 1500, 2048, 4096, 1024),
        "Conversion succeeded.\nOutput saved in Workspace: /out/v.mdd\nDuration: 1500 ms\nRaw ODX: 2048 bytes\nUncompressed diagnostic data: 4096 bytes\nMDD size: 1024 bytes"
    );
}

#[test]
fn clock_readings() {
    assert_eq!(millis_as_u64(None), 0);
    assert_eq!(millis_as_u64(Some(5)), 5);
    assert_eq!(millis_as_u64(Some((1u128 << 64) + 7)), 7);
    assert!(now_ms() > 1_600_000_000_000);
}

#[test]
fn scanning_sources_by_kind() {
    let found = scan_source_ecus("pdx", |f| match f {
        ScanFormat::Pdx => Ok(strings(&["ECU_A"])),
        ScanFormat::Odx => Ok(strings(&["wrong"])),
    });
    assert_eq!(found, strings(&["ECU_A"]));
    let failed = scan_source_ecus("odx", |_| Err("unreadable".to_string()));
    assert!(failed.is_empty());
    let other = scan_source_ecus("mdd", |_| Ok(strings(&["never"])));
    assert!(other.is_empty());
}

#[test]
fn collecting_ecu_names() {
    let mut names = Vec::new();
    collect_ecu_names(&strings(&[" ECU_B ", ""]), &strings(&["BASE", "ECU_B"]), Some("Container"), &mut names);
    assert_eq!(names, strings(&["BASE", "ECU_B"]));
    let mut only_container = Vec::new();
    collect_ecu_names(&strings(&[" "]), &[], Some(" Container "), &mut only_container);
    assert_eq!(only_container, strings(&["Container"]));
}

#[test]
fn generated_mdd_entries_are_added_once() {
    let mut lib = library();
    let e = generated_mdd_entry(
        "mdd_7".to_string(),
        "new.mdd".to_string(),
        "/in/vehicle.pdx".to_string(),
        "/out/new.mdd".to_string(),
        strings(&["ECU_A"]),
        7,
    );
    assert_eq!(e.kind, "mdd");
    assert_eq!(e.generated_mdd_path, None);
    assert_eq!(e.original_path, "/in/vehicle.pdx");
    assert!(add_generated_mdd(&mut lib, e.clone()));
    assert_eq!(ids(&lib), vec!["src_1_0", "src_1_1", "src_1_2", "mdd_5", "mdd_7"]);
    let again = generated_mdd_entry("mdd_8".to_string(), "new.mdd".to_string(), String::new(), "/out/new.mdd".to_string(), Vec::new(), 8);
    assert!(!add_generated_mdd(&mut lib, again));
    assert_eq!(ids(&lib).len(), 5);
}

#[test]
fn sequence_state_versions() {
    assert_eq!(check_sequence_state_version(1), Ok(()));
    assert_eq!(check_sequence_state_version(3), Err("Unsupported sequence state version: 3".to_string()));
}

#[test]
fn selected_paths() {
    assert_eq!(selected_path(" \"/x/a.pdx\" ", "PDX"), Ok("/x/a.pdx".to_string()));
    assert_eq!(selected_path("  ", "MDD"), Err("No MDD file was selected.".to_string()));
}

#[test]
fn importing_files() {
    assert_eq!(importable_kind(Some("A.PDX"), true), Some("pdx"));
    assert_eq!(importable_kind(Some("A.PDX"), false), None);
    assert_eq!(importable_kind(Some("notes.txt"), true), None);
    assert_eq!(importable_kind(None, true), None);
    let e = imported_source_entry(12, 3, "a.odx".to_string(), "odx", "/in/a.odx".to_string(), "/ws/src_12_3/a.odx".to_string(), 13);
    assert_eq!(e.id, "src_12_3");
    assert_eq!(e.kind, "odx");
    assert!(e.ecu_names.is_empty());
    assert_eq!(e.generated_mdd_path, None);
    assert_eq!(e.imported_at_ms, 13);
}
