use scbl_utils::samplesheet::tracking_sheet as sheet;
use scbl_utils::tracking_sheet as export;

#[test]
fn each_exported_table_has_its_file() {
    assert_eq!(<export::Suspension as export::FromTrackingSheetDir>::filename(), "Chromium(Suspensions).csv");
    assert_eq!(
        <export::MultiplexedSuspension as export::FromTrackingSheetDir>::filename(),
        "Chromium(Multiplexed Suspensions).csv"
    );
    assert_eq!(<export::Gems as export::FromTrackingSheetDir>::filename(), "Chromium(GEMs).csv");
    assert_eq!(
        <export::GemsSuspensions as export::FromTrackingSheetDir>::filename(),
        "Chromium(GEMs-Suspensions).csv"
    );
    assert_eq!(<export::Library as export::FromTrackingSheetDir>::filename(), "Chromium(Libraries).csv");
}

#[test]
fn each_table_has_its_file_and_its_header_row() {
    assert_eq!(<sheet::Suspension as sheet::FromTrackingSheetDir>::filename(), "Chromium(Suspensions).csv");
    assert_eq!(<sheet::Suspension as sheet::FromTrackingSheetDir>::header_row(), 1);
    assert_eq!(
        <sheet::MultiplexedSuspension as sheet::FromTrackingSheetDir>::filename(),
        "Chromium(Multiplexed Suspensions).csv"
    );
    assert_eq!(<sheet::MultiplexedSuspension as sheet::FromTrackingSheetDir>::header_row(), 1);
    assert_eq!(<sheet::Gems as sheet::FromTrackingSheetDir>::filename(), "Chromium(GEMs).csv");
    assert_eq!(<sheet::Gems as sheet::FromTrackingSheetDir>::header_row(), 0);
    assert_eq!(
        <sheet::GemsSuspensions as sheet::FromTrackingSheetDir>::filename(),
        "Chromium(GEMs-Suspensions).csv"
    );
    assert_eq!(<sheet::GemsSuspensions as sheet::FromTrackingSheetDir>::header_row(), 0);
    assert_eq!(<sheet::Library as sheet::FromTrackingSheetDir>::filename(), "Chromium(Libraries).csv");
    assert_eq!(<sheet::Library as sheet::FromTrackingSheetDir>::header_row(), 0);
}

#[test]
fn a_table_is_in_the_directory_of_the_tracking_sheet() {
    assert_eq!(
        export::table_path::<export::Library>("tracking-sheet"),
        "tracking-sheet/Chromium(Libraries).csv"
    );
    assert_eq!(
        sheet::table_path::<sheet::Suspension>("/sc/tracking-sheet/"),
        "/sc/tracking-sheet/Chromium(Suspensions).csv"
    );
}

#[test]
fn the_records_start_at_the_header_row() {
    let contents = "Suspensions\nSuspension ID,Specimen Name\nS1,liver\n";
    assert_eq!(
        sheet::table_records::<sheet::Suspension>(contents),
        "Suspension ID,Specimen Name\nS1,liver\n"
    );
    assert_eq!(sheet::table_records::<sheet::Gems>(contents), contents);
    assert_eq!(sheet::table_records::<sheet::MultiplexedSuspension>("only a title"), "");
}

#[test]
fn each_exported_row_has_its_id() {
    let suspension = export::Suspension {
        id: "SU1".to_string(),
        name: "liver".to_string(),
        species: "mouse".to_string(),
        cellular_material: "cells".to_string(),
    };
    assert_eq!(export::Id::id(&suspension), "SU1");
    let pool = export::MultiplexedSuspension { id: "MS1".to_string(), name: "pool".to_string() };
    assert_eq!(export::Id::id(&pool), "MS1");
    let gems = export::Gems { id: "G1".to_string(), chemistry: "3p".to_string() };
    assert_eq!(export::Id::id(&gems), "G1");
    let library = export::Library {
        id: "L1".to_string(),
        gems_id: "G1".to_string(),
        type_: "GEX".to_string(),
        fails_qc: false,
    };
    assert_eq!(export::Id::id(&library), "L1");
    let sheet = export::TrackingSheet {
        suspensions: vec![suspension],
        multiplexed_suspensions: vec![pool],
        gems: vec![gems],
        gems_suspensions: vec![export::GemsSuspensions {
            gems_id: "G1".to_string(),
            suspension_id: Some("SU1".to_string()),
            multiplexed_suspension_id: None,
        }],
        libraries: vec![library],
    };
    assert_eq!(sheet.gems_suspensions[0].gems_id, export::Id::id(&sheet.gems[0]));
}

#[test]
fn each_row_has_its_id() {
    let suspension = sheet::Suspension {
        id: "SU1".to_string(),
        name: "liver".to_string(),
        species: "mouse".to_string(),
        cellular_material: "cells".to_string(),
        tissue: "liver".to_string(),
        tag_id: None,
        pooled_into_id: Some("MS1".to_string()),
    };
    assert_eq!(sheet::Id::id(&suspension), "SU1");
    let pool = sheet::MultiplexedSuspension { id: "MS1".to_string(), name: "pool".to_string() };
    assert_eq!(sheet::Id::id(&pool), "MS1");
    let gems = sheet::Gems { id: "G1".to_string(), chemistry: "3p".to_string() };
    assert_eq!(sheet::Id::id(&gems), "G1");
    let library =
        sheet::Library { id: "L1".to_string(), gems_id: "G1".to_string(), type_: "GEX".to_string() };
    assert_eq!(sheet::Id::id(&library), "L1");
}
