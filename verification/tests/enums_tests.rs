use fits_ingest::enums::{ExperimentType, HeaderValue};
use fits_ingest::errors::IngestionError;

#[test]
fn from_str_recognizes_xrr() {
    assert!(matches!(ExperimentType::from_str("xrr"), Ok(ExperimentType::Xrr)));
    assert!(matches!(ExperimentType::from_str("XRR"), Ok(ExperimentType::Xrr)));
    assert!(matches!(ExperimentType::from_str("Xrr"), Ok(ExperimentType::Xrr)));
}

#[test]
fn from_str_recognizes_xrs_and_other() {
    assert!(matches!(ExperimentType::from_str("xrs"), Ok(ExperimentType::Xrs)));
    assert!(matches!(ExperimentType::from_str("xRs"), Ok(ExperimentType::Xrs)));
    assert!(matches!(ExperimentType::from_str("other"), Ok(ExperimentType::Other)));
    assert!(matches!(ExperimentType::from_str("OTHER"), Ok(ExperimentType::Other)));
}

#[test]
fn from_str_rejects_unknown_tokens() {
    match ExperimentType::from_str("reflectivity") {
        Err(IngestionError::InvalidExperimentType(t)) => assert_eq!(t, "reflectivity"),
        _ => panic!("an unknown token must be a hard error"),
    }
    assert!(ExperimentType::from_str("").is_err());
    assert!(ExperimentType::from_str("xr").is_err());
    assert!(ExperimentType::from_str("xrrr").is_err());
}

#[test]
fn xrr_keys_are_ordered() {
    let keys = ExperimentType::Xrr.get_keys();
    assert_eq!(keys.len(), 8);
    assert!(matches!(keys[0], HeaderValue::SampleTheta));
    assert!(matches!(keys[1], HeaderValue::CCDTheta));
    assert!(matches!(keys[2], HeaderValue::BeamlineEnergy));
    assert!(matches!(keys[3], HeaderValue::BeamCurrent));
    assert!(matches!(keys[4], HeaderValue::EPUPolarization));
    assert!(matches!(keys[5], HeaderValue::HorizontalExitSlitSize));
    assert!(matches!(keys[6], HeaderValue::HigherOrderSuppressor));
    assert!(matches!(keys[7], HeaderValue::Exposure));
}

#[test]
fn xrs_and_other_keys() {
    let keys = ExperimentType::Xrs.get_keys();
    assert_eq!(keys.len(), 1);
    assert!(matches!(keys[0], HeaderValue::BeamlineEnergy));
    assert_eq!(ExperimentType::Other.get_keys().len(), 0);
}

#[test]
fn names_follow_keys() {
    let names = ExperimentType::Xrr.names();
    assert_eq!(
        names,
        vec![
            "Sample Theta",
            "CCD Theta",
            "Beamline Energy",
            "Beam Current",
            "EPU Polarization",
            "Horizontal Exit Slit Size",
            "Higher Order Suppressor",
            "EXPOSURE",
        ]
    );
    assert_eq!(ExperimentType::Xrs.names(), vec!["Beamline Energy"]);
    assert!(ExperimentType::Other.names().is_empty());
}

#[test]
fn header_value_units() {
    assert_eq!(HeaderValue::SampleTheta.unit(), "[deg]");
    assert_eq!(HeaderValue::CCDTheta.unit(), "[deg]");
    assert_eq!(HeaderValue::BeamlineEnergy.unit(), "[eV]");
    assert_eq!(HeaderValue::BeamCurrent.unit(), "[mA]");
    assert_eq!(HeaderValue::EPUPolarization.unit(), "[deg]");
    assert_eq!(HeaderValue::HorizontalExitSlitSize.unit(), "[um]");
    assert_eq!(HeaderValue::HigherOrderSuppressor.unit(), "[mm]");
    assert_eq!(HeaderValue::Exposure.unit(), "[s]");
}

#[test]
fn header_value_hdu_keys() {
    assert_eq!(HeaderValue::SampleTheta.hdu(), "Sample Theta");
    assert_eq!(HeaderValue::BeamlineEnergy.hdu(), "Beamline Energy");
    assert_eq!(HeaderValue::Exposure.hdu(), "EXPOSURE");
}

#[test]
fn header_value_display_names() {
    assert_eq!(HeaderValue::SampleTheta.name(), "Sample Theta [deg]");
    assert_eq!(HeaderValue::BeamlineEnergy.name(), "Beamline Energy [eV]");
    assert_eq!(HeaderValue::Exposure.name(), "EXPOSURE [s]");
}
