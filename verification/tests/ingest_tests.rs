use fits_ingest::enums::ExperimentType;
use fits_ingest::errors::IngestionError;
use fits_ingest::image::{ImageEncoding, ImagePayload};
use fits_ingest::ingest::{
    assemble, check_file_list, plan_directory, plan_directory_pattern, select_fits_files,
    select_fits_files_pattern,
};
use fits_ingest::record::{build_record, Hdu, HeaderEntry};
use fits_ingest::table::{CellValue, Table};

fn entry(key: &str, value: f64) -> HeaderEntry {
    HeaderEntry { key: key.to_string(), value: CellValue::Float(value.to_bits()) }
}

fn xrr_header() -> Vec<HeaderEntry> {
    vec![
        entry("Sample Theta", 0.5),
        entry("CCD Theta", 1.0),
        entry("Beamline Energy", 500.0),
        entry("Beam Current", 400.25),
        entry("EPU Polarization", 0.0),
        entry("Horizontal Exit Slit Size", 50.0),
        entry("Higher Order Suppressor", 11.0),
        entry("EXPOSURE", 2.5),
    ]
}

fn hdus_with(header: Vec<HeaderEntry>) -> Vec<Hdu> {
    vec![
        Hdu::Primary(header),
        Hdu::OtherKind,
        Hdu::Image(ImagePayload { data: ImageEncoding::I16(vec![1, 2]), rows: 1, cols: 2 }),
    ]
}

fn strings(xs: &[&str]) -> Vec<String> {
    xs.iter().map(|s| s.to_string()).collect()
}

#[test]
fn selection_keeps_only_fits_files() {
    let entries = strings(&["a/one.fits", "a/readme.txt", "a/two.fits", "a/.fits", "a/x.FITS"]);
    let sel = select_fits_files(&entries);
    assert_eq!(sel, strings(&["a/one.fits", "a/two.fits"]));
}

#[test]
fn pattern_matches_file_name_only() {
    // a file inside a matching subdirectory with a non-matching name must
    // not be selected
    let entries = strings(&["sub_match/other.fits", "dir/sub_match.fits", "dir/plain.fits"]);
    let sel = select_fits_files_pattern(&entries, &"sub_*".to_string());
    assert_eq!(sel, strings(&["dir/sub_match.fits"]));
}

#[test]
fn pattern_filters_both_extension_and_name() {
    let entries = strings(&["d/run_1.fits", "d/run_2.txt", "d/other_3.fits"]);
    let sel = select_fits_files_pattern(&entries, &"run_*".to_string());
    assert_eq!(sel, strings(&["d/run_1.fits"]));
}

#[test]
fn plan_directory_requires_existing_directory() {
    let dir = "missing_dir".to_string();
    match plan_directory(&dir, false, &strings(&["missing_dir/a.fits"])) {
        Err(IngestionError::DirectoryNotFound(d)) => assert_eq!(d, dir),
        _ => panic!("an absent directory must be fatal"),
    }
}

#[test]
fn plan_directory_requires_candidates() {
    let dir = "empty_dir".to_string();
    match plan_directory(&dir, true, &strings(&["empty_dir/readme.md"])) {
        Err(IngestionError::NoFilesMatched(d)) => assert_eq!(d, dir),
        _ => panic!("an empty selection must be fatal"),
    }
    let ok = plan_directory(&dir, true, &strings(&["empty_dir/a.fits"])).unwrap();
    assert_eq!(ok, strings(&["empty_dir/a.fits"]));
}

#[test]
fn plan_directory_pattern_names_the_pattern() {
    let dir = "d".to_string();
    let pattern = "y_*".to_string();
    match plan_directory_pattern(&dir, true, &pattern, &strings(&["d/x_1.fits"])) {
        Err(IngestionError::NoFilesMatched(p)) => assert_eq!(p, pattern),
        _ => panic!("an empty pattern selection must name the pattern"),
    }
}

#[test]
fn file_list_must_be_non_empty_and_existing() {
    assert!(matches!(
        check_file_list(&vec![], &vec![]),
        Err(IngestionError::NoFilesMatched(_))
    ));
    let paths = strings(&["a.fits", "b.fits"]);
    match check_file_list(&paths, &vec![true, false]) {
        Err(IngestionError::FileNotFound(p)) => assert_eq!(p, "b.fits"),
        _ => panic!("an absent listed file must be fatal"),
    }
    assert!(check_file_list(&paths, &vec![true, true]).is_ok());
}

#[test]
fn failure_isolation_keeps_good_rows() {
    // three candidates, one failing: two rows and one recorded failure
    let fields = strings(&["Sample Theta", "Beamline Energy"]);
    let ok1 = build_record(&"d/a_1.fits".to_string(), &hdus_with(xrr_header()), &fields);
    let ok2 = build_record(&"d/a_2.fits".to_string(), &hdus_with(xrr_header()), &fields);
    let mut bad_header = xrr_header();
    bad_header.retain(|e| e.key != "Beamline Energy");
    let bad = build_record(&"d/a_3.fits".to_string(), &hdus_with(bad_header), &fields);
    let (table, failures) = assemble(vec![ok1, ok2, bad]).unwrap();
    assert_eq!(table.height(), 2);
    assert_eq!(failures.len(), 1);
}

#[test]
fn all_files_failed_is_fatal() {
    let fields = strings(&["Sample Theta"]);
    let bad1 = build_record(&"d/one.txt".to_string(), &hdus_with(xrr_header()), &fields);
    let bad2 = build_record(&"d/two.txt".to_string(), &hdus_with(xrr_header()), &fields);
    match assemble(vec![bad1, bad2]) {
        Err(IngestionError::AllFilesFailed) => {},
        _ => panic!("a batch in which every file failed must be fatal"),
    }
}

#[test]
fn assemble_merges_differing_schemas() {
    let a = Table {
        cols: vec![fits_ingest::table::Column {
            name: "x".to_string(),
            cells: vec![CellValue::Int(1)],
        }],
    };
    let b = Table {
        cols: vec![fits_ingest::table::Column {
            name: "y".to_string(),
            cells: vec![CellValue::Int(2)],
        }],
    };
    let (t, failures) = assemble(vec![Ok(a), Ok(b)]).unwrap();
    assert_eq!(failures.len(), 0);
    assert_eq!(t.height(), 2);
    assert_eq!(t.width(), 2);
    assert_eq!(t.cols[0].cells, vec![CellValue::Int(1), CellValue::Null]);
    assert_eq!(t.cols[1].cells, vec![CellValue::Null, CellValue::Int(2)]);
}

#[test]
fn xrr_directory_scenario() {
    // a directory of three fits files, one lacking the beam-energy field,
    // requested as experiment type xrr: two rows, one failure naming the
    // field and the file
    let exp = ExperimentType::from_str("xrr").unwrap();
    let fields: Vec<String> = exp.get_keys().iter().map(|k| k.hdu().to_string()).collect();
    let dir = "scans".to_string();
    let listing = strings(&["scans/s_1.fits", "scans/s_2.fits", "scans/s_3.fits", "scans/notes.md"]);
    let candidates = plan_directory(&dir, true, &listing).unwrap();
    assert_eq!(candidates.len(), 3);
    let mut outcomes = Vec::new();
    for path in &candidates {
        let header = if path == "scans/s_3.fits" {
            let mut h = xrr_header();
            h.retain(|e| e.key != "Beamline Energy");
            h
        } else {
            xrr_header()
        };
        outcomes.push(build_record(path, &hdus_with(header), &fields));
    }
    let (table, failures) = assemble(outcomes).unwrap();
    assert_eq!(table.height(), 2);
    assert_eq!(failures.len(), 1);
    match &failures[0] {
        IngestionError::MissingHeaderField(p, f) => {
            assert_eq!(p, "scans/s_3.fits");
            assert_eq!(f, "Beamline Energy");
        },
        _ => panic!("the failure must name the missing field and the file"),
    }
}

#[test]
fn error_descriptions_name_their_subject() {
    let e = IngestionError::MissingHeaderField("a.fits".to_string(), "Beamline Energy".to_string());
    let d = e.describe();
    assert!(d.contains("Beamline Energy"));
    assert!(d.contains("a.fits"));
    let d2 = IngestionError::InvalidUtf8Path.describe();
    assert!(d2.contains("utf-8"));
}
