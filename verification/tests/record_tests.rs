use fits_ingest::errors::IngestionError;
use fits_ingest::image::{ImageEncoding, ImagePayload};
use fits_ingest::record::{build_record, Hdu, HeaderEntry};
use fits_ingest::table::CellValue;

fn entry(key: &str, value: f64) -> HeaderEntry {
    HeaderEntry { key: key.to_string(), value: CellValue::Float(value.to_bits()) }
}

fn xrr_fields() -> Vec<String> {
    vec![
        "Sample Theta".to_string(),
        "CCD Theta".to_string(),
        "Beamline Energy".to_string(),
        "Beam Current".to_string(),
        "EPU Polarization".to_string(),
        "Horizontal Exit Slit Size".to_string(),
        "Higher Order Suppressor".to_string(),
        "EXPOSURE".to_string(),
    ]
}

fn full_header() -> Vec<HeaderEntry> {
    vec![
        entry("Sample Theta", 0.5),
        entry("CCD Theta", 1.0),
        entry("Beamline Energy", 500.0),
        entry("Beam Current", 400.25),
        entry("EPU Polarization", 0.0),
        entry("Horizontal Exit Slit Size", 50.0),
        entry("Higher Order Suppressor", 11.0),
        entry("EXPOSURE", 2.5),
    ]
}

fn image_at_canonical() -> Vec<Hdu> {
    vec![
        Hdu::Primary(full_header()),
        Hdu::OtherKind,
        Hdu::Image(ImagePayload { data: ImageEncoding::I16(vec![1, 2, 3, 4, 5, 6]), rows: 2, cols: 3 }),
    ]
}

#[test]
fn build_record_produces_one_row() {
    let path = "data/xrr_00123.fits".to_string();
    let t = build_record(&path, &image_at_canonical(), &xrr_fields()).unwrap();
    let names: Vec<String> = t.cols.iter().map(|c| c.name.clone()).collect();
    assert_eq!(
        names,
        vec![
            "Sample Theta",
            "CCD Theta",
            "Beamline Energy",
            "Beam Current",
            "EPU Polarization",
            "Horizontal Exit Slit Size",
            "Higher Order Suppressor",
            "EXPOSURE",
            "Image",
            "Shape",
            "File Name",
            "Scan ID",
        ]
    );
    assert_eq!(t.height(), 1);
    assert_eq!(t.cols[0].cells, vec![CellValue::Float(0.5f64.to_bits())]);
    assert_eq!(t.cols[2].cells, vec![CellValue::Float(500.0f64.to_bits())]);
    assert_eq!(t.cols[8].cells, vec![CellValue::IntList(vec![1, 2, 3, 4, 5, 6])]);
    assert_eq!(t.cols[9].cells, vec![CellValue::IntList(vec![2, 3])]);
    assert_eq!(t.cols[10].cells, vec![CellValue::Str("xrr_00123".to_string())]);
    assert_eq!(t.cols[11].cells, vec![CellValue::Int(123)]);
}

#[test]
fn build_record_skips_derived_field_name() {
    let path = "a/b/run_7.fits".to_string();
    let fields = vec!["Sample Theta".to_string(), "Q".to_string(), "Beamline Energy".to_string()];
    let t = build_record(&path, &image_at_canonical(), &fields).unwrap();
    let names: Vec<String> = t.cols.iter().map(|c| c.name.clone()).collect();
    assert_eq!(
        names,
        vec!["Sample Theta", "Beamline Energy", "Image", "Shape", "File Name", "Scan ID"]
    );
    assert_eq!(t.cols[5].cells, vec![CellValue::Int(7)]);
}

#[test]
fn build_record_with_no_fields_keeps_builtin_columns() {
    let path = "d/empty_0.fits".to_string();
    let t = build_record(&path, &image_at_canonical(), &vec![]).unwrap();
    let names: Vec<String> = t.cols.iter().map(|c| c.name.clone()).collect();
    assert_eq!(names, vec!["Image", "Shape", "File Name", "Scan ID"]);
    assert_eq!(t.height(), 1);
    assert_eq!(t.cols[3].cells, vec![CellValue::Int(0)]);
}

#[test]
fn build_record_rejects_non_fits_extension() {
    let path = "data/notes.txt".to_string();
    match build_record(&path, &image_at_canonical(), &xrr_fields()) {
        Err(IngestionError::NotAFitsFile(p)) => assert_eq!(p, path),
        _ => panic!("a non-fits path must be rejected"),
    }
}

#[test]
fn build_record_names_missing_field_and_file() {
    let path = "data/bad_42.fits".to_string();
    let mut header = full_header();
    header.retain(|e| e.key != "Beamline Energy");
    let hdus = vec![
        Hdu::Primary(header),
        Hdu::OtherKind,
        Hdu::Image(ImagePayload { data: ImageEncoding::I16(vec![0]), rows: 1, cols: 1 }),
    ];
    match build_record(&path, &hdus, &xrr_fields()) {
        Err(IngestionError::MissingHeaderField(p, f)) => {
            assert_eq!(p, path);
            assert_eq!(f, "Beamline Energy");
        },
        _ => panic!("a missing header field must name the field and the file"),
    }
}

#[test]
fn build_record_falls_back_to_second_image_position() {
    let path = "x.fits".to_string();
    let hdus = vec![
        Hdu::Primary(full_header()),
        Hdu::Image(ImagePayload { data: ImageEncoding::U8(vec![9, 8]), rows: 1, cols: 2 }),
    ];
    let t = build_record(&path, &hdus, &vec!["Sample Theta".to_string()]).unwrap();
    assert_eq!(t.cols[1].cells, vec![CellValue::IntList(vec![9, 8])]);
    // the file name has no digit run, so the scan number degrades to null
    assert_eq!(t.cols[3].cells, vec![CellValue::Str("x".to_string())]);
    assert_eq!(t.cols[4].cells, vec![CellValue::Null]);
}

#[test]
fn build_record_reports_missing_image() {
    let path = "x.fits".to_string();
    let hdus = vec![Hdu::Primary(full_header()), Hdu::OtherKind, Hdu::OtherKind];
    match build_record(&path, &hdus, &vec!["Sample Theta".to_string()]) {
        Err(IngestionError::MissingImageHdu(p)) => assert_eq!(p, path),
        _ => panic!("a batch without an image payload must say so"),
    }
}

#[test]
fn build_record_reports_missing_primary() {
    let path = "x.fits".to_string();
    let hdus = vec![
        Hdu::OtherKind,
        Hdu::Image(ImagePayload { data: ImageEncoding::U8(vec![1]), rows: 1, cols: 1 }),
        Hdu::OtherKind,
    ];
    assert!(matches!(
        build_record(&path, &hdus, &vec![]),
        Err(IngestionError::ContainerDecodeFailure(_, _))
    ));
}

#[test]
fn build_record_rejects_unsupported_encoding() {
    let path = "x.fits".to_string();
    let hdus = vec![
        Hdu::Primary(full_header()),
        Hdu::OtherKind,
        Hdu::Image(ImagePayload { data: ImageEncoding::Unsupported, rows: 1, cols: 1 }),
    ];
    match build_record(&path, &hdus, &vec!["Sample Theta".to_string()]) {
        Err(IngestionError::UnsupportedImageEncoding(p)) => assert_eq!(p, path),
        _ => panic!("an unsupported encoding must be distinguishable"),
    }
}

#[test]
fn build_record_rejects_shape_mismatch() {
    let path = "x.fits".to_string();
    let hdus = vec![
        Hdu::Primary(full_header()),
        Hdu::OtherKind,
        Hdu::Image(ImagePayload { data: ImageEncoding::I16(vec![1, 2, 3]), rows: 2, cols: 2 }),
    ];
    assert!(matches!(
        build_record(&path, &hdus, &vec!["Sample Theta".to_string()]),
        Err(IngestionError::ContainerDecodeFailure(_, _))
    ));
}

#[test]
fn build_record_rejects_duplicate_fields() {
    let path = "x.fits".to_string();
    let fields = vec!["Sample Theta".to_string(), "Sample Theta".to_string()];
    assert!(matches!(
        build_record(&path, &image_at_canonical(), &fields),
        Err(IngestionError::TableConstructionFailure)
    ));
}

#[test]
fn build_record_rejects_reserved_field_names() {
    let path = "x.fits".to_string();
    let mut hdus = image_at_canonical();
    if let Hdu::Primary(header) = &mut hdus[0] {
        header.push(entry("Image", 1.0));
    }
    let fields = vec!["Image".to_string()];
    assert!(matches!(
        build_record(&path, &hdus, &fields),
        Err(IngestionError::TableConstructionFailure)
    ));
}

#[test]
fn widening_is_encoding_agnostic() {
    // identical logical values in different source encodings yield the
    // same canonical samples
    let path = "x.fits".to_string();
    let from_i16 = ImagePayload { data: ImageEncoding::I16(vec![0, 7, -3, 256]), rows: 2, cols: 2 };
    let from_i32 = ImagePayload { data: ImageEncoding::I32(vec![0, 7, -3, 256]), rows: 2, cols: 2 };
    let float_samples: Vec<f64> = vec![0.0, 7.0, -3.0, 256.0];
    let from_floats = ImagePayload {
        data: ImageEncoding::Widened(float_samples.iter().map(|x| *x as i64).collect()),
        rows: 2,
        cols: 2,
    };
    let a = from_i16.widen(&path).unwrap();
    let b = from_i32.widen(&path).unwrap();
    let c = from_floats.widen(&path).unwrap();
    assert_eq!(a.values, vec![0, 7, -3, 256]);
    assert_eq!(a.values, b.values);
    assert_eq!(a.values, c.values);
    assert_eq!((a.rows, a.cols), (2, 2));
}

#[test]
fn u8_samples_widen_losslessly() {
    let path = "x.fits".to_string();
    let p = ImagePayload { data: ImageEncoding::U8(vec![0, 255, 128]), rows: 1, cols: 3 };
    let d = p.widen(&path).unwrap();
    assert_eq!(d.values, vec![0, 255, 128]);
}
