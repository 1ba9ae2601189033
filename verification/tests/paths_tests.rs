use fits_ingest::paths::{basename, has_fits_extension, parse_scan_id, stem_of};

#[test]
fn basename_takes_the_final_component() {
    assert_eq!(basename("a/b/c.fits"), "c.fits");
    assert_eq!(basename("c.fits"), "c.fits");
    assert_eq!(basename("a/b/"), "");
}

#[test]
fn extension_is_checked_on_the_name_alone() {
    assert!(has_fits_extension("a/b/c.fits"));
    assert!(has_fits_extension("run_1.fits"));
    assert!(!has_fits_extension("a/b/c.txt"));
    assert!(!has_fits_extension("a/b/cfits"));
    // a name that starts with its only dot has no extension
    assert!(!has_fits_extension("a/.fits"));
    // the extension comparison is case-sensitive
    assert!(!has_fits_extension("a/c.FITS"));
    // only the file name counts, not a directory named like one
    assert!(!has_fits_extension("c.fits/readme"));
}

#[test]
fn stem_drops_the_extension() {
    assert_eq!(stem_of("a/b/run_00123.fits"), "run_00123");
    assert_eq!(stem_of("a/b/noext"), "noext");
    assert_eq!(stem_of("a/.hidden"), ".hidden");
    assert_eq!(stem_of("archive.tar.fits"), "archive.tar");
}

#[test]
fn scan_id_reads_the_trailing_digit_run() {
    assert_eq!(parse_scan_id("a/run_00123.fits"), Some(123));
    assert_eq!(parse_scan_id("a/7.fits"), Some(7));
    assert_eq!(parse_scan_id("a/scan42end.fits"), None);
    assert_eq!(parse_scan_id("a/nodigits.fits"), None);
    assert_eq!(parse_scan_id("a/mixed_9a8.fits"), Some(8));
}

#[test]
fn scan_id_degrades_on_oversized_runs() {
    // the run is capped at 18 digits; longer runs yield the sentinel
    assert_eq!(parse_scan_id("a/x123456789012345678.fits"), Some(123456789012345678));
    assert_eq!(parse_scan_id("a/x1234567890123456789.fits"), None);
}
