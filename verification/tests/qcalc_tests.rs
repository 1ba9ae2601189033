use fits_ingest::qcalc::{append_q, q_inputs};
use fits_ingest::table::{CellValue, Column, Table};

fn col(name: &str, cells: Vec<CellValue>) -> Column {
    Column { name: name.to_string(), cells }
}

fn theta_energy_table() -> Table {
    Table {
        cols: vec![
            col(
                "Sample Theta",
                vec![CellValue::Float(0.5f64.to_bits()), CellValue::Null],
            ),
            col(
                "Beamline Energy",
                vec![CellValue::Float(500.0f64.to_bits()), CellValue::Float(250.0f64.to_bits())],
            ),
        ],
    }
}

/// The scattering-vector magnitude: q = 4 pi sin(theta) / lambda with
/// lambda = 1e10 h c / E, theta in degrees.
fn q_value(theta_deg: f64, energy: f64) -> f64 {
    let h = 6.62607015e-34;
    let c = 299792458.0;
    let lambda = 1.0e10 * h * c / energy;
    let theta_rad = theta_deg * std::f64::consts::PI / 180.0;
    4.0 * std::f64::consts::PI * theta_rad.sin() / lambda
}

#[test]
fn q_inputs_needs_both_columns() {
    let only_theta = Table {
        cols: vec![col("Sample Theta", vec![CellValue::Float(0.5f64.to_bits())])],
    };
    assert!(q_inputs(&only_theta).is_none());
    let only_energy = Table {
        cols: vec![col("Beamline Energy", vec![CellValue::Float(500.0f64.to_bits())])],
    };
    assert!(q_inputs(&only_energy).is_none());
}

#[test]
fn q_inputs_skips_a_present_derived_column() {
    let mut t = theta_energy_table();
    t.cols.push(col("Q", vec![CellValue::Null, CellValue::Null]));
    assert!(q_inputs(&t).is_none());
}

#[test]
fn q_inputs_pairs_scalar_rows_and_skips_null_rows() {
    let t = theta_energy_table();
    let pairs = q_inputs(&t).unwrap();
    assert_eq!(
        pairs,
        vec![Some((0.5f64.to_bits(), 500.0f64.to_bits())), None]
    );
}

#[test]
fn append_q_adds_one_column() {
    let t = theta_energy_table();
    let q = vec![Some(0.25f64.to_bits()), None];
    let r = append_q(&t, &q);
    assert_eq!(r.width(), 3);
    assert_eq!(r.height(), 2);
    assert_eq!(r.cols[2].name, "Q");
    assert_eq!(
        r.cols[2].cells,
        vec![CellValue::Float(0.25f64.to_bits()), CellValue::Null]
    );
    // the existing columns are untouched
    assert_eq!(r.cols[0], t.cols[0]);
    assert_eq!(r.cols[1], t.cols[1]);
}

#[test]
fn q_derivation_matches_reference_value() {
    // incidence angle 0.5 degrees, beam energy 500: the derivation must
    // match the double-precision reference to 1e-9 relative
    let reference = 2.760228245267166e16;
    let t = theta_energy_table();
    let pairs = q_inputs(&t).unwrap();
    let (theta_bits, energy_bits) = pairs[0].unwrap();
    let q = q_value(f64::from_bits(theta_bits), f64::from_bits(energy_bits));
    assert!(((q - reference) / reference).abs() < 1e-9, "q = {q}");
    let appended = append_q(&t, &vec![Some(q.to_bits()), None]);
    assert_eq!(appended.cols[2].cells[0], CellValue::Float(q.to_bits()));
    assert_eq!(appended.cols[2].cells[1], CellValue::Null);
}
