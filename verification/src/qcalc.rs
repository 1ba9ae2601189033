//! The derived-quantity evaluator's decision logic.
//!
//! After the merge, one derived column may be appended: the scattering
//! vector magnitude, computed per row from the incidence angle and the
//! beam energy.  The arithmetic itself is double-precision floating point
//! and lives outside this crate; here stand the two verified halves around
//! it: deciding whether and from which cells the quantity is to be
//! computed, and appending the computed column.  A row whose angle or
//! energy cell is null yields a null derived cell.

use vstd::prelude::*;

use crate::table::{cells_view, duplicate_cells, CellV, CellValue, ColV, Column, Table, TableV};

verus! {

/// The per-row derivation inputs: the angle and energy bit patterns where
/// both cells carry a scalar, absent otherwise.
pub open spec fn spec_q_inputs(t: TableV) -> Seq<Option<(u64, u64)>> {
    Seq::new(
        t.height(),
        |i: int|
            match (t.cell("Sample Theta"@, i), t.cell("Beamline Energy"@, i)) {
                (CellV::Float(a), CellV::Float(b)) => Some((a, b)),
                _ => None,
            },
    )
}

/// Whether the derived column is to be computed at all: both source
/// columns present, and no derived column yet.
pub open spec fn spec_q_applies(t: TableV) -> bool {
    &&& t.has_col("Sample Theta"@)
    &&& t.has_col("Beamline Energy"@)
    &&& !t.has_col("Q"@)
}

/// The evaluator's decision: the per-row derivation inputs when the table
/// carries both source columns and no derived column yet, else nothing.
pub fn q_inputs(t: &Table) -> (r: Option<Vec<Option<(u64, u64)>>>)
    requires
        t@.wf(),
    ensures
        match r {
            Some(v) => spec_q_applies(t@) && v@ == spec_q_inputs(t@),
            None => !spec_q_applies(t@),
        },
{
    let theta_ix = match t.find_col(&String::from_str("Sample Theta")) {
        Some(i) => i,
        None => {
            return None;
        },
    };
    let energy_ix = match t.find_col(&String::from_str("Beamline Energy")) {
        Some(i) => i,
        None => {
            return None;
        },
    };
    match t.find_col(&String::from_str("Q")) {
        Some(_) => {
            return None;
        },
        None => {},
    };
    proof {
        crate::table::lemma_col_at_index(t@, theta_ix as int);
        crate::table::lemma_col_at_index(t@, energy_ix as int);
        assert(t@.col("Sample Theta"@) == t@.cols[theta_ix as int]);
        assert(t@.col("Beamline Energy"@) == t@.cols[energy_ix as int]);
    }
    let h = t.height();
    assert(t@.cols[theta_ix as int].cells.len() == t@.height());
    assert(t@.cols[energy_ix as int].cells.len() == t@.height());
    let mut v: Vec<Option<(u64, u64)>> = Vec::new();
    for i in 0..h
        invariant
            h == t@.height(),
            theta_ix < t@.cols.len(),
            energy_ix < t@.cols.len(),
            t@.col("Sample Theta"@) == t@.cols[theta_ix as int],
            t@.col("Beamline Energy"@) == t@.cols[energy_ix as int],
            t@.cols[theta_ix as int].cells.len() == h,
            t@.cols[energy_ix as int].cells.len() == h,
            v@.len() == i,
            forall|j: int| 0 <= j < i ==> #[trigger] v@[j] == spec_q_inputs(t@)[j],
    {
        let a = &t.cols[theta_ix].cells[i];
        let b = &t.cols[energy_ix].cells[i];
        let entry: Option<(u64, u64)> = match (a, b) {
            (CellValue::Float(x), CellValue::Float(y)) => Some((*x, *y)),
            _ => None,
        };
        proof {
            let ii = i as int;
            assert(t@.cell("Sample Theta"@, ii) == t.cols@[theta_ix as int].cells@[ii]@);
            assert(t@.cell("Beamline Energy"@, ii) == t.cols@[energy_ix as int].cells@[ii]@);
        }
        v.push(entry);
    }
    assert(v@ =~= spec_q_inputs(t@));
    Some(v)
}

/// The cells of the derived column, one per computed value.
pub open spec fn spec_q_cells(q: Seq<Option<u64>>) -> Seq<CellV> {
    Seq::new(
        q.len(),
        |i: int|
            match q[i] {
                Some(b) => CellV::Float(b),
                None => CellV::Null,
            },
    )
}

impl Table {
    /// An exact copy of the table.
    pub fn duplicate(&self) -> (r: Table)
        ensures
            r@ == self@,
    {
        let mut cols: Vec<Column> = Vec::new();
        let n = self.cols.len();
        for i in 0..n
            invariant
                n == self.cols@.len(),
                cols@.len() == i,
                forall|j: int| 0 <= j < i ==> #[trigger] cols@[j]@ == self.cols@[j]@,
        {
            let c = &self.cols[i];
            cols.push(Column { name: c.name.clone(), cells: duplicate_cells(&c.cells) });
            assert(cols@[i as int]@ =~= self.cols@[i as int]@);
        }
        let r = Table { cols };
        assert(r@.cols =~= self@.cols);
        assert(r@ =~= self@);
        r
    }
}

/// Appends the derived column under its name, one scalar or null per row,
/// leaving every existing column unchanged.
pub fn append_q(t: &Table, q: &Vec<Option<u64>>) -> (r: Table)
    requires
        t@.wf(),
        q@.len() == t@.height(),
        !t@.has_col("Q"@),
    ensures
        r@.wf(),
        r@.cols == t@.cols.push(ColV { name: "Q"@, cells: spec_q_cells(q@) }),
        r@.height() == t@.height(),
{
    let copy = t.duplicate();
    let mut cols = copy.cols;
    let mut cells: Vec<CellValue> = Vec::new();
    let nq = q.len();
    for i in 0..nq
        invariant
            nq == q@.len(),
            cells@.len() == i,
            forall|j: int| 0 <= j < i ==> #[trigger] cells@[j]@ == spec_q_cells(q@)[j],
    {
        let cell = match q[i] {
            Some(b) => CellValue::Float(b),
            None => CellValue::Null,
        };
        cells.push(cell);
    }
    assert(cells_view(cells@) =~= spec_q_cells(q@));
    cols.push(Column { name: String::from_str("Q"), cells });
    let r = Table { cols };
    proof {
        assert(r@.cols =~= t@.cols.push(
            ColV { name: "Q"@, cells: spec_q_cells(q@) },
        ));
        let rv = r@;
        assert(rv.cols.len() == t@.cols.len() + 1);
        if t@.cols.len() > 0 {
            assert(rv.cols[0] == t@.cols[0]);
            assert(rv.height() == t@.height());
        } else {
            assert(rv.height() == rv.cols[0].cells.len());
        }
        assert forall|k: int|
            0 <= k < rv.cols.len() implies (#[trigger] rv.cols[k].cells.len())
            == rv.height() by {
            if k < t@.cols.len() {
                assert(rv.cols[k] == t@.cols[k]);
            }
        }
        assert forall|k1: int, k2: int|
            0 <= k1 < k2 < rv.cols.len() implies rv.cols[k1].name != rv.cols[k2].name by {
            if k2 < t@.cols.len() {
                assert(t@.cols[k1].name != t@.cols[k2].name);
            } else {
                assert(rv.cols[k2].name == "Q"@);
                if rv.cols[k1].name == "Q"@ {
                    assert(t@.names()[k1] == "Q"@);
                    assert(t@.has_col("Q"@));
                }
            }
        }
    }
    r
}

} // verus!
