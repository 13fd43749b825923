//! The one irregular field of a calibration: the camera matrix, which stands
//! in the file as an empty array for a sensor that is no camera, and as three
//! rows of three numbers for a camera.
use vstd::prelude::*;

verus! {

/// A JSON value of `serde_json`. Nothing is known of what it holds but
/// through `elements` and `numeric`.
#[verifier::external_type_specification]
#[verifier::external_body]
pub struct ExValue(serde_json::Value);

/// The elements of a JSON array, in order; `None` for a value that is no
/// array.
pub uninterp spec fn elements(v: serde_json::Value) -> Option<Seq<serde_json::Value>>;

/// Whether a JSON value is a number.
pub uninterp spec fn numeric(v: serde_json::Value) -> bool;

/// `serde_json::Value::as_array`: the vector of an array's elements, and
/// `None` for every other value.
pub assume_specification<'a>[ serde_json::Value::as_array ](v: &'a serde_json::Value) -> (out:
    Option<&'a Vec<serde_json::Value>>)
    ensures
        match out {
            Some(a) => elements(*v) == Some(a@),
            None => elements(*v).is_none(),
        },
;

/// `serde_json::Value::is_number`: true for a number, false for every other
/// value.
pub assume_specification[ serde_json::Value::is_number ](v: &serde_json::Value) -> (out: bool)
    ensures
        out == numeric(*v),
;

/// What the field decodes to.
#[derive(Clone, Copy, Debug, PartialEq, Eq)]
pub enum Intrinsic {
    /// No camera matrix: the sensor is no camera.
    Absent,
    /// Three rows of three numbers.
    Matrix,
}

/// Why the field does not decode.
#[derive(Clone, Copy, Debug, PartialEq, Eq)]
pub enum ParseError {
    /// The field is no array.
    NotArray,
    /// The array is neither empty nor of three rows.
    Rows { found: usize },
    /// The row at this place, the first such, is not an array of three
    /// numbers.
    Row { row: usize },
}

/// The length of a row that is an array of numbers only; `None` for any
/// other value.
pub open spec fn row_measure(v: serde_json::Value) -> Option<usize> {
    match elements(v) {
        Some(cells) => if forall|j: int| 0 <= j < cells.len() ==> numeric(#[trigger] cells[j]) {
            Some(cells.len() as usize)
        } else {
            None
        },
        None => None,
    }
}

/// The measures of an array's rows, in order; `None` for a value that is no
/// array.
pub open spec fn measures(v: serde_json::Value) -> Option<Seq<Option<usize>>> {
    match elements(v) {
        Some(rows) => Some(Seq::new(rows.len(), |i: int| row_measure(rows[i]))),
        None => None,
    }
}

/// The first place from `from` on whose row is not of three numbers.
pub open spec fn first_bad(rows: Seq<Option<usize>>, from: int) -> Option<int>
    decreases rows.len() - from,
{
    if from < 0 || from >= rows.len() {
        None
    } else if rows[from] != Some(3usize) {
        Some(from)
    } else {
        first_bad(rows, from + 1)
    }
}

/// What measured rows decode to: nothing where there are no rows, a matrix
/// where there are three rows of three numbers, and an error otherwise.
pub open spec fn decision(rows: Option<Seq<Option<usize>>>) -> Result<Intrinsic, ParseError> {
    match rows {
        None => Err(ParseError::NotArray),
        Some(rows) => if rows.len() == 0 {
            Ok(Intrinsic::Absent)
        } else if rows.len() != 3 {
            Err(ParseError::Rows { found: rows.len() as usize })
        } else {
            match first_bad(rows, 0) {
                Some(i) => Err(ParseError::Row { row: i as usize }),
                None => Ok(Intrinsic::Matrix),
            }
        },
    }
}

/// The rows of an optional vector.
pub open spec fn measured(rows: Option<Vec<Option<usize>>>) -> Option<Seq<Option<usize>>> {
    match rows {
        Some(rows) => Some(rows@),
        None => None,
    }
}

/// Measures one row.
pub fn measure_row(v: &serde_json::Value) -> (out: Option<usize>)
    ensures
        out == row_measure(*v),
{
    match v.as_array() {
        None => None,
        Some(cells) => {
            let mut j: usize = 0;
            while j < cells.len()
                invariant
                    j <= cells.len(),
                    elements(*v) == Some(cells@),
                    forall|k: int| 0 <= k < j ==> numeric(#[trigger] cells@[k]),
                decreases cells.len() - j,
            {
                if !cells[j].is_number() {
                    return None;
                }
                j += 1;
            }
            Some(cells.len())
        },
    }
}

/// Measures the rows of a value.
pub fn measure(v: &serde_json::Value) -> (out: Option<Vec<Option<usize>>>)
    ensures
        measured(out) == measures(*v),
{
    match v.as_array() {
        None => None,
        Some(rows) => {
            let mut out: Vec<Option<usize>> = Vec::new();
            let mut i: usize = 0;
            while i < rows.len()
                invariant
                    i <= rows.len(),
                    out.len() == i,
                    forall|k: int| 0 <= k < i ==> #[trigger] out@[k] == row_measure(rows@[k]),
                decreases rows.len() - i,
            {
                let m = measure_row(&rows[i]);
                out.push(m);
                i += 1;
            }
            proof {
                assert(out@ =~= Seq::new(rows@.len(), |i: int| row_measure(rows@[i])));
            }
            Some(out)
        },
    }
}

/// Decides what measured rows decode to.
pub fn decide(shape: &Option<Vec<Option<usize>>>) -> (out: Result<Intrinsic, ParseError>)
    ensures
        out == decision(measured(*shape)),
{
    match shape {
        None => Err(ParseError::NotArray),
        Some(rows) => {
            if rows.len() == 0 {
                return Ok(Intrinsic::Absent);
            }
            if rows.len() != 3 {
                return Err(ParseError::Rows { found: rows.len() });
            }
            let mut i: usize = 0;
            while i < 3
                invariant
                    i <= 3,
                    rows.len() == 3,
                    measured(*shape) == Some(rows@),
                    first_bad(rows@, 0) == first_bad(rows@, i as int),
                decreases 3 - i,
            {
                let good = match rows[i] {
                    Some(n) => n == 3,
                    None => false,
                };
                if !good {
                    return Err(ParseError::Row { row: i });
                }
                i += 1;
            }
            Ok(Intrinsic::Matrix)
        },
    }
}

/// Decodes the shape of a calibration's camera matrix field.
pub fn intrinsic(v: &serde_json::Value) -> (out: Result<Intrinsic, ParseError>)
    ensures
        out == decision(measures(*v)),
{
    let rows = measure(v);
    decide(&rows)
}

} // verus!
