//! IXIT rows of a profile (its PIXITX file).
use vstd::prelude::*;

verus! {

/// The IXIT rows of a profile.
#[derive(Debug)]
pub struct Pixit {
    pub name: String,
    pub version: String,
    pub rows: Rows,
}

#[derive(Debug)]
pub struct Rows {
    pub rows: Vec<Row>,
}

/// One IXIT parameter. Some files repeat the type: the first one counts.
#[derive(Debug)]
pub struct Row {
    pub name: String,
    pub description: String,
    pub value_type: Vec<String>,
    pub value: String,
}

impl Pixit {
    /// The rows, in the order of the file.
    pub fn iter(&self) -> (r: &Vec<Row>)
        ensures
            r@ == self.rows.rows@,
    {
        &self.rows.rows
    }
}

} // verus!
