//! ICS rows of a profile (its PICSX file).
use vstd::prelude::*;
use crate::text::{chars_of, is_text};

verus! {

/// The ICS rows of a profile.
#[derive(Debug)]
pub struct Pics {
    pub rows: Rows,
}

#[derive(Debug)]
pub struct Rows {
    pub rows: Vec<Row>,
}

/// One ICS predicate and its value.
#[derive(Debug)]
pub struct Row {
    pub name: String,
    pub description: String,
    pub value: bool,
    pub mandatory: bool,
}

impl Pics {
    /// The rows, in the order of the file.
    pub fn iter(&self) -> (r: &Vec<Row>)
        ensures
            r@ == self.rows.rows@,
    {
        &self.rows.rows
    }
}

/// Reads the value of a boolean cell: `TRUE` or `FALSE`.
pub fn bool_from_string(s: &str) -> (r: Option<bool>)
    ensures
        r == (if s@ == "TRUE"@ {
            Some(true)
        } else if s@ == "FALSE"@ {
            Some(false)
        } else {
            None
        }),
{
    let c = chars_of(s);
    if is_text(&c, "TRUE") {
        Some(true)
    } else if is_text(&c, "FALSE") {
        Some(false)
    } else {
        None
    }
}

} // verus!
