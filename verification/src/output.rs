//! The outcome handed to the renderer: the scanned elements, a success flag
//! that is true exactly when nothing was found, and an optional free-text
//! caveat.

use vstd::prelude::*;
use crate::analysis::AnalysisElement;

verus! {

pub struct Outcome {
    pub success: bool,
    pub elements: Vec<AnalysisElement>,
    pub note: Option<String>,
}

impl Outcome {
    /// Wraps the scan's elements; success means the scan found nothing.
    pub fn new(elements: Vec<AnalysisElement>, note: Option<String>) -> (r: Outcome)
        ensures
            r.success == (elements@.len() == 0),
            r.elements == elements,
            r.note == note,
    {
        let success = elements.len() == 0;
        Outcome { success, elements, note }
    }
}

} // verus!
