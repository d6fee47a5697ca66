//! The earlier record splitter: the class label always stands in the last
//! column.

use vstd::prelude::*;

use crate::csv_text::{ClassPosition, record_features, record_label, trimmed_views};
use crate::sanitize::str_views;

verus! {

/// Splits labeled records into a feature table and a label column; the
/// label is the last field of every record.
pub fn parse_csv_with_labels(records: &Vec<Vec<String>>) -> (r: (Vec<Vec<String>>, Vec<String>))
    requires
        forall|i: int| 0 <= i < records@.len() ==> (#[trigger] records@[i])@.len() >= 1,
    ensures
        r.0@.len() == records@.len(),
        r.1@.len() == records@.len(),
        forall|i: int|
            0 <= i < records@.len() ==> str_views((#[trigger] r.0@[i])@) == record_features(
                trimmed_views(records@[i]@),
                ClassPosition::Last,
            ),
        forall|i: int|
            0 <= i < records@.len() ==> (#[trigger] r.1@[i])@ == record_label(
                trimmed_views(records@[i]@),
                ClassPosition::Last,
            ),
{
    crate::csv_text::parse_csv_with_labels(records, ClassPosition::Last)
}

} // verus!
