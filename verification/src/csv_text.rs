//! Splitting loaded CSV records into features and class labels. Reading the
//! file and parsing typed values stay with the caller; here each record is a
//! row of fields, every field is trimmed, and the label column is taken off
//! either end.

use vstd::prelude::*;

use crate::sanitize::{chars_of, str_views, string_from_chars, trim_chars, trim_spec};

verus! {

/// Where the class label stands in each record.
#[derive(Debug, Clone, Copy, PartialEq, Eq, Structural)]
pub enum ClassPosition {
    /// The class is the first entry in each line.
    First,
    /// The class is the last entry in each line.
    Last,
}

/// Every field trimmed of surrounding whitespace.
pub open spec fn trimmed_views(rec: Seq<String>) -> Seq<Seq<char>> {
    rec.map_values(|s: String| trim_spec(s@))
}

/// The record with its label column removed.
pub open spec fn record_features(rec: Seq<Seq<char>>, class_pos: ClassPosition) -> Seq<Seq<char>> {
    match class_pos {
        ClassPosition::First => rec.drop_first(),
        ClassPosition::Last => rec.drop_last(),
    }
}

/// The label column of the record.
pub open spec fn record_label(rec: Seq<Seq<char>>, class_pos: ClassPosition) -> Seq<char> {
    match class_pos {
        ClassPosition::First => rec[0],
        ClassPosition::Last => rec.last(),
    }
}

/// One field trimmed.
pub fn trim_field(s: &String) -> (r: String)
    ensures
        r@ == trim_spec(s@),
{
    let chars = chars_of(s.as_str());
    let trimmed = trim_chars(&chars);
    string_from_chars(&trimmed)
}

/// Every field of a record trimmed.
pub fn trim_record(rec: &Vec<String>) -> (r: Vec<String>)
    ensures
        str_views(r@) == trimmed_views(rec@),
        r@.len() == rec@.len(),
{
    let n = rec.len();
    let mut r: Vec<String> = Vec::new();
    for i in 0..n
        invariant
            n == rec@.len(),
            r@.len() == i,
            forall|j: int| 0 <= j < i ==> str_views(r@)[j] == trimmed_views(rec@)[j],
    {
        let ghost prev = r@;
        r.push(trim_field(&rec[i]));
        proof {
            assert forall|j: int| 0 <= j < i + 1 implies str_views(r@)[j] == trimmed_views(rec@)[j]
            by {
                if j < i {
                    assert(r@[j] == prev[j]);
                    assert(str_views(prev)[j] == prev[j]@);
                }
                assert(str_views(r@)[j] == r@[j]@);
            }
        }
    }
    proof {
        assert(str_views(r@) =~= trimmed_views(rec@));
    }
    r
}

/// The feature fields of one record: everything but the label column.
pub fn process_features(line: &Vec<String>, class_pos: ClassPosition) -> (r: Vec<String>)
    requires
        line@.len() >= 1,
    ensures
        str_views(r@) == record_features(str_views(line@), class_pos),
{
    let n = line.len();
    let mut r: Vec<String> = Vec::new();
    let (start, end): (usize, usize) = match class_pos {
        ClassPosition::First => (1, n),
        ClassPosition::Last => (0, n - 1),
    };
    let mut i: usize = start;
    while i < end
        invariant
            n == line@.len(),
            n >= 1,
            start <= i <= end <= n,
            (class_pos == ClassPosition::First && start == 1 && end == n) || (class_pos
                == ClassPosition::Last && start == 0 && end == n - 1),
            r@.len() + start == i,
            forall|j: int|
                0 <= j < r@.len() ==> str_views(r@)[j] == str_views(line@)[j + start],
        decreases end - i,
    {
        let ghost prev = r@;
        r.push(line[i].clone());
        proof {
            assert forall|j: int| 0 <= j < r@.len() implies str_views(r@)[j] == str_views(line@)[j
                + start] by {
                if j < prev.len() {
                    assert(r@[j] == prev[j]);
                    assert(str_views(prev)[j] == prev[j]@);
                }
                assert(str_views(r@)[j] == r@[j]@);
            }
        }
        i = i + 1;
    }
    proof {
        assert(str_views(r@) =~= record_features(str_views(line@), class_pos));
    }
    r
}

/// The label field of one record.
pub fn process_label(line: &Vec<String>, class_pos: ClassPosition) -> (r: String)
    requires
        line@.len() >= 1,
    ensures
        r@ == record_label(str_views(line@), class_pos),
{
    match class_pos {
        ClassPosition::First => line[0].clone(),
        ClassPosition::Last => line[line.len() - 1].clone(),
    }
}

/// Splits labeled records into a feature table and a label column, fields
/// trimmed. Every record must have at least the label field.
pub fn parse_csv_with_labels(records: &Vec<Vec<String>>, class_pos: ClassPosition) -> (r: (
    Vec<Vec<String>>,
    Vec<String>,
))
    requires
        forall|i: int| 0 <= i < records@.len() ==> (#[trigger] records@[i])@.len() >= 1,
    ensures
        r.0@.len() == records@.len(),
        r.1@.len() == records@.len(),
        forall|i: int|
            0 <= i < records@.len() ==> str_views((#[trigger] r.0@[i])@) == record_features(
                trimmed_views(records@[i]@),
                class_pos,
            ),
        forall|i: int|
            0 <= i < records@.len() ==> (#[trigger] r.1@[i])@ == record_label(
                trimmed_views(records@[i]@),
                class_pos,
            ),
{
    let n = records.len();
    let mut features: Vec<Vec<String>> = Vec::new();
    let mut labels: Vec<String> = Vec::new();
    for i in 0..n
        invariant
            n == records@.len(),
            forall|k: int| 0 <= k < n ==> (#[trigger] records@[k])@.len() >= 1,
            features@.len() == i,
            labels@.len() == i,
            forall|k: int|
                0 <= k < i ==> str_views((#[trigger] features@[k])@) == record_features(
                    trimmed_views(records@[k]@),
                    class_pos,
                ),
            forall|k: int|
                0 <= k < i ==> (#[trigger] labels@[k])@ == record_label(
                    trimmed_views(records@[k]@),
                    class_pos,
                ),
    {
        let trimmed = trim_record(&records[i]);
        labels.push(process_label(&trimmed, class_pos));
        features.push(process_features(&trimmed, class_pos));
    }
    (features, labels)
}

/// Trims the fields of unlabeled records, row structure kept.
pub fn parse_csv_without_labels(records: &Vec<Vec<String>>) -> (r: Vec<Vec<String>>)
    ensures
        r@.len() == records@.len(),
        forall|i: int|
            0 <= i < records@.len() ==> str_views((#[trigger] r@[i])@) == trimmed_views(
                records@[i]@,
            ),
{
    let n = records.len();
    let mut r: Vec<Vec<String>> = Vec::new();
    for i in 0..n
        invariant
            n == records@.len(),
            r@.len() == i,
            forall|k: int|
                0 <= k < i ==> str_views((#[trigger] r@[k])@) == trimmed_views(records@[k]@),
    {
        r.push(trim_record(&records[i]));
    }
    r
}

} // verus!
