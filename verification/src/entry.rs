//! The entries of a recording: records of samples and lines of comment.

use crate::data_types::{DataType, KINDS};
use vstd::prelude::*;

verus! {

/// One entry of a recording.
#[derive(Debug, Clone, PartialEq)]
pub enum Data {
    /// A line of free text: a command that was issued, or a note.
    Command(String),
    /// The samples taken at one time, given in milliseconds since the start
    /// of the session.
    RecordData(u128, Vec<DataType>),
    /// A record laid out by column: slot `d` holds the sample of the kind
    /// with discriminant `d`, if the record has one.
    RecordDataOption(u128, Vec<Option<DataType>>),
}

/// What an entry holds.
#[verifier::ext_equal]
pub enum Entry {
    Comment(Seq<char>),
    Record(u128, Seq<DataType>),
    Pivoted(u128, Seq<Option<DataType>>),
}

impl View for Data {
    type V = Entry;

    open spec fn view(&self) -> Entry {
        match self {
            Data::Command(s) => Entry::Comment(s@),
            Data::RecordData(t, d) => Entry::Record(*t, d@),
            Data::RecordDataOption(t, d) => Entry::Pivoted(*t, d@),
        }
    }
}

/// What a list of entries holds, entry by entry.
pub open spec fn entries_of(data: Seq<Data>) -> Seq<Entry> {
    data.map_values(|d: Data| d@)
}

/// Whether one of the samples is of the kind with discriminant `d`.
pub open spec fn holds_kind(samples: Seq<DataType>, d: int) -> bool {
    exists|j: int| 0 <= j < samples.len() && (#[trigger] samples[j]).discriminant() == d
}

/// Whether no two of the samples are of one kind.
pub open spec fn distinct_kinds(samples: Seq<DataType>) -> bool {
    forall|i: int, j: int|
        0 <= i < j < samples.len() ==> (#[trigger] samples[i]).discriminant() != (
        #[trigger] samples[j]).discriminant()
}

/// A table with one mark for each kind of the catalog, none of them set.
pub fn no_kinds() -> (marks: Vec<bool>)
    ensures
        marks.len() == KINDS,
        forall|d: int| 0 <= d < KINDS ==> !marks[d],
{
    let mut marks: Vec<bool> = Vec::new();
    while marks.len() < KINDS as usize
        invariant
            marks.len() <= KINDS,
            forall|d: int| 0 <= d < marks.len() ==> !marks[d],
        decreases KINDS - marks.len(),
    {
        marks.push(false);
    }
    marks
}

/// A copy of the samples.
pub fn copy_samples(samples: &Vec<DataType>) -> (r: Vec<DataType>)
    ensures
        r@ == samples@,
{
    let mut r: Vec<DataType> = Vec::new();
    let mut i: usize = 0;
    while i < samples.len()
        invariant
            i <= samples.len(),
            r@ == samples@.take(i as int),
        decreases samples.len() - i,
    {
        r.push(samples[i]);
        assert(samples@.take(i as int).push(samples@[i as int]) =~= samples@.take(i + 1));
        i = i + 1;
    }
    assert(samples@.take(samples.len() as int) =~= samples@);
    r
}

/// A copy of the slots.
pub fn copy_slots(slots: &Vec<Option<DataType>>) -> (r: Vec<Option<DataType>>)
    ensures
        r@ == slots@,
{
    let mut r: Vec<Option<DataType>> = Vec::new();
    let mut i: usize = 0;
    while i < slots.len()
        invariant
            i <= slots.len(),
            r@ == slots@.take(i as int),
        decreases slots.len() - i,
    {
        r.push(slots[i]);
        assert(slots@.take(i as int).push(slots@[i as int]) =~= slots@.take(i + 1));
        i = i + 1;
    }
    assert(slots@.take(slots.len() as int) =~= slots@);
    r
}

/// A copy of the entry.
pub fn copy_data(data: &Data) -> (r: Data)
    ensures
        r@ == data@,
{
    match data {
        Data::Command(s) => Data::Command(s.clone()),
        Data::RecordData(t, d) => Data::RecordData(*t, copy_samples(d)),
        Data::RecordDataOption(t, d) => Data::RecordDataOption(*t, copy_slots(d)),
    }
}

/// A copy of the entries.
pub fn copy_entries(data: &Vec<Data>) -> (r: Vec<Data>)
    ensures
        entries_of(r@) == entries_of(data@),
        r.len() == data.len(),
{
    let mut r: Vec<Data> = Vec::new();
    let mut i: usize = 0;
    while i < data.len()
        invariant
            i <= data.len(),
            r.len() == i,
            forall|k: int| 0 <= k < i ==> (#[trigger] r@[k])@ == data@[k]@,
        decreases data.len() - i,
    {
        r.push(copy_data(&data[i]));
        i = i + 1;
    }
    assert(entries_of(r@) =~= entries_of(data@));
    r
}

} // verus!
