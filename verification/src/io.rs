//! The persistence store: snapshot text for the whole dataset.
//!
//! The store works on plain values: a caller hands the backing file's
//! contents in (`None` when the file could not be opened) and receives
//! the text of the next full snapshot to write out.  Every save rewrites
//! the whole dataset; there is no partial update.

use vstd::prelude::*;

use crate::codec::chars_to_string;
use crate::codec::parse_snapshot;
use crate::codec::ser_items_chars;
use crate::codec::spec_parse;
use crate::codec::spec_ser;
use crate::models::Item;
use crate::models::spec_item_wf;

verus! {

/// A persistence failure, by kind.
///
/// `WriteFailed` is reported by the layer that performs the actual file
/// write; the store itself only produces the other kinds.
#[derive(Debug, PartialEq, Eq, Clone, Copy, Structural)]
pub enum StoreError {
    FileUnreadable,
    DeserializationFailed,
    EmptyDataset,
    WriteFailed,
}

/// Load the dataset, treating a missing file as an empty store.
///
/// The caller hands the backing file's contents in, `None` when the
/// file could not be opened: that case yields the empty dataset.
/// Contents that are not a snapshot fail with
/// `DeserializationFailed`; the empty snapshot is not an error here.
pub fn read_data_or_create_new_data(contents: Option<&str>) -> (r: Result<Vec<Item>, StoreError>)
    ensures
        contents is None ==> (r matches Ok(v) && v@.len() == 0),
        contents matches Some(s) ==> (match spec_parse(s@) {
            Some(d) => r matches Ok(v) && v.deep_view() == d,
            None => r == Err::<Vec<Item>, StoreError>(StoreError::DeserializationFailed),
        }),
{
    match contents {
        None => Ok(Vec::new()),
        Some(s) => match parse_snapshot(s) {
            Some(v) => Ok(v),
            None => Err(StoreError::DeserializationFailed),
        },
    }
}

/// Load the dataset, treating a missing file and an empty store as
/// failures.
///
/// `None` contents fail with `FileUnreadable`; contents that are not a
/// snapshot fail with `DeserializationFailed`; the empty snapshot fails
/// with `EmptyDataset`.
pub fn read_data_or_panic(contents: Option<&str>) -> (r: Result<Vec<Item>, StoreError>)
    ensures
        contents is None ==> r == Err::<Vec<Item>, StoreError>(StoreError::FileUnreadable),
        contents matches Some(s) ==> (match spec_parse(s@) {
            Some(d) => if d.len() == 0 {
                r == Err::<Vec<Item>, StoreError>(StoreError::EmptyDataset)
            } else {
                r matches Ok(v) && v.deep_view() == d
            },
            None => r == Err::<Vec<Item>, StoreError>(StoreError::DeserializationFailed),
        }),
{
    match contents {
        None => Err(StoreError::FileUnreadable),
        Some(s) => match parse_snapshot(s) {
            Some(v) => if v.len() == 0 {
                Err(StoreError::EmptyDataset)
            } else {
                Ok(v)
            },
            None => Err(StoreError::DeserializationFailed),
        },
    }
}

/// The full-snapshot text for the dataset: the caller replaces the
/// backing file's contents with exactly this text.  Every save rewrites
/// the whole dataset; the empty dataset writes the empty snapshot.
pub fn write_to_json(data: &Vec<Item>) -> (r: String)
    requires
        forall|i: int| 0 <= i < data@.len() ==> spec_item_wf(#[trigger] data.deep_view()[i]),
    ensures
        r@ == spec_ser(data.deep_view()),
{
    let chars: Vec<char> = ser_items_chars(data);
    chars_to_string(&chars)
}

} // verus!
