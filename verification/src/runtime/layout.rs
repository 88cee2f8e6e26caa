//! Memory layouts of reference values.
//!
//! Exactly how a `string`, `array`, `map`, and `record` are laid out in the
//! [arena](super::arena), so that native code can load and store header fields and payloads
//! at constant offsets. All payload cells are [`Slot`](super::repr::Slot)-sized, so that
//! element and field access is a single shifted load.
use vstd::prelude::*;
use crate::names::{get_of, keys_of};
use crate::runtime::repr::{repr_of, Repr};
use crate::text::same;
use crate::types::{Fields, TypeV};

verus! {

/// Size of one payload cell in bytes.
pub const SLOT_SIZE: usize = 8;

/// Alignment of a reference object's header and payload.
pub const OBJECT_ALIGN: usize = 8;

/// Header of a `string`: an immutable, length-prefixed byte buffer. The bytes follow inline.
#[derive(Clone, Copy, Debug)]
pub struct GStringHeader {
    /// Number of bytes that follow the header.
    pub len: u32,
}

/// Byte offset of a string's payload from the start of its object.
pub const GSTRING_BYTES_OFFSET: usize = 4;

/// Header of an `array<T>`: length and capacity, followed by the payload cells. Arrays are
/// 1-based at the language level; element `i` lives at payload index `i - 1`.
#[derive(Clone, Copy, Debug)]
pub struct GArrayHeader {
    /// Number of live elements.
    pub len: u32,
    /// Number of element cells allocated.
    pub cap: u32,
}

/// Byte offset of an array's payload from the start of its object.
pub const GARRAY_DATA_OFFSET: usize = 8;

/// Byte offset of an element from the start of its array.
pub open spec fn elem_offset(index_0: int) -> int {
    GARRAY_DATA_OFFSET + index_0 * SLOT_SIZE
}

/// Byte offset of array element `index_0` (0-based) from the start of the object.
pub fn array_elem_offset(index_0: usize) -> (r: usize)
    requires
        elem_offset(index_0 as int) <= usize::MAX,
    ensures
        r == elem_offset(index_0 as int),
{
    GARRAY_DATA_OFFSET + index_0 * SLOT_SIZE
}

/// Header of a `map<string, T>`: entries sorted by key, a key handle cell and a value cell
/// each.
#[derive(Clone, Copy, Debug)]
pub struct GMapHeader {
    /// Number of entries.
    pub len: u32,
    /// Number of entry slots allocated.
    pub cap: u32,
}

/// Byte offset of a map's entries from the start of its object.
pub const GMAP_DATA_OFFSET: usize = 8;

/// Bytes per map entry: one key cell and one value cell.
pub const GMAP_ENTRY_SIZE: usize = 16;

/// The place of `k` among keys from `i` on.
pub open spec fn key_index(keys: Seq<Seq<char>>, k: Seq<char>, i: int) -> Option<int>
    decreases keys.len() - i,
{
    if i < 0 || i >= keys.len() {
        None
    } else if keys[i] == k {
        Some(i)
    } else {
        key_index(keys, k, i + 1)
    }
}

/// Byte offset of a record's field: a record is a flat tuple of cells, one per field in the
/// order of the keys.
pub open spec fn field_offset(fields: Seq<(Seq<char>, TypeV)>, field: Seq<char>) -> Option<int> {
    match key_index(keys_of(fields), field, 0) {
        Some(i) => Some(i * SLOT_SIZE),
        None => None,
    }
}

/// Byte offset of `field` within a record value; none if it is not part of the record.
pub fn record_field_offset(fields: &Fields, field: &str) -> (r: Option<usize>)
    requires
        fields@.len() * SLOT_SIZE <= usize::MAX,
    ensures
        match r {
            Some(o) => field_offset(fields@, field@) == Some(o as int),
            None => field_offset(fields@, field@) is None,
        },
{
    let ghost keys = keys_of(fields@);
    let mut i: usize = 0;
    while i < fields.len()
        invariant
            i <= fields@.len(),
            fields@.len() * SLOT_SIZE <= usize::MAX,
            keys == keys_of(fields@),
            key_index(keys, field@, i as int) == key_index(keys, field@, 0),
        decreases fields@.len() - i,
    {
        if same(fields.key(i).as_str(), field) {
            return Some(i * SLOT_SIZE);
        }
        i += 1;
    }
    None
}

/// Total size in bytes of a record value (one cell per field).
pub fn record_size(fields: &Fields) -> (r: usize)
    requires
        fields@.len() * SLOT_SIZE <= usize::MAX,
    ensures
        r == fields@.len() * SLOT_SIZE,
{
    fields.len() * SLOT_SIZE
}

/// The [`Repr`] of a record field, if present.
pub fn record_field_repr(fields: &Fields, field: &str) -> (r: Option<Repr>)
    ensures
        r == match get_of(fields@, field@) {
            Some(t) => Some(repr_of(t)),
            None => None,
        },
{
    match fields.get(field) {
        Some(t) => Some(Repr::of(t)),
        None => None,
    }
}

proof fn lemma_key_index(keys: Seq<Seq<char>>, k: Seq<char>, i: int)
    requires
        0 <= i <= keys.len(),
    ensures
        match key_index(keys, k, i) {
            Some(j) => i <= j < keys.len() && keys[j] == k,
            None => forall|j: int| i <= j < keys.len() ==> (#[trigger] keys[j]) != k,
        },
    decreases keys.len() - i,
{
    if i < keys.len() && keys[i] != k {
        lemma_key_index(keys, k, i + 1);
    }
}

/// Fields of a record do not overlap, each lies inside the record, and each starts at a
/// multiple of the cell size.
pub proof fn law_fields_do_not_overlap(
    fields: Seq<(Seq<char>, TypeV)>,
    a: Seq<char>,
    b: Seq<char>,
)
    requires
        field_offset(fields, a) is Some,
        field_offset(fields, b) is Some,
    ensures
        a != b ==> field_offset(fields, a)->0 + SLOT_SIZE <= field_offset(fields, b)->0
            || field_offset(fields, b)->0 + SLOT_SIZE <= field_offset(fields, a)->0,
        0 <= field_offset(fields, a)->0,
        field_offset(fields, a)->0 + SLOT_SIZE <= fields.len() * SLOT_SIZE,
        field_offset(fields, a)->0 % (OBJECT_ALIGN as int) == 0,
{
    lemma_key_index(keys_of(fields), a, 0);
    lemma_key_index(keys_of(fields), b, 0);
}

} // verus!
