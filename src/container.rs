//! What the container format's own parser reports of a buffer.
use vstd::prelude::*;

use safetensors::tensor::Metadata;
use safetensors::{SafeTensorError, SafeTensors};

use crate::header::{declared_length, le_u64};

verus! {

#[verifier::external_type_specification]
#[verifier::external_body]
pub struct ExSafeTensorError(SafeTensorError);

/// What the container parser reads from a buffer: `None` where it refuses the
/// buffer; otherwise the free-form metadata table (`None` where the header has
/// none) and the map from tensor name to shape.
pub uninterp spec fn parsed_header(buffer: Seq<u8>) -> Option<
    (Option<Map<Seq<char>, Seq<char>>>, Map<Seq<char>, Seq<usize>>),
>;

/// `entries` lists the map `m`: one entry per key, no key twice.
pub open spec fn lists_table(entries: Seq<(String, String)>, m: Map<Seq<char>, Seq<char>>) -> bool {
    &&& forall|i: int, j: int|
        0 <= i < j < entries.len() ==> (#[trigger] entries[i]).0@ != (#[trigger] entries[j]).0@
    &&& forall|i: int|
        0 <= i < entries.len() ==> m.contains_key((#[trigger] entries[i]).0@) && m[entries[i].0@]
            == entries[i].1@
    &&& forall|k: Seq<char>|
        #[trigger] m.contains_key(k) ==> exists|i: int| 0 <= i < entries.len() && (#[trigger] entries[i]).0@ == k
}

/// `entries` lists the map `m` from tensor name to shape: one entry per name,
/// no name twice.
pub open spec fn lists_shapes(
    entries: Seq<(String, Vec<usize>)>,
    m: Map<Seq<char>, Seq<usize>>,
) -> bool {
    &&& forall|i: int, j: int|
        0 <= i < j < entries.len() ==> (#[trigger] entries[i]).0@ != (#[trigger] entries[j]).0@
    &&& forall|i: int|
        0 <= i < entries.len() ==> m.contains_key((#[trigger] entries[i]).0@) && m[entries[i].0@]
            == entries[i].1@
    &&& forall|k: Seq<char>|
        #[trigger] m.contains_key(k) ==> exists|i: int| 0 <= i < entries.len() && (#[trigger] entries[i]).0@ == k
}

/// The end offsets of the tensor data that a header's JSON text declares, as
/// the container format's header deserializer reads them (without checking
/// them against any buffer); `None` where that text does not deserialize.
pub uninterp spec fn header_data_ends(text: Seq<u8>) -> Option<Set<usize>>;

/// The header length that a buffer declares in its first eight bytes, where
/// the buffer holds that many bytes after them.
pub open spec fn framed(b: Seq<u8>) -> bool {
    b.len() >= 8 && le_u64(b.take(8)) + 8 <= b.len()
}

/// No tensor's data end, added to the total header size, overflows `usize`.
pub open spec fn offsets_fit(b: Seq<u8>) -> bool {
    let ends = header_data_ends(b.subrange(8, le_u64(b.take(8)) + 8));
    framed(b) && ends is Some ==> forall|e: usize|
        #[trigger] ends->Some_0.contains(e) ==> e + le_u64(b.take(8)) + 8 <= usize::MAX
}

/// Relies on `serde_json::from_slice` with the `Deserialize` impl of
/// `safetensors::tensor::Metadata`, which reads the header's JSON without
/// validating offsets, and on `Metadata::tensors` for each tensor's
/// `data_offsets`. `read_metadata` parses the same text the same way (it
/// refuses text that is not UTF-8 first), then checks that the offsets tile
/// the data from 0, so the end it adds to the header length is the largest of
/// these ends; that sum is unchecked, and where it would overflow no buffer
/// can hold the data, so the format accepts no such buffer.
#[verifier::external_body]
fn tensor_data_ends(buffer: &[u8], stop: usize) -> (r: Option<Vec<usize>>)
    requires
        framed(buffer@),
        stop == le_u64(buffer@.take(8)) + 8,
    ensures
        r is None <==> header_data_ends(buffer@.subrange(8, stop as int)) is None,
        r matches Some(v) ==> v@.to_set() == header_data_ends(buffer@.subrange(8, stop as int))->Some_0,
        r matches Some(v) ==> ((exists|i: int| 0 <= i < v@.len() && v@[i] + stop > usize::MAX)
            ==> parsed_header(buffer@) is None),
{
    serde_json::from_slice::<Metadata>(&buffer[8..stop])
        .ok()
        .map(|m| m.tensors().values().map(|info| info.data_offsets.1).collect())
}

/// Whether every tensor's data end, added to the total header size, fits in
/// `usize`: the container parser adds them unchecked.
pub fn offsets_fit_exec(buffer: &[u8]) -> (r: bool)
    ensures
        r == offsets_fit(buffer@),
        !r ==> parsed_header(buffer@) is None,
{
    let len = buffer.len();
    if len < 8 {
        return true;
    }
    let prefix: [u8; 8] = [
        buffer[0],
        buffer[1],
        buffer[2],
        buffer[3],
        buffer[4],
        buffer[5],
        buffer[6],
        buffer[7],
    ];
    assert(prefix@ =~= buffer@.take(8));
    let h = declared_length(prefix);
    if h > (len - 8) as u64 {
        return true;
    }
    let stop = h as usize + 8;
    let ends = match tensor_data_ends(buffer, stop) {
        Some(ends) => ends,
        None => return true,
    };
    let ghost set = ends@.to_set();
    let mut i: usize = 0;
    while i < ends.len()
        invariant
            i <= ends@.len(),
            stop as int == le_u64(buffer@.take(8)) + 8,
            framed(buffer@),
            header_data_ends(buffer@.subrange(8, stop as int)) == Some(set),
            set == ends@.to_set(),
            (exists|j: int| 0 <= j < ends@.len() && ends@[j] + stop > usize::MAX)
                ==> parsed_header(buffer@) is None,
            forall|j: int| 0 <= j < i ==> ends@[j] + stop <= usize::MAX,
        decreases ends@.len() - i,
    {
        if ends[i] > usize::MAX - stop {
            assert(ends@[i as int] + stop > usize::MAX);
            assert(set.contains(ends@[i as int]));
            let ghost e = ends@[i as int];
            assert(!(e + le_u64(buffer@.take(8)) + 8 <= usize::MAX));
            assert(!offsets_fit(buffer@)) by {
                let b = buffer@;
                let found = header_data_ends(b.subrange(8, le_u64(b.take(8)) + 8));
                assert(found == Some(set));
                assert(found->Some_0.contains(e));
                assert(framed(b));
            }
            return false;
        }
        i += 1;
    }
    assert(buffer@.subrange(8, le_u64(buffer@.take(8)) + 8) == buffer@.subrange(8, stop as int));
    assert forall|e: usize| set.contains(e) implies e + le_u64(buffer@.take(8)) + 8 <= usize::MAX by {
        let j = choose|j: int| 0 <= j < ends@.len() && ends@[j] == e;
    }
    true
}

/// Relies on `safetensors::SafeTensors::read_metadata`, which validates the
/// header (framing, JSON, tensor offsets against the buffer's length) and
/// returns its parsed form; it adds the header length to the end offset of
/// the tensor data unchecked, which `offsets_fit` keeps from overflowing; and
/// on the getters `Metadata::metadata` and
/// `Metadata::tensors`, whose hash maps are listed here in their own order.
#[verifier::external_body]
pub(crate) fn read_container(buffer: &[u8]) -> (r: Result<
    (Option<Vec<(String, String)>>, Vec<(String, Vec<usize>)>),
    SafeTensorError,
>)
    requires
        offsets_fit(buffer@),
    ensures
        r is Err <==> parsed_header(buffer@) is None,
        r matches Ok((table, shapes)) ==> {
            let (t, s) = parsed_header(buffer@)->Some_0;
            &&& table is Some <==> t is Some
            &&& table matches Some(v) ==> lists_table(v@, t->Some_0)
            &&& lists_shapes(shapes@, s)
        },
{
    SafeTensors::read_metadata(buffer).map(|(_, m)| {
        let table = m.metadata().as_ref().map(|t| t.iter().map(|(k, v)| (k.clone(), v.clone())).collect());
        let shapes = m.tensors().into_iter().map(|(n, info)| (n, info.shape.clone())).collect();
        (table, shapes)
    })
}

} // verus!
