//! Framing of a container file: the 8-byte length prefix, the bound on the
//! header size, and the header buffer padded to the file's length.
use vstd::prelude::*;

verus! {

/// Bound (exclusive) on the total header size, prefix included: 100 MiB.
pub const MAX_TOTAL_HEADER: u64 = 104857600;

/// Why a file's declared header length is refused.
#[derive(Clone, Copy, Debug, PartialEq, Eq, Structural)]
pub enum HeaderError {
    /// The declared length plus the prefix does not fit in `usize`.
    InvalidHeader,
    /// The declared length plus the prefix is at least `MAX_TOTAL_HEADER`.
    HeaderTooLarge,
}

/// The unsigned integer that eight bytes encode in little-endian order.
pub open spec fn le_u64(b: Seq<u8>) -> int {
    b[0] as int + b[1] as int * 0x100 + b[2] as int * 0x10000 + b[3] as int * 0x1000000 + b[4] as int
        * 0x100000000 + b[5] as int * 0x10000000000 + b[6] as int * 0x1000000000000 + b[7] as int
        * 0x100000000000000
}

/// Decodes the declared header length from the file's first eight bytes.
pub fn declared_length(prefix: [u8; 8]) -> (r: u64)
    ensures
        r as int == le_u64(prefix@),
{
    prefix[0] as u64 + prefix[1] as u64 * 0x100 + prefix[2] as u64 * 0x10000 + prefix[3] as u64
        * 0x1000000 + prefix[4] as u64 * 0x100000000 + prefix[5] as u64 * 0x10000000000
        + prefix[6] as u64 * 0x1000000000000 + prefix[7] as u64 * 0x100000000000000
}

/// The total header size, prefix included, that a file with these first eight
/// bytes declares, or why it is refused.
pub fn header_size(prefix: [u8; 8]) -> (r: Result<usize, HeaderError>)
    ensures
        le_u64(prefix@) + 8 > usize::MAX ==> r == Err::<usize, HeaderError>(
            HeaderError::InvalidHeader,
        ),
        le_u64(prefix@) + 8 <= usize::MAX && le_u64(prefix@) + 8 >= MAX_TOTAL_HEADER ==> r == Err::<
            usize,
            HeaderError,
        >(HeaderError::HeaderTooLarge),
        le_u64(prefix@) + 8 < MAX_TOTAL_HEADER ==> (r matches Ok(n) && n == le_u64(prefix@) + 8),
{
    let h = declared_length(prefix);
    if h > (usize::MAX as u64) - 8 {
        return Err(HeaderError::InvalidHeader);
    }
    let total = h + 8;
    if total >= MAX_TOTAL_HEADER {
        Err(HeaderError::HeaderTooLarge)
    } else {
        Ok(total as usize)
    }
}

/// `header` cut or extended with zero bytes to exactly `len` bytes.
pub open spec fn padded(header: Seq<u8>, len: nat) -> Seq<u8> {
    Seq::new(len, |i: int| if i < header.len() { header[i] } else { 0u8 })
}

/// Extends the header bytes with zeros to the file's full length, so that the
/// buffer has the size of the file while the tensor payload is never read.
pub fn pad_header(header: Vec<u8>, file_len: usize) -> (r: Vec<u8>)
    ensures
        r@ == padded(header@, file_len as nat),
{
    let mut buffer = header;
    let ghost start = buffer@;
    buffer.resize(file_len, 0u8);
    proof {
        if file_len > start.len() {
            assert forall|i: int| start.len() <= i < file_len implies buffer@[i] == 0u8 by {
                assert(vstd::pervasive::cloned::<u8>(0u8, buffer@[i]));
            }
            assert forall|i: int| 0 <= i < start.len() implies buffer@[i] == start[i] by {
                assert(buffer@.subrange(0, start.len() as int)[i] == buffer@[i]);
            }
        }
    }
    assert(buffer@ =~= padded(start, file_len as nat));
    buffer
}


/// For a file of `L` bytes whose first eight bytes declare `H`, the buffer
/// made from its first `H + 8` bytes has exactly `L` bytes: the file's own
/// bytes below `H + 8` and zeros from there on.
pub proof fn lemma_header_buffer(file: Seq<u8>)
    requires
        file.len() >= 8,
        le_u64(file.take(8)) + 8 <= file.len(),
    ensures
        ({
            let total = le_u64(file.take(8)) + 8;
            let buffer = padded(file.take(total), file.len());
            &&& buffer.len() == file.len()
            &&& forall|i: int| 0 <= i < total ==> buffer[i] == file[i]
            &&& forall|i: int| total <= i < file.len() ==> buffer[i] == 0u8
        }),
{
}

} // verus!
