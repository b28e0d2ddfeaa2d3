//! Records as bytes.

use vstd::prelude::*;

verus! {

/// Byte `k` of a word, counted from its lowest one.
pub open spec fn word_byte(w: u32, k: int) -> u8 {
    if k == 0 {
        (w % 0x100) as u8
    } else if k == 1 {
        ((w / 0x100) % 0x100) as u8
    } else if k == 2 {
        ((w / 0x1_0000) % 0x100) as u8
    } else {
        (w / 0x100_0000) as u8
    }
}

/// The words of records, one record behind another.
pub open spec fn flat(records: Seq<[u32; 4]>) -> Seq<u32> {
    Seq::new(4 * records.len(), |k: int| records[k / 4]@[k % 4])
}

/// The bytes of words, each word with its lowest byte first or last.
pub open spec fn in_memory(words: Seq<u32>, low_first: bool) -> Seq<u8> {
    Seq::new(
        4 * words.len(),
        |i: int|
            word_byte(
                words[i / 4],
                if low_first {
                    i % 4
                } else {
                    3 - i % 4
                },
            ),
    )
}

/// The bytes that records have in memory.
///
/// Calls `bytemuck::cast_slice` from `[u32; 4]` to `u8`, which reads the slice's
/// memory as it stands. The size and alignment of `u8` fit any slice, so that
/// the call does not panic. Words lie in memory with their lowest byte first or
/// with it last, all of them alike; which of the two is up to the machine.
#[verifier::external_body]
pub(crate) fn bytes_of(records: &Vec<[u32; 4]>) -> (bytes: Vec<u8>)
    ensures
        bytes@ == in_memory(flat(records@), true) || bytes@ == in_memory(flat(records@), false),
{
    bytemuck::cast_slice::<[u32; 4], u8>(records.as_slice()).to_vec()
}

/// Either way, every word of every record can be read back from its bytes.
pub proof fn law_records_read_back(records: Seq<[u32; 4]>, low_first: bool, r: int, j: int)
    requires
        0 <= r < records.len(),
        0 <= j < 4,
    ensures
        ({
            let bytes = in_memory(flat(records), low_first);
            let at = 16 * r + 4 * j;
            let byte = |k: int|
                bytes[at + (if low_first {
                    k
                } else {
                    3 - k
                })] as int;
            &&& bytes.len() == 16 * records.len()
            &&& byte(0) + 0x100 * byte(1) + 0x1_0000 * byte(2) + 0x100_0000 * byte(3)
                == records[r]@[j]
        }),
{
    let words = flat(records);
    let at = 16 * r + 4 * j;
    assert((4 * r + j) / 4 == r && (4 * r + j) % 4 == j);
    assert(words[4 * r + j] == records[r]@[j]);
    assert((at + 0) / 4 == 4 * r + j && (at + 1) / 4 == 4 * r + j && (at + 2) / 4 == 4 * r + j && (
    at + 3) / 4 == 4 * r + j);
    assert((at + 0) % 4 == 0 && (at + 1) % 4 == 1 && (at + 2) % 4 == 2 && (at + 3) % 4 == 3);
}

} // verus!
