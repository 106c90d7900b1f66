use vstd::prelude::*;

verus! {

/// `256^j` for a byte position `j` in `0..4`.
pub open spec fn byte_weight(j: int) -> nat {
    if j == 0 {
        1
    } else if j == 1 {
        256
    } else if j == 2 {
        65536
    } else {
        16777216
    }
}

/// Byte `j` (of four) of word `w` as it lies in memory: least significant
/// first when `little`, most significant first otherwise.
pub open spec fn word_byte(w: u32, j: int, little: bool) -> u8 {
    let k = if little { j } else { 3 - j };
    ((w as nat / byte_weight(k)) % 256) as u8
}

/// Position of byte `j` of word `i` in a run of 4-byte words.
pub open spec fn byte_index(i: int, j: int) -> int {
    4 * i + j
}

/// `bytes` is `words` laid out word after word, each in the given byte order.
pub open spec fn encodes_words(words: Seq<u32>, bytes: Seq<u8>, little: bool) -> bool {
    &&& bytes.len() == 4 * words.len()
    &&& forall|i: int, j: int|
        0 <= i < words.len() && 0 <= j < 4 ==> #[trigger] bytes[byte_index(i, j)] == word_byte(
            words[i],
            j,
            little,
        )
}

/// The bytes of `words` as they lie in memory, through
/// `bytemuck::cast_slice::<u32, u8>` (copied out with `to_vec`). Its contract
/// claims four bytes per word, word after word, every word in one byte order,
/// little-endian or big-endian; which of the two is left unsaid, since it is
/// the machine's.
#[verifier::external_body]
pub(crate) fn words_as_bytes(words: &[u32]) -> (bytes: Vec<u8>)
    ensures
        encodes_words(words@, bytes@, true) || encodes_words(words@, bytes@, false),
{
    bytemuck::cast_slice::<u32, u8>(words).to_vec()
}

} // verus!
