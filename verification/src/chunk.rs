//! The chunked-transfer chunk-size line parser.

use vstd::prelude::*;

use crate::classify::hex_digit_byte;
use crate::classify::hex_digit_value;
use crate::error::InvalidChunkSize;
use crate::model::CR;
use crate::model::HTAB;
use crate::model::LF;
use crate::model::SEMI;
use crate::model::SP;
use crate::status::Status;

verus! {

/// The outcome of running the chunk-size grammar against a buffer.
pub enum ChunkStep {
    /// A complete line: `next` is the first position after its newline
    /// and `size` the chunk size.
    Done {
        /// First position after the line's newline.
        next: int,
        /// The chunk size.
        size: int,
    },
    /// The input ended inside a valid prefix.
    More,
    /// A byte that the grammar refuses, too many digits, or a line
    /// ending before any digit.
    Fail,
}

/// `16^count` for `count >= 0`: the least size that `count` hex digits
/// cannot reach.
pub open spec fn hex_bound(count: int) -> int
    decreases count,
{
    if count <= 0 {
        1
    } else {
        16 * hex_bound(count - 1)
    }
}

/// The chunk-size grammar from position `i`, with the size and digit
/// count accumulated so far.  `in_size` holds while further digits are
/// accepted; `in_ext` from the `;` that opens the chunk extension, in
/// which every byte but the terminating `\r` is ignored.  At most 16
/// digits are accepted; linear white space after the digits ends the
/// size without opening the extension.
pub open spec fn sp_chunk(
    s: Seq<u8>,
    i: int,
    size: int,
    count: int,
    in_size: bool,
    in_ext: bool,
) -> ChunkStep
    decreases s.len() - i,
{
    if i >= s.len() {
        ChunkStep::More
    } else {
        let b = s[i];
        if in_size && hex_digit_byte(b) {
            if count > 15 {
                ChunkStep::Fail
            } else {
                sp_chunk(s, i + 1, size * 16 + hex_digit_value(b), count + 1, in_size, in_ext)
            }
        } else if b == CR {
            if i + 1 >= s.len() {
                ChunkStep::More
            } else if s[i + 1] != LF {
                ChunkStep::Fail
            } else if count == 0 {
                ChunkStep::Fail
            } else {
                ChunkStep::Done { next: i + 2, size }
            }
        } else if b == SEMI && !in_ext {
            sp_chunk(s, i + 1, size, count, false, true)
        } else if (b == HTAB || b == SP) && !in_ext && !in_size {
            sp_chunk(s, i + 1, size, count, in_size, in_ext)
        } else if (b == HTAB || b == SP) && in_size {
            sp_chunk(s, i + 1, size, count, false, in_ext)
        } else if in_ext {
            sp_chunk(s, i + 1, size, count, in_size, in_ext)
        } else {
            ChunkStep::Fail
        }
    }
}

/// The chunk-size grammar over a whole buffer.
pub open spec fn sp_chunk_size(s: Seq<u8>) -> ChunkStep {
    sp_chunk(s, 0, 0, 0, true, false)
}

/// `hex_bound` is positive and does not decrease.
pub proof fn lemma_hex_bound_mono(c1: int, c2: int)
    requires
        c1 <= c2,
    ensures
        1 <= hex_bound(c1) <= hex_bound(c2),
    decreases c2 - c1,
{
    if c1 < c2 {
        lemma_hex_bound_mono(c1, c2 - 1);
    } else {
        lemma_hex_bound_pos(c1);
    }
}

/// `hex_bound` is positive.
pub proof fn lemma_hex_bound_pos(c: int)
    ensures
        hex_bound(c) >= 1,
    decreases (if c > 0 {
        c
    } else {
        0
    }),
{
    if c > 0 {
        lemma_hex_bound_pos(c - 1);
    }
}

/// Parse a buffer of bytes as a chunk-size line.
///
/// Returns `Complete((n, size))` with `n` the byte count through the
/// line's newline and `size` the 64-bit chunk size, `Partial` when the
/// buffer ends inside a valid prefix, and `InvalidChunkSize` otherwise
/// -- also for a line that ends before any hex digit -- exactly as
/// [`sp_chunk_size`] prescribes.
pub fn parse_chunk_size(buf: &[u8]) -> (r: Result<Status<(usize, u64)>, InvalidChunkSize>)
    ensures
        ({
            let st = sp_chunk_size(buf@);
            &&& (st matches ChunkStep::Done { next, size } ==> r == Ok::<
                Status<(usize, u64)>,
                InvalidChunkSize,
            >(Status::Complete((next as usize, size as u64))) && 0 <= size < 0x10000000000000000)
            &&& (st is More ==> r == Ok::<Status<(usize, u64)>, InvalidChunkSize>(Status::Partial))
            &&& (st is Fail ==> r == Err::<Status<(usize, u64)>, InvalidChunkSize>(
                InvalidChunkSize,
            ))
        }),
{
    let blen = buf.len();
    let mut i: usize = 0;
    let mut size: u64 = 0;
    let mut count: usize = 0;
    let mut in_size = true;
    let mut in_ext = false;
    proof {
        assert(hex_bound(16) == 0x10000000000000000) by {
            reveal_with_fuel(hex_bound, 17);
        }
        lemma_hex_bound_mono(0, 16);
    }
    loop
        invariant
            i <= blen,
            blen == buf@.len(),
            count <= 16,
            size < hex_bound(count as int),
            hex_bound(count as int) <= hex_bound(16),
            hex_bound(16) == 0x10000000000000000,
            sp_chunk_size(buf@) == sp_chunk(
                buf@,
                i as int,
                size as int,
                count as int,
                in_size,
                in_ext,
            ),
        decreases blen - i,
    {
        if i >= blen {
            return Ok(Status::Partial);
        }
        let b = buf[i];
        let is_hex = (48 <= b && b <= 57) || (97 <= b && b <= 102) || (65 <= b && b <= 70);
        if in_size && is_hex {
            if count > 15 {
                return Err(InvalidChunkSize);
            }
            let d: u64 = if b <= 57 {
                (b - 48) as u64
            } else if b >= 97 {
                (b - 97 + 10) as u64
            } else {
                (b - 65 + 10) as u64
            };
            proof {
                lemma_hex_bound_mono(count + 1, 16);
                assert(hex_bound(count + 1) == 16 * hex_bound(count as int));
                assert(d == hex_digit_value(b));
            }
            size = size * 16 + d;
            count = count + 1;
        } else if b == CR {
            if i + 1 >= blen {
                return Ok(Status::Partial);
            }
            if buf[i + 1] != LF || count == 0 {
                return Err(InvalidChunkSize);
            }
            return Ok(Status::Complete((i + 2, size)));
        } else if b == SEMI && !in_ext {
            in_ext = true;
            in_size = false;
        } else if (b == HTAB || b == SP) && !in_ext && !in_size {
        } else if (b == HTAB || b == SP) && in_size {
            in_size = false;
        } else if in_ext {
        } else {
            return Err(InvalidChunkSize);
        }
        i = i + 1;
    }
}

} // verus!
