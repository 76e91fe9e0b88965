//! What an archive holds: the entries that a run of bytes describes.

use crate::destination::Entry;
use crate::error::TarError;
use crate::header::header_at;
use vstd::prelude::*;

verus! {

/// Whether a block is all zeros. Two such blocks in a row end an archive.
pub open spec fn is_sentinel(block: Seq<u8>) -> bool {
    forall|i: int| 0 <= i < block.len() ==> block[i] == 0
}

/// Whether `bytes` holds the whole of block `k`.
pub open spec fn has_block(bytes: Seq<u8>, k: nat) -> bool {
    512 * (k + 1) <= bytes.len()
}

/// Block `k` of `bytes`.
pub open spec fn block_at(bytes: Seq<u8>, k: nat) -> Seq<u8> {
    bytes.subrange((512 * k) as int, (512 * k + 512) as int)
}

/// The number of blocks that contents of `size` bytes occupy: the contents
/// are padded to the next multiple of 512.
pub open spec fn body_blocks(size: nat) -> nat {
    (size + 511) / 512
}

/// The outcome of decoding an archive.
pub struct Decoding {
    /// The entries that are complete, in the order of their headers.
    pub entries: Seq<Entry>,
    /// Why decoding stopped, unless it reached the end of the archive.
    pub error: Option<TarError>,
    /// Where decoding stopped, in blocks: behind the second sentinel, or at
    /// the block that could not be read or decoded.
    pub stopped_at: nat,
}

impl Decoding {
    /// This outcome, with `done` committed before it.
    pub open spec fn after(self, done: Seq<Entry>) -> Decoding {
        Decoding { entries: done + self.entries, error: self.error, stopped_at: self.stopped_at }
    }
}

/// What the blocks of `bytes` from block `k` on decode to, where `zeros`
/// sentinels directly precede block `k`.
///
/// A sentinel after a sentinel ends the archive. Any other block is a
/// header: its entry's contents are the `size` bytes that follow it, and the
/// next header follows the contents' last block. Decoding stops at the first
/// block that is missing or cannot be decoded; the entries before it stand.
pub open spec fn decode_from(bytes: Seq<u8>, k: nat, zeros: nat) -> Decoding
    decreases bytes.len() - 512 * k,
{
    if !has_block(bytes, k) {
        Decoding { entries: Seq::empty(), error: Some(TarError::Io), stopped_at: k }
    } else if is_sentinel(block_at(bytes, k)) {
        if zeros >= 1 {
            Decoding { entries: Seq::empty(), error: None, stopped_at: k + 1 }
        } else {
            decode_from(bytes, k + 1, zeros + 1)
        }
    } else {
        let header = header_at(block_at(bytes, k));
        match header.entry_fields() {
            Err(e) => Decoding { entries: Seq::empty(), error: Some(e), stopped_at: k },
            Ok(fields) => {
                let n = body_blocks(fields.size as nat);
                if !has_block(bytes, k + n) {
                    Decoding {
                        entries: Seq::empty(),
                        error: Some(TarError::Io),
                        stopped_at: bytes.len() / 512,
                    }
                } else {
                    let entry = Entry {
                        name: fields.name,
                        header,
                        data: bytes.subrange(
                            (512 * (k + 1)) as int,
                            (512 * (k + 1) + fields.size) as int,
                        ),
                    };
                    decode_from(bytes, k + 1 + n, 0).after(seq![entry])
                }
            },
        }
    }
}

/// What an archive decodes to.
pub open spec fn decode(bytes: Seq<u8>) -> Decoding {
    decode_from(bytes, 0, 0)
}

/// The blocks at which the headers of the decoded entries stand, in the
/// order of the entries: what `decode_from` walks over, with the positions
/// kept in place of the entries.
pub open spec fn header_positions(bytes: Seq<u8>, k: nat, zeros: nat) -> Seq<nat>
    decreases bytes.len() - 512 * k,
{
    if !has_block(bytes, k) {
        Seq::empty()
    } else if is_sentinel(block_at(bytes, k)) {
        if zeros >= 1 {
            Seq::empty()
        } else {
            header_positions(bytes, k + 1, zeros + 1)
        }
    } else {
        match header_at(block_at(bytes, k)).entry_fields() {
            Err(_) => Seq::empty(),
            Ok(fields) => {
                let n = body_blocks(fields.size as nat);
                if !has_block(bytes, k + n) {
                    Seq::empty()
                } else {
                    seq![k] + header_positions(bytes, k + 1 + n, 0)
                }
            },
        }
    }
}

/// Whether `entry` is what stands at block `position` of `bytes`: the block
/// is its header, and the bytes behind the header are its contents, all of
/// them within `bytes` and none of them padding.
pub open spec fn stands_at(bytes: Seq<u8>, entry: Entry, position: nat) -> bool {
    &&& has_block(bytes, position + body_blocks(entry.data.len()))
    &&& entry.header == header_at(block_at(bytes, position))
    &&& entry.well_formed()
    &&& entry.data == bytes.subrange(
        (512 * (position + 1)) as int,
        (512 * (position + 1) + entry.data.len()) as int,
    )
}

/// Tells whether a block is a sentinel.
pub fn is_zero_block(block: &[u8; 512]) -> (r: bool)
    ensures
        r == is_sentinel(block@),
{
    let mut i: usize = 0;
    while i < 512
        invariant
            i <= 512,
            forall|j: int| 0 <= j < i ==> block@[j] == 0,
        decreases 512 - i,
    {
        if block[i] != 0 {
            return false;
        }
        i += 1;
    }
    true
}

/// The number of blocks that contents of `size` bytes occupy.
pub fn body_block_count(size: u64) -> (n: u64)
    ensures
        n == body_blocks(size as nat),
        (n - 1) * 512 < size <= n * 512,
{
    if size % 512 == 0 {
        size / 512
    } else {
        size / 512 + 1
    }
}

/// Reads the block that starts at `offset` out of `data`. A block that is
/// not wholly there is an error: it is never filled up.
pub fn read_block(data: &[u8], offset: usize) -> (r: Result<[u8; 512], TarError>)
    ensures
        match r {
            Ok(block) => {
                &&& offset + 512 <= data@.len()
                &&& block@ == data@.subrange(offset as int, offset + 512)
            },
            Err(e) => e == TarError::Io && offset + 512 > data@.len(),
        },
{
    if offset > data.len() || data.len() - offset < 512 {
        return Err(TarError::Io);
    }
    let mut block: [u8; 512] = [0u8; 512];
    let mut i: usize = 0;
    while i < 512
        invariant
            i <= 512,
            offset + 512 <= data.len(),
            forall|j: int| 0 <= j < i ==> block@[j] == data@[offset + j],
        decreases 512 - i,
    {
        block[i] = data[offset + i];
        i += 1;
    }
    assert(block@ =~= data@.subrange(offset as int, offset + 512));
    Ok(block)
}

} // verus!
