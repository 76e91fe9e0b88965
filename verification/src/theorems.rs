//! What holds of every archive and every decode.

use crate::archive::{
    block_at, body_blocks, decode, decode_from, has_block, header_positions, is_sentinel,
    stands_at, Decoding,
};
use crate::decoder::{decode_outcome, step, ParseTarError, Phase};
use crate::destination::{Entry, FileSystemImpl, MemoryFileSystem};
use crate::error::TarError;
use crate::header::{header_at, magic_ok};
use vstd::prelude::*;

verus! {

/// From any block on, the decoded entries stand in the archive in the order
/// in which they are listed: each at its header's block, the next one behind
/// the contents of the one before.
pub proof fn lemma_entries_in_stream_order(bytes: Seq<u8>, k: nat, zeros: nat)
    ensures
        header_positions(bytes, k, zeros).len() == decode_from(bytes, k, zeros).entries.len(),
        forall|i: int|
            0 <= i < header_positions(bytes, k, zeros).len() ==> {
                &&& k <= #[trigger] header_positions(bytes, k, zeros)[i]
                &&& stands_at(
                    bytes,
                    decode_from(bytes, k, zeros).entries[i],
                    header_positions(bytes, k, zeros)[i],
                )
            },
        forall|i: int, j: int|
            0 <= i < j < header_positions(bytes, k, zeros).len() ==> (#[trigger] header_positions(
                bytes,
                k,
                zeros,
            )[i]) + body_blocks(decode_from(bytes, k, zeros).entries[i].data.len())
                < #[trigger] header_positions(bytes, k, zeros)[j],
    decreases bytes.len() - 512 * k,
{
    if has_block(bytes, k) {
        let block = block_at(bytes, k);
        if is_sentinel(block) {
            if zeros == 0 {
                lemma_entries_in_stream_order(bytes, k + 1, 1);
            }
        } else {
            match header_at(block).entry_fields() {
                Err(_) => {},
                Ok(fields) => {
                    let n = body_blocks(fields.size as nat);
                    if has_block(bytes, k + n) {
                        lemma_entries_in_stream_order(bytes, k + 1 + n, 0);
                        let rest = header_positions(bytes, k + 1 + n, 0);
                        let here = header_positions(bytes, k, zeros);
                        let entries = decode_from(bytes, k, zeros).entries;
                        let later = decode_from(bytes, k + 1 + n, 0).entries;
                        assert(here == seq![k] + rest);
                        assert(entries[0].data.len() == fields.size);
                        assert forall|i: int| 0 <= i < here.len() implies k <= #[trigger] here[i]
                            && stands_at(bytes, entries[i], here[i]) by {
                            if i > 0 {
                                assert(here[i] == rest[i - 1]);
                                assert(entries[i] == later[i - 1]);
                            }
                        }
                        assert forall|i: int, j: int| 0 <= i < j < here.len() implies (
                        #[trigger] here[i]) + body_blocks(entries[i].data.len())
                            < #[trigger] here[j] by {
                            assert(here[j] == rest[j - 1]);
                            if i > 0 {
                                assert(here[i] == rest[i - 1]);
                                assert(entries[i] == later[i - 1]);
                            }
                        }
                    }
                },
            }
        }
    }
}

/// The entries of an archive are listed in the order in which they stand in
/// its bytes. Entry `i` stands at the block `header_positions(bytes, 0, 0)[i]`,
/// with its contents behind its header, and every later entry stands behind
/// those contents.
pub proof fn theorem_entries_in_stream_order(bytes: Seq<u8>)
    ensures
        header_positions(bytes, 0, 0).len() == decode(bytes).entries.len(),
        forall|i: int|
            0 <= i < decode(bytes).entries.len() ==> stands_at(
                bytes,
                #[trigger] decode(bytes).entries[i],
                header_positions(bytes, 0, 0)[i],
            ),
        forall|i: int, j: int|
            0 <= i < j < decode(bytes).entries.len() ==> (#[trigger] header_positions(
                bytes,
                0,
                0,
            )[i]) + body_blocks(decode(bytes).entries[i].data.len()) < #[trigger] header_positions(
                bytes,
                0,
                0,
            )[j],
{
    lemma_entries_in_stream_order(bytes, 0, 0);
}

/// Two decodes of the same archive into two memory destinations that were
/// empty end alike: with the same result, and with the same entries in the
/// same order, each with the same name, header and contents.
pub proof fn theorem_decode_twice(
    bytes: Seq<u8>,
    first: MemoryFileSystem,
    first_result: Result<(), ParseTarError>,
    second: MemoryFileSystem,
    second_result: Result<(), ParseTarError>,
)
    requires
        decode_outcome(bytes, Seq::empty(), true, first.saved(), first_result),
        decode_outcome(bytes, Seq::empty(), true, second.saved(), second_result),
    ensures
        first_result == second_result,
        first.saved() == second.saved(),
        first.state@.len() == second.state@.len(),
        forall|i: int| 0 <= i < first.state@.len() ==> first.state@[i]@ == second.state@[i]@,
{
    let entries = decode(bytes).entries;
    assert(Seq::<Entry>::empty() + entries == entries);
    match (first_result, second_result) {
        (Err(a), Err(b)) => {
            assert(a.kind == b.kind);
        },
        (Ok(a), Ok(b)) => {
            assert(a == b);
        },
        _ => {},
    }
    assert forall|i: int| 0 <= i < first.state@.len() implies first.state@[i]@
        == second.state@[i]@ by {
        assert(first.saved()[i] == first.state@[i]@);
        assert(second.saved()[i] == second.state@[i]@);
    }
}

/// An archive that starts with two sentinels holds no entry and decodes
/// without error, whatever follows them.
pub proof fn theorem_two_sentinels_end_the_archive(bytes: Seq<u8>)
    requires
        has_block(bytes, 1),
        is_sentinel(block_at(bytes, 0)),
        is_sentinel(block_at(bytes, 1)),
    ensures
        decode(bytes) == (Decoding { entries: Seq::empty(), error: None, stopped_at: 2 }),
{
    reveal_with_fuel(decode_from, 2);
}

/// An archive that ends behind a single sentinel is cut short: it decodes to
/// an `Io` error at the block that is missing.
pub proof fn theorem_lone_sentinel_is_cut_short(bytes: Seq<u8>)
    requires
        has_block(bytes, 0),
        !has_block(bytes, 1),
        is_sentinel(block_at(bytes, 0)),
    ensures
        decode(bytes) == (Decoding {
            entries: Seq::empty(),
            error: Some(TarError::Io),
            stopped_at: 1,
        }),
{
    reveal_with_fuel(decode_from, 2);
}

/// A header whose magic is neither spelling of `ustar` stops the decode with
/// `InvalidMagic`: the block is in error whatever its other fields hold, so
/// no entry is opened for it.
pub proof fn theorem_bad_magic_stops(bytes: Seq<u8>, k: nat, zeros: nat)
    requires
        has_block(bytes, k),
        !is_sentinel(block_at(bytes, k)),
        !magic_ok(header_at(block_at(bytes, k)).magic),
    ensures
        step(Phase::Header { zeros }, block_at(bytes, k)) == Err::<(Phase, Option<Entry>), TarError>(
            TarError::InvalidMagic,
        ),
        decode_from(bytes, k, zeros) == (Decoding {
            entries: Seq::empty(),
            error: Some(TarError::InvalidMagic),
            stopped_at: k,
        }),
{
}

} // verus!
