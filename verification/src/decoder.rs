//! The decoder: block by block for a stream, and over a whole archive in
//! memory.

use crate::archive::{
    block_at, body_blocks, decode, decode_from, has_block, is_sentinel, is_zero_block,
    read_block, Decoding,
};
use crate::destination::{Entry, FileSystemImpl, FileWriter, NullFileSystem};
use crate::error::{committed, opened, written, TarError};
use crate::header::{header_at, TarHeader};
use vstd::prelude::*;
use vstd::slice::slice_subrange;

verus! {

/// What a decoder expects next, as plain values.
pub enum Phase {
    /// A header or a sentinel; `zeros` sentinels came directly before.
    Header { zeros: nat },
    /// Contents of the open entry, of which `remaining` bytes are due.
    Body { entry: Entry, remaining: nat },
    /// Nothing: the archive has ended.
    Finished,
}

/// How many bytes of the next block belong to contents of which `remaining`
/// bytes are due. The rest of the block is padding.
pub open spec fn chunk_len(remaining: nat) -> nat {
    if remaining < 512 {
        remaining
    } else {
        512
    }
}

/// What one block does to a decoder whose destination accepts everything:
/// the next phase and the entry that the block completes, if any; or the
/// error in the block.
///
/// A sentinel after a sentinel ends the archive; a single one is counted.
/// Any other block in the header phase is decoded as a header, which resets
/// the count; an entry without contents is complete at once. A block in the
/// body phase gives its first `chunk_len(remaining)` bytes to the entry,
/// which is complete when nothing remains.
pub open spec fn step(phase: Phase, block: Seq<u8>) -> Result<(Phase, Option<Entry>), TarError> {
    match phase {
        Phase::Finished => Ok((Phase::Finished, None)),
        Phase::Header { zeros } => {
            if is_sentinel(block) {
                if zeros >= 1 {
                    Ok((Phase::Finished, None))
                } else {
                    Ok((Phase::Header { zeros: zeros + 1 }, None))
                }
            } else {
                match header_at(block).entry_fields() {
                    Err(e) => Err(e),
                    Ok(fields) => {
                        let entry = Entry::opened(fields.name, header_at(block));
                        if fields.size == 0 {
                            Ok((Phase::Header { zeros: 0 }, Some(entry)))
                        } else {
                            Ok((Phase::Body { entry, remaining: fields.size as nat }, None))
                        }
                    },
                }
            }
        },
        Phase::Body { entry, remaining } => {
            let written = entry.append(block.take(chunk_len(remaining) as int));
            if remaining <= 512 {
                Ok((Phase::Header { zeros: 0 }, Some(written)))
            } else {
                Ok((Phase::Body { entry: written, remaining: (remaining - 512) as nat }, None))
            }
        },
    }
}

/// What the blocks of `bytes` from block `k` on do to a decoder in `phase`
/// whose destination accepts everything: `step` by `step`, until the archive
/// has ended, a block is missing or a block is in error.
pub open spec fn run(bytes: Seq<u8>, k: nat, phase: Phase) -> Decoding
    decreases bytes.len() - 512 * k,
{
    if phase is Finished {
        Decoding { entries: Seq::empty(), error: None, stopped_at: k }
    } else if !has_block(bytes, k) {
        Decoding { entries: Seq::empty(), error: Some(TarError::Io), stopped_at: k }
    } else {
        match step(phase, block_at(bytes, k)) {
            Err(e) => Decoding { entries: Seq::empty(), error: Some(e), stopped_at: k },
            Ok((next, committed)) => match committed {
                Some(entry) => run(bytes, k + 1, next).after(seq![entry]),
                None => run(bytes, k + 1, next),
            },
        }
    }
}

/// The state of a decoder between two blocks.
pub enum Progress<W> {
    /// A header or a sentinel comes next; `zeros` sentinels came directly
    /// before.
    Header { zeros: u8 },
    /// Contents of the open entry come next; `remaining` bytes are due.
    Body { writer: W, remaining: u64 },
    /// The archive has ended.
    Finished,
}

impl<W: FileWriter> Progress<W> {
    /// The state as plain values.
    pub open spec fn phase(self) -> Phase {
        match self {
            Progress::Header { zeros } => Phase::Header { zeros: zeros as nat },
            Progress::Body { writer, remaining } => Phase::Body {
                entry: writer.pending(),
                remaining: remaining as nat,
            },
            Progress::Finished => Phase::Finished,
        }
    }

    /// A state that a decoder can be in: at most one sentinel is counted,
    /// and an open entry has contents due.
    pub open spec fn wf(self) -> bool {
        match self {
            Progress::Header { zeros } => zeros <= 1,
            Progress::Body { writer, remaining } => remaining > 0,
            Progress::Finished => true,
        }
    }

    /// Whether the open writer, if there is one, undertakes never to refuse.
    pub open spec fn reliable(self) -> bool {
        match self {
            Progress::Body { writer, remaining } => writer.reliable(),
            _ => true,
        }
    }

    /// The state before the first block.
    pub fn start() -> (state: Self)
        ensures
            state.phase() == (Phase::Header { zeros: 0 }),
            state.wf(),
            state.reliable(),
    {
        Progress::Header { zeros: 0 }
    }

    /// Whether the archive has ended. No further block is to be read then.
    pub fn is_archive_end(&self) -> (r: bool)
        ensures
            r == (self is Finished),
    {
        match self {
            Progress::Finished => true,
            _ => false,
        }
    }
}

/// Which errors of the destination a block can end in: an entry is opened
/// by its header and written to in the body phase, and it is committed by the
/// block that completes it. A sentinel asks nothing of the destination.
pub open spec fn destination_error_fits(
    phase: Phase,
    block: Seq<u8>,
    completes: bool,
    e: TarError,
) -> bool {
    ||| phase is Header && !is_sentinel(block) && e is DestinationOpen
    ||| phase is Body && e is DestinationWrite
    ||| completes && e is DestinationCommit
}

/// Takes one block of the archive: decides what it is, and hands what it
/// holds to the destination.
///
/// An error in the block itself is returned before the destination is
/// touched. Otherwise the destination decides: where it accepts, the state
/// advances as `step` says and the entry that the block completes, if any, is
/// committed; where it refuses, its error is returned and nothing is
/// committed. A destination that undertakes never to refuse does accept.
/// After the end of the archive a block changes nothing.
pub fn feed_block<F: FileSystemImpl>(
    fs: &mut F,
    state: Progress<F::Writer>,
    block: &[u8; 512],
) -> (r: Result<Progress<F::Writer>, TarError>)
    ensures
        match step(state.phase(), block@) {
            Err(e) => r matches Err(err) && err == e && *final(fs) == *old(fs),
            Ok((next, committed)) => {
                &&& match r {
                    Ok(s) => {
                        &&& s.phase() == next
                        &&& state.wf() ==> s.wf()
                        &&& final(fs).saved() == match committed {
                            Some(entry) => old(fs).saved().push(entry),
                            None => old(fs).saved(),
                        }
                    },
                    Err(e) => {
                        &&& destination_error_fits(
                            state.phase(),
                            block@,
                            committed is Some,
                            e,
                        )
                        &&& final(fs).saved() == old(fs).saved()
                    },
                }
                &&& committed is None ==> *final(fs) == *old(fs)
                &&& old(fs).reliable() && state.reliable() ==> r is Ok && r->Ok_0.reliable()
                    && final(fs).reliable()
            },
        },
{
    match state {
        Progress::Finished => Ok(Progress::Finished),
        Progress::Header { zeros } => {
            if is_zero_block(block) {
                if zeros >= 1 {
                    Ok(Progress::Finished)
                } else {
                    Ok(Progress::Header { zeros: 1 })
                }
            } else {
                let header = TarHeader::from_block(block);
                match header.validate_magic() {
                    Err(e) => {
                        return Err(e);
                    },
                    Ok(()) => {},
                }
                let fields = match header.casted_fields() {
                    Err(e) => {
                        return Err(e);
                    },
                    Ok(fields) => fields,
                };
                let size: u64 = fields.size;
                let writer = match opened(fs.open(&header, &fields)) {
                    Err(e) => {
                        return Err(e);
                    },
                    Ok(writer) => writer,
                };
                if size == 0 {
                    match committed(fs.save(writer)) {
                        Err(e) => Err(e),
                        Ok(()) => Ok(Progress::Header { zeros: 0 }),
                    }
                } else {
                    Ok(Progress::Body { writer, remaining: size })
                }
            }
        },
        Progress::Body { writer, remaining } => {
            let mut writer = writer;
            let len: usize = if remaining < 512 {
                remaining as usize
            } else {
                512
            };
            let chunk = slice_subrange(block.as_slice(), 0, len);
            match written(writer.write_block(chunk)) {
                Err(e) => {
                    return Err(e);
                },
                Ok(()) => {},
            }
            if remaining <= 512 {
                match committed(fs.save(writer)) {
                    Err(e) => Err(e),
                    Ok(()) => Ok(Progress::Header { zeros: 0 }),
                }
            } else {
                Ok(Progress::Body { writer, remaining: remaining - 512 })
            }
        },
    }
}

/// The body phase as a whole: where the blocks of the contents are all there,
/// the entry gets exactly the `remaining` bytes that start at block `k`, and
/// the next header is looked for behind the contents' last block. Where a
/// block of the contents is missing, the decoder stops at the first block
/// that is not whole.
pub proof fn lemma_run_body(bytes: Seq<u8>, k: nat, entry: Entry, remaining: nat)
    requires
        remaining > 0,
        512 * k <= bytes.len(),
    ensures
        run(bytes, k, Phase::Body { entry, remaining }) == (if has_block(
            bytes,
            (k + body_blocks(remaining) - 1) as nat,
        ) {
            run(bytes, k + body_blocks(remaining), Phase::Header { zeros: 0 }).after(
                seq![
                    entry.append(bytes.subrange((512 * k) as int, (512 * k + remaining) as int)),
                ],
            )
        } else {
            Decoding {
                entries: Seq::empty(),
                error: Some(TarError::Io),
                stopped_at: bytes.len() / 512,
            }
        }),
    decreases remaining,
{
    let n = body_blocks(remaining);
    if has_block(bytes, k) {
        let block = block_at(bytes, k);
        let written = entry.append(block.take(chunk_len(remaining) as int));
        if remaining <= 512 {
            assert(block.take(remaining as int) == bytes.subrange(
                (512 * k) as int,
                (512 * k + remaining) as int,
            ));
        } else {
            let rest = (remaining - 512) as nat;
            lemma_run_body(bytes, k + 1, written, rest);
            assert(n == 1 + body_blocks(rest));
            if has_block(bytes, (k + n - 1) as nat) {
                assert(written.data + bytes.subrange(
                    (512 * (k + 1)) as int,
                    (512 * (k + 1) + rest) as int,
                ) == entry.data + bytes.subrange((512 * k) as int, (512 * k + remaining) as int));
            }
        }
    }
}

/// Taking an archive block by block gives what the archive decodes to.
pub proof fn lemma_run_is_decode(bytes: Seq<u8>, k: nat, zeros: nat)
    requires
        512 * k <= bytes.len(),
    ensures
        run(bytes, k, Phase::Header { zeros }) == decode_from(bytes, k, zeros),
    decreases bytes.len() - 512 * k,
{
    if has_block(bytes, k) {
        let block = block_at(bytes, k);
        if is_sentinel(block) {
            if zeros == 0 {
                lemma_run_is_decode(bytes, k + 1, 1);
            } else {
                assert(run(bytes, k + 1, Phase::Finished).stopped_at == k + 1);
            }
        } else {
            let header = header_at(block);
            match header.entry_fields() {
                Err(_) => {},
                Ok(fields) => {
                    let opened = Entry::opened(fields.name, header);
                    let size = fields.size as nat;
                    let n = body_blocks(size);
                    let contents = bytes.subrange(
                        (512 * (k + 1)) as int,
                        (512 * (k + 1) + size) as int,
                    );
                    if size == 0 {
                        lemma_run_is_decode(bytes, k + 1, 0);
                        assert(contents == Seq::<u8>::empty());
                    } else {
                        lemma_run_body(bytes, k + 1, opened, size);
                        if has_block(bytes, k + n) {
                            lemma_run_is_decode(bytes, k + 1 + n, 0);
                            assert(opened.data + contents == contents);
                        }
                    }
                },
            }
        }
    }
}

/// Every entry of a decoding is well formed: its name is that of its header
/// and its contents have the declared size, so no padding is among them.
pub proof fn lemma_entries_well_formed(bytes: Seq<u8>, k: nat, zeros: nat)
    ensures
        forall|i: int|
            0 <= i < decode_from(bytes, k, zeros).entries.len() ==> (#[trigger] decode_from(
                bytes,
                k,
                zeros,
            ).entries[i]).well_formed(),
    decreases bytes.len() - 512 * k,
{
    if has_block(bytes, k) {
        let block = block_at(bytes, k);
        if is_sentinel(block) {
            if zeros == 0 {
                lemma_entries_well_formed(bytes, k + 1, 1);
            }
        } else {
            match header_at(block).entry_fields() {
                Err(_) => {},
                Ok(fields) => {
                    let n = body_blocks(fields.size as nat);
                    if has_block(bytes, k + n) {
                        lemma_entries_well_formed(bytes, k + 1 + n, 0);
                    }
                },
            }
        }
    }
}

/// Why a decode stopped, and where.
#[derive(Debug, Clone, PartialEq, Eq)]
pub struct ParseTarError {
    /// The reason.
    pub kind: TarError,
    /// The offset in the archive, in bytes, of the block at which the decode
    /// stopped.
    pub offset: usize,
}

/// What a decode of `bytes` leaves behind. `before` and `after` are the
/// entries that the destination held committed before and after the decode,
/// `reliable` says whether the destination undertook never to refuse, and `r`
/// is the result.
///
/// The destination gains a prefix of the archive's entries, in their order.
/// The decode succeeds only on an archive that is well formed up to its two
/// sentinels, and then every entry is committed. An error of the archive
/// names the first block that is missing or cannot be decoded, and every
/// entry before that block is committed. An error of the destination comes
/// only from a destination that gave no undertaking, and only while an entry
/// is open: one that the archive holds whole, or one whose contents the
/// archive cuts short.
pub open spec fn decode_outcome(
    bytes: Seq<u8>,
    before: Seq<Entry>,
    reliable: bool,
    after: Seq<Entry>,
    r: Result<(), ParseTarError>,
) -> bool {
    let archive = decode(bytes);
    &&& before.is_prefix_of(after)
    &&& after.is_prefix_of(before + archive.entries)
    &&& match r {
        Ok(()) => {
            &&& archive.error is None
            &&& after == before + archive.entries
        },
        Err(e) => if e.kind.from_destination() {
            &&& !reliable
            &&& e.offset % 512 == 0
            &&& e.offset + 512 <= bytes.len()
            &&& (after.len() - before.len() < archive.entries.len() || archive.error == Some(
                TarError::Io,
            ))
        } else {
            &&& archive.error == Some(e.kind)
            &&& e.offset == 512 * archive.stopped_at
            &&& after == before + archive.entries
        },
    }
}

/// Decodes an archive that is held in memory and hands its entries to `fs`,
/// in the order of their headers.
///
/// With a destination that undertakes never to refuse, the decode succeeds
/// exactly if the archive is well formed up to its two sentinels.
pub fn parse_tar<F: FileSystemImpl>(data: &[u8], fs: &mut F) -> (r: Result<(), ParseTarError>)
    ensures
        decode_outcome(data@, old(fs).saved(), old(fs).reliable(), final(fs).saved(), r),
        old(fs).reliable() ==> final(fs).reliable(),
{
    let mut state: Progress<F::Writer> = Progress::start();
    let mut offset: usize = 0;
    let ghost mut k: nat = 0;
    let ghost mut done: Seq<Entry> = Seq::empty();
    proof {
        lemma_run_is_decode(data@, 0, 0);
        assert(old(fs).saved() + done == old(fs).saved());
        assert(done + decode(data@).entries == decode(data@).entries);
    }
    loop
        invariant
            offset == 512 * k,
            offset <= data.len(),
            state.wf(),
            fs.saved() == old(fs).saved() + done,
            decode(data@).entries == done + run(data@, k, state.phase()).entries,
            decode(data@).error == run(data@, k, state.phase()).error,
            decode(data@).stopped_at == run(data@, k, state.phase()).stopped_at,
            old(fs).reliable() ==> fs.reliable() && state.reliable(),
        decreases data.len() - offset,
    {
        if state.is_archive_end() {
            proof {
                assert(done + Seq::<Entry>::empty() == done);
                lemma_committed_prefix(old(fs).saved(), done, decode(data@).entries);
            }
            return Ok(());
        }
        let block = match read_block(data, offset) {
            Err(e) => {
                proof {
                    assert(done + Seq::<Entry>::empty() == done);
                    lemma_committed_prefix(old(fs).saved(), done, decode(data@).entries);
                }
                return Err(ParseTarError { kind: e, offset });
            },
            Ok(block) => block,
        };
        assert(block@ == block_at(data@, k));
        let ghost before = state.phase();
        match feed_block(fs, state, &block) {
            Err(e) => {
                proof {
                    if e.from_destination() {
                        match step(before, block@)->Ok_0.0 {
                            Phase::Body { entry, remaining } => {
                                lemma_run_body(data@, k + 1, entry, remaining);
                            },
                            _ => {},
                        }
                    } else {
                        assert(done + Seq::<Entry>::empty() == done);
                    }
                    lemma_committed_prefix(old(fs).saved(), done, decode(data@).entries);
                }
                return Err(ParseTarError { kind: e, offset });
            },
            Ok(next) => {
                proof {
                    let committed = step(before, block@)->Ok_0.1;
                    let rest = run(data@, k + 1, next.phase());
                    if let Some(entry) = committed {
                        assert(done + (seq![entry] + rest.entries) == done.push(entry)
                            + rest.entries);
                        assert(old(fs).saved() + done.push(entry) == (old(fs).saved()
                            + done).push(entry));
                        done = done.push(entry);
                    }
                    k = k + 1;
                }
                state = next;
                offset += 512;
            },
        }
    }
}

/// What is committed while a prefix of the archive's entries has been
/// handed over lies between what was there and what the whole archive adds.
proof fn lemma_committed_prefix(before: Seq<Entry>, done: Seq<Entry>, all: Seq<Entry>)
    requires
        done.is_prefix_of(all),
    ensures
        before.is_prefix_of(before + done),
        (before + done).is_prefix_of(before + all),
{
}

/// The names of the entries of an archive that is held in memory, in the
/// order of their headers.
pub fn list_files_in_tar(data: &[u8]) -> (r: Result<Vec<String>, ParseTarError>)
    ensures
        match r {
            Ok(names) => {
                &&& decode(data@).error is None
                &&& names@.len() == decode(data@).entries.len()
                &&& forall|i: int|
                    0 <= i < names@.len() ==> (#[trigger] names@[i])@ == decode(
                        data@,
                    ).entries[i].name
            },
            Err(e) => {
                &&& decode(data@).error == Some(e.kind)
                &&& e.offset == 512 * decode(data@).stopped_at
            },
        },
{
    let mut fs = NullFileSystem::new();
    match parse_tar(data, &mut fs) {
        Err(e) => {
            return Err(e);
        },
        Ok(()) => {},
    }
    proof {
        lemma_entries_well_formed(data@, 0, 0);
        assert(Seq::<Entry>::empty() + decode(data@).entries == decode(data@).entries);
    }
    let mut names: Vec<String> = Vec::new();
    let mut i: usize = 0;
    while i < fs.state.len()
        invariant
            i <= fs.state.len(),
            fs.saved() == decode(data@).entries,
            names@.len() == i,
            forall|j: int|
                0 <= j < decode(data@).entries.len() ==> (#[trigger] decode(
                    data@,
                ).entries[j]).well_formed(),
            forall|j: int| 0 <= j < i ==> (#[trigger] names@[j])@ == decode(data@).entries[j].name,
        decreases fs.state.len() - i,
    {
        assert(fs.saved()[i as int] == fs.state@[i as int].pending());
        assert(decode(data@).entries[i as int].well_formed());
        let name = fs.state[i].tar.name().unwrap();
        names.push(name.to_owned());
        i += 1;
    }
    Ok(names)
}

} // verus!
