//! Where decoded entries go.
//!
//! A destination opens a writer for each entry, the writer receives the
//! entry's contents in order, and the destination commits the writer when the
//! contents are complete. Two destinations live here: one that keeps every
//! entry in memory and one that keeps the headers only.

use crate::header::{HeaderView, TarHeader, TarHeaderCastedFields};
use vstd::prelude::*;

verus! {

/// One entry as a destination sees it: the name and the header it was opened
/// with, and the contents written so far.
pub struct Entry {
    pub name: Seq<char>,
    pub header: HeaderView,
    pub data: Seq<u8>,
}

impl Entry {
    /// An entry that has just been opened: no contents yet.
    pub open spec fn opened(name: Seq<char>, header: HeaderView) -> Entry {
        Entry { name, header, data: Seq::empty() }
    }

    /// The entry after `bytes` were written to it.
    pub open spec fn append(self, bytes: Seq<u8>) -> Entry {
        Entry { name: self.name, header: self.header, data: self.data + bytes }
    }

    /// An entry as a decoder leaves it: its header decodes, the name is the
    /// header's, and the contents have the declared size.
    pub open spec fn well_formed(self) -> bool {
        match self.header.entry_fields() {
            Ok(fields) => self.name == fields.name && self.data.len() == fields.size,
            Err(_) => false,
        }
    }
}

/// The handle of one open entry.
///
/// The two spec functions describe a writer to the verifier. A writer that
/// is not verified leaves them as they are.
pub trait FileWriter {
    /// The entry as it stands: what it was opened with and what was written.
    open spec fn pending(&self) -> Entry {
        arbitrary()
    }

    /// Whether this writer undertakes never to refuse a chunk.
    open spec fn reliable(&self) -> bool {
        false
    }

    /// Appends `data` to the entry's contents.
    fn write_block(&mut self, data: &[u8]) -> (r: Result<(), String>)
        ensures
            r is Ok ==> final(self).pending() == old(self).pending().append(data@),
            old(self).reliable() ==> r is Ok && final(self).reliable(),
    ;
}

/// A destination for the entries of an archive.
///
/// The two spec functions describe a destination to the verifier. A
/// destination that is not verified leaves them as they are.
pub trait FileSystemImpl {
    type Writer: FileWriter;

    /// The entries committed so far, oldest first.
    open spec fn saved(&self) -> Seq<Entry> {
        arbitrary()
    }

    /// Whether this destination undertakes never to refuse: every entry
    /// opens, every chunk is taken and every commit succeeds.
    open spec fn reliable(&self) -> bool {
        false
    }

    /// Opens a writer for the entry that `tar_header` describes.
    fn open<'a>(
        &self,
        tar_header: &'a TarHeader,
        casted_fields: &'a TarHeaderCastedFields<'a>,
    ) -> (r: Result<Self::Writer, String>)
        ensures
            r matches Ok(w) ==> w.pending() == Entry::opened(casted_fields@.name, tar_header@),
            self.reliable() ==> r is Ok && r->Ok_0.reliable(),
    ;

    /// Commits an entry whose contents are complete.
    fn save(&mut self, writer: Self::Writer) -> (r: Result<(), String>)
        ensures
            r is Ok ==> final(self).saved() == old(self).saved().push(writer.pending()),
            r is Err ==> final(self).saved() == old(self).saved(),
            old(self).reliable() ==> r is Ok && final(self).reliable(),
    ;
}

/// An entry held in memory.
#[derive(Debug)]
pub struct MemoryFile {
    pub name: String,
    pub meta: TarHeader,
    pub data: Vec<u8>,
}

impl View for MemoryFile {
    type V = Entry;

    open spec fn view(&self) -> Entry {
        Entry { name: self.name@, header: self.meta@, data: self.data@ }
    }
}

impl FileWriter for MemoryFile {
    open spec fn pending(&self) -> Entry {
        self@
    }

    open spec fn reliable(&self) -> bool {
        true
    }

    fn write_block(&mut self, data: &[u8]) -> (r: Result<(), String>)
        ensures
            r is Ok,
    {
        self.data.extend_from_slice(data);
        assert(self.data@ == old(self).data@ + data@);
        Ok(())
    }
}

/// A destination that keeps every entry, contents included, in the order of
/// commit.
#[derive(Debug)]
pub struct MemoryFileSystem {
    pub state: Vec<MemoryFile>,
}

impl MemoryFileSystem {
    /// A destination that holds no entry yet.
    pub fn new() -> (fs: MemoryFileSystem)
        ensures
            fs.state@.len() == 0,
            fs.saved() == Seq::<Entry>::empty(),
    {
        MemoryFileSystem { state: Vec::new() }
    }
}

impl Default for MemoryFileSystem {
    fn default() -> (fs: MemoryFileSystem)
        ensures
            fs.state@.len() == 0,
            fs.saved() == Seq::<Entry>::empty(),
    {
        MemoryFileSystem::new()
    }
}

impl FileSystemImpl for MemoryFileSystem {
    type Writer = MemoryFile;

    open spec fn saved(&self) -> Seq<Entry> {
        self.state@.map_values(|f: MemoryFile| f@)
    }

    open spec fn reliable(&self) -> bool {
        true
    }

    fn open<'a>(
        &self,
        tar_header: &'a TarHeader,
        casted_fields: &'a TarHeaderCastedFields<'a>,
    ) -> (r: Result<Self::Writer, String>)
        ensures
            r is Ok,
    {
        Ok(MemoryFile { name: casted_fields.name.to_owned(), meta: *tar_header, data: Vec::new() })
    }

    fn save(&mut self, writer: Self::Writer) -> (r: Result<(), String>)
        ensures
            r is Ok,
            final(self).state@ == old(self).state@.push(writer),
    {
        self.state.push(writer);
        assert(self.saved() == old(self).saved().push(writer@));
        Ok(())
    }
}

/// The marker of an entry whose contents are dropped: it keeps the header.
pub struct NullFile {
    pub tar: TarHeader,
    /// What the writer was handed. It exists for the verifier only; nothing
    /// is stored when the program runs.
    pub handed: Ghost<Entry>,
}

impl FileWriter for NullFile {
    open spec fn pending(&self) -> Entry {
        Entry { name: self.handed@.name, header: self.tar@, data: self.handed@.data }
    }

    open spec fn reliable(&self) -> bool {
        true
    }

    fn write_block(&mut self, data: &[u8]) -> (r: Result<(), String>)
        ensures
            r is Ok,
            final(self).tar == old(self).tar,
    {
        self.handed = Ghost(self.handed@.append(data@));
        Ok(())
    }
}

/// A destination that does not store the contents of the entries: it keeps
/// their headers, in the order of commit.
pub struct NullFileSystem {
    pub state: Vec<NullFile>,
}

impl NullFileSystem {
    /// A destination that holds no entry yet.
    pub fn new() -> (fs: NullFileSystem)
        ensures
            fs.state@.len() == 0,
            fs.saved() == Seq::<Entry>::empty(),
    {
        NullFileSystem { state: Vec::new() }
    }
}

impl Default for NullFileSystem {
    fn default() -> (fs: NullFileSystem)
        ensures
            fs.state@.len() == 0,
            fs.saved() == Seq::<Entry>::empty(),
    {
        NullFileSystem::new()
    }
}

impl FileSystemImpl for NullFileSystem {
    type Writer = NullFile;

    open spec fn saved(&self) -> Seq<Entry> {
        self.state@.map_values(|f: NullFile| f.pending())
    }

    open spec fn reliable(&self) -> bool {
        true
    }

    fn open<'a>(
        &self,
        tar_header: &'a TarHeader,
        casted_fields: &'a TarHeaderCastedFields<'a>,
    ) -> (r: Result<Self::Writer, String>)
        ensures
            r is Ok,
    {
        Ok(
            NullFile {
                tar: *tar_header,
                handed: Ghost(Entry::opened(casted_fields@.name, tar_header@)),
            },
        )
    }

    fn save(&mut self, writer: Self::Writer) -> (r: Result<(), String>)
        ensures
            r is Ok,
            final(self).state@ == old(self).state@.push(writer),
    {
        self.state.push(writer);
        assert(self.saved() == old(self).saved().push(writer.pending()));
        Ok(())
    }
}

} // verus!
