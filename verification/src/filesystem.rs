//! The capability through which a consumer walks a directory tree and reads
//! files, without knowing where the nodes are kept.

use core::fmt::Debug;
use core::ops::Range;
use vstd::prelude::*;

verus! {

/// One line of a directory listing: a name and the handle it refers to.
pub struct DirectoryEntry<FS: FsRead> {
    pub name: String,
    pub handle: FS::NodeHandle,
}

/// Metadata of a node. It carries nothing yet.
pub struct FileAttr;

/// Read access to a tree of directories and files through opaque handles.
///
/// Every operation checks first that the handle exists, then that the node
/// has the kind the operation needs, then whatever else the operation asks.
/// The spec functions say, for each handle, what the matching operation
/// answers; an implementation defines them over its own model.
pub trait FsRead: Sized {
    type FileCtx;

    type NodeHandle: Clone;

    type Error: Debug;

    /// The store is consistent.
    spec fn wf(&self) -> bool;

    /// The handle of the top-level directory.
    spec fn root(&self) -> Self::NodeHandle;

    /// What listing `directory` gives: its entries in order, or the error.
    spec fn listing(&self, directory: Self::NodeHandle) -> Result<
        Seq<(Seq<char>, Self::NodeHandle)>,
        Self::Error,
    >;

    /// Whether `handle` can be opened (and closed) as a file, or the error.
    spec fn file_check(&self, handle: Self::NodeHandle) -> Result<(), Self::Error>;

    /// The bytes of `[from, to)` of the file behind `handle`, for a
    /// destination with room for `room` bytes, or the error.
    spec fn range_bytes(&self, handle: Self::NodeHandle, from: usize, to: usize, room: nat) -> Result<
        Seq<u8>,
        Self::Error,
    >;

    /// No listing shows a handle that dangles: each entry can itself be
    /// listed, or opened as a file.
    proof fn lemma_no_dangling_handle(&self, directory: Self::NodeHandle, i: int)
        requires
            self.wf(),
            self.listing(directory) is Ok,
            0 <= i < self.listing(directory)->Ok_0.len(),
        ensures
            self.listing(self.listing(directory)->Ok_0[i].1) is Ok || self.file_check(
                self.listing(directory)->Ok_0[i].1,
            ) is Ok,
    ;

    /// Reading checks the handle as opening does, and before anything
    /// else: where the handle cannot be opened, a read fails with the same
    /// error, whatever the range and the room.
    proof fn lemma_read_checks_handle_first(
        &self,
        handle: Self::NodeHandle,
        from: usize,
        to: usize,
        room: nat,
    )
        requires
            self.wf(),
            self.file_check(handle) is Err,
        ensures
            self.range_bytes(handle, from, to, room) == Err::<Seq<u8>, Self::Error>(
                self.file_check(handle)->Err_0,
            ),
    ;

    /// Called once when the filesystem is attached.
    fn init(&mut self)
        requires
            old(self).wf(),
        ensures
            final(self).wf(),
    ;

    /// Called once when the filesystem is detached.
    fn destroy(&mut self)
        requires
            old(self).wf(),
        ensures
            final(self).wf(),
    ;

    fn dir_root(&self) -> (handle: Self::NodeHandle)
        requires
            self.wf(),
        ensures
            handle == self.root(),
    ;

    /// Replaces `dir_data` by the listing of `directory`; on an error
    /// `dir_data` is left as it was.
    fn dir_read(&self, directory: &Self::NodeHandle, dir_data: &mut Vec<DirectoryEntry<Self>>) -> (r:
        Result<(), Self::Error>)
        requires
            self.wf(),
        ensures
            match self.listing(*directory) {
                Ok(entries) => {
                    &&& r is Ok
                    &&& final(dir_data)@.len() == entries.len()
                    &&& forall|i: int|
                        #![trigger final(dir_data)@[i]]
                        0 <= i < entries.len() ==> (
                        final(dir_data)@[i].name@,
                        final(dir_data)@[i].handle,
                        ) == entries[i]
                },
                Err(e) => r == Err::<(), Self::Error>(e) && final(dir_data)@ == old(dir_data)@,
            },
    ;

    fn file_open(&self, handle: &Self::NodeHandle) -> (r: Result<Self::FileCtx, Self::Error>)
        requires
            self.wf(),
        ensures
            match self.file_check(*handle) {
                Ok(_) => r is Ok,
                Err(e) => r is Err && r->Err_0 == e,
            },
    ;

    /// Copies `[range.start, range.end)` of the file to the front of `buf`
    /// and returns how many bytes that is; on an error `buf` is left as it
    /// was.
    fn file_read(
        &self,
        handle: &Self::NodeHandle,
        ctx: &Self::FileCtx,
        range: Range<usize>,
        buf: &mut [u8],
    ) -> (r: Result<usize, Self::Error>)
        requires
            self.wf(),
        ensures
            match self.range_bytes(*handle, range.start, range.end, old(buf)@.len()) {
                Ok(bytes) => {
                    &&& r == Ok::<usize, Self::Error>((range.end - range.start) as usize)
                    &&& bytes.len() == range.end - range.start
                    &&& bytes.len() <= old(buf)@.len()
                    &&& final(buf)@ == bytes + old(buf)@.skip(bytes.len() as int)
                },
                Err(e) => r == Err::<usize, Self::Error>(e) && final(buf)@ == old(buf)@,
            },
    ;

    fn file_get_attr(&self, file: &Self::NodeHandle) -> (r: Result<FileAttr, Self::Error>)
        requires
            self.wf(),
    ;

    fn file_close(&self, file: &Self::NodeHandle, ctx: Self::FileCtx) -> (r: Result<(), Self::Error>)
        requires
            self.wf(),
        ensures
            r == self.file_check(*file),
    ;
}

/// What `dir_read` promises of one call: `after` is the buffer that the call
/// leaves, `before` the one that it was given.
pub open spec fn dir_read_outcome<FS: FsRead>(
    fs: &FS,
    directory: FS::NodeHandle,
    before: Seq<DirectoryEntry<FS>>,
    after: Seq<DirectoryEntry<FS>>,
    r: Result<(), FS::Error>,
) -> bool {
    match fs.listing(directory) {
        Ok(entries) => {
            &&& r is Ok
            &&& after.len() == entries.len()
            &&& forall|i: int|
                #![trigger after[i]]
                0 <= i < entries.len() ==> (after[i].name@, after[i].handle) == entries[i]
        },
        Err(e) => r == Err::<(), FS::Error>(e) && after == before,
    }
}

/// Lists `directory` into `dir_data` through `dir_read`.
pub fn list<FS: FsRead>(fs: &FS, directory: &FS::NodeHandle, dir_data: &mut Vec<DirectoryEntry<FS>>) -> (r:
    Result<(), FS::Error>)
    requires
        fs.wf(),
    ensures
        dir_read_outcome(fs, *directory, old(dir_data)@, final(dir_data)@, r),
{
    fs.dir_read(directory, dir_data)
}

/// Listing a directory twice gives the same answer twice: the same error, or
/// the same names and handles in the same order, whatever the buffers held
/// before.
pub proof fn lemma_dir_read_repeatable<FS: FsRead>(
    fs: &FS,
    directory: FS::NodeHandle,
    before1: Seq<DirectoryEntry<FS>>,
    after1: Seq<DirectoryEntry<FS>>,
    r1: Result<(), FS::Error>,
    before2: Seq<DirectoryEntry<FS>>,
    after2: Seq<DirectoryEntry<FS>>,
    r2: Result<(), FS::Error>,
)
    requires
        dir_read_outcome(fs, directory, before1, after1, r1),
        dir_read_outcome(fs, directory, before2, after2, r2),
    ensures
        r1 is Ok <==> r2 is Ok,
        r1 is Err ==> r1 == r2,
        r1 is Ok ==> after1.len() == after2.len(),
        r1 is Ok ==> forall|i: int|
            0 <= i < after1.len() ==> (#[trigger] after1[i]).name@ == after2[i].name@ && after1[i].handle
                == after2[i].handle,
{
    if r1 is Ok {
        let entries = fs.listing(directory)->Ok_0;
        assert forall|i: int| 0 <= i < after1.len() implies (#[trigger] after1[i]).name@
            == after2[i].name@ && after1[i].handle == after2[i].handle by {
            assert((after1[i].name@, after1[i].handle) == entries[i]);
            assert((after2[i].name@, after2[i].handle) == entries[i]);
        }
    }
}

} // verus!
