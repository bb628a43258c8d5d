//! Reading on in files that grow, and that may be replaced.

use vstd::prelude::*;

use crate::strmap::StrMap;

verus! {

/// Where to read on in a file of `file_len` bytes of which `offset` were read:
/// one that is shorter than that was replaced, and is read from its start.
pub open spec fn resume_at(offset: u64, file_len: u64) -> u64 {
    if file_len < offset {
        0
    } else {
        offset
    }
}

/// Where to read on in a file.
pub fn resume(offset: u64, file_len: u64) -> (r: u64)
    ensures
        r == resume_at(offset, file_len),
{
    if file_len < offset {
        0
    } else {
        offset
    }
}

/// How much of a file was read; nothing of one that is new.
pub open spec fn offset_of(offsets: Map<Seq<char>, u64>, file: Seq<char>) -> u64 {
    if offsets.contains_key(file) {
        offsets[file]
    } else {
        0
    }
}

/// How many bytes were read of each file.
#[derive(Debug)]
pub struct Offsets {
    offsets: StrMap<u64>,
}

impl View for Offsets {
    type V = Map<Seq<char>, u64>;

    closed spec fn view(&self) -> Map<Seq<char>, u64> {
        self.offsets@
    }
}

impl Offsets {
    /// No file was read.
    pub fn new() -> (r: Self)
        ensures
            r@ == Map::<Seq<char>, u64>::empty(),
    {
        Offsets { offsets: StrMap::new() }
    }

    /// Counts a file of `file_len` bytes as read, so as not to flood the
    /// pipeline with historical data.
    pub fn skip_history(&mut self, file: &str, file_len: u64)
        ensures
            final(self)@ == old(self)@.insert(file@, file_len),
    {
        let _ = self.offsets.insert(file.to_owned(), file_len);
    }

    /// Where to read on in a file that now has `file_len` bytes.
    pub fn start(&mut self, file: &str, file_len: u64) -> (r: u64)
        ensures
            r == resume_at(offset_of(old(self)@, file@), file_len),
            final(self)@ == old(self)@.insert(file@, r),
    {
        let read: u64 = match self.offsets.get(file) {
            Some(n) => *n,
            None => 0,
        };
        let r: u64 = resume(read, file_len);
        let _ = self.offsets.insert(file.to_owned(), r);
        r
    }

    /// Whether `n` more bytes of a file can be counted.
    pub fn can_advance(&self, file: &str, n: u64) -> (r: bool)
        ensures
            r == (offset_of(self@, file@) + n <= u64::MAX),
    {
        let read: u64 = match self.offsets.get(file) {
            Some(n) => *n,
            None => 0,
        };
        n <= u64::MAX - read
    }

    /// Counts `n` more bytes of a file as read.
    pub fn advance(&mut self, file: &str, n: u64)
        requires
            offset_of(old(self)@, file@) + n <= u64::MAX,
        ensures
            final(self)@ == old(self)@.insert(
                file@,
                (offset_of(old(self)@, file@) + n) as u64,
            ),
    {
        let read: u64 = match self.offsets.get(file) {
            Some(n) => *n,
            None => 0,
        };
        let _ = self.offsets.insert(file.to_owned(), read + n);
    }
}

/// Reading always starts within the file, and in a file that has only grown
/// where it stopped.
pub proof fn law_reading_resumes_within_the_file(offset: u64, file_len: u64)
    ensures
        resume_at(offset, file_len) <= file_len,
        offset <= file_len ==> resume_at(offset, file_len) == offset,
{
}

/// Nothing is read twice: in a file that has not become shorter, the next
/// reading starts where the one before stopped, whatever other files were read
/// in between.
pub proof fn law_nothing_is_read_twice(
    offsets: Map<Seq<char>, u64>,
    file: Seq<char>,
    n: u64,
    other: Seq<char>,
    at: u64,
    file_len: u64,
)
    requires
        offset_of(offsets, file) + n <= file_len,
        other != file,
    ensures
        ({
            let after = offsets.insert(file, (offset_of(offsets, file) + n) as u64);
            resume_at(offset_of(after.insert(other, at), file), file_len) == offset_of(
                offsets,
                file,
            ) + n
        }),
{
}

/// What stood in a file before the agent started is not replayed.
pub proof fn law_history_is_skipped(
    offsets: Map<Seq<char>, u64>,
    file: Seq<char>,
    file_len: u64,
    grown: u64,
)
    requires
        file_len <= grown,
    ensures
        resume_at(offset_of(offsets.insert(file, file_len), file), grown) == file_len,
{
}

/// A file that is shorter than what was read of it was replaced, and is read from
/// its start; a file that is new is read from its start, and what was counted of
/// one is what is known of it.
pub proof fn law_replaced_files_are_read_from_the_start(
    offsets: Map<Seq<char>, u64>,
    file: Seq<char>,
    offset: u64,
    file_len: u64,
)
    ensures
        file_len < offset ==> resume_at(offset, file_len) == 0,
        !offsets.contains_key(file) ==> offset_of(offsets, file) == 0,
        offset_of(offsets.insert(file, offset), file) == offset,
{
}

} // verus!
