//! The store of a segment: records one behind the other, each with its length before it.
use crate::bytes::{
    be_bytes, be_bytes_len, be_round_trip, be_value, machine_words_fit, read_u64, write_u64,
};
use crate::error::LogError;
use crate::log::file::{extend_bytes, FileImage};
use vstd::prelude::*;
use vstd::slice::{slice_subrange, slice_to_vec};

verus! {

/// How many bytes the length before a record takes.
pub const LEN_WIDTH: usize = 8;

/// A file of records.
pub struct Store {
    pub file: FileImage,
    pub size: u64,
}

/// A record as the store holds it: its length, then its bytes.
pub open spec fn frame(p: Seq<u8>) -> Seq<u8> {
    be_bytes(p.len(), LEN_WIDTH as nat) + p
}

/// The record whose length stands at `pos`, if all of it is there.
pub open spec fn frame_at(bytes: Seq<u8>, pos: int) -> Option<Seq<u8>> {
    if pos < 0 || pos + LEN_WIDTH > bytes.len() {
        None
    } else {
        let len = be_value(bytes.subrange(pos, pos + LEN_WIDTH));
        if pos + LEN_WIDTH + len > bytes.len() {
            None
        } else {
            Some(bytes.subrange(pos + LEN_WIDTH, pos + LEN_WIDTH + len))
        }
    }
}

/// The bytes that a read of at most `max` bytes at `off` gives.
pub open spec fn bytes_at(bytes: Seq<u8>, off: int, max: int) -> Seq<u8> {
    if off >= bytes.len() {
        Seq::empty()
    } else if max <= bytes.len() - off {
        bytes.subrange(off, off + max)
    } else {
        bytes.skip(off)
    }
}

impl Store {
    /// The bytes of the store.
    pub open spec fn bytes(&self) -> Seq<u8> {
        self.file.contents@
    }

    /// The store knows how long its file is.
    pub open spec fn wf(&self) -> bool {
        self.size == self.file.contents@.len()
    }

    /// A store on what `file` holds already.
    pub fn new_store(file: FileImage) -> (store: Store)
        ensures
            store.wf(),
            store.file == file,
    {
        let size: u64 = file.contents.len() as u64;
        Store { file, size }
    }

    /// Adds a record at the end; gives how many bytes that took and where it begins.
    pub fn append(&mut self, p: &[u8]) -> (written: (u64, u64))
        requires
            old(self).wf(),
        ensures
            final(self).wf(),
            final(self).bytes() == old(self).bytes() + frame(p@),
            final(self).file.name == old(self).file.name,
            written.0 == LEN_WIDTH + p@.len(),
            written.1 == old(self).size,
    {
        let pos: u64 = self.size;
        let ghost before = self.bytes();
        let mut head: Vec<u8> = vec![0u8; LEN_WIDTH];
        write_u64(head.as_mut_slice(), p.len() as u64);
        proof {
            be_bytes_len(p@.len(), 8);
            assert(head@ =~= be_bytes(p@.len(), 8));
        }
        extend_bytes(&mut self.file.contents, head.as_slice());
        extend_bytes(&mut self.file.contents, p);
        assert(self.bytes() =~= before + frame(p@));
        self.size = self.file.contents.len() as u64;
        ((LEN_WIDTH + p.len()) as u64, pos)
    }

    /// The record that begins at `pos`.
    pub fn read(&self, pos: u64) -> (result: Result<Vec<u8>, LogError>)
        requires
            self.wf(),
        ensures
            match frame_at(self.bytes(), pos as int) {
                Some(data) => result matches Ok(got) && got@ == data,
                None => result == Err::<Vec<u8>, LogError>(LogError::ShortRead),
            },
    {
        let end: usize = self.file.contents.len();
        if pos > self.size || self.size - pos < LEN_WIDTH as u64 {
            return Err(LogError::ShortRead);
        }
        let start: usize = pos as usize;
        let head = slice_subrange(self.file.contents.as_slice(), start, start + LEN_WIDTH);
        let len: u64 = read_u64(head);
        assert(head@.take(8) =~= self.bytes().subrange(pos as int, pos + LEN_WIDTH));
        let body: usize = start + LEN_WIDTH;
        if len > (end - body) as u64 {
            return Err(LogError::ShortRead);
        }
        Ok(slice_to_vec(slice_subrange(self.file.contents.as_slice(), body, body + len as usize)))
    }

    /// Fills the front of `p` with the bytes of the store from `off` on, as far as they go, and
    /// says how many there were.
    pub fn read_at(&self, p: &mut [u8], off: u64) -> (n: usize)
        requires
            self.wf(),
        ensures
            n == bytes_at(self.bytes(), off as int, old(p)@.len() as int).len(),
            off >= self.file.contents@.len() ==> n == 0,
            off < self.file.contents@.len() ==> n <= old(p)@.len() && n
                <= self.file.contents@.len() - off && (n == old(p)@.len() || n
                == self.file.contents@.len() - off),
            final(p)@.len() == old(p)@.len(),
            forall|i: int|
                0 <= i < n ==> #[trigger] final(p)@[i] == self.file.contents@[off + i],
            forall|i: int| n <= i < old(p)@.len() ==> #[trigger] final(p)@[i] == old(p)@[i],
            final(p)@ == bytes_at(self.bytes(), off as int, old(p)@.len() as int)
                + old(p)@.skip(n as int),
    {
        let end: usize = self.file.contents.len();
        if off >= self.size {
            assert(p@ =~= Seq::<u8>::empty() + p@.skip(0));
            return 0;
        }
        let start: usize = off as usize;
        let left: usize = end - start;
        let n: usize = if p.len() < left { p.len() } else { left };
        let ghost before = p@;
        let ghost data = bytes_at(self.bytes(), off as int, before.len() as int);
        assert(data =~= self.bytes().subrange(off as int, off + n));
        let mut i: usize = 0;
        while i < n
            invariant
                i <= n <= before.len(),
                start + n <= end == self.bytes().len(),
                data == self.bytes().subrange(start as int, start + n),
                p@ == data.take(i as int) + before.skip(i as int),
            decreases n - i,
        {
            p[i] = self.file.contents[start + i];
            i += 1;
            assert(p@ =~= data.take(i as int) + before.skip(i as int));
        }
        assert(data.take(n as int) =~= data);
        n
    }

    /// The file as the store leaves it.
    pub fn close(&self) -> (file: &FileImage)
        ensures
            *file == self.file,
    {
        &self.file
    }
}

/// A record that was added at the end is read back from there.
pub proof fn frame_reads_back(bytes: Seq<u8>, p: Seq<u8>)
    requires
        p.len() <= u64::MAX,
    ensures
        frame_at(bytes + frame(p), bytes.len() as int) == Some(p),
{
    let after = bytes + frame(p);
    let pos = bytes.len() as int;
    be_bytes_len(p.len(), 8);
    machine_words_fit(0, p.len() as u64);
    be_round_trip(p.len(), 8);
    assert(after.subrange(pos, pos + LEN_WIDTH) =~= be_bytes(p.len(), 8));
    assert(after.subrange(pos + LEN_WIDTH, pos + LEN_WIDTH + p.len()) =~= p);
}

/// What is added at the end leaves the records before it as they are.
pub proof fn frame_stays(bytes: Seq<u8>, more: Seq<u8>, pos: int)
    requires
        frame_at(bytes, pos) is Some,
    ensures
        frame_at(bytes + more, pos) == frame_at(bytes, pos),
{
    let after = bytes + more;
    assert(after.subrange(pos, pos + LEN_WIDTH) =~= bytes.subrange(pos, pos + LEN_WIDTH));
    let len = be_value(bytes.subrange(pos, pos + LEN_WIDTH));
    assert(after.subrange(pos + LEN_WIDTH, pos + LEN_WIDTH + len) =~= bytes.subrange(
        pos + LEN_WIDTH,
        pos + LEN_WIDTH + len,
    ));
}

/// A read gives as many bytes as the buffer takes and the store has from there on, and each of them
/// is the one at its place in the store.
pub proof fn read_gives_bytes_in_place(bytes: Seq<u8>, off: int, max: int)
    requires
        0 <= off,
        0 <= max,
    ensures
        off >= bytes.len() ==> bytes_at(bytes, off, max).len() == 0,
        off < bytes.len() && max <= bytes.len() - off ==> bytes_at(bytes, off, max).len() == max,
        off < bytes.len() && max > bytes.len() - off ==> bytes_at(bytes, off, max).len()
            == bytes.len() - off,
        forall|i: int|
            0 <= i < bytes_at(bytes, off, max).len() ==> #[trigger] bytes_at(bytes, off, max)[i]
                == bytes[off + i],
{
}

/// Reading on where a read ended gives what one read into a buffer of both lengths gives.
pub proof fn reads_follow_each_other(bytes: Seq<u8>, off: int, first: int, second: int)
    requires
        0 <= off,
        0 <= first,
        0 <= second,
    ensures
        bytes_at(bytes, off, first) + bytes_at(
            bytes,
            off + bytes_at(bytes, off, first).len(),
            second,
        ) == bytes_at(bytes, off, first + second),
{
    assert(bytes_at(bytes, off, first) + bytes_at(
        bytes,
        off + bytes_at(bytes, off, first).len(),
        second,
    ) =~= bytes_at(bytes, off, first + second));
}

/// A record takes eight bytes more than it has; the first eight spell how many it has, and the
/// record itself is behind them.
pub proof fn frame_is_length_and_record(p: Seq<u8>)
    requires
        p.len() <= u64::MAX,
    ensures
        frame(p).len() == 8 + p.len(),
        be_value(frame(p).take(8)) == p.len(),
        forall|i: int| 0 <= i < p.len() ==> #[trigger] frame(p)[8 + i] == p[i],
{
    be_bytes_len(p.len(), 8);
    machine_words_fit(0, p.len() as u64);
    be_round_trip(p.len(), 8);
    assert(frame(p).take(8) =~= be_bytes(p.len(), 8));
}

/// A record is found exactly where the eight bytes spell its length and it is all there behind
/// them.
pub proof fn record_is_found_by_its_length(bytes: Seq<u8>, pos: int, p: Seq<u8>)
    requires
        p.len() <= u64::MAX,
    ensures
        frame_at(bytes, pos) == Some(p) <==> {
            &&& 0 <= pos
            &&& pos + 8 + p.len() <= bytes.len()
            &&& be_value(bytes.subrange(pos, pos + 8)) == p.len()
            &&& forall|i: int| 0 <= i < p.len() ==> #[trigger] p[i] == bytes[pos + 8 + i]
        },
{
    if 0 <= pos && pos + 8 + p.len() <= bytes.len() && be_value(bytes.subrange(pos, pos + 8))
        == p.len() {
        let found = bytes.subrange(pos + 8, pos + 8 + p.len());
        assert(frame_at(bytes, pos) == Some(found));
        if forall|i: int| 0 <= i < p.len() ==> #[trigger] p[i] == bytes[pos + 8 + i] {
            assert(found =~= p);
        }
        if found == p {
            assert forall|i: int| 0 <= i < p.len() implies #[trigger] p[i]
                == bytes[pos + 8 + i] by {
                assert(found[i] == bytes[pos + 8 + i]);
            }
        }
    }
}

/// No record is found exactly where there are no eight bytes, or fewer behind them than they spell.
pub proof fn record_is_missing_where_cut(bytes: Seq<u8>, pos: int)
    requires
        0 <= pos,
    ensures
        frame_at(bytes, pos) is None <==> (pos + 8 > bytes.len() || pos + 8 + be_value(
            bytes.subrange(pos, pos + 8),
        ) > bytes.len()),
{
}

} // verus!
