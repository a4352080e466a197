//! Readers of the raw bytes of stores.
use crate::log::store::{bytes_at, read_gives_bytes_in_place, Store};
use vstd::prelude::*;
use vstd::slice::{slice_subrange, slice_to_vec};

verus! {

/// Reads a store from some place on.
pub struct OriginReader<'a> {
    pub store: &'a Store,
    pub off: u64,
}

/// Reads several stores.
pub struct MultiReader<'a> {
    pub readers: Vec<OriginReader<'a>>,
}

/// How many bytes a `MultiReader` can give.
pub const BUFFER_BYTES: usize = 1024;

/// The bytes that one read gives, into a buffer of `max` bytes.
pub open spec fn next_bytes(reader: OriginReader<'_>, max: int) -> Seq<u8> {
    bytes_at(reader.store.bytes(), reader.off as int, max)
}

/// How many bytes the readers give in all, into a buffer of `max` bytes.
pub open spec fn total_read(readers: Seq<OriginReader<'_>>, max: int) -> nat
    decreases readers.len(),
{
    if readers.len() == 0 {
        0
    } else {
        total_read(readers.drop_last(), max) + next_bytes(readers.last(), max).len()
    }
}

/// The buffer after all readers have read into it. Each of them begins at its front.
pub open spec fn filled(readers: Seq<OriginReader<'_>>, buffer: Seq<u8>) -> Seq<u8>
    decreases readers.len(),
{
    if readers.len() == 0 {
        buffer
    } else {
        let data = next_bytes(readers.last(), buffer.len() as int);
        data + filled(readers.drop_last(), buffer).skip(data.len() as int)
    }
}

/// A buffer of zeros.
pub open spec fn zeros(len: nat) -> Seq<u8> {
    Seq::new(len, |i: int| 0u8)
}

impl<'a> OriginReader<'a> {
    /// A reader of `store` from `off` on.
    pub fn new(store: &'a Store, off: u64) -> (reader: OriginReader<'a>)
        ensures
            reader.store == store,
            reader.off == off,
    {
        OriginReader { store, off }
    }

    /// Fills the front of `p` with the bytes that follow, as far as they go, and says how many
    /// there were.
    pub fn read(&mut self, p: &mut [u8]) -> (n: usize)
        requires
            old(self).store.wf(),
        ensures
            n == next_bytes(*old(self), old(p)@.len() as int).len(),
            final(p)@ == next_bytes(*old(self), old(p)@.len() as int) + old(p)@.skip(n as int),
            final(self).store == old(self).store,
            final(self).off == old(self).off + n,
    {
        let n: usize = self.store.read_at(p, self.off);
        self.off = self.off + n as u64;
        n
    }
}

impl<'a> MultiReader<'a> {
    /// A reader of what these readers read.
    pub fn new(readers: Vec<OriginReader<'a>>) -> (reader: MultiReader<'a>)
        ensures
            reader.readers == readers,
    {
        MultiReader { readers }
    }

    /// Lets every reader read once into the front of one buffer, and gives as many bytes of the
    /// buffer as were read in all.
    pub fn read_all(&mut self) -> (bytes: Vec<u8>)
        requires
            forall|i: int|
                0 <= i < old(self).readers@.len() ==> (
                #[trigger] old(self).readers@[i]).store.wf(),
            total_read(old(self).readers@, BUFFER_BYTES as int) <= BUFFER_BYTES,
        ensures
            bytes@ == filled(old(self).readers@, zeros(BUFFER_BYTES as nat)).take(
                total_read(old(self).readers@, BUFFER_BYTES as int) as int,
            ),
            final(self).readers@.len() == old(self).readers@.len(),
            forall|i: int|
                #![trigger final(self).readers@[i]]
                0 <= i < old(self).readers@.len() ==> {
                    &&& final(self).readers@[i].store == old(self).readers@[i].store
                    &&& final(self).readers@[i].off == old(self).readers@[i].off + next_bytes(
                        old(self).readers@[i],
                        BUFFER_BYTES as int,
                    ).len()
                },
    {
        let ghost before = self.readers@;
        let mut b: Vec<u8> = vec![0u8; BUFFER_BYTES];
        assert(b@ =~= zeros(BUFFER_BYTES as nat));
        let mut bytes_read: usize = 0;
        let n: usize = self.readers.len();
        let mut i: usize = 0;
        assert(before.take(0) =~= Seq::<OriginReader<'_>>::empty());
        while i < n
            invariant
                i <= n == before.len(),
                self.readers@.len() == n,
                b@.len() == BUFFER_BYTES,
                b@ == filled(before.take(i as int), zeros(BUFFER_BYTES as nat)),
                bytes_read == total_read(before.take(i as int), BUFFER_BYTES as int),
                total_read(before, BUFFER_BYTES as int) <= BUFFER_BYTES,
                forall|j: int| 0 <= j < n ==> (#[trigger] before[j]).store.wf(),
                forall|j: int| i <= j < n ==> #[trigger] self.readers@[j] == before[j],
                forall|j: int|
                    #![trigger self.readers@[j]]
                    0 <= j < i ==> {
                        &&& self.readers@[j].store == before[j].store
                        &&& self.readers@[j].off == before[j].off + next_bytes(
                            before[j],
                            BUFFER_BYTES as int,
                        ).len()
                    },
            decreases n - i,
        {
            assert(before.take(i + 1).drop_last() =~= before.take(i as int));
            assert(before.take(i + 1).last() == before[i as int]);
            assert(before[i as int].store.wf());
            proof {
                total_grows(before, i + 1, BUFFER_BYTES as int);
            }
            let x: usize = self.readers[i].read(b.as_mut_slice());
            bytes_read = bytes_read + x;
            i += 1;
        }
        assert(before.take(n as int) =~= before);
        slice_to_vec(slice_subrange(b.as_slice(), 0, bytes_read))
    }
}

/// More readers give no fewer bytes.
proof fn total_grows(readers: Seq<OriginReader<'_>>, n: int, max: int)
    requires
        0 <= n <= readers.len(),
    ensures
        total_read(readers.take(n), max) <= total_read(readers, max),
    decreases readers.len(),
{
    if n < readers.len() {
        total_grows(readers.drop_last(), n, max);
        assert(readers.drop_last().take(n) =~= readers.take(n));
    } else {
        assert(readers.take(n) =~= readers);
    }
}

/// One reader that reads a store of no more than the buffer from its beginning gives the store.
pub proof fn one_reader_gives_store(reader: OriginReader<'_>)
    requires
        reader.off == 0,
        reader.store.bytes().len() <= BUFFER_BYTES,
    ensures
        total_read(seq![reader], BUFFER_BYTES as int) == reader.store.bytes().len(),
        filled(seq![reader], zeros(BUFFER_BYTES as nat)).take(
            reader.store.bytes().len() as int,
        ) == reader.store.bytes(),
{
    reveal_with_fuel(total_read, 2);
    reveal_with_fuel(filled, 2);
    let data = next_bytes(reader, BUFFER_BYTES as int);
    assert(seq![reader].drop_last() =~= Seq::<OriginReader<'_>>::empty());
    assert(data =~= reader.store.bytes());
    assert(filled(seq![reader], zeros(BUFFER_BYTES as nat)).take(data.len() as int) =~= data);
}

/// A reader gives the bytes of its store from its place on, as many as the buffer takes and the
/// store has.
pub proof fn reader_gives_bytes_in_place(reader: OriginReader<'_>, max: int)
    requires
        0 <= max,
    ensures
        ({
            let bytes = reader.store.file.contents@;
            let got = next_bytes(reader, max);
            &&& reader.off >= bytes.len() ==> got.len() == 0
            &&& reader.off < bytes.len() && max <= bytes.len() - reader.off ==> got.len() == max
            &&& reader.off < bytes.len() && max > bytes.len() - reader.off ==> got.len()
                == bytes.len() - reader.off
            &&& forall|i: int| 0 <= i < got.len() ==> #[trigger] got[i] == bytes[reader.off + i]
        }),
{
    read_gives_bytes_in_place(reader.store.file.contents@, reader.off as int, max);
}

/// The buffer has 1024 bytes, and zeros in it where no reader has read.
pub proof fn buffer_begins_with_zeros(i: int)
    requires
        0 <= i < 1024,
    ensures
        zeros(BUFFER_BYTES as nat).len() == 1024,
        zeros(BUFFER_BYTES as nat)[i] == 0,
{
}

/// One more reader adds as many bytes as it gives.
pub proof fn totals_add_up(
    readers: Seq<OriginReader<'_>>,
    reader: OriginReader<'_>,
    max: int,
)
    ensures
        total_read(readers.push(reader), max) == total_read(readers, max) + next_bytes(
            reader,
            max,
        ).len(),
        total_read(Seq::<OriginReader<'_>>::empty(), max) == 0,
{
    assert(readers.push(reader).drop_last() =~= readers);
}

/// At each place of the buffer stands the byte of the last reader that gave so many, or what was
/// there before where none did.
pub proof fn last_reader_counts(
    readers: Seq<OriginReader<'_>>,
    buffer: Seq<u8>,
    k: int,
    i: int,
)
    requires
        0 <= i < buffer.len(),
        -1 <= k < readers.len(),
        forall|j: int|
            k < j < readers.len() ==> next_bytes(#[trigger] readers[j], buffer.len() as int).len()
                <= i,
        k >= 0 ==> next_bytes(readers[k], buffer.len() as int).len() > i,
    ensures
        filled(readers, buffer).len() == buffer.len(),
        k >= 0 ==> filled(readers, buffer)[i] == readers[k].store.file.contents@[readers[k].off
            + i],
        k < 0 ==> filled(readers, buffer)[i] == buffer[i],
    decreases readers.len(),
{
    if readers.len() > 0 {
        let n = readers.len() as int;
        let front = readers.drop_last();
        let data = next_bytes(readers.last(), buffer.len() as int);
        filled_keeps_length(front, buffer);
        reader_gives_bytes_in_place(readers.last(), buffer.len() as int);
        if k < n - 1 {
            assert(next_bytes(readers[n - 1], buffer.len() as int).len() <= i);
            assert forall|j: int| k < j < front.len() implies next_bytes(
                #[trigger] front[j],
                buffer.len() as int,
            ).len() <= i by {
                assert(front[j] == readers[j]);
            }
            last_reader_counts(front, buffer, k, i);
        }
    }
}

/// Readers leave the buffer as long as it is.
proof fn filled_keeps_length(readers: Seq<OriginReader<'_>>, buffer: Seq<u8>)
    ensures
        filled(readers, buffer).len() == buffer.len(),
    decreases readers.len(),
{
    if readers.len() > 0 {
        filled_keeps_length(readers.drop_last(), buffer);
    }
}

} // verus!
