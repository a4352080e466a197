//! Which segments a directory holds.
use crate::log::file::{listing, FileImage, FileView};
use crate::log::names::{offset_in, offset_of_name};
use vstd::prelude::*;
use vstd::relations::{sorted_by, total_ordering};
use vstd::seq_lib::{lemma_multiset_commutative, lemma_sorted_unique};

verus! {

/// The offsets in the names of files, in the order of the files.
pub open spec fn named_offsets(files: Seq<FileView>) -> Seq<u64>
    decreases files.len(),
{
    if files.len() == 0 {
        Seq::empty()
    } else {
        match offset_in(files.last().name) {
            Some(offset) => named_offsets(files.drop_last()).push(offset),
            None => named_offsets(files.drop_last()),
        }
    }
}

/// The order of offsets.
pub open spec fn no_later() -> spec_fn(u64, u64) -> bool {
    |a: u64, b: u64| a <= b
}

/// Offsets in ascending order.
pub open spec fn in_order(offsets: Seq<u64>) -> Seq<u64> {
    offsets.sort_by(no_later())
}

/// The first of a sequence, and then every second one.
pub open spec fn every_second(offsets: Seq<u64>) -> Seq<u64> {
    Seq::new(((offsets.len() + 1) / 2) as nat, |i: int| offsets[2 * i])
}

/// Where the segments begin whose files are in a directory. A segment has two files, so every
/// second offset counts.
pub open spec fn segment_offsets(files: Seq<FileView>) -> Seq<u64> {
    every_second(in_order(named_offsets(files)))
}

/// `sort` of a slice of the standard library, on a vector of numbers: puts them in ascending order
/// and neither drops nor adds any.
#[verifier::external_body]
fn sort(offsets: &mut Vec<u64>)
    ensures
        final(offsets)@.to_multiset() == old(offsets)@.to_multiset(),
        forall|i: int, j: int|
            0 <= i < j < final(offsets)@.len() ==> final(offsets)@[i] <= final(offsets)@[j],
{
    offsets.sort()
}

/// Where the segments begin whose files are in a directory.
pub fn find_segments(files: &Vec<FileImage>) -> (offsets: Vec<u64>)
    ensures
        offsets@ == segment_offsets(listing(files@)),
{
    let mut named: Vec<u64> = Vec::new();
    let mut i: usize = 0;
    let ghost all = listing(files@);
    assert(named_offsets(all.take(0)) =~= Seq::<u64>::empty());
    while i < files.len()
        invariant
            i <= files@.len(),
            all == listing(files@),
            named@ == named_offsets(all.take(i as int)),
        decreases files@.len() - i,
    {
        assert(all.take(i + 1).drop_last() =~= all.take(i as int));
        assert(all.take(i + 1).last() == files@[i as int]@);
        match offset_of_name(files[i].name.as_str()) {
            Some(offset) => {
                named.push(offset);
            },
            None => {},
        }
        i += 1;
    }
    assert(all.take(i as int) =~= all);
    let ghost unordered = named@;
    sort(&mut named);
    proof {
        sorting_is_unique(unordered, named@);
    }
    let mut offsets: Vec<u64> = Vec::new();
    let n: usize = named.len();
    let count: usize = n / 2 + n % 2;
    let mut k: usize = 0;
    while k < count
        invariant
            k <= count,
            n == named@.len(),
            count == (n + 1) / 2,
            offsets@ == every_second(named@).take(k as int),
        decreases count - k,
    {
        offsets.push(named[2 * k]);
        k += 1;
        assert(offsets@ =~= every_second(named@).take(k as int));
    }
    assert(offsets@ =~= every_second(named@));
    offsets
}

/// The offsets in the names of files and then of more files.
proof fn named_offsets_add(files: Seq<FileView>, more: Seq<FileView>)
    ensures
        named_offsets(files + more) == named_offsets(files) + named_offsets(more),
    decreases more.len(),
{
    if more.len() == 0 {
        assert(files + more =~= files);
    } else {
        named_offsets_add(files, more.drop_last());
        assert((files + more).drop_last() =~= files + more.drop_last());
        assert((files + more).last() == more.last());
    }
}

/// Which offsets the names of files hold does not depend on the order of the files.
pub proof fn file_order_is_irrelevant(a: Seq<FileView>, b: Seq<FileView>)
    requires
        a.to_multiset() == b.to_multiset(),
    ensures
        named_offsets(a).to_multiset() == named_offsets(b).to_multiset(),
    decreases a.len(),
{
    a.to_multiset_ensures();
    b.to_multiset_ensures();
    if a.len() == 0 {
        assert(a =~= b);
    } else {
        let x = a.last();
        assert(a.contains(x));
        assert(b.to_multiset().count(x) > 0);
        assert(b.contains(x));
        let j = choose|j: int| 0 <= j < b.len() && b[j] == x;
        let front = b.take(j);
        let back = b.skip(j + 1);
        assert(b =~= front + seq![x] + back);
        assert(b.remove(j) =~= front + back);
        assert(a.drop_last() =~= a.remove(a.len() - 1));
        assert(a =~= a.drop_last() + seq![x]);
        file_order_is_irrelevant(a.drop_last(), b.remove(j));
        named_offsets_add(a.drop_last(), seq![x]);
        named_offsets_add(front + seq![x], back);
        named_offsets_add(front, seq![x]);
        named_offsets_add(front, back);
        let one = named_offsets(seq![x]);
        let p = named_offsets(front);
        let q = named_offsets(back);
        lemma_multiset_commutative(named_offsets(a.drop_last()), one);
        lemma_multiset_commutative(p + one, q);
        lemma_multiset_commutative(p, one);
        lemma_multiset_commutative(p, q);
        assert(p.to_multiset().add(one.to_multiset()).add(q.to_multiset()) =~= p.to_multiset().add(
            q.to_multiset(),
        ).add(one.to_multiset()));
    }
}

/// Where the name of every file holds an offset, these are the offsets.
pub proof fn all_names_hold_offsets(files: Seq<FileView>, offsets: Seq<u64>)
    requires
        files.len() == offsets.len(),
        forall|i: int|
            0 <= i < files.len() ==> offset_in(files[i].name) == Some(#[trigger] offsets[i]),
    ensures
        named_offsets(files) == offsets,
    decreases files.len(),
{
    if files.len() > 0 {
        all_names_hold_offsets(files.drop_last(), offsets.drop_last());
        assert(offset_in(files.last().name) == Some(offsets[files.len() - 1]));
        assert(offsets =~= offsets.drop_last().push(offsets.last()));
    } else {
        assert(named_offsets(files) =~= offsets);
    }
}

/// There is one way only to put offsets in ascending order.
pub proof fn sorting_is_unique(offsets: Seq<u64>, ordered: Seq<u64>)
    requires
        ordered.to_multiset() == offsets.to_multiset(),
        forall|i: int, j: int| 0 <= i < j < ordered.len() ==> ordered[i] <= ordered[j],
    ensures
        ordered == in_order(offsets),
{
    assert(total_ordering(no_later()));
    offsets.lemma_sort_by_ensures(no_later());
    assert(sorted_by(ordered, no_later()));
    lemma_sorted_unique(ordered, in_order(offsets), no_later());
}

/// Every file whose name holds an offset gives it once, in the order of the files: one more file
/// adds the offset in its name, and nothing where there is none.
pub proof fn one_more_file(files: Seq<FileView>, file: FileView)
    ensures
        offset_in(file.name) matches Some(offset) ==> named_offsets(files.push(file))
            == named_offsets(files).push(offset),
        offset_in(file.name) is None ==> named_offsets(files.push(file)) == named_offsets(files),
        named_offsets(Seq::empty()).len() == 0,
{
    assert(files.push(file).drop_last() =~= files);
}

/// The segments of a directory are ascending. There is one for every two offsets in the names of
/// its files, with one left over counting too, and each of them begins at such an offset.
pub proof fn segments_are_every_second_offset(files: Seq<FileView>)
    ensures
        segment_offsets(files).len() == (named_offsets(files).len() + 1) / 2,
        forall|i: int, j: int|
            0 <= i < j < segment_offsets(files).len() ==> segment_offsets(files)[i]
                <= segment_offsets(files)[j],
        forall|i: int|
            0 <= i < segment_offsets(files).len() ==> named_offsets(files).contains(
                #[trigger] segment_offsets(files)[i],
            ),
{
    let named = named_offsets(files);
    let ordered = in_order(named);
    let found = segment_offsets(files);
    assert(total_ordering(no_later()));
    named.lemma_sort_by_ensures(no_later());
    named.to_multiset_ensures();
    ordered.to_multiset_ensures();
    assert forall|i: int, j: int| 0 <= i < j < found.len() implies found[i] <= found[j] by {
        assert(no_later()(ordered[2 * i], ordered[2 * j]));
    }
    assert forall|i: int| 0 <= i < found.len() implies named.contains(#[trigger] found[i]) by {
        assert(ordered.contains(ordered[2 * i]));
        if !named.contains(found[i]) {
            assert(!ordered.contains(found[i]));
        }
    }
}

/// Of the offsets in ascending order, the segments begin at the first, the third, and so on.
pub proof fn segments_skip_every_other(files: Seq<FileView>, ordered: Seq<u64>, i: int)
    requires
        ordered.to_multiset() == named_offsets(files).to_multiset(),
        forall|j: int, k: int| 0 <= j < k < ordered.len() ==> ordered[j] <= ordered[k],
        0 <= i,
        2 * i < ordered.len(),
    ensures
        segment_offsets(files)[i] == ordered[2 * i],
{
    sorting_is_unique(named_offsets(files), ordered);
}

} // verus!
