//! Files as the log sees them.
use vstd::prelude::*;
use vstd::slice::slice_to_vec;

verus! {

/// A file: its name and the bytes in it.
pub struct FileImage {
    pub name: String,
    pub contents: Vec<u8>,
}

/// A file as a mathematical value.
#[verifier::ext_equal]
pub struct FileView {
    pub name: Seq<char>,
    pub contents: Seq<u8>,
}

impl View for FileImage {
    type V = FileView;

    open spec fn view(&self) -> FileView {
        FileView { name: self.name@, contents: self.contents@ }
    }
}

/// The files of a directory, under their names in it.
pub open spec fn listing(files: Seq<FileImage>) -> Seq<FileView> {
    Seq::new(files.len(), |i: int| files[i]@)
}

/// What the file with this name holds; nothing where there is none.
pub open spec fn contents_of(files: Seq<FileView>, name: Seq<char>) -> Seq<u8>
    decreases files.len(),
{
    if files.len() == 0 {
        Seq::empty()
    } else if files[0].name == name {
        files[0].contents
    } else {
        contents_of(files.skip(1), name)
    }
}

/// A copy of `bytes`.
pub fn copy_bytes(bytes: &Vec<u8>) -> (copy: Vec<u8>)
    ensures
        copy@ == bytes@,
{
    slice_to_vec(bytes.as_slice())
}

/// Puts `bytes` behind what `buf` holds.
pub fn extend_bytes(buf: &mut Vec<u8>, bytes: &[u8])
    ensures
        final(buf)@ == old(buf)@ + bytes@,
{
    buf.extend_from_slice(bytes);
    assert(buf@ =~= old(buf)@ + bytes@);
}

/// A copy of what the file with this name holds; nothing where there is none.
pub fn read_file(files: &Vec<FileImage>, name: &String) -> (contents: Vec<u8>)
    ensures
        contents@ == contents_of(listing(files@), name@),
{
    let ghost all = listing(files@);
    let mut i: usize = 0;
    assert(all.skip(0) =~= all);
    while i < files.len()
        invariant
            i <= files@.len(),
            all == listing(files@),
            contents_of(all.skip(i as int), name@) == contents_of(all, name@),
        decreases files@.len() - i,
    {
        assert(all.skip(i as int)[0] == files@[i as int]@);
        assert(all.skip(i as int).skip(1) =~= all.skip(i + 1));
        if files[i].name == *name {
            return copy_bytes(&files[i].contents);
        }
        i += 1;
    }
    Vec::new()
}

/// Where files of this name are all alike and there is one, it is what its name gives.
pub proof fn named_file_is_found(files: Seq<FileView>, file: FileView)
    requires
        files.contains(file),
        forall|other: FileView|
            #[trigger] files.contains(other) && other.name == file.name ==> other == file,
    ensures
        contents_of(files, file.name) == file.contents,
    decreases files.len(),
{
    assert(files.contains(files[0]));
    if files[0].name != file.name {
        let rest = files.skip(1);
        let i = choose|i: int| 0 <= i < files.len() && files[i] == file;
        assert(rest[i - 1] == file);
        assert forall|other: FileView|
            #[trigger] rest.contains(other) && other.name == file.name implies other == file by {
            let j = choose|j: int| 0 <= j < rest.len() && rest[j] == other;
            assert(files[j + 1] == other);
            assert(files.contains(other));
        }
        named_file_is_found(rest, file);
    }
}

/// Whether there is a file of this name.
pub open spec fn has_file(files: Seq<FileView>, name: Seq<char>) -> bool {
    exists|i: int| 0 <= i < files.len() && (#[trigger] files[i]).name == name
}

/// A file is looked for among the first files, and then among the others.
proof fn contents_of_both(files: Seq<FileView>, more: Seq<FileView>, name: Seq<char>)
    ensures
        contents_of(files + more, name) == if has_file(files, name) {
            contents_of(files, name)
        } else {
            contents_of(more, name)
        },
    decreases files.len(),
{
    if files.len() == 0 {
        assert(files + more =~= more);
    } else {
        let rest = files.skip(1);
        contents_of_both(rest, more, name);
        assert((files + more).skip(1) =~= rest + more);
        if files[0].name != name {
            if has_file(files, name) {
                let i = choose|i: int| 0 <= i < files.len() && (#[trigger] files[i]).name == name;
                assert(rest[i - 1].name == name);
            }
            if has_file(rest, name) {
                let i = choose|i: int| 0 <= i < rest.len() && (#[trigger] rest[i]).name == name;
                assert(files[i + 1].name == name);
            }
        }
    }
}

/// Without a file of this name nothing is found.
pub proof fn missing_file_is_empty(files: Seq<FileView>, name: Seq<char>)
    requires
        !has_file(files, name),
    ensures
        contents_of(files, name) == Seq::<u8>::empty(),
{
    contents_of_both(files, Seq::empty(), name);
    assert(files + Seq::<FileView>::empty() =~= files);
}

/// Dropping files of other names changes nothing of what is found under this one.
pub proof fn other_files_are_irrelevant(
    files: Seq<FileImage>,
    stays: spec_fn(FileImage) -> bool,
    name: Seq<char>,
)
    requires
        forall|i: int|
            0 <= i < files.len() && (#[trigger] files[i]).name@ == name ==> stays(files[i]),
    ensures
        contents_of(listing(files.filter(stays)), name) == contents_of(listing(files), name),
        has_file(listing(files.filter(stays)), name) == has_file(listing(files), name),
    decreases files.len(),
{
    reveal(Seq::filter);
    if files.len() > 0 {
        let front = files.drop_last();
        let last = seq![files.last()@];
        let all = listing(files);
        other_files_are_irrelevant(front, stays, name);
        assert(all =~= listing(front) + last);
        contents_of_both(listing(front), last, name);
        assert(last.skip(1) =~= Seq::empty());
        reveal_with_fuel(contents_of, 2);
        if has_file(listing(front), name) {
            let i = choose|i: int|
                0 <= i < front.len() && (#[trigger] listing(front)[i]).name == name;
            assert(all[i].name == name);
        } else if has_file(all, name) {
            let i = choose|i: int| 0 <= i < all.len() && (#[trigger] all[i]).name == name;
            if i < front.len() {
                assert(listing(front)[i].name == name);
            }
        }
        if stays(files.last()) {
            let kept = front.filter(stays);
            let rest = listing(files.filter(stays));
            assert(rest =~= listing(kept) + last);
            contents_of_both(listing(kept), last, name);
            if has_file(listing(kept), name) {
                let i = choose|i: int|
                    0 <= i < kept.len() && (#[trigger] listing(kept)[i]).name == name;
                assert(rest[i].name == name);
            } else if has_file(rest, name) {
                let i = choose|i: int| 0 <= i < rest.len() && (#[trigger] rest[i]).name == name;
                if i < kept.len() {
                    assert(listing(kept)[i].name == name);
                }
            }
            assert(rest[kept.len() as int].name == files.last().name@);
            assert(all[front.len() as int].name == files.last().name@);
        } else if !has_file(listing(front), name) {
            missing_file_is_empty(listing(front), name);
        }
    }
}

/// The contents that are found under a name are those of the first file with it; they are empty
/// where no file has it.
pub proof fn first_file_of_a_name_counts(files: Seq<FileView>, name: Seq<char>, i: int)
    requires
        0 <= i <= files.len(),
        forall|j: int| 0 <= j < i ==> (#[trigger] files[j]).name != name,
        i < files.len() ==> files[i].name == name,
    ensures
        i < files.len() ==> contents_of(files, name) == files[i].contents,
        i == files.len() ==> contents_of(files, name).len() == 0,
    decreases files.len(),
{
    if i > 0 {
        let rest = files.skip(1);
        assert(files[0].name != name);
        assert forall|j: int| 0 <= j < i - 1 implies (#[trigger] rest[j]).name != name by {
            assert(files[j + 1].name != name);
        }
        first_file_of_a_name_counts(rest, name, i - 1);
    }
}

/// A listing has every file with its name and its bytes, in their order.
pub proof fn listing_is_the_files(files: Seq<FileImage>)
    ensures
        listing(files).len() == files.len(),
        forall|i: int|
            #![trigger listing(files)[i]]
            0 <= i < files.len() ==> listing(files)[i].name == files[i].name@ && listing(
                files,
            )[i].contents == files[i].contents@,
{
}

} // verus!
