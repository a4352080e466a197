//! The names of the files of a log.
use crate::text::{
    alphabetic, characters, decimal, decimal_parses, decimal_reads_back, is_alphabetic, is_digit,
    parse_u64, parsed, push_decimal,
};
use vstd::prelude::*;
use vstd::string::StringExecFns;

verus! {

/// The name of the store file of the segment that begins at `base_offset`.
pub open spec fn store_name(base_offset: u64) -> Seq<char> {
    decimal(base_offset as nat) + ".store"@
}

/// The name of the index file of the segment that begins at `base_offset`.
pub open spec fn index_name(base_offset: u64) -> Seq<char> {
    decimal(base_offset as nat) + ".index"@
}

/// Where a file lies that has this name in `dir`.
pub open spec fn path_in(dir: Seq<char>, name: Seq<char>) -> Seq<char> {
    dir + "/"@ + name
}

/// `name` without the dots and letters at its end.
pub open spec fn trimmed(name: Seq<char>) -> Seq<char>
    decreases name.len(),
{
    if name.len() > 0 && (name.last() == '.' || alphabetic(name.last())) {
        trimmed(name.drop_last())
    } else {
        name
    }
}

/// The offset in the name of a file, if there is one: what stands before the dots and letters at
/// its end.
pub open spec fn offset_in(name: Seq<char>) -> Option<u64> {
    parsed(trimmed(name))
}

/// The name of a file of the segment that begins at `base_offset`.
fn file_name(base_offset: u64, extension: &str) -> (name: String)
    ensures
        name@ == decimal(base_offset as nat) + extension@,
{
    let mut name = String::from_str("");
    proof {
        reveal_strlit("");
    }
    push_decimal(&mut name, base_offset);
    name.append(extension);
    assert(name@ =~= decimal(base_offset as nat) + extension@);
    name
}

/// The name of the store file of a segment.
pub fn store_file_name(base_offset: u64) -> (name: String)
    ensures
        name@ == store_name(base_offset),
{
    file_name(base_offset, ".store")
}

/// The name of the index file of a segment.
pub fn index_file_name(base_offset: u64) -> (name: String)
    ensures
        name@ == index_name(base_offset),
{
    file_name(base_offset, ".index")
}

/// Where a file lies that has this name in `dir`.
pub fn path(dir: &str, name: &str) -> (path: String)
    ensures
        path@ == path_in(dir@, name@),
{
    let mut path = String::from_str(dir);
    path.append("/");
    path.append(name);
    path
}

/// The offset in the name of a file, if there is one.
pub fn offset_of_name(name: &str) -> (offset: Option<u64>)
    ensures
        offset == offset_in(name@),
{
    let chars = characters(name);
    let mut end: usize = chars.len();
    assert(chars@.take(end as int) =~= chars@);
    while end > 0 && (chars[end - 1] == '.' || is_alphabetic(chars[end - 1]))
        invariant
            end <= chars@.len(),
            trimmed(chars@.take(end as int)) == trimmed(chars@),
        ensures
            end <= chars@.len(),
            trimmed(chars@) == chars@.take(end as int),
        decreases end,
    {
        assert(chars@.take(end as int).drop_last() =~= chars@.take(end - 1));
        end = end - 1;
    }
    parse_u64(&chars, end)
}

/// The offset is found again in the names of the files of a segment.
pub proof fn name_gives_offset(base_offset: u64)
    ensures
        offset_in(store_name(base_offset)) == Some(base_offset),
        offset_in(index_name(base_offset)) == Some(base_offset),
{
    let digits = decimal(base_offset as nat);
    decimal_reads_back(base_offset as nat);
    decimal_parses(base_offset);
    reveal_strlit(".store");
    reveal_strlit(".index");
    assert(is_digit(digits.last()));
    assert(trimmed(digits) == digits);
    let s = store_name(base_offset);
    let x = index_name(base_offset);
    let n = digits.len();
    assert(s.drop_last().drop_last().drop_last().drop_last().drop_last().drop_last() =~= digits);
    assert(x.drop_last().drop_last().drop_last().drop_last().drop_last().drop_last() =~= digits);
    reveal_with_fuel(trimmed, 7);
}

/// No two files of segments have the same name.
pub proof fn names_differ(a: u64, b: u64)
    ensures
        store_name(a) == store_name(b) ==> a == b,
        index_name(a) == index_name(b) ==> a == b,
        store_name(a) != index_name(b),
{
    name_gives_offset(a);
    name_gives_offset(b);
    reveal_strlit(".store");
    reveal_strlit(".index");
    assert(store_name(a).last() == 'e');
    assert(index_name(b).last() == 'x');
}

/// A dot or a letter at the end of a name changes nothing of the offset in it. A name that ends
/// with neither is the number itself, or has no offset.
pub proof fn endings_do_not_count(name: Seq<char>, c: char)
    ensures
        c == '.' || 'a' <= c <= 'z' || 'A' <= c <= 'Z' || alphabetic(c) ==> offset_in(name.push(c))
            == offset_in(name),
        c != '.' && !alphabetic(c) ==> offset_in(name.push(c)) == parsed(name.push(c)),
{
    assert(name.push(c).drop_last() =~= name);
}

/// The files of a segment are named by its offset in decimal, and lie in the directory behind one
/// slash.
pub proof fn names_are_spelled_out(dir: Seq<char>, base_offset: u64)
    ensures
        path_in(dir, store_name(base_offset)) == dir + "/"@ + (decimal(base_offset as nat)
            + ".store"@),
        path_in(dir, index_name(base_offset)) == dir + "/"@ + (decimal(base_offset as nat)
            + ".index"@),
{
}

} // verus!
