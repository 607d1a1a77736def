//! Sequences of bytes.
use vstd::prelude::*;

verus! {

/// Whether the two slices hold the same bytes.
pub fn same_bytes(left: &[u8], right: &[u8]) -> (same: bool)
    ensures
        same == (left@ == right@),
{
    if left.len() != right.len() {
        return false;
    }
    let mut index: usize = 0;
    while index < left.len()
        invariant
            index <= left.len(),
            left.len() == right.len(),
            forall|i: int| 0 <= i < index ==> left@[i] == right@[i],
        decreases left.len() - index,
    {
        if left[index] != right[index] {
            return false;
        }
        index += 1;
    }
    assert(left@ =~= right@);
    true
}

/// The pieces of `bytes` between separators.
pub open spec fn split_on(bytes: Seq<u8>, separator: u8) -> Seq<Seq<u8>>
    decreases bytes.len(),
{
    if bytes.len() == 0 {
        seq![Seq::empty()]
    } else {
        let before = split_on(bytes.drop_last(), separator);
        if bytes.last() == separator {
            before.push(Seq::empty())
        } else {
            before.drop_last().push(before.last().push(bytes.last()))
        }
    }
}

pub open spec fn byte_views(lines: Seq<Vec<u8>>) -> Seq<Seq<u8>> {
    Seq::new(lines.len(), |i: int| lines[i]@)
}

/// A copy of the bytes from `start` up to `end`.
pub fn copy_range(bytes: &[u8], start: usize, end: usize) -> (copy: Vec<u8>)
    requires
        start <= end <= bytes@.len(),
    ensures
        copy@ == bytes@.subrange(start as int, end as int),
{
    let mut copy: Vec<u8> = Vec::new();
    let mut index: usize = start;
    while index < end
        invariant
            start <= index <= end <= bytes@.len(),
            copy@ == bytes@.subrange(start as int, index as int),
        decreases end - index,
    {
        copy.push(bytes[index]);
        index += 1;
    }
    copy
}

/// A copy of the bytes.
pub fn copy_bytes(bytes: &[u8]) -> (copy: Vec<u8>)
    ensures
        copy@ == bytes@,
{
    let copy = copy_range(bytes, 0, bytes.len());
    assert(copy@ =~= bytes@);
    copy
}

/// The pieces with the separator between them.
pub open spec fn rejoined(pieces: Seq<Seq<u8>>, separator: u8) -> Seq<u8>
    decreases pieces.len(),
{
    if pieces.len() == 0 {
        Seq::empty()
    } else if pieces.len() == 1 {
        pieces[0]
    } else {
        rejoined(pieces.drop_last(), separator).push(separator) + pieces.last()
    }
}

/// The pieces between the separators make up the whole, and none holds a separator.
pub proof fn pieces_make_up_the_whole(bytes: Seq<u8>, separator: u8)
    ensures
        split_on(bytes, separator).len() > 0,
        rejoined(split_on(bytes, separator), separator) == bytes,
        forall|i: int|
            0 <= i < split_on(bytes, separator).len() ==> !(#[trigger] split_on(
                bytes,
                separator,
            )[i]).contains(separator),
    decreases bytes.len(),
{
    let pieces = split_on(bytes, separator);
    if bytes.len() == 0 {
        assert(bytes =~= Seq::empty());
    } else {
        let before = split_on(bytes.drop_last(), separator);
        pieces_make_up_the_whole(bytes.drop_last(), separator);
        if bytes.last() == separator {
            assert(pieces.drop_last() =~= before);
            assert(rejoined(pieces, separator) =~= bytes);
        } else {
            assert(pieces.drop_last() =~= before.drop_last());
            assert(pieces.len() == before.len());
            assert(pieces.last() == before.last().push(bytes.last()));
            assert(rejoined(pieces, separator) =~= rejoined(before, separator).push(bytes.last()));
            assert(bytes.drop_last().push(bytes.last()) =~= bytes);
            assert forall|i: int| 0 <= i < pieces.len() implies !(
            #[trigger] pieces[i]).contains(separator) by {
                assert(!before[i].contains(separator));
                if i == pieces.len() - 1 && pieces[i].contains(separator) {
                    let at = choose|at: int|
                        0 <= at < pieces[i].len() && pieces[i][at] == separator;
                    assert(before[i][at] == separator);
                }
            }
        }
    }
}

} // verus!
