//! Why a search by bytes is a search of text.
//!
//! The watcher looks for the bytes of a trigger in the bytes of a line. In
//! text that is encoded as UTF-8 this finds the trigger exactly where its
//! characters stand in the characters of the line: no character's encoding
//! starts in the middle of another's.

use crate::text::{contains, occurs_at};
use vstd::prelude::*;
use vstd::utf8::{
    decode_utf8, decode_utf8_split, encode_scalar, encode_utf8, encode_utf8_decode_utf8,
    encode_utf8_first_scalar, encode_utf8_valid_utf8, is_char_boundary,
    is_char_boundary_iff_not_is_continuation_byte, is_char_boundary_start_end_of_seq,
    length_of_first_scalar, pop_first_scalar, valid_utf8, valid_utf8_split,
};

verus! {

/// The encoding of two texts, one after the other, is the encoding of the
/// first followed by that of the second.
pub proof fn lemma_encode_concat(first: Seq<char>, second: Seq<char>)
    ensures
        encode_utf8(first + second) == encode_utf8(first) + encode_utf8(second),
    decreases first.len(),
{
    if first.len() == 0 {
        assert(first + second =~= second);
        assert(encode_utf8(first) + encode_utf8(second) =~= encode_utf8(second));
    } else {
        let whole = first + second;
        assert(whole[0] == first[0]);
        assert(whole.drop_first() =~= first.drop_first() + second);
        lemma_encode_concat(first.drop_first(), second);
        let head = encode_scalar(first[0] as u32);
        assert(head + (encode_utf8(first.drop_first()) + encode_utf8(second)) =~= (head
            + encode_utf8(first.drop_first())) + encode_utf8(second));
    }
}

/// Well-formed bytes that start other well-formed bytes end where a
/// character of those ends.
proof fn lemma_prefix_ends_on_boundary(whole: Seq<u8>, prefix: Seq<u8>)
    requires
        valid_utf8(whole),
        valid_utf8(prefix),
        prefix.len() <= whole.len(),
        whole.subrange(0, prefix.len() as int) == prefix,
    ensures
        is_char_boundary(whole, prefix.len() as int),
    decreases prefix.len(),
{
    if prefix.len() > 0 {
        let n = length_of_first_scalar(prefix);
        assert forall|i: int| 0 <= i < prefix.len() implies prefix[i] == whole[i] by {
            assert(whole.subrange(0, prefix.len() as int)[i] == whole[i]);
        }
        assert(length_of_first_scalar(whole) == n);
        assert(n <= prefix.len());
        let rest = pop_first_scalar(prefix);
        let whole_rest = pop_first_scalar(whole);
        assert(whole_rest.subrange(0, rest.len() as int) =~= rest);
        lemma_prefix_ends_on_boundary(whole_rest, rest);
    }
}

/// Where the characters of `needle` stand in `hay`, its bytes stand in the
/// bytes of `hay`.
proof fn lemma_found_by_characters(hay: Seq<char>, needle: Seq<char>, at: int)
    requires
        occurs_at(hay, needle, at),
    ensures
        contains(encode_utf8(hay), encode_utf8(needle)),
{
    let before = hay.subrange(0, at);
    let after = hay.subrange(at + needle.len(), hay.len() as int);
    assert(hay =~= (before + needle) + after);
    lemma_encode_concat(before, needle);
    lemma_encode_concat(before + needle, after);
    let start = encode_utf8(before).len() as int;
    assert(encode_utf8(hay).subrange(start, start + encode_utf8(needle).len()) =~= encode_utf8(
        needle,
    ));
    assert(occurs_at(encode_utf8(hay), encode_utf8(needle), start));
}

/// Where the bytes of `needle` stand in the bytes of `hay`, its characters
/// stand in `hay`.
proof fn lemma_found_by_bytes(hay: Seq<char>, needle: Seq<char>, start: int)
    requires
        occurs_at(encode_utf8(hay), encode_utf8(needle), start),
    ensures
        contains(hay, needle),
{
    let bytes = encode_utf8(hay);
    let sought = encode_utf8(needle);
    encode_utf8_valid_utf8(hay);
    encode_utf8_valid_utf8(needle);
    encode_utf8_decode_utf8(hay);
    encode_utf8_decode_utf8(needle);
    if needle.len() == 0 {
        assert(hay.subrange(0, 0) =~= needle);
        assert(occurs_at(hay, needle, 0));
    } else {
        encode_utf8_first_scalar(needle);
        assert(sought.len() > 0);
        assert(bytes.subrange(start, start + sought.len())[0] == bytes[start]);
        // The needle starts with the first byte of a character, so it
        // stands where a character of the line starts.
        is_char_boundary_start_end_of_seq(sought);
        is_char_boundary_iff_not_is_continuation_byte(sought, 0);
        is_char_boundary_iff_not_is_continuation_byte(bytes, start);
        valid_utf8_split(bytes, start);
        let from = bytes.subrange(start, bytes.len() as int);
        assert(from.subrange(0, sought.len() as int) =~= sought);
        // And it ends where a character of the line ends.
        lemma_prefix_ends_on_boundary(from, sought);
        decode_utf8_split(bytes, start);
        decode_utf8_split(from, sought.len() as int);
        let before = decode_utf8(bytes.subrange(0, start));
        let after = decode_utf8(from.subrange(sought.len() as int, from.len() as int));
        assert(hay =~= before + (needle + after));
        let at = before.len() as int;
        assert(hay.subrange(at, at + needle.len()) =~= needle);
        assert(occurs_at(hay, needle, at));
    }
}

/// A search by bytes is a search by characters: the bytes of `needle` stand
/// in the bytes of `hay` exactly if the characters of `needle` stand in
/// `hay`.
pub proof fn lemma_search_by_bytes(hay: Seq<char>, needle: Seq<char>)
    ensures
        contains(encode_utf8(hay), encode_utf8(needle)) <==> contains(hay, needle),
{
    if contains(hay, needle) {
        let at = choose|at: int| occurs_at(hay, needle, at);
        lemma_found_by_characters(hay, needle, at);
    }
    if contains(encode_utf8(hay), encode_utf8(needle)) {
        let start = choose|start: int| occurs_at(encode_utf8(hay), encode_utf8(needle), start);
        lemma_found_by_bytes(hay, needle, start);
    }
}

} // verus!
