//! Searching and framing of log bytes.
//!
//! A log is a sequence of bytes in which every newline ends a line. All
//! functions here work on bytes, so that a log need not be well-formed
//! text. What the search does to text that is encoded as UTF-8 is shown in
//! `encoding`.

use vstd::prelude::*;

verus! {

/// The byte that ends a line.
pub const NEWLINE: u8 = 10;

/// Whether `needle` stands in `hay` at index `at`.
pub open spec fn occurs_at<A>(hay: Seq<A>, needle: Seq<A>, at: int) -> bool {
    &&& 0 <= at
    &&& at + needle.len() <= hay.len()
    &&& hay.subrange(at, at + needle.len()) == needle
}

/// Whether `needle` stands somewhere in `hay`. The empty needle stands in
/// every sequence.
pub open spec fn contains<A>(hay: Seq<A>, needle: Seq<A>) -> bool {
    exists|at: int| occurs_at(hay, needle, at)
}

/// The number of bytes before the first newline of `s`, or the length of
/// `s` where it holds no newline.
pub open spec fn line_end(s: Seq<u8>) -> nat
    decreases s.len(),
{
    if s.len() == 0 || s[0] == NEWLINE {
        0
    } else {
        1 + line_end(s.drop_first())
    }
}

/// The complete lines of `data`, in order, each without its newline. What
/// follows the last newline is an incomplete line and is left out.
pub open spec fn complete_lines(data: Seq<u8>) -> Seq<Seq<u8>>
    decreases data.len(),
{
    let n = line_end(data) as int;
    if n >= data.len() {
        Seq::empty()
    } else {
        seq![data.subrange(0, n)] + complete_lines(data.subrange(n + 1, data.len() as int))
    }
}

/// The number of bytes that the complete lines of `data` take up, their
/// newlines included.
pub open spec fn complete_len(data: Seq<u8>) -> nat
    decreases data.len(),
{
    let n = line_end(data) as int;
    if n >= data.len() {
        0
    } else {
        (n + 1 + complete_len(data.subrange(n + 1, data.len() as int))) as nat
    }
}

/// `line_end` is the index of the first newline, and is the only index
/// with no newline before it that holds one or ends the sequence.
pub proof fn lemma_line_end(s: Seq<u8>)
    ensures
        line_end(s) <= s.len(),
        line_end(s) < s.len() ==> s[line_end(s) as int] == NEWLINE,
        forall|k: int| 0 <= k < line_end(s) ==> s[k] != NEWLINE,
    decreases s.len(),
{
    if s.len() == 0 || s[0] == NEWLINE {
    } else {
        let rest = s.drop_first();
        lemma_line_end(rest);
        assert forall|k: int| 0 <= k < line_end(s) implies s[k] != NEWLINE by {
            if k > 0 {
                assert(s[k] == rest[k - 1]);
            }
        }
    }
}

/// An index at which a newline or the end stands, with no newline before
/// it, is `line_end`.
pub proof fn lemma_line_end_unique(s: Seq<u8>, i: int)
    requires
        0 <= i <= s.len(),
        i < s.len() ==> s[i] == NEWLINE,
        forall|k: int| 0 <= k < i ==> s[k] != NEWLINE,
    ensures
        line_end(s) == i,
{
    lemma_line_end(s);
    let n = line_end(s) as int;
    if n < i {
        assert(s[n] != NEWLINE);
    } else if i < n {
        assert(s[i] == NEWLINE);
    }
}

/// The complete lines never take more bytes than there are.
pub proof fn lemma_complete_len_bound(data: Seq<u8>)
    ensures
        complete_len(data) <= data.len(),
    decreases data.len(),
{
    let n = line_end(data) as int;
    if n < data.len() {
        lemma_complete_len_bound(data.subrange(n + 1, data.len() as int));
    }
}

/// The complete lines end with the last newline: there is none where they
/// take up nothing, and otherwise the last byte they take up is a newline
/// and no newline follows it.
pub proof fn lemma_complete_len_ends_lines(data: Seq<u8>)
    ensures
        complete_len(data) <= data.len(),
        complete_len(data) > 0 ==> data[complete_len(data) - 1] == NEWLINE,
        forall|k: int| complete_len(data) <= k < data.len() ==> data[k] != NEWLINE,
    decreases data.len(),
{
    lemma_line_end(data);
    let n = line_end(data) as int;
    if n < data.len() {
        let rest = data.subrange(n + 1, data.len() as int);
        lemma_complete_len_ends_lines(rest);
        let m = complete_len(rest) as int;
        if m > 0 {
            assert(rest[m - 1] == data[n + 1 + m - 1]);
        }
        assert forall|k: int| complete_len(data) <= k < data.len() implies data[k] != NEWLINE by {
            assert(rest[k - n - 1] == data[k]);
        }
    }
}

/// Reading a log in two parts loses no line and reads none twice: the
/// complete lines of `first + second` are those of `first`, followed by
/// those of what `first` left unread with `second` after it.
pub proof fn lemma_lines_in_two_parts(first: Seq<u8>, second: Seq<u8>)
    ensures
        complete_len(first) <= first.len(),
        complete_lines(first + second) == complete_lines(first) + complete_lines(
            first.subrange(complete_len(first) as int, first.len() as int) + second,
        ),
        complete_len(first + second) == complete_len(first) + complete_len(
            first.subrange(complete_len(first) as int, first.len() as int) + second,
        ),
    decreases first.len(),
{
    lemma_line_end(first);
    lemma_complete_len_bound(first);
    let n = line_end(first) as int;
    let whole = first + second;
    if n >= first.len() {
        assert(first.subrange(0, first.len() as int) =~= first);
        assert(Seq::<Seq<u8>>::empty() + complete_lines(whole) =~= complete_lines(whole));
    } else {
        assert forall|k: int| 0 <= k < n implies whole[k] != NEWLINE by {
            assert(whole[k] == first[k]);
        }
        assert(whole[n] == first[n]);
        lemma_line_end_unique(whole, n);
        let rest = first.subrange(n + 1, first.len() as int);
        assert(whole.subrange(n + 1, whole.len() as int) =~= rest + second);
        assert(whole.subrange(0, n) =~= first.subrange(0, n));
        lemma_lines_in_two_parts(rest, second);
        lemma_complete_len_bound(rest);
        let unread = rest.subrange(complete_len(rest) as int, rest.len() as int);
        assert(first.subrange(complete_len(first) as int, first.len() as int) =~= unread);
        let head = seq![first.subrange(0, n)];
        assert(head + (complete_lines(rest) + complete_lines(unread + second)) =~= (head
            + complete_lines(rest)) + complete_lines(unread + second));
    }
}

/// Tells whether `needle` stands in `hay` at index `at`.
fn matches_at(hay: &[u8], needle: &[u8], at: usize) -> (r: bool)
    requires
        at + needle@.len() <= hay@.len(),
    ensures
        r == occurs_at(hay@, needle@, at as int),
{
    let n = needle.len();
    let end = hay.len();
    let mut j: usize = 0;
    while j < n
        invariant
            j <= n,
            n == needle@.len(),
            end == hay@.len(),
            at + n <= end,
            forall|k: int| 0 <= k < j ==> hay@[at + k] == needle@[k],
        decreases n - j,
    {
        if hay[at + j] != needle[j] {
            proof {
                let window = hay@.subrange(at as int, at + n);
                assert(window[j as int] != needle@[j as int]);
            }
            return false;
        }
        j += 1;
    }
    assert(hay@.subrange(at as int, at + n) =~= needle@);
    true
}

/// Tells whether `needle` stands somewhere in `hay`.
pub fn contains_bytes(hay: &[u8], needle: &[u8]) -> (r: bool)
    ensures
        r == contains(hay@, needle@),
{
    if needle.len() > hay.len() {
        return false;
    }
    let last = hay.len() - needle.len();
    let mut at: usize = 0;
    loop
        invariant
            at <= last,
            last + needle@.len() == hay@.len(),
            forall|k: int| 0 <= k < at ==> !occurs_at(hay@, needle@, k),
        decreases last - at,
    {
        if matches_at(hay, needle, at) {
            return true;
        }
        if at == last {
            return false;
        }
        at += 1;
    }
}

/// Finds the first newline of `data` at or after `from`.
pub fn find_newline(data: &[u8], from: usize) -> (found: Option<usize>)
    requires
        from <= data@.len(),
    ensures
        match found {
            Some(i) => i == from + line_end(data@.subrange(from as int, data@.len() as int))
                && i < data@.len(),
            None => line_end(data@.subrange(from as int, data@.len() as int)) == data@.len()
                - from,
        },
{
    let len = data.len();
    let mut i: usize = from;
    while i < len
        invariant
            from <= i <= len,
            len == data@.len(),
            forall|k: int| from <= k < i ==> data@[k] != NEWLINE,
        decreases len - i,
    {
        if data[i] == NEWLINE {
            proof {
                lemma_line_end_unique(data@.subrange(from as int, len as int), i - from);
            }
            return Some(i);
        }
        i += 1;
    }
    proof {
        lemma_line_end_unique(data@.subrange(from as int, len as int), len - from);
    }
    None
}

} // verus!
