//! Substring search and first-occurrence replacement over character
//! sequences, the primitives behind the in-band comment encoding.

use vstd::prelude::*;
use vstd::string::StrSliceExecFns;
use vstd::string::StringExecFns;

verus! {

/// True when pattern `p` occurs in `t` starting at index `i`.
pub open spec fn match_at(t: Seq<char>, p: Seq<char>, i: int) -> bool {
    &&& 0 <= i
    &&& i + p.len() <= t.len()
    &&& t.subrange(i, i + p.len()) == p
}

/// Index of the first occurrence of `p` in `t` at or after `i`, if any.
pub open spec fn find_from(t: Seq<char>, p: Seq<char>, i: int) -> Option<int>
    decreases t.len() - i + 1,
{
    if i < 0 || i + p.len() > t.len() {
        None
    } else if t.subrange(i, i + p.len()) == p {
        Some(i)
    } else {
        find_from(t, p, i + 1)
    }
}

/// Index of the leftmost occurrence of `p` in `t`, if any.
pub open spec fn first_match(t: Seq<char>, p: Seq<char>) -> Option<int> {
    find_from(t, p, 0)
}

/// `t` with its leftmost occurrence of `p` replaced by `r`; `t` unchanged
/// when `p` does not occur.
pub open spec fn splice_first(t: Seq<char>, p: Seq<char>, r: Seq<char>) -> Seq<char> {
    match first_match(t, p) {
        Some(i) => t.subrange(0, i) + r + t.subrange(i + p.len(), t.len() as int),
        None => t,
    }
}

/// Occurrences of `p` in `t` never overlap one another.
pub open spec fn isolated_matches(t: Seq<char>, p: Seq<char>) -> bool {
    forall|i1: int, i2: int|
        match_at(t, p, i1) && match_at(t, p, i2) && i1 < i2 ==> i1 + p.len() <= i2
}

/// A successful search returns the leftmost match: a genuine occurrence with
/// none before it.
pub proof fn lemma_find_from_some(t: Seq<char>, p: Seq<char>, i: int, j: int)
    requires
        0 <= i,
        find_from(t, p, i) == Some(j),
    ensures
        i <= j,
        match_at(t, p, j),
        forall|k: int| i <= k < j ==> !match_at(t, p, k),
    decreases t.len() - i + 1,
{
    if i + p.len() > t.len() {
        assert(false);
    } else if t.subrange(i, i + p.len()) == p {
        assert(match_at(t, p, i));
    } else {
        lemma_find_from_some(t, p, i + 1, j);
        assert(!match_at(t, p, i));
    }
}

/// A failed search means no occurrence at or after the start index.
pub proof fn lemma_find_from_none(t: Seq<char>, p: Seq<char>, i: int)
    requires
        0 <= i,
        find_from(t, p, i) is None,
    ensures
        forall|k: int| i <= k ==> !match_at(t, p, k),
    decreases t.len() - i + 1,
{
    if i + p.len() > t.len() {
        assert forall|k: int| i <= k implies !match_at(t, p, k) by {
            assert(k + p.len() > t.len());
        }
    } else if t.subrange(i, i + p.len()) == p {
        assert(false);
    } else {
        lemma_find_from_none(t, p, i + 1);
        assert(!match_at(t, p, i));
    }
}

/// A search that lands on `j` is complete: any position that matches with
/// none before it is the one found.
pub proof fn lemma_find_from_complete(t: Seq<char>, p: Seq<char>, i: int, j: int)
    requires
        0 <= i <= j,
        match_at(t, p, j),
        forall|k: int| i <= k < j ==> !match_at(t, p, k),
    ensures
        find_from(t, p, i) == Some(j),
    decreases j - i,
{
    if i == j {
    } else {
        assert(!match_at(t, p, i));
        lemma_find_from_complete(t, p, i + 1, j);
    }
}

/// When nothing matches at or after `i`, the search fails.
pub proof fn lemma_find_from_complete_none(t: Seq<char>, p: Seq<char>, i: int)
    requires
        0 <= i,
        forall|k: int| i <= k ==> !match_at(t, p, k),
    ensures
        find_from(t, p, i) is None,
    decreases t.len() - i + 1,
{
    if i + p.len() > t.len() {
    } else {
        assert(!match_at(t, p, i));
        lemma_find_from_complete_none(t, p, i + 1);
    }
}

/// A match beyond a leading block is a match in the tail, shifted.
pub proof fn lemma_match_in_concat(e: Seq<char>, rest: Seq<char>, p: Seq<char>, j: int)
    requires
        0 <= j,
    ensures
        match_at(e + rest, p, e.len() + j) == match_at(rest, p, j),
{
    if j + p.len() <= rest.len() {
        assert((e + rest).subrange(e.len() + j, e.len() + j + p.len()) =~= rest.subrange(
            j,
            j + p.len(),
        ));
    }
}

/// Searching a concatenation in which no match starts inside the head
/// reduces to searching the tail.
pub proof fn lemma_find_past_prefix(e: Seq<char>, rest: Seq<char>, p: Seq<char>)
    requires
        p.len() > 0,
        forall|k: int| 0 <= k < e.len() ==> !match_at(e + rest, p, k),
    ensures
        (match first_match(rest, p) {
            Some(j) => first_match(e + rest, p) == Some(e.len() + j),
            None => first_match(e + rest, p) is None,
        }),
{
    let t = e + rest;
    match first_match(rest, p) {
        Some(j) => {
            lemma_find_from_some(rest, p, 0, j);
            lemma_match_in_concat(e, rest, p, j);
            assert forall|k: int| e.len() <= k < e.len() + j implies !match_at(t, p, k) by {
                lemma_match_in_concat(e, rest, p, k - e.len());
            }
            lemma_find_from_complete(t, p, 0, e.len() + j);
        },
        None => {
            lemma_find_from_none(rest, p, 0);
            assert forall|k: int| 0 <= k implies !match_at(t, p, k) by {
                if k >= e.len() {
                    lemma_match_in_concat(e, rest, p, k - e.len());
                }
            }
            lemma_find_from_complete_none(t, p, 0);
        },
    }
}

/// How many times `p` occurs in `t`, counted greedily from the left, each
/// occurrence consumed before the next is sought.
pub open spec fn occurrence_count(t: Seq<char>, p: Seq<char>) -> nat
    decreases t.len(),
    via occurrence_count_decreases
{
    if p.len() == 0 {
        0
    } else {
        match first_match(t, p) {
            Some(i) => 1 + occurrence_count(t.subrange(i + p.len(), t.len() as int), p),
            None => 0,
        }
    }
}

#[via_fn]
proof fn occurrence_count_decreases(t: Seq<char>, p: Seq<char>) {
    if p.len() > 0 {
        match first_match(t, p) {
            Some(i) => {
                lemma_find_from_some(t, p, 0, i);
            },
            None => {},
        }
    }
}

/// A head block in which no match starts — whether because its characters
/// cannot open one or because crossing matches are excluded — adds no
/// occurrence.
pub proof fn lemma_count_past_prefix(e: Seq<char>, rest: Seq<char>, p: Seq<char>)
    requires
        p.len() > 0,
        forall|k: int| 0 <= k < e.len() ==> !match_at(e + rest, p, k),
    ensures
        occurrence_count(e + rest, p) == occurrence_count(rest, p),
{
    lemma_find_past_prefix(e, rest, p);
    match first_match(rest, p) {
        Some(j) => {
            lemma_find_from_some(rest, p, 0, j);
            assert((e + rest).subrange(e.len() + j + p.len(), (e + rest).len() as int) =~= rest
                .subrange(j + p.len(), rest.len() as int));
        },
        None => {},
    }
}

/// No match can start inside a block free of the pattern's first character.
pub proof fn lemma_char_free_head(e: Seq<char>, rest: Seq<char>, p: Seq<char>)
    requires
        p.len() > 0,
        !e.contains(p[0]),
    ensures
        forall|k: int| 0 <= k < e.len() ==> !match_at(e + rest, p, k),
{
    let t = e + rest;
    assert forall|k: int| 0 <= k < e.len() implies !match_at(t, p, k) by {
        if match_at(t, p, k) {
            assert(t.subrange(k, k + p.len())[0] == t[k]);
            assert(e[k] == p[0]);
            assert(e.contains(p[0]));
        }
    }
}

/// A leading block free of the pattern's first character adds no occurrence.
pub proof fn lemma_count_skip_prefix(e: Seq<char>, rest: Seq<char>, p: Seq<char>)
    requires
        p.len() > 0,
        !e.contains(p[0]),
    ensures
        occurrence_count(e + rest, p) == occurrence_count(rest, p),
{
    lemma_char_free_head(e, rest, p);
    lemma_count_past_prefix(e, rest, p);
}

/// Compare `p` against `t` at character position `i`.
fn is_match_at(t: &str, p: &str, i: usize, tlen: usize, plen: usize) -> (r: bool)
    requires
        tlen == t@.len(),
        plen == p@.len(),
        i + plen <= tlen,
    ensures
        r == match_at(t@, p@, i as int),
{
    let mut j: usize = 0;
    while j < plen
        invariant
            tlen == t@.len(),
            plen == p@.len(),
            i + plen <= tlen,
            j <= plen,
            forall|k: int| 0 <= k < j ==> t@[i + k] == p@[k],
        decreases plen - j,
    {
        if t.get_char(i + j) != p.get_char(j) {
            assert(t@.subrange(i as int, i + plen)[j as int] == t@[i + j]);
            assert(!match_at(t@, p@, i as int));
            return false;
        }
        j += 1;
    }
    assert(t@.subrange(i as int, i + plen) =~= p@);
    true
}

/// Scan `t` left to right for the first occurrence of `p`.
pub fn find_first(t: &str, p: &str) -> (r: Option<usize>)
    ensures
        (match r {
            Some(i) => first_match(t@, p@) == Some(i as int),
            None => first_match(t@, p@) is None,
        }),
{
    let tlen = t.unicode_len();
    let plen = p.unicode_len();
    if plen > tlen {
        return None;
    }
    if plen == 0 {
        proof {
            assert(t@.subrange(0, 0) =~= p@);
        }
        return Some(0);
    }
    let mut i: usize = 0;
    while i <= tlen - plen
        invariant
            tlen == t@.len(),
            plen == p@.len(),
            1 <= plen <= tlen,
            i <= tlen - plen + 1,
            first_match(t@, p@) == find_from(t@, p@, i as int),
        decreases tlen - i,
    {
        if is_match_at(t, p, i, tlen, plen) {
            return Some(i);
        }
        proof {
            assert(find_from(t@, p@, i as int) == find_from(t@, p@, i + 1));
        }
        i += 1;
    }
    None
}

/// `t` with its first occurrence of `p` replaced by `r`.
pub fn replace_first(t: &str, p: &str, r: &str) -> (res: String)
    ensures
        res@ == splice_first(t@, p@, r@),
{
    match find_first(t, p) {
        Some(i) => {
            let tlen = t.unicode_len();
            let plen = p.unicode_len();
            proof {
                lemma_find_from_some(t@, p@, 0, i as int);
            }
            let mut out = String::new();
            out.append(t.substring_char(0, i));
            out.append(r);
            out.append(t.substring_char(i + plen, tlen));
            proof {
                assert(out@ =~= splice_first(t@, p@, r@));
            }
            out
        },
        None => String::from_str(t),
    }
}

} // verus!
