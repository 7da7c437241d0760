//! The micro-formats of the call boundary: source payloads separated by a
//! fixed separator, comma-separated lists, textual booleans, and the
//! space-joined output list. All of it is verified against exact
//! specifications of splitting and joining.

use vstd::prelude::*;

verus! {

/// The pieces of `s` from scan position `i` on, where the piece under
/// construction began at `start`: scanning finds each occurrence of `sep`
/// and cuts a piece there. This is the reference meaning of splitting.
pub open spec fn split_from(s: Seq<char>, sep: Seq<char>, start: int, i: int) -> Seq<Seq<char>>
    recommends
        0 <= start <= i <= s.len(),
    decreases s.len() - i,
        when sep.len() > 0 && i <= s.len()
{
    if i + sep.len() > s.len() {
        seq![s.subrange(start, s.len() as int)]
    } else if s.subrange(i, i + sep.len()) == sep {
        seq![s.subrange(start, i)] + split_from(s, sep, i + sep.len(), i + sep.len())
    } else {
        split_from(s, sep, start, i + 1)
    }
}

/// What splitting `s` on `sep` yields: the pieces between occurrences of
/// `sep`, in order. A string without an occurrence is one piece; every
/// occurrence ends a piece, so `n` occurrences give `n + 1` pieces.
pub open spec fn spec_split(s: Seq<char>, sep: Seq<char>) -> Seq<Seq<char>> {
    split_from(s, sep, 0, 0)
}

/// What joining `parts` with `sep` yields: the parts in order, one `sep`
/// between each two.
pub open spec fn spec_join(parts: Seq<Seq<char>>, sep: Seq<char>) -> Seq<char>
    decreases parts.len(),
{
    if parts.len() == 0 {
        Seq::empty()
    } else if parts.len() == 1 {
        parts[0]
    } else {
        spec_join(parts.drop_last(), sep) + sep + parts.last()
    }
}

/// The textual booleans of the boundary: exactly `true` and `false`.
pub open spec fn spec_parse_bool(s: Seq<char>) -> Option<bool> {
    if s == "true"@ {
        Some(true)
    } else if s == "false"@ {
        Some(false)
    } else {
        None
    }
}

/// The views of a vector of strings.
pub open spec fn views_of(parts: Seq<String>) -> Seq<Seq<char>> {
    parts.map_values(|p: String| p@)
}

/// Character-for-character string equality.
pub fn str_eq(a: &str, b: &str) -> (r: bool)
    ensures
        r == (a@ == b@),
{
    let la: usize = a.unicode_len();
    let lb: usize = b.unicode_len();
    if la != lb {
        return false;
    }
    let mut i: usize = 0;
    while i < la
        invariant
            la == a@.len(),
            la == b@.len(),
            i <= la,
            forall|j: int| 0 <= j < i ==> a@[j] == b@[j],
        decreases la - i,
    {
        if a.get_char(i) != b.get_char(i) {
            return false;
        }
        i = i + 1;
    }
    proof {
        assert(a@ =~= b@);
    }
    true
}

/// Whether `sep` occurs in `s` at position `i`.
fn matches_at(s: &str, slen: usize, i: usize, sep: &str, seplen: usize) -> (r: bool)
    requires
        slen == s@.len(),
        seplen == sep@.len(),
        i + seplen <= slen,
    ensures
        r == (s@.subrange(i as int, i + sep@.len()) == sep@),
{
    let mut j: usize = 0;
    while j < seplen
        invariant
            slen == s@.len(),
            seplen == sep@.len(),
            i + seplen <= slen,
            j <= seplen,
            forall|k: int| 0 <= k < j ==> s@[i + k] == sep@[k],
        decreases seplen - j,
    {
        if s.get_char(i + j) != sep.get_char(j) {
            proof {
                assert(s@.subrange(i as int, i + sep@.len())[j as int] != sep@[j as int]);
            }
            return false;
        }
        j = j + 1;
    }
    proof {
        assert(s@.subrange(i as int, i + sep@.len()) =~= sep@);
    }
    true
}

/// Split `s` on every occurrence of `sep`.
pub fn split_text(s: &str, sep: &str) -> (r: Vec<String>)
    requires
        sep@.len() > 0,
    ensures
        views_of(r@) == spec_split(s@, sep@),
        r@.len() > 0,
{
    let slen: usize = s.unicode_len();
    let seplen: usize = sep.unicode_len();
    let mut pieces: Vec<String> = Vec::new();
    let mut start: usize = 0;
    let mut i: usize = 0;
    while seplen <= slen && i <= slen - seplen
        invariant
            slen == s@.len(),
            seplen == sep@.len(),
            seplen > 0,
            start <= i <= slen,
            spec_split(s@, sep@) == views_of(pieces@) + split_from(
                s@,
                sep@,
                start as int,
                i as int,
            ),
        decreases slen - i,
    {
        if matches_at(s, slen, i, sep, seplen) {
            let ghost old_pieces = pieces@;
            let ghost next: int = i + seplen;
            let piece = s.substring_char(start, i);
            let owned: String = piece.to_owned();
            pieces.push(owned);
            proof {
                assert(views_of(pieces@) =~= views_of(old_pieces).push(
                    s@.subrange(start as int, i as int),
                ));
                assert(split_from(s@, sep@, start as int, i as int) == seq![
                    s@.subrange(start as int, i as int),
                ] + split_from(s@, sep@, next, next));
                assert(views_of(pieces@) + split_from(s@, sep@, next, next) =~= views_of(
                    old_pieces,
                ) + split_from(s@, sep@, start as int, i as int));
            }
            i = i + seplen;
            start = i;
        } else {
            i = i + 1;
        }
    }
    let ghost old_pieces = pieces@;
    let last = s.substring_char(start, slen);
    let owned_last: String = last.to_owned();
    pieces.push(owned_last);
    proof {
        assert(split_from(s@, sep@, start as int, i as int) == seq![
            s@.subrange(start as int, slen as int),
        ]);
        assert(views_of(pieces@) =~= views_of(old_pieces) + seq![
            s@.subrange(start as int, slen as int),
        ]);
    }
    pieces
}

/// Join `parts` with `sep` between each two.
pub fn join_text(parts: &Vec<String>, sep: &str) -> (r: String)
    ensures
        r@ == spec_join(views_of(parts@), sep@),
{
    let mut acc = String::new();
    let mut i: usize = 0;
    while i < parts.len()
        invariant
            i <= parts@.len(),
            acc@ == spec_join(views_of(parts@).take(i as int), sep@),
        decreases parts@.len() - i,
    {
        if i > 0 {
            acc.append(sep);
        }
        acc.append(parts[i].as_str());
        i = i + 1;
        proof {
            let v = views_of(parts@);
            assert(v.take(i as int).drop_last() =~= v.take(i as int - 1));
            assert(v.take(i as int).last() == v[i as int - 1]);
        }
    }
    proof {
        assert(views_of(parts@).take(parts@.len() as int) =~= views_of(parts@));
    }
    acc
}

/// Parse the textual boolean of the boundary.
pub fn parse_bool_text(s: &str) -> (r: Option<bool>)
    ensures
        r == spec_parse_bool(s@),
{
    if str_eq(s, "true") {
        Some(true)
    } else if str_eq(s, "false") {
        Some(false)
    } else {
        None
    }
}

/// Whether `needle` is one of `haystack`, by character-for-character
/// comparison.
pub fn contains_text(haystack: &Vec<String>, needle: &str) -> (r: bool)
    ensures
        r == views_of(haystack@).contains(needle@),
{
    let mut i: usize = 0;
    while i < haystack.len()
        invariant
            i <= haystack@.len(),
            forall|j: int| 0 <= j < i ==> views_of(haystack@)[j] != needle@,
        decreases haystack@.len() - i,
    {
        if str_eq(haystack[i].as_str(), needle) {
            proof {
                assert(views_of(haystack@)[i as int] == needle@);
            }
            return true;
        }
        i = i + 1;
    }
    false
}

} // verus!
