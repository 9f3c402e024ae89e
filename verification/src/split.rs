//! Splitting a string on a separator character, keeping empty substrings,
//! and joining the pieces back together.

use vstd::prelude::*;

verus! {

/// The pieces of `s` between occurrences of `sep`, in order, empty pieces
/// included. The result always has at least one element; a string without
/// the separator splits into the single piece `[s]`.
pub open spec fn split_on_char(s: Seq<char>, sep: char) -> Seq<Seq<char>>
    decreases s.len(),
{
    if s.len() == 0 {
        seq![Seq::<char>::empty()]
    } else if s[0] == sep {
        seq![Seq::<char>::empty()] + split_on_char(s.drop_first(), sep)
    } else {
        let rest = split_on_char(s.drop_first(), sep);
        seq![seq![s[0]] + rest[0]] + rest.drop_first()
    }
}

/// The concatenation of `parts` with `sep` between consecutive parts.
pub open spec fn join_with_char(parts: Seq<Seq<char>>, sep: char) -> Seq<char>
    decreases parts.len(),
{
    if parts.len() == 0 {
        Seq::<char>::empty()
    } else if parts.len() == 1 {
        parts[0]
    } else {
        parts[0] + seq![sep] + join_with_char(parts.drop_first(), sep)
    }
}

/// Splitting never yields an empty sequence of pieces.
pub proof fn lemma_split_len(s: Seq<char>, sep: char)
    ensures
        split_on_char(s, sep).len() >= 1,
    decreases s.len(),
{
    if s.len() == 0 {
    } else if s[0] == sep {
        lemma_split_len(s.drop_first(), sep);
    } else {
        lemma_split_len(s.drop_first(), sep);
    }
}

/// A string whose first occurrence of `sep` is at index `k` splits into the
/// piece before `k` followed by the split of everything after `k`.
pub proof fn lemma_split_first_sep(s: Seq<char>, sep: char, k: int)
    requires
        0 <= k < s.len(),
        forall|j: int| 0 <= j < k ==> s[j] != sep,
        s[k] == sep,
    ensures
        split_on_char(s, sep) == seq![s.subrange(0, k)] + split_on_char(
            s.subrange(k + 1, s.len() as int),
            sep,
        ),
    decreases k,
{
    if k == 0 {
        assert(s.subrange(0, 0) =~= Seq::<char>::empty());
        assert(s.subrange(1, s.len() as int) =~= s.drop_first());
        assert(split_on_char(s, sep) =~= seq![s.subrange(0, 0)] + split_on_char(
            s.subrange(k + 1, s.len() as int),
            sep,
        ));
    } else {
        let rest = s.drop_first();
        lemma_split_first_sep(rest, sep, k - 1);
        lemma_split_len(rest.subrange(k, rest.len() as int), sep);
        assert(rest.subrange(k, rest.len() as int) =~= s.subrange(k + 1, s.len() as int));
        assert(seq![s[0]] + rest.subrange(0, k - 1) =~= s.subrange(0, k));
        assert(split_on_char(s, sep) =~= seq![s.subrange(0, k)] + split_on_char(
            s.subrange(k + 1, s.len() as int),
            sep,
        ));
    }
}

/// A string without the separator splits into a single piece, itself.
pub proof fn lemma_split_no_sep(s: Seq<char>, sep: char)
    requires
        forall|j: int| 0 <= j < s.len() ==> s[j] != sep,
    ensures
        split_on_char(s, sep) == seq![s],
    decreases s.len(),
{
    if s.len() == 0 {
        assert(split_on_char(s, sep) =~~= seq![s]);
    } else {
        lemma_split_no_sep(s.drop_first(), sep);
        let rest = split_on_char(s.drop_first(), sep);
        assert(rest[0] == s.drop_first());
        assert(rest.drop_first() =~= Seq::<Seq<char>>::empty());
        assert(seq![s[0]] + s.drop_first() =~= s);
        assert(split_on_char(s, sep) =~~= seq![s]);
    }
}

/// Joining the pieces of a split with the same separator reproduces the
/// original string.
pub proof fn lemma_join_split(s: Seq<char>, sep: char)
    ensures
        join_with_char(split_on_char(s, sep), sep) == s,
    decreases s.len(),
{
    if s.len() == 0 {
        assert(join_with_char(split_on_char(s, sep), sep) =~= s);
    } else if s[0] == sep {
        let rest = s.drop_first();
        lemma_join_split(rest, sep);
        lemma_split_len(rest, sep);
        let parts = split_on_char(s, sep);
        assert(parts.drop_first() =~= split_on_char(rest, sep));
        assert(join_with_char(parts, sep) =~= s);
    } else {
        let rest = s.drop_first();
        lemma_join_split(rest, sep);
        lemma_split_len(rest, sep);
        let rparts = split_on_char(rest, sep);
        let parts = split_on_char(s, sep);
        if rparts.len() == 1 {
            assert(parts.len() == 1);
            assert(join_with_char(parts, sep) == parts[0]);
            assert(join_with_char(rparts, sep) == rparts[0]);
            assert(parts[0] =~= s);
        } else {
            assert(parts.drop_first() =~= rparts.drop_first());
            assert(parts[0] == seq![s[0]] + rparts[0]);
            assert(parts.len() == rparts.len());
            assert(join_with_char(parts, sep) == parts[0] + seq![sep] + join_with_char(
                parts.drop_first(),
                sep,
            ));
            assert(join_with_char(rparts, sep) == rparts[0] + seq![sep] + join_with_char(
                rparts.drop_first(),
                sep,
            ));
            assert(rparts[0] + seq![sep] + join_with_char(rparts.drop_first(), sep) == rest);
            assert(join_with_char(parts, sep) =~= seq![s[0]] + (rparts[0] + seq![sep]
                + join_with_char(rparts.drop_first(), sep)));
            assert(seq![s[0]] + rest =~= s);
            assert(join_with_char(parts, sep) == s);
        }
    }
}

/// The index of the first occurrence of `sep` in `s`, or the length of `s`
/// when `sep` does not occur.
pub fn char_position(s: &str, sep: char) -> (i: usize)
    ensures
        i <= s@.len(),
        forall|j: int| 0 <= j < i ==> s@[j] != sep,
        i < s@.len() ==> s@[i as int] == sep,
{
    let n = s.unicode_len();
    let mut i: usize = 0;
    while i < n
        invariant
            i <= n,
            n == s@.len(),
            forall|j: int| 0 <= j < i ==> s@[j] != sep,
        decreases n - i,
    {
        if s.get_char(i) == sep {
            return i;
        }
        i = i + 1;
    }
    i
}

/// Splits `s` on `sep`, preserving empty substrings from leading, trailing
/// or adjacent separators.
pub fn split_str(s: &str, sep: char) -> (parts: Vec<String>)
    ensures
        parts.deep_view() == split_on_char(s@, sep),
{
    let n = s.unicode_len();
    let mut parts: Vec<String> = Vec::new();
    let mut start: usize = 0;
    let mut i: usize = 0;
    proof {
        assert(parts.deep_view() =~= Seq::<Seq<char>>::empty());
        assert(s@.subrange(0, n as int) =~= s@);
        assert(parts.deep_view() + split_on_char(s@.subrange(0, n as int), sep) =~= split_on_char(
            s@,
            sep,
        ));
    }
    while i < n
        invariant
            start <= i <= n,
            n == s@.len(),
            forall|j: int| start <= j < i ==> s@[j] != sep,
            parts.deep_view() + split_on_char(s@.subrange(start as int, n as int), sep)
                == split_on_char(s@, sep),
        decreases n - i,
    {
        if s.get_char(i) == sep {
            let piece = s.substring_char(start, i).to_owned();
            proof {
                let tail = s@.subrange(start as int, n as int);
                lemma_split_first_sep(tail, sep, i - start);
                assert(tail.subrange(0, i - start) =~= s@.subrange(start as int, i as int));
                assert(tail.subrange(i - start + 1, tail.len() as int) =~= s@.subrange(
                    i + 1,
                    n as int,
                ));
            }
            let ghost old_parts = parts.deep_view();
            parts.push(piece);
            proof {
                assert(parts.deep_view() =~= old_parts.push(piece@));
                assert(parts.deep_view() + split_on_char(s@.subrange(i + 1, n as int), sep)
                    =~= split_on_char(s@, sep));
            }
            start = i + 1;
        }
        i = i + 1;
    }
    let piece = s.substring_char(start, n).to_owned();
    proof {
        lemma_split_no_sep(s@.subrange(start as int, n as int), sep);
    }
    let ghost old_parts = parts.deep_view();
    parts.push(piece);
    proof {
        assert(parts.deep_view() =~= old_parts.push(piece@));
        assert(parts.deep_view() =~= split_on_char(s@, sep));
    }
    parts
}

} // verus!
