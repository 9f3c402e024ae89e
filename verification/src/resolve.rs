//! Resolving a glyph name to its sequence of code-point strings: the name is
//! truncated at its first `.`, split on `_`, and each segment is resolved by
//! dictionary lookup, the `uniXXXX...` form, or the `uXXXX[XX]` form, in
//! that order.

use vstd::prelude::*;

use crate::dict::GlyphDictionary;
use crate::split::char_position;
use crate::split::lemma_join_split;
use crate::split::lemma_split_first_sep;
use crate::split::lemma_split_no_sep;
use crate::split::join_with_char;
use crate::split::split_on_char;
use crate::split::split_str;

verus! {

/// A glyph name truncated at its first `.`: the part before the first dot,
/// or the whole name when it has no dot.
pub open spec fn truncate_at_dot(name: Seq<char>) -> Seq<char> {
    split_on_char(name, '.')[0]
}

/// The segments of a glyph name: the truncated name split on `_`, empty
/// segments kept.
pub open spec fn segments_of(name: Seq<char>) -> Seq<Seq<char>> {
    split_on_char(truncate_at_dot(name), '_')
}

/// Whether a segment matches the multi-code-point form `uniXXXXYYYY...`:
/// the prefix `uni` followed by a positive multiple of four characters.
pub open spec fn uni_form_matches(seg: Seq<char>) -> bool {
    seg.len() > 3 && seg[0] == 'u' && seg[1] == 'n' && seg[2] == 'i' && (seg.len() - 3) % 4 == 0
}

/// The consecutive four-character groups after the `uni` prefix of a
/// segment in the multi-code-point form.
pub open spec fn uni_chunks(seg: Seq<char>) -> Seq<Seq<char>> {
    Seq::new(((seg.len() - 3) / 4) as nat, |k: int| seg.subrange(3 + 4 * k, 7 + 4 * k))
}

/// Whether a segment matches the single-code-point form `uXXXX[XX]`: the
/// prefix `u` followed by anything, the empty remainder included.
pub open spec fn u_form_matches(seg: Seq<char>) -> bool {
    seg.len() >= 1 && seg[0] == 'u'
}

/// The code points of a segment under the numeric naming conventions alone:
/// the `uniXXXX...` groups, or everything after a leading `u`, or nothing.
pub open spec fn numeric_code_points(seg: Seq<char>) -> Option<Seq<Seq<char>>> {
    if uni_form_matches(seg) {
        Some(uni_chunks(seg))
    } else if u_form_matches(seg) {
        Some(seq![seg.drop_first()])
    } else {
        None
    }
}

/// The code points of one segment: its dictionary value when the segment is
/// a dictionary key, the numeric forms otherwise, and no code points when
/// nothing matches.
pub open spec fn segment_code_points(dict: Map<Seq<char>, Seq<char>>, seg: Seq<char>) -> Seq<
    Seq<char>,
> {
    if dict.contains_key(seg) {
        seq![dict[seg]]
    } else {
        match numeric_code_points(seg) {
            Some(points) => points,
            None => Seq::<Seq<char>>::empty(),
        }
    }
}

/// The code points of a sequence of segments, concatenated in segment order.
pub open spec fn segments_code_points(
    dict: Map<Seq<char>, Seq<char>>,
    segs: Seq<Seq<char>>,
) -> Seq<Seq<char>>
    decreases segs.len(),
{
    if segs.len() == 0 {
        Seq::<Seq<char>>::empty()
    } else {
        segments_code_points(dict, segs.drop_last()) + segment_code_points(dict, segs.last())
    }
}

/// The code points of a glyph name: the code points of its segments,
/// concatenated in segment order.
pub open spec fn glyph_code_points(dict: Map<Seq<char>, Seq<char>>, name: Seq<char>) -> Seq<
    Seq<char>,
> {
    segments_code_points(dict, segments_of(name))
}

/// Drops everything from the first `.` of a glyph name on, keeping the part
/// before it.
pub fn step1<'a>(glyph_name: &'a str) -> (r: &'a str)
    ensures
        r@ == truncate_at_dot(glyph_name@),
{
    let n = glyph_name.unicode_len();
    let k = char_position(glyph_name, '.');
    proof {
        if k < n {
            lemma_split_first_sep(glyph_name@, '.', k as int);
        } else {
            lemma_split_no_sep(glyph_name@, '.');
            assert(glyph_name@.subrange(0, k as int) =~= glyph_name@);
        }
    }
    glyph_name.substring_char(0, k)
}

/// Splits a truncated glyph name into its segments on `_`, empty segments
/// kept.
pub fn step2(dropped: &str) -> (segments: Vec<String>)
    ensures
        segments.deep_view() == split_on_char(dropped@, '_'),
{
    split_str(dropped, '_')
}

/// Looks one segment up in the glyph dictionary.
pub fn map_agl(dict: &GlyphDictionary, component: &str) -> (r: Option<String>)
    ensures
        r.is_some() <==> dict@.contains_key(component@),
        r matches Some(code) ==> code@ == dict@[component@],
{
    dict.lookup(component)
}

/// Resolves one segment by the numeric naming conventions: the `uniXXXX...`
/// multi-code-point form first, the `uXXXX[XX]` single-code-point form as
/// the fallback, and `None` when the segment starts with neither.
pub fn map_uni(component: &str) -> (r: Option<Vec<String>>)
    ensures
        r.is_some() == numeric_code_points(component@).is_some(),
        r matches Some(points) ==> numeric_code_points(component@) == Some(points.deep_view()),
{
    let n = component.unicode_len();
    if n > 3 && component.get_char(0) == 'u' && component.get_char(1) == 'n' && component.get_char(
        2,
    ) == 'i' && (n - 3) % 4 == 0 {
        let mut chunks: Vec<String> = Vec::new();
        let mut ix: usize = 3;
        proof {
            assert(uni_form_matches(component@));
            assert(chunks.deep_view() =~= uni_chunks(component@).take(0));
        }
        while ix < n
            invariant
                3 <= ix <= n,
                n == component@.len(),
                (ix - 3) % 4 == 0,
                (n - 3) % 4 == 0,
                chunks.deep_view() == uni_chunks(component@).take(((ix - 3) / 4) as int),
            decreases n - ix,
        {
            proof {
                assert(n - ix >= 4) by {
                    assert((n - ix) % 4 == 0);
                }
            }
            let chunk = component.substring_char(ix, ix + 4).to_owned();
            let ghost old_chunks = chunks.deep_view();
            chunks.push(chunk);
            proof {
                let done = ((ix - 3) / 4) as int;
                assert(uni_chunks(component@)[done] == component@.subrange(
                    3 + 4 * done,
                    7 + 4 * done,
                ));
                assert(chunk@ == uni_chunks(component@)[done]);
                assert(chunks.deep_view() =~= old_chunks.push(chunk@));
                assert(chunks.deep_view() =~= uni_chunks(component@).take(done + 1));
            }
            ix = ix + 4;
        }
        proof {
            assert(chunks.deep_view() =~= uni_chunks(component@));
        }
        Some(chunks)
    } else if n >= 1 && component.get_char(0) == 'u' {
        let rest = component.substring_char(1, n).to_owned();
        let points = vec![rest];
        proof {
            assert(!uni_form_matches(component@));
            assert(u_form_matches(component@));
            assert(points.deep_view() =~= seq![component@.drop_first()]);
        }
        Some(points)
    } else {
        proof {
            assert(!uni_form_matches(component@));
            assert(!u_form_matches(component@));
        }
        None
    }
}

/// Resolves one segment: dictionary lookup first, then the numeric forms,
/// and no code points when nothing matches.
pub fn step3(dict: &GlyphDictionary, component: &str) -> (points: Vec<String>)
    ensures
        points.deep_view() == segment_code_points(dict@, component@),
{
    if let Some(code) = map_agl(dict, component) {
        let points = vec![code];
        proof {
            assert(points.deep_view() =~= seq![dict@[component@]]);
        }
        points
    } else if let Some(points) = map_uni(component) {
        points
    } else {
        let points: Vec<String> = Vec::new();
        proof {
            assert(points.deep_view() =~= Seq::<Seq<char>>::empty());
        }
        points
    }
}

/// Resolves a glyph name to its ordered sequence of code-point strings:
/// the name is truncated at its first `.`, split on `_`, and each segment's
/// code points are concatenated in segment order.
#[verifier::loop_isolation(false)]
pub fn map_glyph_to_code_points(dict: &GlyphDictionary, glyph_name: &str) -> (points: Vec<String>)
    ensures
        points.deep_view() == glyph_code_points(dict@, glyph_name@),
{
    let dropped = step1(glyph_name);
    let segments = step2(dropped);
    let ghost segs = segments_of(glyph_name@);
    let mut points: Vec<String> = Vec::new();
    let mut i: usize = 0;
    let n = segments.len();
    proof {
        assert(segments.deep_view() == segs);
        assert(points.deep_view() =~= segments_code_points(dict@, segs.take(0)));
    }
    while i < n
        invariant
            i <= n,
            points.deep_view() == segments_code_points(dict@, segs.take(i as int)),
        decreases n - i,
    {
        let mut seg_points = step3(dict, segments[i].as_str());
        let ghost old_points = points.deep_view();
        let ghost new_points = seg_points.deep_view();
        points.append(&mut seg_points);
        proof {
            assert(segments@[i as int]@ == segs[i as int]);
            assert(new_points == segment_code_points(dict@, segs[i as int]));
            assert(segs.take(i + 1).drop_last() =~= segs.take(i as int));
            assert(segs.take(i + 1).last() == segs[i as int]);
            assert(points.deep_view() =~= old_points + new_points);
            assert(points.deep_view() =~= segments_code_points(dict@, segs.take(i + 1)));
        }
        i = i + 1;
    }
    proof {
        assert(segs.take(n as int) =~= segs);
        assert(points.deep_view() == glyph_code_points(dict@, glyph_name@));
    }
    points
}

/// Re-joining the segments of a glyph name with `_` reproduces the name
/// truncated at its first `.`.
pub proof fn lemma_segments_rejoin(name: Seq<char>)
    ensures
        join_with_char(segments_of(name), '_') == truncate_at_dot(name),
{
    lemma_join_split(truncate_at_dot(name), '_');
}

/// Dictionary precedence: a segment that is a dictionary key resolves to its
/// dictionary value even when it is also shaped like a numeric form.
pub proof fn lemma_dictionary_precedence(dict: Map<Seq<char>, Seq<char>>, seg: Seq<char>)
    requires
        dict.contains_key(seg),
        u_form_matches(seg) || uni_form_matches(seg),
    ensures
        segment_code_points(dict, seg) == seq![dict[seg]],
{
}

/// Resolution is deterministic: any two code-point sequences that satisfy
/// the contract of `map_glyph_to_code_points` for the same dictionary and
/// the same glyph name are equal, so resolving a name twice yields
/// identical sequences.
pub proof fn lemma_resolution_deterministic(
    dict: Map<Seq<char>, Seq<char>>,
    name: Seq<char>,
    r1: Seq<Seq<char>>,
    r2: Seq<Seq<char>>,
)
    requires
        r1 == glyph_code_points(dict, name),
        r2 == glyph_code_points(dict, name),
    ensures
        r1 == r2,
{
}

} // verus!
