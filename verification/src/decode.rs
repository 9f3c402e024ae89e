//! Decoding resolved code-point strings to text: each hexadecimal string is
//! parsed as a base-16 number and converted to its Unicode character, and
//! the whole decode fails atomically as soon as one string is not a valid
//! Unicode scalar value.

use vstd::prelude::*;

use crate::dict::GlyphDictionary;
use crate::hex::all_hex_digits;
use crate::hex::hex_digit_of;
use crate::hex::hex_value;
use crate::hex::is_hex_digit;
use crate::hex::lemma_hex_value_prefix_le;
use crate::resolve::segment_code_points;
use crate::resolve::segments_of;
use crate::resolve::step1;
use crate::resolve::step2;
use crate::resolve::step3;

verus! {

/// Whether `v` is a Unicode scalar value: at most 0x10FFFF and not in the
/// surrogate range 0xD800..=0xDFFF.
pub open spec fn is_unicode_scalar_value(v: nat) -> bool {
    v <= 0x10FFFF && !(0xD800 <= v <= 0xDFFF)
}

/// Whether a code-point string decodes to a character: it is nonempty, all
/// hexadecimal digits, and its value is a Unicode scalar value.
pub open spec fn decodes_to_scalar(s: Seq<char>) -> bool {
    s.len() > 0 && all_hex_digits(s) && is_unicode_scalar_value(hex_value(s))
}

/// The character a decodable code-point string decodes to.
pub open spec fn decoded_char(s: Seq<char>) -> char {
    (hex_value(s) as u32) as char
}

/// Whether every code-point string of a sequence decodes to a character.
pub open spec fn all_points_decodable(points: Seq<Seq<char>>) -> bool {
    forall|i: int| 0 <= i < points.len() ==> decodes_to_scalar(#[trigger] points[i])
}

/// The text a sequence of decodable code-point strings decodes to, one
/// character per code point.
pub open spec fn decoded_text(points: Seq<Seq<char>>) -> Seq<char>
    decreases points.len(),
{
    if points.len() == 0 {
        Seq::<char>::empty()
    } else {
        decoded_text(points.drop_last()).push(decoded_char(points.last()))
    }
}

/// Relies on char::from_u32: it returns `Some` exactly when the value is a
/// Unicode scalar value, that is at most 0x10FFFF and not a surrogate, and
/// the returned character has that value.
pub assume_specification[ char::from_u32 ](v: u32) -> (r: Option<char>)
    ensures
        r.is_some() <==> is_unicode_scalar_value(v as nat),
        r matches Some(c) ==> c as u32 == v,
;

/// Relies on String::push: it appends the given character to the string.
pub assume_specification[ String::push ](s: &mut String, c: char)
    ensures
        final(s)@ == old(s)@.push(c),
;

/// Parses one code-point string as a base-16 number and converts it to its
/// Unicode character; `None` when the string is empty, not all hexadecimal
/// digits, or not a Unicode scalar value.
pub fn parse_unicode(input: &str) -> (r: Option<char>)
    ensures
        r.is_some() <==> decodes_to_scalar(input@),
        r matches Some(c) ==> c == decoded_char(input@) && c as u32 as nat == hex_value(input@),
{
    broadcast use vstd::utf8::char_u32_cast;

    let n = input.unicode_len();
    if n == 0 {
        return None;
    }
    let mut value: u32 = 0;
    let mut i: usize = 0;
    proof {
        assert(input@.take(0) =~= Seq::<char>::empty());
    }
    while i < n
        invariant
            i <= n,
            n == input@.len(),
            all_hex_digits(input@.take(i as int)),
            value as nat == hex_value(input@.take(i as int)),
            value <= 0x10FFFF,
        decreases n - i,
    {
        let c = input.get_char(i);
        let d = match hex_digit_of(c) {
            Some(d) => d,
            None => {
                proof {
                    assert(!is_hex_digit(input@[i as int]));
                    assert(!all_hex_digits(input@));
                }
                return None;
            },
        };
        let next = 16 * value + d as u32;
        proof {
            assert(input@.take(i + 1).drop_last() =~= input@.take(i as int));
            assert(input@.take(i + 1).last() == input@[i as int]);
            assert(next as nat == hex_value(input@.take(i + 1)));
        }
        if next > 0x10FFFF {
            proof {
                lemma_hex_value_prefix_le(input@, i + 1);
                assert(hex_value(input@) > 0x10FFFF);
                assert(!is_unicode_scalar_value(hex_value(input@)));
            }
            return None;
        }
        value = next;
        i = i + 1;
    }
    proof {
        assert(input@.take(n as int) =~= input@);
        assert(value as nat == hex_value(input@));
        assert(hex_value(input@) as u32 == value);
    }
    let r = char::from_u32(value);
    proof {
        match r {
            Some(c) => vstd::utf8::char_u32_cast(c, value),
            None => (),
        }
    }
    r
}

/// Decodes a sequence of code-point strings to text, one character per code
/// point; the whole decode fails, and nothing is returned, as soon as any
/// one of them does not decode.
#[verifier::loop_isolation(false)]
pub fn map_code_points_to_string(points: &Vec<String>) -> (r: Option<String>)
    ensures
        r.is_some() <==> all_points_decodable(points.deep_view()),
        r matches Some(text) ==> text@ == decoded_text(points.deep_view()),
{
    let ghost pts = points.deep_view();
    let mut text = String::new();
    let mut i: usize = 0;
    let n = points.len();
    proof {
        assert(pts.take(0) =~= Seq::<Seq<char>>::empty());
        assert(text@ =~= decoded_text(pts.take(0)));
    }
    while i < n
        invariant
            i <= n,
            forall|j: int| 0 <= j < i ==> decodes_to_scalar(#[trigger] pts[j]),
            text@ == decoded_text(pts.take(i as int)),
        decreases n - i,
    {
        proof {
            assert(points@[i as int]@ == pts[i as int]);
        }
        match parse_unicode(points[i].as_str()) {
            Some(c) => {
                text.push(c);
                proof {
                    assert(pts.take(i + 1).drop_last() =~= pts.take(i as int));
                    assert(pts.take(i + 1).last() == pts[i as int]);
                    assert(text@ == decoded_text(pts.take(i + 1)));
                }
            },
            None => {
                proof {
                    assert(!decodes_to_scalar(pts[i as int]));
                }
                return None;
            },
        }
        i = i + 1;
    }
    proof {
        assert(pts.take(n as int) =~= pts);
    }
    Some(text)
}

/// The text one segment contributes under the per-segment decode policy:
/// its decoded code points, or the empty string when they do not all decode.
pub open spec fn segment_text(dict: Map<Seq<char>, Seq<char>>, seg: Seq<char>) -> Seq<char> {
    let points = segment_code_points(dict, seg);
    if all_points_decodable(points) {
        decoded_text(points)
    } else {
        Seq::<char>::empty()
    }
}

/// The text of a sequence of segments under the per-segment decode policy,
/// concatenated in segment order.
pub open spec fn per_segment_text(dict: Map<Seq<char>, Seq<char>>, segs: Seq<Seq<char>>) -> Seq<
    char,
>
    decreases segs.len(),
{
    if segs.len() == 0 {
        Seq::<char>::empty()
    } else {
        per_segment_text(dict, segs.drop_last()) + segment_text(dict, segs.last())
    }
}

/// The text of a glyph name under the per-segment decode policy.
pub open spec fn glyph_text_per_segment(dict: Map<Seq<char>, Seq<char>>, name: Seq<char>) -> Seq<
    char,
> {
    per_segment_text(dict, segments_of(name))
}

/// Decodes a glyph name to text segment by segment, the alternative to the
/// atomic policy of `map_code_points_to_string`: each segment's code points
/// are decoded independently, and a segment that does not decode contributes
/// the empty string, so a partially decodable name still yields partial text.
#[verifier::loop_isolation(false)]
pub fn map_glyph_to_string_per_segment(dict: &GlyphDictionary, glyph_name: &str) -> (text: String)
    ensures
        text@ == glyph_text_per_segment(dict@, glyph_name@),
{
    let dropped = step1(glyph_name);
    let segments = step2(dropped);
    let ghost segs = segments_of(glyph_name@);
    let mut text = String::new();
    let mut i: usize = 0;
    let n = segments.len();
    proof {
        assert(segments.deep_view() == segs);
        assert(text@ =~= per_segment_text(dict@, segs.take(0)));
    }
    while i < n
        invariant
            i <= n,
            text@ == per_segment_text(dict@, segs.take(i as int)),
        decreases n - i,
    {
        proof {
            assert(segments@[i as int]@ == segs[i as int]);
        }
        let points = step3(dict, segments[i].as_str());
        match map_code_points_to_string(&points) {
            Some(seg_text) => {
                proof {
                    assert(seg_text@ == segment_text(dict@, segs[i as int]));
                }
                text.append(seg_text.as_str());
            },
            None => {
                proof {
                    assert(segment_text(dict@, segs[i as int]) =~= Seq::<char>::empty());
                }
            },
        }
        proof {
            assert(segs.take(i + 1).drop_last() =~= segs.take(i as int));
            assert(segs.take(i + 1).last() == segs[i as int]);
            assert(text@ =~= per_segment_text(dict@, segs.take(i + 1)));
        }
        i = i + 1;
    }
    proof {
        assert(segs.take(n as int) =~= segs);
    }
    text
}

} // verus!
