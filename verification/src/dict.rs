//! The glyph dictionary: an immutable mapping from glyph names to single
//! 4-digit upper-case hexadecimal code points, built once from a
//! semicolon-delimited text resource and read-only thereafter.

use vstd::prelude::*;

use crate::hex::is_upper_hex;
use crate::hex::is_upper_hex_digit;
use crate::split::split_on_char;
use crate::split::split_str;

verus! {

/// One mapping of the dictionary: a glyph name and its code point.
pub struct DictEntry {
    pub name: String,
    pub code_point: String,
}

/// An immutable glyph-name dictionary. Its abstract value is the map from
/// glyph names to code points, later entries taking precedence; the
/// constructor rejects duplicate names, so in practice each name occurs once.
pub struct GlyphDictionary {
    entries: Vec<DictEntry>,
}

/// Why a dictionary source text was rejected.
#[derive(Clone, Copy, Debug, PartialEq, Eq)]
pub enum DictError {
    /// A non-blank, non-comment line is not of the form `NAME;CODEPOINT`
    /// with a nonempty name and a 4-digit upper-case hexadecimal code point.
    MalformedLine,
    /// Two well-formed lines give the same glyph name.
    DuplicateName,
}

/// The map described by a sequence of entries, later entries winning.
pub open spec fn entries_map(s: Seq<DictEntry>) -> Map<Seq<char>, Seq<char>>
    decreases s.len(),
{
    if s.len() == 0 {
        Map::<Seq<char>, Seq<char>>::empty()
    } else {
        entries_map(s.drop_last()).insert(s.last().name@, s.last().code_point@)
    }
}

/// Entries past index `i` that never mention `k` do not affect the map at `k`.
pub proof fn lemma_entries_map_skip_suffix(s: Seq<DictEntry>, k: Seq<char>, i: int)
    requires
        0 <= i <= s.len(),
        forall|j: int| i <= j < s.len() ==> (#[trigger] s[j]).name@ != k,
    ensures
        entries_map(s).contains_key(k) == entries_map(s.take(i)).contains_key(k),
        entries_map(s).contains_key(k) ==> entries_map(s)[k] == entries_map(s.take(i))[k],
    decreases s.len() - i,
{
    if i == s.len() {
        assert(s.take(i) =~= s);
    } else {
        let front = s.drop_last();
        assert(forall|j: int| i <= j < front.len() ==> (#[trigger] front[j]).name@ != k);
        lemma_entries_map_skip_suffix(front, k, i);
        assert(front.take(i) =~= s.take(i));
        assert(s.last().name@ != k);
    }
}

/// Whether a line of the source text carries an entry: it is neither blank
/// nor a comment.
pub open spec fn is_entry_line(l: Seq<char>) -> bool {
    l.len() > 0 && l[0] != '#'
}

/// Whether a code-point field is exactly four upper-case hexadecimal digits.
pub open spec fn is_code_point_field(s: Seq<char>) -> bool {
    s.len() == 4 && (forall|i: int| 0 <= i < s.len() ==> is_upper_hex_digit(#[trigger] s[i]))
}

/// Whether an entry line is well-formed: `NAME;CODEPOINT`, with a nonempty
/// name, exactly one `;`, and a 4-digit upper-case hexadecimal code point.
pub open spec fn entry_line_well_formed(l: Seq<char>) -> bool {
    let fields = split_on_char(l, ';');
    &&& fields.len() == 2
    &&& fields[0].len() > 0
    &&& is_code_point_field(fields[1])
}

/// The glyph name of a well-formed entry line.
pub open spec fn entry_name(l: Seq<char>) -> Seq<char> {
    split_on_char(l, ';')[0]
}

/// The code point of a well-formed entry line.
pub open spec fn entry_code(l: Seq<char>) -> Seq<char> {
    split_on_char(l, ';')[1]
}

/// The lines among `lines` that carry entries, in order.
pub open spec fn kept_lines(lines: Seq<Seq<char>>) -> Seq<Seq<char>>
    decreases lines.len(),
{
    if lines.len() == 0 {
        Seq::<Seq<char>>::empty()
    } else {
        let front = kept_lines(lines.drop_last());
        if is_entry_line(lines.last()) {
            front.push(lines.last())
        } else {
            front
        }
    }
}

/// The entry lines of a source text: its lines, blanks and comments removed.
pub open spec fn entry_lines(text: Seq<char>) -> Seq<Seq<char>> {
    kept_lines(split_on_char(text, '\n'))
}

/// Whether every entry line of the source text is well-formed.
pub open spec fn all_entry_lines_well_formed(text: Seq<char>) -> bool {
    forall|i: int|
        0 <= i < entry_lines(text).len() ==> entry_line_well_formed(#[trigger] entry_lines(text)[i])
}

/// Whether no two of the given entry lines carry the same glyph name.
pub open spec fn no_duplicate_line_names(lines: Seq<Seq<char>>) -> bool {
    forall|p: int, q: int|
        0 <= p < q < lines.len() ==> entry_name(#[trigger] lines[p]) != entry_name(
            #[trigger] lines[q],
        )
}

/// The map described by a sequence of entry lines, later lines winning.
pub open spec fn lines_map(lines: Seq<Seq<char>>) -> Map<Seq<char>, Seq<char>>
    decreases lines.len(),
{
    if lines.len() == 0 {
        Map::<Seq<char>, Seq<char>>::empty()
    } else {
        lines_map(lines.drop_last()).insert(entry_name(lines.last()), entry_code(lines.last()))
    }
}

/// Entries that carry the names and codes of a sequence of lines, in order,
/// describe the same map as the lines.
pub proof fn lemma_entries_map_of_lines(entries: Seq<DictEntry>, lines: Seq<Seq<char>>)
    requires
        entries.len() == lines.len(),
        forall|i: int|
            0 <= i < lines.len() ==> (#[trigger] entries[i]).name@ == entry_name(lines[i])
                && entries[i].code_point@ == entry_code(lines[i]),
    ensures
        entries_map(entries) == lines_map(lines),
    decreases entries.len(),
{
    if entries.len() > 0 {
        lemma_entries_map_of_lines(entries.drop_last(), lines.drop_last());
    }
}

/// Every value of the map described by well-formed entry lines is exactly
/// one 4-digit upper-case hexadecimal code point.
pub proof fn lemma_lines_map_values_well_formed(lines: Seq<Seq<char>>, k: Seq<char>)
    requires
        forall|i: int| 0 <= i < lines.len() ==> entry_line_well_formed(#[trigger] lines[i]),
        lines_map(lines).contains_key(k),
    ensures
        is_code_point_field(lines_map(lines)[k]),
    decreases lines.len(),
{
    if lines.len() > 0 && entry_name(lines.last()) != k {
        lemma_lines_map_values_well_formed(lines.drop_last(), k);
    }
}

/// The entry lines of a prefix of `lines` are a prefix of the entry lines of
/// `lines`.
pub proof fn lemma_kept_lines_prefix(lines: Seq<Seq<char>>, i: int)
    requires
        0 <= i <= lines.len(),
    ensures
        kept_lines(lines.take(i)).len() <= kept_lines(lines).len(),
        forall|k: int|
            0 <= k < kept_lines(lines.take(i)).len() ==> #[trigger] kept_lines(lines.take(i))[k]
                == kept_lines(lines)[k],
    decreases lines.len() - i,
{
    if i == lines.len() {
        assert(lines.take(i) =~= lines);
    } else {
        lemma_kept_lines_prefix(lines, i + 1);
        assert(lines.take(i + 1).drop_last() =~= lines.take(i));
        assert(lines.take(i + 1).last() == lines[i]);
        let a = kept_lines(lines.take(i));
        let b = kept_lines(lines.take(i + 1));
        assert(b == if is_entry_line(lines[i]) {
            a.push(lines[i])
        } else {
            a
        });
        assert forall|k: int| 0 <= k < a.len() implies #[trigger] a[k] == kept_lines(lines)[k] by {
            assert(a[k] == b[k]);
            assert(b[k] == kept_lines(lines)[k]);
        }
    }
}

impl View for GlyphDictionary {
    type V = Map<Seq<char>, Seq<char>>;

    closed spec fn view(&self) -> Map<Seq<char>, Seq<char>> {
        entries_map(self.entries@)
    }
}

/// Whether `a` and `b` hold the same characters.
pub fn str_eq(a: &str, b: &str) -> (r: bool)
    ensures
        r == (a@ == b@),
{
    let na = a.unicode_len();
    let nb = b.unicode_len();
    if na != nb {
        proof {
            if a@ == b@ {
                assert(a@.len() == b@.len());
            }
        }
        return false;
    }
    let mut i: usize = 0;
    while i < na
        invariant
            i <= na,
            na == a@.len(),
            na == b@.len(),
            forall|j: int| 0 <= j < i ==> a@[j] == b@[j],
        decreases na - i,
    {
        if a.get_char(i) != b.get_char(i) {
            proof {
                if a@ == b@ {
                    assert(a@[i as int] == b@[i as int]);
                }
            }
            return false;
        }
        i = i + 1;
    }
    proof {
        assert(a@ =~= b@);
    }
    true
}

impl GlyphDictionary {
    /// Looks up a glyph name, returning its code point when the name is a
    /// key of the dictionary and `None` otherwise.
    pub fn lookup(&self, name: &str) -> (r: Option<String>)
        ensures
            r.is_some() <==> self@.contains_key(name@),
            r matches Some(code) ==> code@ == self@[name@],
    {
        let n = self.entries.len();
        let mut i: usize = n;
        while i > 0
            invariant
                i <= n,
                n == self.entries.len(),
                forall|j: int| i <= j < n ==> (#[trigger] self.entries@[j]).name@ != name@,
            decreases i,
        {
            i = i - 1;
            if str_eq(self.entries[i].name.as_str(), name) {
                let code = self.entries[i].code_point.clone();
                proof {
                    let s = self.entries@;
                    lemma_entries_map_skip_suffix(s, name@, i + 1);
                    assert(s.take(i + 1).drop_last() =~= s.take(i as int));
                    assert(s.take(i + 1).last() == s[i as int]);
                }
                return Some(code);
            }
        }
        proof {
            lemma_entries_map_skip_suffix(self.entries@, name@, 0);
            assert(self.entries@.take(0) =~= Seq::<DictEntry>::empty());
        }
        None
    }

    /// Builds a dictionary from a semicolon-delimited source text: one
    /// `NAME;CODEPOINT` mapping per line, lines beginning with `#` and blank
    /// lines ignored. Fails on a malformed line, and fails loudly on a
    /// duplicate name rather than silently picking one entry.
    #[verifier::loop_isolation(false)]
    pub fn from_text(text: &str) -> (r: Result<GlyphDictionary, DictError>)
        ensures
            r matches Ok(d) ==> d@ == lines_map(entry_lines(text@)),
            r.is_ok() <==> all_entry_lines_well_formed(text@) && no_duplicate_line_names(
                entry_lines(text@),
            ),
            r matches Err(e) ==> (e == DictError::MalformedLine <==> !all_entry_lines_well_formed(
                text@,
            )),
    {
        let lines = split_str(text, '\n');
        let ghost all_lines = split_on_char(text@, '\n');
        let mut entries: Vec<DictEntry> = Vec::new();
        let mut li: usize = 0;
        let n = lines.len();
        proof {
            assert(all_lines.take(0) =~= Seq::<Seq<char>>::empty());
        }
        while li < n
            invariant
                li <= n,
                entries@.len() == kept_lines(all_lines.take(li as int)).len(),
                forall|k: int|
                    0 <= k < entries@.len() ==> (#[trigger] entries@[k]).name@ == entry_name(
                        kept_lines(all_lines.take(li as int))[k],
                    ) && entries@[k].code_point@ == entry_code(
                        kept_lines(all_lines.take(li as int))[k],
                    ),
                forall|k: int|
                    0 <= k < kept_lines(all_lines.take(li as int)).len() ==> entry_line_well_formed(
                        #[trigger] kept_lines(all_lines.take(li as int))[k],
                    ),
            decreases n - li,
        {
            let ghost prefix = all_lines.take(li as int);
            let ghost kept = kept_lines(prefix);
            let line = &lines[li];
            proof {
                assert(line@ == lines@[li as int]@);
                assert(all_lines[li as int] == lines.deep_view()[li as int]);
                assert(all_lines.take(li + 1).drop_last() =~= prefix);
                assert(all_lines.take(li + 1).last() == line@);
            }
            let line_len = line.as_str().unicode_len();
            if line_len > 0 && line.as_str().get_char(0) != '#' {
                proof {
                    assert(is_entry_line(line@));
                    assert(kept_lines(all_lines.take(li + 1)) == kept.push(line@));
                    lemma_kept_lines_prefix(all_lines, li + 1);
                    assert(kept_lines(all_lines.take(li + 1))[kept.len() as int] == line@);
                    assert(kept_lines(all_lines)[kept.len() as int] == line@);
                    assert(entry_lines(text@) == kept_lines(all_lines));
                    assert(entry_lines(text@)[kept.len() as int] == line@);
                }
                // an entry line: it must parse as NAME;CODEPOINT
                let fields = split_str(line.as_str(), ';');
                proof {
                    assert(fields.deep_view() == split_on_char(line@, ';'));
                }
                if fields.len() != 2 {
                    proof {
                        assert(!entry_line_well_formed(line@));
                    }
                    return Err(DictError::MalformedLine);
                }
                let name = fields[0].clone();
                let code = fields[1].clone();
                proof {
                    assert(name@ == fields.deep_view()[0]);
                    assert(code@ == fields.deep_view()[1]);
                }
                if name.as_str().unicode_len() == 0 {
                    proof {
                        assert(!entry_line_well_formed(line@));
                    }
                    return Err(DictError::MalformedLine);
                }
                if code.as_str().unicode_len() != 4 {
                    proof {
                        assert(!entry_line_well_formed(line@));
                    }
                    return Err(DictError::MalformedLine);
                }
                let mut ci: usize = 0;
                while ci < 4
                    invariant
                        ci <= 4,
                        code@.len() == 4,
                        forall|j: int| 0 <= j < ci ==> is_upper_hex_digit(#[trigger] code@[j]),
                    decreases 4 - ci,
                {
                    if !is_upper_hex(code.as_str().get_char(ci)) {
                        proof {
                            assert(!is_code_point_field(code@));
                            assert(!entry_line_well_formed(line@));
                        }
                        return Err(DictError::MalformedLine);
                    }
                    ci = ci + 1;
                }
                proof {
                    assert(is_code_point_field(code@));
                    assert(entry_line_well_formed(line@));
                    assert(entry_name(line@) == name@);
                    assert(entry_code(line@) == code@);
                }
                entries.push(DictEntry { name, code_point: code });
            } else {
                proof {
                    assert(!is_entry_line(line@));
                    assert(kept_lines(all_lines.take(li + 1)) == kept);
                }
            }
            li = li + 1;
        }
        proof {
            assert(all_lines.take(n as int) =~= all_lines);
        }
        // all entry lines parsed; reject duplicate names
        let m = entries.len();
        let mut i: usize = 0;
        while i < m
            invariant
                i <= m,
                forall|p: int, q: int|
                    0 <= p < q < i ==> (#[trigger] entries@[p]).name@ != (
                    #[trigger] entries@[q]).name@,
            decreases m - i,
        {
            let mut j: usize = 0;
            while j < i
                invariant
                    j <= i,
                    forall|p: int|
                        0 <= p < j ==> (#[trigger] entries@[p]).name@ != entries@[i as int].name@,
                decreases i - j,
            {
                if str_eq(entries[j].name.as_str(), entries[i].name.as_str()) {
                    proof {
                        let el = entry_lines(text@);
                        assert(entry_name(el[j as int]) == entry_name(el[i as int]));
                        assert(!no_duplicate_line_names(el));
                    }
                    return Err(DictError::DuplicateName);
                }
                j = j + 1;
            }
            i = i + 1;
        }
        proof {
            let el = entry_lines(text@);
            assert forall|p: int, q: int| 0 <= p < q < el.len() implies entry_name(
                #[trigger] el[p],
            ) != entry_name(#[trigger] el[q]) by {
                assert(entries@[p].name@ != entries@[q].name@);
            }
            lemma_entries_map_of_lines(entries@, el);
        }
        Ok(GlyphDictionary { entries })
    }
}

} // verus!
