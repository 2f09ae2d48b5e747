//! The skill document format.
//!
//! A skill document begins with a delimiter line `---`, followed by a
//! structured block giving exactly two scalar fields, `name` and
//! `description`, a second delimiter, a blank line, and the body text.
//! Parsing and generation are exact inverses, which
//! `lemma_generate_parse_round_trip` states and proves.

use vstd::prelude::*;

use crate::errors::ErrorKind;
use crate::errors::RhinolabsError;
use crate::text::is_ws;
use crate::text::is_ws_exec;
use crate::text::spec_trim;
use crate::text::str_starts_with;
use crate::text::trim;
use crate::text::trim_end_rec;
use crate::text::trim_start_rec;

verus! {

/// The metadata block of a skill document.
#[derive(Debug)]
pub struct SkillFrontmatter {
    pub name: String,
    pub description: String,
}

/// The exact text that `generate_skill_file` produces.
pub open spec fn spec_generate(name: Seq<char>, description: Seq<char>, body: Seq<char>) -> Seq<
    char,
> {
    "---\nname: "@ + name + "\ndescription: "@ + description + "\n---\n\n"@ + body
}

/// A `---` delimiter occurs in `s` at position `i`.
pub open spec fn delim_at(s: Seq<char>, i: int) -> bool {
    0 <= i && i + 3 <= s.len() && s[i] == '-' && s[i + 1] == '-' && s[i + 2] == '-'
}

/// The first position at or after `i` where a delimiter occurs, or the
/// first position past which none can (when no delimiter follows `i`).
pub open spec fn first_delim_from(s: Seq<char>, i: int) -> int
    decreases s.len() - i,
{
    if delim_at(s, i) {
        i
    } else if i + 1 <= s.len() {
        first_delim_from(s, i + 1)
    } else {
        i
    }
}

/// The lines of `s`, split on newline characters.
pub open spec fn spec_lines(s: Seq<char>) -> Seq<Seq<char>>
    decreases s.len(),
{
    if s.len() == 0 {
        seq![Seq::<char>::empty()]
    } else if s[0] == '\n' {
        seq![Seq::<char>::empty()] + spec_lines(s.drop_first())
    } else {
        let rest = spec_lines(s.drop_first());
        seq![seq![s[0]] + rest[0]] + rest.drop_first()
    }
}

/// The value a single line contributes for `key`: when the trimmed line
/// starts with `key`, the trimmed remainder after the key.
pub open spec fn line_field(line: Seq<char>, key: Seq<char>) -> Option<Seq<char>> {
    let lt = spec_trim(line);
    if key.is_prefix_of(lt) {
        Some(spec_trim(lt.skip(key.len() as int)))
    } else {
        None
    }
}

/// The value of the first line that carries `key`, if any line does.
pub open spec fn first_field(lines: Seq<Seq<char>>, key: Seq<char>) -> Option<Seq<char>>
    decreases lines.len(),
{
    if lines.len() == 0 {
        None
    } else {
        match line_field(lines[0], key) {
            Some(v) => Some(v),
            None => first_field(lines.drop_first(), key),
        }
    }
}

/// The decoded `name` and `description` of a structured block, if both
/// fields are present.
pub open spec fn spec_parse_frontmatter(fm: Seq<char>) -> Option<(Seq<char>, Seq<char>)> {
    let n = first_field(spec_lines(fm), "name:"@);
    let d = first_field(spec_lines(fm), "description:"@);
    if n is Some && d is Some {
        Some((n->0, d->0))
    } else {
        None
    }
}

/// The parse of a whole document: `Some((name, description, body))` when
/// the trimmed text starts with a delimiter, a second delimiter follows,
/// and the block between them decodes both fields; `None` otherwise.
pub open spec fn spec_parse(s: Seq<char>) -> Option<(Seq<char>, Seq<char>, Seq<char>)> {
    let t = spec_trim(s);
    if !delim_at(t, 0) {
        None
    } else if !(exists|j: int| 3 <= j && delim_at(t, j)) {
        None
    } else {
        let j = first_delim_from(t, 3);
        let fm = t.subrange(3, j);
        let body = spec_trim(t.subrange(j + 3, t.len() as int));
        match spec_parse_frontmatter(fm) {
            Some(p) => Some((p.0, p.1, body)),
            None => None,
        }
    }
}

proof fn lemma_first_delim_is(s: Seq<char>, from: int, j: int)
    requires
        0 <= from <= j,
        delim_at(s, j),
        forall|k: int| from <= k < j ==> !delim_at(s, k),
    ensures
        first_delim_from(s, from) == j,
    decreases j - from,
{
    if from < j {
        lemma_first_delim_is(s, from + 1, j);
    }
}

/// Find the first delimiter at or after `from`.
fn find_delim(s: &str, from: usize) -> (r: Option<usize>)
    ensures
        match r {
            Some(j) => from <= j && delim_at(s@, j as int) && (forall|k: int|
                from <= k < j ==> !delim_at(s@, k)),
            None => forall|k: int| from <= k ==> !delim_at(s@, k),
        },
{
    let n = s.unicode_len();
    if n < 3 {
        return None;
    }
    let mut i: usize = from;
    while i <= n - 3
        invariant
            from <= i,
            3 <= n == s@.len(),
            forall|k: int| from <= k < i ==> !delim_at(s@, k),
        decreases n - i,
    {
        if s.get_char(i) == '-' && s.get_char(i + 1) == '-' && s.get_char(i + 2) == '-' {
            return Some(i);
        }
        i = i + 1;
    }
    None
}

proof fn lemma_lines_split(s: Seq<char>, i: int)
    requires
        0 <= i <= s.len(),
        forall|m: int| 0 <= m < i ==> s[m] != '\n',
        i == s.len() || s[i] == '\n',
    ensures
        i == s.len() ==> spec_lines(s) =~~= seq![s],
        i < s.len() ==> spec_lines(s) =~~= seq![s.subrange(0, i)] + spec_lines(
            s.subrange(i + 1, s.len() as int),
        ),
    decreases s.len(),
{
    if s.len() == 0 {
        assert(spec_lines(s) =~~= seq![s]);
    } else if s[0] == '\n' {
        assert(i == 0);
        assert(s.drop_first() =~= s.subrange(1, s.len() as int));
        assert(spec_lines(s) =~~= seq![s.subrange(0, 0)] + spec_lines(
            s.subrange(1, s.len() as int),
        ));
    } else {
        assert(i >= 1);
        let t = s.drop_first();
        assert(forall|m: int| 0 <= m < i - 1 ==> #[trigger] t[m] != '\n');
        lemma_lines_split(t, i - 1);
        let rest = spec_lines(t);
        if i == s.len() {
            assert(rest =~~= seq![t]);
            assert(seq![s[0]] + rest[0] =~= s);
            assert(spec_lines(s) =~~= seq![s]);
        } else {
            let tail = spec_lines(t.subrange(i, t.len() as int));
            assert(rest =~~= seq![t.subrange(0, i - 1)] + tail);
            assert(rest[0] == t.subrange(0, i - 1));
            assert(seq![s[0]] + t.subrange(0, i - 1) =~= s.subrange(0, i));
            assert(rest.drop_first() =~~= tail);
            assert(t.subrange(i, t.len() as int) =~= s.subrange(i + 1, s.len() as int));
            assert(spec_lines(s) =~~= seq![s.subrange(0, i)] + spec_lines(
                s.subrange(i + 1, s.len() as int),
            ));
        }
    }
}

/// Scan the structured block for the first `name:` and `description:`
/// lines.
fn scan_frontmatter(fm: &str) -> (r: (Option<String>, Option<String>))
    ensures
        match r.0 {
            Some(v) => first_field(spec_lines(fm@), "name:"@) == Some(v@),
            None => first_field(spec_lines(fm@), "name:"@) is None,
        },
        match r.1 {
            Some(v) => first_field(spec_lines(fm@), "description:"@) == Some(v@),
            None => first_field(spec_lines(fm@), "description:"@) is None,
        },
{
    let n = fm.unicode_len();
    let mut pos: usize = 0;
    let mut name_v: Option<String> = None;
    let mut desc_v: Option<String> = None;
    let mut done = false;
    proof {
        assert(fm@.subrange(0, n as int) =~= fm@);
    }
    while !done
        invariant
            0 <= pos <= n,
            n == fm@.len(),
            done ==> ({
                &&& (match name_v {
                    Some(v) => first_field(spec_lines(fm@), "name:"@) == Some(v@),
                    None => first_field(spec_lines(fm@), "name:"@) is None,
                })
                &&& (match desc_v {
                    Some(v) => first_field(spec_lines(fm@), "description:"@) == Some(v@),
                    None => first_field(spec_lines(fm@), "description:"@) is None,
                })
            }),
            !done ==> ({
                &&& (match name_v {
                    Some(v) => first_field(spec_lines(fm@), "name:"@) == Some(v@),
                    None => first_field(spec_lines(fm@), "name:"@) == first_field(
                        spec_lines(fm@.subrange(pos as int, n as int)),
                        "name:"@,
                    ),
                })
                &&& (match desc_v {
                    Some(v) => first_field(spec_lines(fm@), "description:"@) == Some(v@),
                    None => first_field(spec_lines(fm@), "description:"@) == first_field(
                        spec_lines(fm@.subrange(pos as int, n as int)),
                        "description:"@,
                    ),
                })
            }),
        decreases (n - pos) + (if done {
            0int
        } else {
            1int
        }),
    {
        let ghost rem = fm@.subrange(pos as int, n as int);
        let mut e: usize = pos;
        while e < n && fm.get_char(e) != '\n'
            invariant
                pos <= e <= n,
                n == fm@.len(),
                forall|m: int| pos <= m < e ==> fm@[m] != '\n',
            decreases n - e,
        {
            e = e + 1;
        }
        let line = fm.substring_char(pos, e);
        let ghost lseq = line@;
        proof {
            assert(lseq =~= rem.subrange(0, e - pos));
            if e < n {
                assert(rem[e - pos] == fm@[e as int]);
            }
            assert(forall|m: int| 0 <= m < e - pos ==> rem[m] == fm@[pos + m]);
            lemma_lines_split(rem, e - pos);
        }
        let lt = trim(line);
        let lt_len = lt.as_str().unicode_len();
        proof {
            reveal_strlit("name:");
            reveal_strlit("description:");
        }
        if name_v.is_none() && str_starts_with(lt.as_str(), "name:") {
            let v = trim(lt.as_str().substring_char(5, lt_len));
            proof {
                assert(lt@.subrange(5, lt@.len() as int) =~= lt@.skip(5));
                assert(line_field(lseq, "name:"@) == Some(v@));
            }
            name_v = Some(v);
        } else {
            proof {
                if name_v is None {
                    assert(line_field(lseq, "name:"@) is None);
                }
            }
        }
        if desc_v.is_none() && str_starts_with(lt.as_str(), "description:") {
            let v = trim(lt.as_str().substring_char(12, lt_len));
            proof {
                assert(lt@.subrange(12, lt@.len() as int) =~= lt@.skip(12));
                assert(line_field(lseq, "description:"@) == Some(v@));
            }
            desc_v = Some(v);
        } else {
            proof {
                if desc_v is None {
                    assert(line_field(lseq, "description:"@) is None);
                }
            }
        }
        if e == n {
            proof {
                assert(spec_lines(rem) =~~= seq![lseq]);
                assert(spec_lines(rem)[0] == lseq);
                assert(spec_lines(rem).drop_first() =~~= Seq::<Seq<char>>::empty());
                assert(first_field(Seq::<Seq<char>>::empty(), "name:"@) is None);
                assert(first_field(Seq::<Seq<char>>::empty(), "description:"@) is None);
            }
            done = true;
        } else {
            proof {
                let tail = spec_lines(rem.subrange(e - pos + 1, rem.len() as int));
                assert(spec_lines(rem) =~~= seq![lseq] + tail);
                assert((seq![lseq] + tail)[0] == lseq);
                assert((seq![lseq] + tail).drop_first() =~~= tail);
                assert(rem.subrange(e - pos + 1, rem.len() as int) =~= fm@.subrange(
                    e + 1,
                    n as int,
                ));
            }
            pos = e + 1;
        }
    }
    (name_v, desc_v)
}

/// Build the document text for the given metadata and body.
pub fn generate_doc(name: &str, description: &str, body: &str) -> (r: String)
    ensures
        r@ == spec_generate(name@, description@, body@),
{
    let mut r = String::new();
    r.append("---\nname: ");
    r.append(name);
    r.append("\ndescription: ");
    r.append(description);
    r.append("\n---\n\n");
    r.append(body);
    proof {
        assert(r@ =~= spec_generate(name@, description@, body@));
    }
    r
}

/// There is some position where a `---` delimiter occurs in `s`.
pub open spec fn has_delim(s: Seq<char>) -> bool {
    exists|i: int| delim_at(s, i)
}

/// There is a newline character in `s`.
pub open spec fn has_nl(s: Seq<char>) -> bool {
    exists|i: int| 0 <= i < s.len() && s[i] == '\n'
}

proof fn lemma_ws_singleton(c: char)
    requires
        is_ws(c),
    ensures
        trim_start_rec(seq![c]).len() == 0,
        trim_end_rec(seq![c]).len() == 0,
{
    let u = seq![c];
    assert(u[0] == c);
    assert(u.last() == c);
    assert(u.drop_first() =~= Seq::<char>::empty());
    assert(u.drop_last() =~= Seq::<char>::empty());
    assert(trim_start_rec(Seq::<char>::empty()).len() == 0);
    assert(trim_end_rec(Seq::<char>::empty()).len() == 0);
}

proof fn lemma_line_field_none(line: Seq<char>, key: Seq<char>)
    requires
        key.len() > 0,
        spec_trim(line).len() == 0 || spec_trim(line)[0] != key[0],
    ensures
        line_field(line, key) is None,
{
    let lt = spec_trim(line);
    if key.is_prefix_of(lt) {
        assert(key[0] == lt.subrange(0, key.len() as int)[0]);
        assert(false);
    }
}

proof fn lemma_label_line(prefix: Seq<char>, key: Seq<char>, value: Seq<char>)
    requires
        prefix == key + seq![' '],
        key.len() > 0,
        !is_ws(key[0]),
        !is_ws(key.last()),
        spec_trim(value) == value,
    ensures
        line_field(prefix + value, key) == Some(value),
        spec_trim(prefix + value).len() > 0,
        spec_trim(prefix + value)[0] == key[0],
{
    let l = prefix + value;
    crate::text::lemma_trim_fix(value);
    assert(l[0] == key[0]);
    crate::text::lemma_trim_start_noop(l);
    crate::text::lemma_trim_end_concat(prefix, value);
    lemma_ws_singleton(' ');
    let lt = spec_trim(l);
    if value.len() > 0 {
        assert(trim_end_rec(value) == value);
        assert(lt == prefix + value);
        assert(key.is_prefix_of(lt)) by {
            assert(lt.subrange(0, key.len() as int) =~= key);
        }
        assert(lt.skip(key.len() as int) =~= seq![' '] + value);
        crate::text::lemma_trim_start_concat(seq![' '], value);
        assert(trim_start_rec(seq![' '] + value) == value);
        assert(spec_trim(lt.skip(key.len() as int)) == value);
    } else {
        assert(trim_end_rec(value).len() == 0);
        assert(lt == trim_end_rec(prefix));
        crate::text::lemma_trim_end_concat(key, seq![' ']);
        crate::text::lemma_trim_end_noop(key);
        assert(lt == key);
        assert(key.is_prefix_of(lt)) by {
            assert(lt.subrange(0, key.len() as int) =~= key);
        }
        assert(lt.skip(key.len() as int) =~= value);
        assert(spec_trim(value) == value);
    }
}

proof fn lemma_fm_parse(name: Seq<char>, description: Seq<char>)
    requires
        !has_nl(name),
        spec_trim(name) == name,
        !has_nl(description),
        spec_trim(description) == description,
    ensures
        spec_parse_frontmatter(
            "\nname: "@ + name + "\ndescription: "@ + description + seq!['\n'],
        ) == Some((name, description)),
{
    reveal_strlit("\nname: ");
    reveal_strlit("\ndescription: ");
    reveal_strlit("name: ");
    reveal_strlit("description: ");
    reveal_strlit("name:");
    reveal_strlit("description:");
    let fm = "\nname: "@ + name + "\ndescription: "@ + description + seq!['\n'];
    let name_line = "name: "@ + name;
    let desc_line = "description: "@ + description;
    let empty = Seq::<char>::empty();

    // split off the leading blank line
    assert(fm[0] == '\n');
    lemma_lines_split(fm, 0);
    let r1 = fm.subrange(1, fm.len() as int);
    assert(r1 =~= "name: "@ + name + "\ndescription: "@ + description + seq!['\n']);
    assert(fm.subrange(0, 0) =~= empty);
    assert(spec_lines(fm) == seq![empty] + spec_lines(r1));

    // the name line ends at the newline in front of "description: "
    let i1 = 6 + name.len() as int;
    assert(forall|m: int| 0 <= m < 6 ==> r1[m] == "name: "@[m]);
    assert(forall|m: int| 0 <= m < name.len() ==> r1[6 + m] == name[m]);
    assert(r1[i1] == '\n');
    assert forall|m: int| 0 <= m < i1 implies r1[m] != '\n' by {
        if m < 6 {
        } else {
            assert(r1[m] == name[m - 6]);
        }
    }
    lemma_lines_split(r1, i1);
    let r2 = r1.subrange(i1 + 1, r1.len() as int);
    assert(r1.subrange(0, i1) =~= name_line);
    assert(r2 =~= "description: "@ + description + seq!['\n']);
    assert(spec_lines(r1) == seq![name_line] + spec_lines(r2));

    // the description line ends at the final newline
    let i2 = 13 + description.len() as int;
    assert(forall|m: int| 0 <= m < 13 ==> r2[m] == "description: "@[m]);
    assert(forall|m: int| 0 <= m < description.len() ==> r2[13 + m] == description[m]);
    assert(r2[i2] == '\n');
    assert forall|m: int| 0 <= m < i2 implies r2[m] != '\n' by {
        if m < 13 {
        } else {
            assert(r2[m] == description[m - 13]);
        }
    }
    lemma_lines_split(r2, i2);
    let r3 = r2.subrange(i2 + 1, r2.len() as int);
    assert(r2.subrange(0, i2) =~= desc_line);
    assert(r3 =~= empty);
    assert(spec_lines(r2) == seq![desc_line] + spec_lines(r3));
    assert(spec_lines(empty) =~~= seq![empty]);

    let lines = seq![empty, name_line, desc_line, empty];
    assert(spec_lines(fm) =~~= lines);

    // field lookups over the four lines
    assert(spec_trim(empty).len() == 0);
    lemma_line_field_none(empty, "name:"@);
    lemma_line_field_none(empty, "description:"@);
    assert("name: "@ =~= "name:"@ + seq![' ']);
    assert("description: "@ =~= "description:"@ + seq![' ']);
    lemma_label_line("name: "@, "name:"@, name);
    lemma_label_line("description: "@, "description:"@, description);
    lemma_line_field_none(name_line, "description:"@);

    let l2 = seq![name_line, desc_line, empty];
    let l3 = seq![desc_line, empty];
    assert(lines.drop_first() =~~= l2);
    assert(l2.drop_first() =~~= l3);
    assert(first_field(l2, "name:"@) == Some(name));
    assert(first_field(lines, "name:"@) == Some(name));
    assert(first_field(l3, "description:"@) == Some(description));
    assert(first_field(l2, "description:"@) == Some(description));
    assert(first_field(lines, "description:"@) == Some(description));
}

/// The conditions under which a name and a description survive the
/// document round trip exactly: single-line, already trimmed, and free
/// of the delimiter.
pub open spec fn round_trip_safe(name: Seq<char>, description: Seq<char>) -> bool {
    &&& !has_nl(name)
    &&& !has_delim(name)
    &&& spec_trim(name) == name
    &&& !has_nl(description)
    &&& !has_delim(description)
    &&& spec_trim(description) == description
}

/// Document round trip: a document generated from a name, a description,
/// and a body parses back to the same name and description, and to the
/// body up to surrounding whitespace. Holds whenever the name and the
/// description are single-line, already trimmed, and free of the `---`
/// delimiter.
pub proof fn lemma_generate_parse_round_trip(
    name: Seq<char>,
    description: Seq<char>,
    body: Seq<char>,
)
    requires
        !has_nl(name),
        !has_delim(name),
        spec_trim(name) == name,
        !has_nl(description),
        !has_delim(description),
        spec_trim(description) == description,
    ensures
        spec_parse(spec_generate(name, description, body)) == Some(
            (name, description, spec_trim(body)),
        ),
{
    reveal_strlit("---\nname: ");
    reveal_strlit("\ndescription: ");
    reveal_strlit("\n---\n\n");
    reveal_strlit("\nname: ");
    let l1 = "---\nname: "@;
    let l2 = "\ndescription: "@;
    let l3 = "\n---\n\n"@;
    let g = spec_generate(name, description, body);
    let a = l1 + name + l2 + description;
    let nd = seq!['\n', '-', '-', '-'];
    let ww = seq!['\n', '\n'];
    assert(l3 =~= nd + ww);
    let q = a + nd;
    let w = ww + body;
    assert(g =~= q + w);

    let o2 = 10 + name.len() as int;
    let o3 = o2 + 14;
    let o4 = o3 + description.len() as int;
    let j = o4 + 1;
    assert(a.len() == o4);
    assert(q.len() == o4 + 4);

    // the trim of the generated text
    assert(g[0] == '-');
    crate::text::lemma_trim_start_noop(g);
    crate::text::lemma_trim_end_concat(q, w);
    crate::text::lemma_trim_end_concat(ww, body);
    assert(trim_end_rec(ww).len() == 0) by {
        assert(ww.last() == '\n');
        assert(ww.drop_last() =~= seq!['\n']);
        lemma_ws_singleton('\n');
    }
    let tb = trim_end_rec(body);
    let t = spec_trim(g);
    if tb.len() > 0 {
        assert(trim_end_rec(w) == ww + tb);
        assert(t == q + (ww + tb));
    } else {
        assert(trim_end_rec(w).len() == 0);
        assert(q.last() == nd[3]);
        crate::text::lemma_trim_end_noop(q);
        assert(t == q);
    }

    // pointwise layout of the prefix through the closing delimiter
    assert(forall|p: int| 0 <= p < q.len() ==> t[p] == q[p]);
    assert(forall|p: int| 0 <= p < 10 ==> q[p] == l1[p]);
    assert(forall|p: int| 0 <= p < name.len() ==> q[10 + p] == name[p]);
    assert(forall|p: int| 0 <= p < 14 ==> q[o2 + p] == l2[p]);
    assert(forall|p: int| 0 <= p < description.len() ==> q[o3 + p] == description[p]);
    assert(forall|p: int| 0 <= p < 4 ==> q[o4 + p] == nd[p]);

    // the leading and the closing delimiter
    assert(delim_at(t, 0)) by {
        assert(t[0] == l1[0] && t[1] == l1[1] && t[2] == l1[2]);
    }
    assert(delim_at(t, j)) by {
        assert(t[j] == nd[1] && t[j + 1] == nd[2] && t[j + 2] == nd[3]);
    }

    // no delimiter between position 3 and the closing one
    assert forall|k: int| 3 <= k < j implies !delim_at(t, k) by {
        if k <= 9 {
            assert(t[k] == l1[k]);
            assert(t[k] != '-');
        } else if k < o2 {
            if k + 3 <= o2 {
                if delim_at(t, k) {
                    assert(t[k] == name[k - 10]);
                    assert(t[k + 1] == name[k - 10 + 1]);
                    assert(t[k + 2] == name[k - 10 + 2]);
                    assert(delim_at(name, k - 10));
                    assert(has_delim(name));
                    assert(false);
                }
            } else {
                if delim_at(t, k) {
                    assert(t[o2] == l2[0]);
                    assert(t[o2] == '\n');
                    assert(k <= o2 <= k + 2);
                    assert(t[o2] == '-');
                    assert(false);
                }
            }
        } else if k < o3 {
            assert(t[k] == l2[k - o2]);
            assert(t[k] != '-');
        } else if k < o4 {
            if k + 3 <= o4 {
                if delim_at(t, k) {
                    assert(t[k] == description[k - o3]);
                    assert(t[k + 1] == description[k - o3 + 1]);
                    assert(t[k + 2] == description[k - o3 + 2]);
                    assert(delim_at(description, k - o3));
                    assert(has_delim(description));
                    assert(false);
                }
            } else {
                if delim_at(t, k) {
                    assert(t[o4] == nd[0]);
                    assert(t[o4] == '\n');
                    assert(k <= o4 <= k + 2);
                    assert(t[o4] == '-');
                    assert(false);
                }
            }
        } else {
            assert(k == o4);
            assert(t[k] == nd[0]);
            assert(t[k] != '-');
        }
    }
    lemma_first_delim_is(t, 3, j);
    assert(3 <= j && delim_at(t, j));

    // the structured block between the delimiters
    let fmseq = "\nname: "@ + name + l2 + description + seq!['\n'];
    assert(forall|p: int| 0 <= p < 7 ==> l1[3 + p] == "\nname: "@[p]);
    assert(t.subrange(3, j) =~= fmseq);
    lemma_fm_parse(name, description);
    assert(spec_parse_frontmatter(t.subrange(3, j)) == Some((name, description)));

    // the body after the closing delimiter
    let bp = t.subrange(j + 3, t.len() as int);
    if tb.len() > 0 {
        assert(bp =~= ww + tb);
        crate::text::lemma_trim_start_concat(ww, tb);
        assert(trim_start_rec(ww).len() == 0) by {
            assert(ww[0] == '\n');
            assert(ww.drop_first() =~= seq!['\n']);
            lemma_ws_singleton('\n');
        }
        assert(trim_start_rec(bp) == trim_start_rec(tb));
        crate::text::lemma_trim_commute(body);
        crate::text::lemma_trim_end_idem(trim_start_rec(body));
        assert(spec_trim(bp) == spec_trim(body));
    } else {
        assert(bp =~= Seq::<char>::empty());
        assert(spec_trim(bp).len() == 0);
        crate::text::lemma_trim_end_empty_all_ws(body);
        crate::text::lemma_all_ws_trim_start_empty(body);
        assert(spec_trim(body).len() == 0);
        assert(spec_trim(bp) =~= spec_trim(body));
    }
    assert(spec_parse(g) == Some((name, description, spec_trim(body))));
}

/// Parse a document into its metadata and body.
///
/// Fails with a `MalformedDocument` error when the leading delimiter is
/// absent, when no second delimiter follows, or when the structured block
/// does not give both required fields.
pub fn parse_doc(content: &str) -> (r: Result<(SkillFrontmatter, String), RhinolabsError>)
    ensures
        r is Ok <==> spec_parse(content@) is Some,
        r matches Ok(v) ==> {
            let p = spec_parse(content@)->0;
            v.0.name@ == p.0 && v.0.description@ == p.1 && v.1@ == p.2
        },
        r matches Err(e) ==> e.kind == ErrorKind::MalformedDocument,
{
    let t = trim(content);
    let ts = t.as_str();
    let tlen = ts.unicode_len();
    let lead_ok = tlen >= 3 && ts.get_char(0) == '-' && ts.get_char(1) == '-' && ts.get_char(2)
        == '-';
    if !lead_ok {
        assert(!delim_at(t@, 0));
        return Err(
            RhinolabsError::new(
                ErrorKind::MalformedDocument,
                String::from_str("Skill file must start with YAML frontmatter"),
            ),
        );
    }
    match find_delim(ts, 3) {
        None => {
            assert(forall|j: int| 3 <= j ==> !delim_at(t@, j));
            Err(
                RhinolabsError::new(
                    ErrorKind::MalformedDocument,
                    String::from_str("Invalid frontmatter format"),
                ),
            )
        },
        Some(j) => {
            proof {
                lemma_first_delim_is(t@, 3, j as int);
            }
            let fm_s = ts.substring_char(3, j);
            let body_raw = ts.substring_char(j + 3, tlen);
            let body = trim(body_raw);
            let (nv, dv) = scan_frontmatter(fm_s);
            match (nv, dv) {
                (Some(n), Some(d)) => Ok((SkillFrontmatter { name: n, description: d }, body)),
                _ => Err(
                    RhinolabsError::new(
                        ErrorKind::MalformedDocument,
                        String::from_str("Invalid YAML frontmatter"),
                    ),
                ),
            }
        },
    }
}

} // verus!
