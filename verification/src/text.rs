//! Verified text utilities: whitespace trimming, substring search, prefix
//! tests, equality and lexicographic order on strings.
//!
//! The spec functions here are the vocabulary the document format and the
//! skill store use in their contracts.

use vstd::prelude::*;

verus! {

/// The whitespace characters the document format recognises.
pub open spec fn is_ws(c: char) -> bool {
    c == ' ' || c == '\n' || c == '\t' || c == '\r'
}

/// `s` with its leading whitespace removed.
pub open spec fn trim_start_rec(s: Seq<char>) -> Seq<char>
    decreases s.len(),
{
    if s.len() > 0 && is_ws(s[0]) {
        trim_start_rec(s.drop_first())
    } else {
        s
    }
}

/// `s` with its trailing whitespace removed.
pub open spec fn trim_end_rec(s: Seq<char>) -> Seq<char>
    decreases s.len(),
{
    if s.len() > 0 && is_ws(s.last()) {
        trim_end_rec(s.drop_last())
    } else {
        s
    }
}

/// `s` with whitespace removed from both ends.
pub open spec fn spec_trim(s: Seq<char>) -> Seq<char> {
    trim_end_rec(trim_start_rec(s))
}

proof fn lemma_trim_start_subrange(s: Seq<char>, k: int)
    requires
        0 <= k <= s.len(),
        forall|m: int| 0 <= m < k ==> is_ws(s[m]),
        k == s.len() || !is_ws(s[k]),
    ensures
        trim_start_rec(s) =~= s.subrange(k, s.len() as int),
    decreases k,
{
    if k == 0 {
        if s.len() > 0 && is_ws(s[0]) {
            assert(false);
        }
    } else {
        let t = s.drop_first();
        assert(forall|m: int| 0 <= m < k - 1 ==> is_ws(#[trigger] t[m]));
        lemma_trim_start_subrange(t, k - 1);
        assert(t.subrange(k - 1, t.len() as int) =~= s.subrange(k, s.len() as int));
    }
}

proof fn lemma_trim_end_subrange(s: Seq<char>, k: int)
    requires
        0 <= k <= s.len(),
        forall|m: int| k <= m < s.len() ==> is_ws(s[m]),
        k == 0 || !is_ws(s[k - 1]),
    ensures
        trim_end_rec(s) =~= s.subrange(0, k),
    decreases s.len() - k,
{
    if k == s.len() {
        if s.len() > 0 && is_ws(s.last()) {
            assert(false);
        }
    } else {
        let t = s.drop_last();
        lemma_trim_end_subrange(t, k);
        assert(t.subrange(0, k) =~= s.subrange(0, k));
    }
}

pub proof fn lemma_trim_start_noop(s: Seq<char>)
    requires
        s.len() == 0 || !is_ws(s[0]),
    ensures
        trim_start_rec(s) == s,
{
}

pub proof fn lemma_trim_end_noop(s: Seq<char>)
    requires
        s.len() == 0 || !is_ws(s.last()),
    ensures
        trim_end_rec(s) == s,
{
}

pub proof fn lemma_trim_start_concat(a: Seq<char>, b: Seq<char>)
    ensures
        trim_start_rec(a + b) == if trim_start_rec(a).len() > 0 {
            trim_start_rec(a) + b
        } else {
            trim_start_rec(b)
        },
    decreases a.len(),
{
    if a.len() == 0 {
        assert(a + b =~= b);
    } else if is_ws(a[0]) {
        assert((a + b)[0] == a[0]);
        assert((a + b).drop_first() =~= a.drop_first() + b);
        lemma_trim_start_concat(a.drop_first(), b);
    } else {
        assert((a + b)[0] == a[0]);
    }
}

pub proof fn lemma_trim_end_concat(a: Seq<char>, b: Seq<char>)
    ensures
        trim_end_rec(a + b) == if trim_end_rec(b).len() > 0 {
            a + trim_end_rec(b)
        } else {
            trim_end_rec(a)
        },
    decreases b.len(),
{
    if b.len() == 0 {
        assert(a + b =~= a);
    } else if is_ws(b.last()) {
        assert((a + b).last() == b.last());
        assert((a + b).drop_last() =~= a + b.drop_last());
        lemma_trim_end_concat(a, b.drop_last());
    } else {
        assert((a + b).last() == b.last());
    }
}

pub proof fn lemma_trim_end_empty_all_ws(s: Seq<char>)
    requires
        trim_end_rec(s).len() == 0,
    ensures
        forall|i: int| 0 <= i < s.len() ==> is_ws(s[i]),
    decreases s.len(),
{
    if s.len() > 0 {
        if !is_ws(s.last()) {
            assert(false);
        }
        let d = s.drop_last();
        lemma_trim_end_empty_all_ws(d);
        assert forall|i: int| 0 <= i < s.len() implies is_ws(s[i]) by {
            if i < s.len() - 1 {
                assert(s[i] == d[i]);
            } else {
                assert(s[i] == s.last());
            }
        }
    }
}

pub proof fn lemma_all_ws_trim_start_empty(s: Seq<char>)
    requires
        forall|i: int| 0 <= i < s.len() ==> is_ws(s[i]),
    ensures
        trim_start_rec(s).len() == 0,
    decreases s.len(),
{
    if s.len() > 0 {
        let t = s.drop_first();
        assert(forall|i: int| 0 <= i < t.len() ==> is_ws(#[trigger] t[i]));
        lemma_all_ws_trim_start_empty(t);
    }
}

pub proof fn lemma_trim_end_head(s: Seq<char>)
    requires
        trim_end_rec(s).len() > 0,
    ensures
        s.len() > 0 && trim_end_rec(s)[0] == s[0],
    decreases s.len(),
{
    if s.len() > 0 && is_ws(s.last()) {
        lemma_trim_end_head(s.drop_last());
    }
}

pub proof fn lemma_trim_end_idem(s: Seq<char>)
    ensures
        trim_end_rec(trim_end_rec(s)) == trim_end_rec(s),
    decreases s.len(),
{
    if s.len() > 0 && is_ws(s.last()) {
        lemma_trim_end_idem(s.drop_last());
    }
}

pub proof fn lemma_trim_commute(s: Seq<char>)
    ensures
        trim_start_rec(trim_end_rec(s)) == trim_end_rec(trim_start_rec(s)),
    decreases s.len(),
{
    if s.len() == 0 {
    } else if is_ws(s[0]) {
        let d = s.drop_first();
        lemma_trim_commute(d);
        assert(s =~= seq![s[0]] + d);
        lemma_trim_end_concat(seq![s[0]], d);
        if trim_end_rec(d).len() > 0 {
            assert(trim_end_rec(s) == seq![s[0]] + trim_end_rec(d));
            lemma_trim_start_concat(seq![s[0]], trim_end_rec(d));
            assert(trim_start_rec(seq![s[0]]).len() == 0) by {
                let u = seq![s[0]];
                assert(u[0] == s[0]);
                assert(u.drop_first() =~= Seq::<char>::empty());
                assert(trim_start_rec(Seq::<char>::empty()).len() == 0);
            }
        } else {
            assert(trim_end_rec(s) == trim_end_rec(seq![s[0]]));
            assert(trim_end_rec(seq![s[0]]).len() == 0) by {
                let u = seq![s[0]];
                assert(u.last() == s[0]);
                assert(u.drop_last() =~= Seq::<char>::empty());
                assert(trim_end_rec(Seq::<char>::empty()).len() == 0);
            }
            lemma_trim_end_empty_all_ws(d);
            lemma_all_ws_trim_start_empty(d);
        }
    } else {
        lemma_trim_start_noop(s);
        if trim_end_rec(s).len() > 0 {
            lemma_trim_end_head(s);
            lemma_trim_start_noop(trim_end_rec(s));
        }
    }
}

pub proof fn lemma_trim_start_len(s: Seq<char>)
    ensures
        trim_start_rec(s).len() <= s.len(),
        trim_start_rec(s).len() == s.len() ==> trim_start_rec(s) == s,
    decreases s.len(),
{
    if s.len() > 0 && is_ws(s[0]) {
        lemma_trim_start_len(s.drop_first());
    }
}

pub proof fn lemma_trim_end_len(s: Seq<char>)
    ensures
        trim_end_rec(s).len() <= s.len(),
        trim_end_rec(s).len() == s.len() ==> trim_end_rec(s) == s,
    decreases s.len(),
{
    if s.len() > 0 && is_ws(s.last()) {
        lemma_trim_end_len(s.drop_last());
    }
}

/// A string equal to its own trim is left fixed by both one-sided trims.
pub proof fn lemma_trim_fix(s: Seq<char>)
    requires
        spec_trim(s) == s,
    ensures
        trim_start_rec(s) == s,
        trim_end_rec(s) == s,
{
    lemma_trim_start_len(s);
    lemma_trim_end_len(trim_start_rec(s));
    assert(trim_start_rec(s).len() == s.len());
    lemma_trim_end_len(s);
}

/// Executable trim, proved against `spec_trim`.
pub fn trim(s: &str) -> (r: String)
    ensures
        r@ == spec_trim(s@),
{
    let n = s.unicode_len();
    let mut i: usize = 0;
    while i < n && is_ws_exec(s.get_char(i))
        invariant
            0 <= i <= n,
            n == s@.len(),
            forall|m: int| 0 <= m < i ==> is_ws(s@[m]),
        decreases n - i,
    {
        i = i + 1;
    }
    let mut j: usize = n;
    while j > i && is_ws_exec(s.get_char(j - 1))
        invariant
            i <= j <= n,
            n == s@.len(),
            forall|m: int| j <= m < n ==> is_ws(s@[m]),
        decreases j,
    {
        j = j - 1;
    }
    let piece = s.substring_char(i, j);
    let r = piece.to_owned();
    proof {
        lemma_trim_start_subrange(s@, i as int);
        let t = trim_start_rec(s@);
        let k = j - i;
        assert(forall|m: int| k <= m < t.len() ==> is_ws(#[trigger] t[m]));
        lemma_trim_end_subrange(t, k as int);
        assert(t.subrange(0, k as int) =~= s@.subrange(i as int, j as int));
    }
    r
}

/// Executable test for the whitespace class of `is_ws`.
pub fn is_ws_exec(c: char) -> (r: bool)
    ensures
        r == is_ws(c),
{
    c == ' ' || c == '\n' || c == '\t' || c == '\r'
}

/// True when the two strings hold the same characters.
pub fn str_eq(a: &str, b: &str) -> (r: bool)
    ensures
        r == (a@ == b@),
{
    let na = a.unicode_len();
    let nb = b.unicode_len();
    if na != nb {
        assert(a@ != b@);
        return false;
    }
    let mut i: usize = 0;
    while i < na
        invariant
            0 <= i <= na,
            na == a@.len(),
            na == b@.len(),
            forall|m: int| 0 <= m < i ==> a@[m] == b@[m],
        decreases na - i,
    {
        if a.get_char(i) != b.get_char(i) {
            assert(a@ != b@);
            return false;
        }
        i = i + 1;
    }
    proof {
        assert(a@ =~= b@);
    }
    true
}

/// True when `p` is a prefix of `s`.
pub fn str_starts_with(s: &str, p: &str) -> (r: bool)
    ensures
        r == p@.is_prefix_of(s@),
{
    let ns = s.unicode_len();
    let np = p.unicode_len();
    if np > ns {
        return false;
    }
    let mut i: usize = 0;
    while i < np
        invariant
            0 <= i <= np,
            np <= ns,
            ns == s@.len(),
            np == p@.len(),
            forall|m: int| 0 <= m < i ==> s@[m] == p@[m],
        decreases np - i,
    {
        if s.get_char(i) != p.get_char(i) {
            assert(!p@.is_prefix_of(s@));
            return false;
        }
        i = i + 1;
    }
    proof {
        assert(p@ =~= s@.subrange(0, p@.len() as int));
    }
    true
}

/// Join two strings.
pub fn concat2(a: &str, b: &str) -> (r: String)
    ensures
        r@ == a@ + b@,
{
    let mut r = String::new();
    r.append(a);
    r.append(b);
    proof {
        assert(r@ =~= a@ + b@);
    }
    r
}

/// Lexicographic order on character sequences, by Unicode scalar value.
pub open spec fn lex_le(a: Seq<char>, b: Seq<char>) -> bool
    decreases a.len(),
{
    if a.len() == 0 {
        true
    } else if b.len() == 0 {
        false
    } else if a[0] == b[0] {
        lex_le(a.drop_first(), b.drop_first())
    } else {
        (a[0] as u32) < (b[0] as u32)
    }
}

/// The order is total.
pub proof fn lemma_lex_le_total(a: Seq<char>, b: Seq<char>)
    ensures
        lex_le(a, b) || lex_le(b, a),
    decreases a.len(),
{
    if a.len() > 0 && b.len() > 0 {
        if a[0] == b[0] {
            lemma_lex_le_total(a.drop_first(), b.drop_first());
        } else {
            vstd::utf8::char_u32_cast(a[0], a[0] as u32);
            vstd::utf8::char_u32_cast(b[0], b[0] as u32);
            assert((a[0] as u32) != (b[0] as u32));
        }
    }
}

/// The order is transitive.
pub proof fn lemma_lex_le_trans(a: Seq<char>, b: Seq<char>, c: Seq<char>)
    requires
        lex_le(a, b),
        lex_le(b, c),
    ensures
        lex_le(a, c),
    decreases a.len(),
{
    if a.len() == 0 {
    } else {
        assert(b.len() > 0);
        assert(c.len() > 0);
        vstd::utf8::char_u32_cast(a[0], a[0] as u32);
        vstd::utf8::char_u32_cast(b[0], b[0] as u32);
        vstd::utf8::char_u32_cast(c[0], c[0] as u32);
        if a[0] == b[0] && b[0] == c[0] {
            lemma_lex_le_trans(a.drop_first(), b.drop_first(), c.drop_first());
        }
    }
}

/// Executable lexicographic comparison, proved against `lex_le`.
pub fn str_le(a: &str, b: &str) -> (r: bool)
    ensures
        r == lex_le(a@, b@),
{
    let na = a.unicode_len();
    let nb = b.unicode_len();
    let mut i: usize = 0;
    proof {
        assert(a@.skip(0) =~= a@);
        assert(b@.skip(0) =~= b@);
    }
    loop
        invariant
            0 <= i,
            i <= na,
            i <= nb,
            na == a@.len(),
            nb == b@.len(),
            lex_le(a@, b@) == lex_le(a@.skip(i as int), b@.skip(i as int)),
        decreases na - i,
    {
        if i == na {
            assert(a@.skip(i as int).len() == 0);
            return true;
        }
        if i == nb {
            assert(b@.skip(i as int).len() == 0);
            assert(a@.skip(i as int).len() > 0);
            return false;
        }
        let ca = a.get_char(i);
        let cb = b.get_char(i);
        assert(a@.skip(i as int)[0] == ca);
        assert(b@.skip(i as int)[0] == cb);
        if ca != cb {
            return (ca as u32) < (cb as u32);
        }
        proof {
            assert(a@.skip(i as int).drop_first() =~= a@.skip(i + 1));
            assert(b@.skip(i as int).drop_first() =~= b@.skip(i + 1));
        }
        i = i + 1;
    }
}

} // verus!
