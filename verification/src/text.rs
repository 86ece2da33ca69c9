//! Character and string helpers shared by the path and page logic.

use vstd::prelude::*;
use vstd::string::StringExecFns;

verus! {

/// Whether `c` has the Unicode `White_Space` property (what `char::is_whitespace`
/// tests).
pub open spec fn is_white_space(c: char) -> bool {
    let v = c as u32;
    ||| (0x9 <= v && v <= 0xD)
    ||| v == 0x20
    ||| v == 0x85
    ||| v == 0xA0
    ||| v == 0x1680
    ||| (0x2000 <= v && v <= 0x200A)
    ||| v == 0x2028
    ||| v == 0x2029
    ||| v == 0x202F
    ||| v == 0x205F
    ||| v == 0x3000
}

/// Executable test of [`is_white_space`].
pub fn is_white_space_char(c: char) -> (b: bool)
    ensures
        b == is_white_space(c),
{
    let v = c as u32;
    (0x9 <= v && v <= 0xD) || v == 0x20 || v == 0x85 || v == 0xA0 || v == 0x1680 || (0x2000
        <= v && v <= 0x200A) || v == 0x2028 || v == 0x2029 || v == 0x202F || v == 0x205F || v
        == 0x3000
}

/// The characters of `s`, in order.
pub fn chars_of(s: &str) -> (v: Vec<char>)
    ensures
        v@ == s@,
{
    let mut v: Vec<char> = Vec::new();
    for c in it: s.chars()
        invariant
            v@ == it.seq().take(it.index() as int),
    {
        v.push(c);
    }
    v
}


/// `String::push`: appends one character.
#[verifier::external_body]
pub(crate) fn push_char(s: &mut String, c: char)
    ensures
        final(s)@ == old(s)@.push(c),
{
    s.push(c);
}

/// The string made of the characters `v[from..to]`.
pub fn string_from_chars(v: &Vec<char>, from: usize, to: usize) -> (s: String)
    requires
        from <= to <= v.len(),
    ensures
        s@ == v@.subrange(from as int, to as int),
{
    let mut s = String::new();
    let mut i = from;
    while i < to
        invariant
            from <= i <= to <= v.len(),
            s@ == v@.subrange(from as int, i as int),
        decreases to - i,
    {
        push_char(&mut s, v[i]);
        i = i + 1;
    }
    s
}

/// The characters of `s` from its first one up to (not including) the first
/// white space.
pub open spec fn leading_word(s: Seq<char>) -> Seq<char>
    decreases s.len(),
{
    if s.len() == 0 || is_white_space(s[0]) {
        Seq::empty()
    } else {
        seq![s[0]] + leading_word(s.drop_first())
    }
}

/// The first white-space separated word of `s`, or the empty sequence when
/// `s` holds white space only (`s.split_whitespace().next().unwrap_or("")`).
pub open spec fn first_word(s: Seq<char>) -> Seq<char>
    decreases s.len(),
{
    if s.len() == 0 {
        Seq::empty()
    } else if is_white_space(s[0]) {
        first_word(s.drop_first())
    } else {
        leading_word(s)
    }
}

proof fn lemma_leading_word_at(s: Seq<char>, i: int, j: int)
    requires
        0 <= i <= j <= s.len(),
        forall|k: int| i <= k < j ==> !is_white_space(#[trigger] s[k]),
        j == s.len() || is_white_space(s[j]),
    ensures
        leading_word(s.subrange(i, s.len() as int)) == s.subrange(i, j),
    decreases j - i,
{
    let t = s.subrange(i, s.len() as int);
    if i == j {
        if j < s.len() {
            assert(t[0] == s[j]);
        }
    } else {
        lemma_leading_word_at(s, i + 1, j);
        assert(t.drop_first() =~= s.subrange(i + 1, s.len() as int));
        assert(s.subrange(i, j) =~= seq![s[i]] + s.subrange(i + 1, j));
    }
}

proof fn lemma_first_word_at(s: Seq<char>, i: int, j: int)
    requires
        0 <= i <= j <= s.len(),
        forall|k: int| 0 <= k < i ==> is_white_space(#[trigger] s[k]),
        i == s.len() || !is_white_space(s[i]),
        forall|k: int| i <= k < j ==> !is_white_space(#[trigger] s[k]),
        j == s.len() || is_white_space(s[j]),
    ensures
        first_word(s) == s.subrange(i, j),
    decreases i,
{
    if i == 0 {
        if s.len() == 0 {
            assert(s.subrange(0, j) =~= Seq::<char>::empty());
        } else {
            lemma_leading_word_at(s, 0, j);
            assert(s.subrange(0, s.len() as int) =~= s);
        }
    } else {
        let t = s.drop_first();
        assert forall|k: int| 0 <= k < i - 1 implies is_white_space(#[trigger] t[k]) by {
            assert(t[k] == s[k + 1]);
        }
        assert forall|k: int| i - 1 <= k < j - 1 implies !is_white_space(#[trigger] t[k]) by {
            assert(t[k] == s[k + 1]);
        }
        if j < s.len() {
            assert(t[j - 1] == s[j]);
        }
        if i < s.len() {
            assert(t[i - 1] == s[i]);
        }
        lemma_first_word_at(t, i - 1, j - 1);
        assert(t.subrange(i - 1, j - 1) =~= s.subrange(i, j));
        assert(is_white_space(s[0]));
    }
}

/// The language named by a code fence's info string: its first word
/// (`info.split_whitespace().next().unwrap_or("")`).
pub fn first_word_of(info: &str) -> (word: String)
    ensures
        word@ == first_word(info@),
{
    let v = chars_of(info);
    let n = v.len();
    let mut i: usize = 0;
    while i < n && is_white_space_char(v[i])
        invariant
            0 <= i <= n == v.len(),
            forall|k: int| 0 <= k < i ==> is_white_space(#[trigger] v@[k]),
        decreases n - i,
    {
        i = i + 1;
    }
    let mut j: usize = i;
    while j < n && !is_white_space_char(v[j])
        invariant
            i <= j <= n == v.len(),
            forall|k: int| i <= k < j ==> !is_white_space(#[trigger] v@[k]),
        decreases n - j,
    {
        j = j + 1;
    }
    proof {
        lemma_first_word_at(v@, i as int, j as int);
    }
    string_from_chars(&v, i, j)
}


/// `s` with every occurrence of `pat` replaced by `rep`, occurrences found
/// from left to right without overlapping (`str::replace`); an empty pattern
/// occurs before every character and at the end.
pub open spec fn replace_all(s: Seq<char>, pat: Seq<char>, rep: Seq<char>) -> Seq<char>
    decreases s.len(),
{
    if pat.len() == 0 {
        if s.len() == 0 {
            rep
        } else {
            rep + seq![s[0]] + replace_all(s.drop_first(), pat, rep)
        }
    } else if s.len() < pat.len() {
        s
    } else if s.take(pat.len() as int) == pat {
        rep + replace_all(s.skip(pat.len() as int), pat, rep)
    } else {
        seq![s[0]] + replace_all(s.drop_first(), pat, rep)
    }
}

/// Whether `pat` occurs in `s` at position `i`.
pub open spec fn occurs_at(s: Seq<char>, pat: Seq<char>, i: int) -> bool {
    0 <= i && i + pat.len() <= s.len() && s.subrange(i, i + pat.len()) == pat
}

/// A string in which the pattern does not occur is left unchanged.
pub proof fn lemma_replace_absent(s: Seq<char>, pat: Seq<char>, rep: Seq<char>)
    requires
        forall|i: int| !#[trigger] occurs_at(s, pat, i),
    ensures
        replace_all(s, pat, rep) == s,
    decreases s.len(),
{
    if pat.len() == 0 {
        assert(occurs_at(s, pat, 0)) by {
            assert(s.subrange(0, 0) =~= pat);
        }
    } else if s.len() < pat.len() {
    } else {
        assert(s.take(pat.len() as int) =~= s.subrange(0, pat.len() as int));
        assert(!occurs_at(s, pat, 0));
        let t = s.drop_first();
        assert forall|i: int| !#[trigger] occurs_at(t, pat, i) by {
            if occurs_at(t, pat, i) {
                assert(t.subrange(i, i + pat.len()) =~= s.subrange(i + 1, i + 1 + pat.len()));
                assert(occurs_at(s, pat, i + 1));
            }
        }
        lemma_replace_absent(t, pat, rep);
        assert(seq![s[0]] + t =~= s);
    }
}

proof fn lemma_replace_step(t: Seq<char>, pat: Seq<char>, rep: Seq<char>)
    requires
        pat.len() > 0,
        t.len() > 0,
        !(t.len() >= pat.len() && t.take(pat.len() as int) == pat),
    ensures
        replace_all(t, pat, rep) == seq![t[0]] + replace_all(t.drop_first(), pat, rep),
{
    if t.len() < pat.len() {
        assert(replace_all(t.drop_first(), pat, rep) == t.drop_first());
        assert(seq![t[0]] + t.drop_first() =~= t);
    }
}

/// Whether `pat` occurs in `s` at position `i`.
fn matches_at(s: &Vec<char>, pat: &Vec<char>, i: usize) -> (r: bool)
    requires
        i <= s.len(),
    ensures
        r == (s.len() - i >= pat.len() && s@.skip(i as int).take(pat.len() as int) == pat@),
{
    let m = pat.len();
    if s.len() - i < m {
        return false;
    }
    let ghost w = s@.skip(i as int).take(m as int);
    for j in 0..m
        invariant
            m == pat.len(),
            i + m <= s.len(),
            w == s@.skip(i as int).take(m as int),
            forall|k: int| 0 <= k < j ==> w[k] == pat@[k],
    {
        if s[i + j] != pat[j] {
            assert(w[j as int] == s@[i + j]);
            return false;
        }
    }
    assert(w =~= pat@);
    true
}

/// `s` with `rep` before every character and at the end.
fn interleave(v: &Vec<char>, rep: &str) -> (out: String)
    ensures
        out@ == replace_all(v@, Seq::empty(), rep@),
{
    let n = v.len();
    let mut out = String::new();
    let mut i: usize = 0;
    assert(v@.skip(0) =~= v@);
    while i < n
        invariant
            n == v.len(),
            i <= n,
            out@ + replace_all(v@.skip(i as int), Seq::empty(), rep@) == replace_all(v@, Seq::empty(), rep@),
        decreases n - i,
    {
        let ghost t = v@.skip(i as int);
        let ghost before = out@;
        out.append(rep);
        push_char(&mut out, v[i]);
        assert(t.drop_first() =~= v@.skip(i + 1));
        assert(out@ + replace_all(v@.skip(i + 1), Seq::empty(), rep@) =~= before + replace_all(t, Seq::empty(), rep@));
        i = i + 1;
    }
    assert(v@.skip(n as int) =~= Seq::<char>::empty());
    out.append(rep);
    out
}

/// `s` with every occurrence of `pat` replaced by `rep` (`str::replace`).
pub fn replace_all_of(s: &str, pat: &str, rep: &str) -> (out: String)
    ensures
        out@ == replace_all(s@, pat@, rep@),
{
    let v = chars_of(s);
    let p = chars_of(pat);
    let n = v.len();
    let m = p.len();
    if m == 0 {
        assert(p@ =~= Seq::<char>::empty());
        return interleave(&v, rep);
    }
    let mut out = String::new();
    let mut i: usize = 0;
    assert(v@.skip(0) =~= v@);
    while i < n
        invariant
            n == v.len(),
            m == p.len() > 0,
            i <= n,
            out@ + replace_all(v@.skip(i as int), p@, rep@) == replace_all(v@, p@, rep@),
        decreases n - i,
    {
        let ghost t = v@.skip(i as int);
        if matches_at(&v, &p, i) {
            let ghost before = out@;
            out.append(rep);
            assert(t.skip(m as int) =~= v@.skip(i + m));
            assert(out@ + replace_all(v@.skip(i + m), p@, rep@) =~= before + replace_all(t, p@, rep@));
            i = i + m;
        } else {
            let ghost before = out@;
            push_char(&mut out, v[i]);
            proof {
                lemma_replace_step(t, p@, rep@);
                assert(t.drop_first() =~= v@.skip(i + 1));
                assert(t[0] == v@[i as int]);
            }
            assert(out@ + replace_all(v@.skip(i + 1), p@, rep@) =~= before + replace_all(t, p@, rep@));
            i = i + 1;
        }
    }
    assert(v@.skip(n as int) =~= Seq::<char>::empty());
    assert(out@ + Seq::<char>::empty() =~= out@);
    out
}

} // verus!
