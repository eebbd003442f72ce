//! Verified string helpers used across the crate.
//!
//! Everything here works on `Seq<char>` views.  Case folding and
//! single-character pushes go through `std` behind trusted wrappers; the
//! rest is implemented and proved in place.

use vstd::prelude::*;

verus! {

/// ASCII lower-casing of one character: `'A'..='Z'` map to `'a'..='z'`,
/// everything else is unchanged.
pub open spec fn lower_char(c: char) -> char {
    if 65 <= c as u32 && c as u32 <= 90 {
        (((c as u32) + 32) as u8) as char
    } else {
        c
    }
}

/// ASCII lower-casing of a character sequence.
pub open spec fn lower_seq(s: Seq<char>) -> Seq<char> {
    Seq::new(s.len(), |i: int| lower_char(s[i]))
}

/// Relies on `str::to_ascii_lowercase`: ASCII letters are mapped to their
/// lowercase form, all other characters are returned unchanged.
#[verifier::external_body]
pub fn ascii_lower(s: &str) -> (r: String)
    ensures
        r@ == lower_seq(s@),
{
    s.to_ascii_lowercase()
}

/// Relies on `String::push`: appends exactly one character.
#[verifier::external_body]
pub fn push_char(s: &mut String, c: char)
    ensures
        final(s)@ == old(s)@.push(c),
{
    s.push(c)
}

/// Concatenation of two string slices.
pub fn str_concat(a: &str, b: &str) -> (r: String)
    ensures
        r@ == a@ + b@,
{
    let mut r = a.to_owned();
    r.append(b);
    r
}

/// The ASCII whitespace characters this crate treats as blank.
pub open spec fn is_space_char(c: char) -> bool {
    c == ' ' || c == '\t' || c == '\n' || c == '\r' || c == '\u{b}' || c == '\u{c}'
}

pub fn is_space(c: char) -> (r: bool)
    ensures
        r == is_space_char(c),
{
    c == ' ' || c == '\t' || c == '\n' || c == '\r' || c == '\u{b}' || c == '\u{c}'
}

/// A sequence is blank when every character is whitespace.
pub open spec fn is_blank_seq(s: Seq<char>) -> bool {
    forall|i: int| 0 <= i < s.len() ==> is_space_char(s[i])
}

/// Returns true iff the string contains only whitespace (or is empty).
pub fn is_blank(s: &str) -> (r: bool)
    ensures
        r == is_blank_seq(s@),
{
    let n = s.unicode_len();
    let mut i: usize = 0;
    while i < n
        invariant
            i <= n,
            n == s@.len(),
            forall|j: int| 0 <= j < i ==> is_space_char(s@[j]),
        decreases n - i,
    {
        if !is_space(s.get_char(i)) {
            return false;
        }
        i += 1;
    }
    true
}

/// `s` begins with `p`.
pub open spec fn starts_with_seq(s: Seq<char>, p: Seq<char>) -> bool {
    p.len() <= s.len() && s.subrange(0, p.len() as int) == p
}

pub fn str_starts_with(s: &str, p: &str) -> (r: bool)
    ensures
        r == starts_with_seq(s@, p@),
{
    let sn = s.unicode_len();
    let pn = p.unicode_len();
    if pn > sn {
        assert(!starts_with_seq(s@, p@));
        return false;
    }
    let mut i: usize = 0;
    while i < pn
        invariant
            i <= pn <= sn,
            sn == s@.len(),
            pn == p@.len(),
            forall|j: int| 0 <= j < i ==> s@[j] == p@[j],
        decreases pn - i,
    {
        if s.get_char(i) != p.get_char(i) {
            assert(s@.subrange(0, p@.len() as int)[i as int] != p@[i as int]);
            return false;
        }
        i += 1;
    }
    assert(s@.subrange(0, p@.len() as int) =~= p@);
    true
}

/// The rest of `s` after the prefix `p`, when `s` begins with `p`.
pub fn strip_prefix_str(s: &str, p: &str) -> (r: Option<String>)
    ensures
        match r {
            Some(rest) => starts_with_seq(s@, p@) && rest@ == s@.skip(p@.len() as int),
            None => !starts_with_seq(s@, p@),
        },
{
    if str_starts_with(s, p) {
        let sn = s.unicode_len();
        let pn = p.unicode_len();
        let rest = s.substring_char(pn, sn);
        assert(rest@ =~= s@.skip(p@.len() as int));
        Some(rest.to_owned())
    } else {
        None
    }
}

/// `s` with trailing whitespace removed.
pub open spec fn trim_end_seq(s: Seq<char>) -> Seq<char>
    decreases s.len(),
{
    if s.len() > 0 && is_space_char(s.last()) {
        trim_end_seq(s.drop_last())
    } else {
        s
    }
}

proof fn lemma_trim_end_take(s: Seq<char>, j: int)
    requires
        0 <= j <= s.len(),
        forall|k: int| j <= k < s.len() ==> is_space_char(s[k]),
        j == 0 || !is_space_char(s[j - 1]),
    ensures
        trim_end_seq(s) == s.take(j),
    decreases s.len(),
{
    if s.len() == 0 {
        assert(s.take(j) =~= s);
    } else if j == s.len() {
        if is_space_char(s.last()) {
            lemma_trim_end_take(s.drop_last(), j - 1);
            assert(s.drop_last().take(j - 1) =~= s.take(j - 1));
            assert(s.take(j) =~= s);
            assert(trim_end_seq(s) == s.drop_last().take(j - 1));
            assert(s.drop_last() =~= s.take(j - 1));
        } else {
            assert(s.take(j) =~= s);
        }
    } else {
        assert(is_space_char(s.last()));
        lemma_trim_end_take(s.drop_last(), j);
        assert(s.drop_last().take(j) =~= s.take(j));
    }
}

/// Returns `s` with trailing whitespace removed.
pub fn trim_end(s: &str) -> (r: String)
    ensures
        r@ == trim_end_seq(s@),
{
    let n = s.unicode_len();
    let mut j: usize = n;
    while j > 0 && is_space(s.get_char(j - 1))
        invariant
            j <= n,
            n == s@.len(),
            forall|k: int| j <= k < n ==> is_space_char(s@[k]),
        decreases j,
    {
        j -= 1;
    }
    proof {
        lemma_trim_end_take(s@, j as int);
    }
    let r = s.substring_char(0, j);
    assert(r@ =~= s@.take(j as int));
    r.to_owned()
}

/// Substitution of every `{}` marker, scanning left to right, starting at
/// index `i`.
pub open spec fn replace_marker_from(s: Seq<char>, v: Seq<char>, i: int) -> Seq<char>
    decreases s.len() - i,
{
    if i < 0 || i >= s.len() {
        Seq::empty()
    } else if i + 1 < s.len() && s[i] == '{' && s[i + 1] == '}' {
        v + replace_marker_from(s, v, i + 2)
    } else {
        seq![s[i]] + replace_marker_from(s, v, i + 1)
    }
}

/// Substitution of every `{}` marker in `s` by `v`.
pub open spec fn replace_marker(s: Seq<char>, v: Seq<char>) -> Seq<char> {
    replace_marker_from(s, v, 0)
}

/// Replaces every `{}` in `s` by `v`.
pub fn replace_marker_exec(s: &str, v: &str) -> (r: String)
    ensures
        r@ == replace_marker(s@, v@),
{
    let n = s.unicode_len();
    let mut r = String::new();
    let mut i: usize = 0;
    while i < n
        invariant
            i <= n,
            n == s@.len(),
            replace_marker(s@, v@) == r@ + replace_marker_from(s@, v@, i as int),
        decreases n - i,
    {
        if i + 1 < n && s.get_char(i) == '{' && s.get_char(i + 1) == '}' {
            r.append(v);
            i += 2;
        } else {
            let c = s.get_char(i);
            push_char(&mut r, c);
            assert(r@ + replace_marker_from(s@, v@, i + 1) =~= (r@.drop_last() + (seq![s@[i as int]]
                + replace_marker_from(s@, v@, i + 1))));
            i += 1;
        }
    }
    assert(replace_marker_from(s@, v@, i as int) =~= Seq::<char>::empty());
    assert(r@ =~= r@ + Seq::<char>::empty());
    r
}

/// Decimal digit characters of `n`, most significant first.
pub open spec fn dec_digits(n: nat) -> Seq<char>
    decreases n,
{
    if n < 10 {
        seq![((48 + n) as u8) as char]
    } else {
        dec_digits(n / 10).push(((48 + n % 10) as u8) as char)
    }
}

/// Renders `n` in decimal.
pub fn usize_to_string(n: usize) -> (r: String)
    ensures
        r@ == dec_digits(n as nat),
    decreases n,
{
    if n < 10 {
        let d: u8 = 48 + (n as u8);
        let mut r = String::new();
        push_char(&mut r, d as char);
        assert(r@ =~= dec_digits(n as nat));
        r
    } else {
        let mut r = usize_to_string(n / 10);
        let d: u8 = 48 + ((n % 10) as u8);
        push_char(&mut r, d as char);
        r
    }
}

/// Case-insensitive (ASCII) equality.
pub fn eq_ignore_case(a: &str, b: &str) -> (r: bool)
    ensures
        r == (lower_seq(a@) == lower_seq(b@)),
{
    let la = ascii_lower(a);
    let lb = ascii_lower(b);
    la == lb
}

} // verus!

verus! {

/// `s` with leading whitespace removed.
pub open spec fn trim_start_seq(s: Seq<char>) -> Seq<char>
    decreases s.len(),
{
    if s.len() > 0 && is_space_char(s[0]) {
        trim_start_seq(s.skip(1))
    } else {
        s
    }
}

/// `s` with whitespace removed at both ends.
pub open spec fn trim_seq(s: Seq<char>) -> Seq<char> {
    trim_end_seq(trim_start_seq(s))
}

proof fn lemma_trim_start_at(s: Seq<char>, j: int)
    requires
        0 <= j <= s.len(),
        forall|k: int| 0 <= k < j ==> is_space_char(s[k]),
        j == s.len() || !is_space_char(s[j]),
    ensures
        trim_start_seq(s) == s.skip(j),
    decreases j,
{
    if j > 0 {
        lemma_trim_start_at(s.skip(1), j - 1);
        assert(s.skip(1).skip(j - 1) =~= s.skip(j));
    } else {
        assert(s.skip(0) =~= s);
    }
}

/// Returns `s` with whitespace removed at both ends.
pub fn trim_both(s: &str) -> (r: String)
    ensures
        r@ == trim_seq(s@),
{
    let n = s.unicode_len();
    let mut j: usize = 0;
    while j < n && is_space(s.get_char(j))
        invariant
            j <= n,
            n == s@.len(),
            forall|k: int| 0 <= k < j ==> is_space_char(s@[k]),
        decreases n - j,
    {
        j += 1;
    }
    proof {
        lemma_trim_start_at(s@, j as int);
    }
    let rest = s.substring_char(j, n);
    proof {
        assert(rest@ =~= s@.skip(j as int));
    }
    trim_end(rest)
}

} // verus!
