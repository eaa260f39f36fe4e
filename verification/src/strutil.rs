//! Verified character-level string utilities.
//!
//! All executable functions here are specified against the `Seq<char>` view
//! of `&str` / `String`.  Substring matching, searching, replacement and
//! decimal formatting are implemented character by character so that every
//! result is pinned down exactly.

use vstd::prelude::*;

verus! {

/// `needle` occurs in `hay` starting at character position `i`.
pub open spec fn match_at(hay: Seq<char>, needle: Seq<char>, i: int) -> bool {
    0 <= i && i + needle.len() <= hay.len() && hay.subrange(i, i + needle.len()) == needle
}

/// `needle` occurs somewhere in `hay`.
pub open spec fn contains_seq(hay: Seq<char>, needle: Seq<char>) -> bool {
    exists|i: int| match_at(hay, needle, i)
}

/// `suffix` ends `hay`.
pub open spec fn ends_with_seq(hay: Seq<char>, suffix: Seq<char>) -> bool {
    hay.len() >= suffix.len() && match_at(hay, suffix, hay.len() - suffix.len())
}

/// `prefix` begins `hay`.
pub open spec fn starts_with_seq(hay: Seq<char>, prefix: Seq<char>) -> bool {
    match_at(hay, prefix, 0)
}

/// Character equality over two string views, position by position.
pub fn str_eq(a: &str, b: &str) -> (r: bool)
    ensures
        r == (a@ == b@),
{
    let alen = a.unicode_len();
    let blen = b.unicode_len();
    if alen != blen {
        proof {
            if a@ == b@ {
                assert(a@.len() == b@.len());
            }
        }
        return false;
    }
    let mut i: usize = 0;
    while i < alen
        invariant
            alen == a@.len(),
            blen == b@.len(),
            alen == blen,
            0 <= i <= alen,
            forall|k: int| 0 <= k < i ==> a@[k] == b@[k],
        decreases alen - i,
    {
        if a.get_char(i) != b.get_char(i) {
            return false;
        }
        i += 1;
    }
    proof {
        assert(a@ =~= b@);
    }
    true
}

/// Whether `needle` matches `hay` at position `i`.
pub fn check_match_at(hay: &str, needle: &str, i: usize) -> (r: bool)
    requires
        i + needle@.len() <= hay@.len(),
    ensures
        r == match_at(hay@, needle@, i as int),
{
    let hlen = hay.unicode_len();
    let nlen = needle.unicode_len();
    let mut k: usize = 0;
    while k < nlen
        invariant
            hlen == hay@.len(),
            nlen == needle@.len(),
            i + nlen <= hlen,
            0 <= k <= nlen,
            forall|m: int| 0 <= m < k ==> hay@[i + m] == needle@[m],
        decreases nlen - k,
    {
        if hay.get_char(i + k) != needle.get_char(k) {
            proof {
                assert(hay@.subrange(i as int, i + needle@.len())[k as int] == hay@[i + k]);
            }
            return false;
        }
        k += 1;
    }
    proof {
        assert(hay@.subrange(i as int, i + needle@.len()) =~= needle@);
    }
    true
}

/// Position of the first occurrence of `needle` at or after `i` in `hay`.
pub open spec fn find_first(hay: Seq<char>, needle: Seq<char>, i: int) -> Option<int>
    decreases hay.len() - i,
{
    if i < 0 || i + needle.len() > hay.len() {
        None
    } else if match_at(hay, needle, i) {
        Some(i)
    } else if i < hay.len() {
        find_first(hay, needle, i + 1)
    } else {
        None
    }
}

/// Position of the first occurrence of `needle` in `hay`, if any.
pub fn str_index_of(hay: &str, needle: &str) -> (r: Option<usize>)
    ensures
        match r {
            Some(i) => match_at(hay@, needle@, i as int) && (forall|j: int|
                0 <= j < i ==> !match_at(hay@, needle@, j)) && find_first(hay@, needle@, 0)
                == Some(i as int),
            None => !contains_seq(hay@, needle@) && find_first(hay@, needle@, 0) is None,
        },
{
    let hlen = hay.unicode_len();
    let nlen = needle.unicode_len();
    if nlen > hlen {
        proof {
            assert(forall|i: int| !match_at(hay@, needle@, i));
        }
        return None;
    }
    if nlen == 0 {
        proof {
            assert(hay@.subrange(0, 0) =~= needle@);
        }
        return Some(0);
    }
    let mut i: usize = 0;
    while i <= hlen - nlen
        invariant
            hlen == hay@.len(),
            nlen == needle@.len(),
            1 <= nlen <= hlen,
            0 <= i <= hlen - nlen + 1,
            forall|j: int| 0 <= j < i ==> !match_at(hay@, needle@, j),
            find_first(hay@, needle@, 0) == find_first(hay@, needle@, i as int),
        decreases hlen - nlen - i + 1,
    {
        if check_match_at(hay, needle, i) {
            return Some(i);
        }
        i += 1;
    }
    proof {
        assert(forall|j: int| match_at(hay@, needle@, j) ==> 0 <= j && j + nlen <= hlen);
        assert(find_first(hay@, needle@, i as int) is None);
    }
    None
}

/// Position of the last occurrence of `needle` in `hay`, if any.
pub fn str_rindex_of(hay: &str, needle: &str) -> (r: Option<usize>)
    ensures
        match r {
            Some(i) => match_at(hay@, needle@, i as int) && forall|j: int|
                i < j ==> !match_at(hay@, needle@, j),
            None => !contains_seq(hay@, needle@),
        },
{
    let hlen = hay.unicode_len();
    let nlen = needle.unicode_len();
    if nlen > hlen {
        proof {
            assert(forall|i: int| !match_at(hay@, needle@, i));
        }
        return None;
    }
    let mut i: usize = hlen - nlen;
    loop
        invariant
            hlen == hay@.len(),
            nlen == needle@.len(),
            nlen <= hlen,
            0 <= i <= hlen - nlen,
            forall|j: int| i < j ==> !match_at(hay@, needle@, j),
        decreases i,
    {
        if check_match_at(hay, needle, i) {
            return Some(i);
        }
        if i == 0 {
            proof {
                assert(forall|j: int| match_at(hay@, needle@, j) ==> 0 <= j);
            }
            return None;
        }
        i -= 1;
    }
}

/// Whether `needle` occurs in `hay`.
pub fn str_contains(hay: &str, needle: &str) -> (r: bool)
    ensures
        r == contains_seq(hay@, needle@),
{
    str_index_of(hay, needle).is_some()
}

/// Whether `hay` ends with `suffix`.
pub fn str_ends_with(hay: &str, suffix: &str) -> (r: bool)
    ensures
        r == ends_with_seq(hay@, suffix@),
{
    let hlen = hay.unicode_len();
    let slen = suffix.unicode_len();
    if slen > hlen {
        return false;
    }
    check_match_at(hay, suffix, hlen - slen)
}

/// Whether `hay` starts with `prefix`.
pub fn str_starts_with(hay: &str, prefix: &str) -> (r: bool)
    ensures
        r == starts_with_seq(hay@, prefix@),
{
    let hlen = hay.unicode_len();
    let plen = prefix.unicode_len();
    if plen > hlen {
        return false;
    }
    check_match_at(hay, prefix, 0)
}

/// Greedy left-to-right replacement of every occurrence of `from` by `to`.
pub open spec fn replace_seq(s: Seq<char>, from: Seq<char>, to: Seq<char>) -> Seq<char>
    decreases s.len(),
{
    if from.len() == 0 || s.len() < from.len() {
        s
    } else if match_at(s, from, 0) {
        to + replace_seq(s.subrange(from.len() as int, s.len() as int), from, to)
    } else {
        seq![s[0]] + replace_seq(s.subrange(1, s.len() as int), from, to)
    }
}

/// Replace every occurrence of `from` in `s` by `to`, scanning left to right.
pub fn replace_all(s: &str, from: &str, to: &str) -> (r: String)
    requires
        from@.len() > 0,
    ensures
        r@ == replace_seq(s@, from@, to@),
    decreases s@.len(),
{
    let slen = s.unicode_len();
    let flen = from.unicode_len();
    if slen < flen {
        return s.to_owned();
    }
    if check_match_at(s, from, 0) {
        let mut r = to.to_owned();
        let rest = replace_all(s.substring_char(flen, slen), from, to);
        r.append(rest.as_str());
        r
    } else {
        let mut r = s.substring_char(0, 1).to_owned();
        let rest = replace_all(s.substring_char(1, slen), from, to);
        r.append(rest.as_str());
        r
    }
}

/// An ASCII whitespace character.
pub open spec fn is_space_char(c: char) -> bool {
    c == ' ' || c == '\t' || c == '\n' || c == '\r'
}

/// `s` with leading ASCII whitespace removed.
pub open spec fn trim_front_seq(s: Seq<char>) -> Seq<char>
    decreases s.len(),
{
    if s.len() > 0 && is_space_char(s[0]) {
        trim_front_seq(s.subrange(1, s.len() as int))
    } else {
        s
    }
}

/// `s` with trailing ASCII whitespace removed.
pub open spec fn trim_back_seq(s: Seq<char>) -> Seq<char>
    decreases s.len(),
{
    if s.len() > 0 && is_space_char(s[s.len() - 1]) {
        trim_back_seq(s.subrange(0, s.len() - 1))
    } else {
        s
    }
}

/// `s` with leading and trailing ASCII whitespace removed.
pub open spec fn trim_seq(s: Seq<char>) -> Seq<char> {
    trim_back_seq(trim_front_seq(s))
}

fn is_space(c: char) -> (r: bool)
    ensures
        r == is_space_char(c),
{
    c == ' ' || c == '\t' || c == '\n' || c == '\r'
}

fn trim_back(s: &str) -> (r: String)
    ensures
        r@ == trim_back_seq(s@),
    decreases s@.len(),
{
    let slen = s.unicode_len();
    if slen > 0 && is_space(s.get_char(slen - 1)) {
        trim_back(s.substring_char(0, slen - 1))
    } else {
        s.to_owned()
    }
}

/// Remove leading and trailing ASCII whitespace.
pub fn str_trim(s: &str) -> (r: String)
    ensures
        r@ == trim_seq(s@),
    decreases s@.len(),
{
    let slen = s.unicode_len();
    if slen > 0 && is_space(s.get_char(0)) {
        str_trim(s.substring_char(1, slen))
    } else {
        trim_back(s)
    }
}

/// The decimal digit character for `d`.
pub open spec fn digit_char(d: nat) -> char {
    if d == 0 {
        '0'
    } else if d == 1 {
        '1'
    } else if d == 2 {
        '2'
    } else if d == 3 {
        '3'
    } else if d == 4 {
        '4'
    } else if d == 5 {
        '5'
    } else if d == 6 {
        '6'
    } else if d == 7 {
        '7'
    } else if d == 8 {
        '8'
    } else {
        '9'
    }
}

/// The decimal representation of `n`, most significant digit first.
pub open spec fn dec_seq(n: nat) -> Seq<char>
    decreases n,
{
    if n < 10 {
        seq![digit_char(n)]
    } else {
        dec_seq(n / 10).push(digit_char(n % 10))
    }
}

fn digit_str(d: usize) -> (r: &'static str)
    requires
        d < 10,
    ensures
        r@ == seq![digit_char(d as nat)],
{
    proof {
        reveal_strlit("0");
        reveal_strlit("1");
        reveal_strlit("2");
        reveal_strlit("3");
        reveal_strlit("4");
        reveal_strlit("5");
        reveal_strlit("6");
        reveal_strlit("7");
        reveal_strlit("8");
        reveal_strlit("9");
    }
    match d {
        0 => "0",
        1 => "1",
        2 => "2",
        3 => "3",
        4 => "4",
        5 => "5",
        6 => "6",
        7 => "7",
        8 => "8",
        _ => "9",
    }
}

/// Format `n` in decimal.
pub fn usize_to_string(n: usize) -> (r: String)
    ensures
        r@ == dec_seq(n as nat),
    decreases n,
{
    if n < 10 {
        digit_str(n).to_owned()
    } else {
        let mut r = usize_to_string(n / 10);
        r.append(digit_str(n % 10));
        r
    }
}

/// What `char::is_alphanumeric` returns: a function of the character alone.
pub uninterp spec fn alphanumeric_char(c: char) -> bool;

/// What `char::is_alphabetic` returns: a function of the character alone.
pub uninterp spec fn alphabetic_char(c: char) -> bool;

/// Relies on char::is_alphanumeric: Unicode letter-or-digit classification,
/// a function of the character alone.
#[verifier::external_body]
pub(crate) fn char_is_alphanumeric(c: char) -> (r: bool)
    ensures
        r == alphanumeric_char(c),
{
    c.is_alphanumeric()
}

/// Relies on char::is_alphabetic: Unicode letter classification, a function
/// of the character alone.
#[verifier::external_body]
pub(crate) fn char_is_alphabetic(c: char) -> (r: bool)
    ensures
        r == alphabetic_char(c),
{
    c.is_alphabetic()
}

/// An ASCII uppercase letter.
pub open spec fn upper_char(c: char) -> bool {
    65 <= c as u32 <= 90
}

/// Whether `c` is an ASCII uppercase letter.
pub fn is_upper(c: char) -> (r: bool)
    ensures
        r == upper_char(c),
{
    let u = c as u32;
    65 <= u && u <= 90
}

/// A character that may occur in a bare identifier.
pub open spec fn ident_char(c: char) -> bool {
    alphanumeric_char(c) || c == '_'
}

/// Whether `c` may occur in a bare identifier.
pub fn is_ident(c: char) -> (r: bool)
    ensures
        r == ident_char(c),
{
    char_is_alphanumeric(c) || c == '_'
}

/// Membership of a view in a sequence of strings.
pub open spec fn seq_contains_str(v: Seq<String>, x: Seq<char>) -> bool {
    exists|i: int| 0 <= i < v.len() && v[i]@ == x
}

/// Whether some element of `v` equals `x`, as character sequences.
pub fn vec_contains_str(v: &Vec<String>, x: &str) -> (r: bool)
    ensures
        r == seq_contains_str(v@, x@),
{
    let mut i: usize = 0;
    while i < v.len()
        invariant
            0 <= i <= v@.len(),
            forall|k: int| 0 <= k < i ==> v@[k]@ != x@,
        decreases v@.len() - i,
    {
        if str_eq(v[i].as_str(), x) {
            return true;
        }
        i += 1;
    }
    false
}

} // verus!
