//! The textual fallback extractor.
//!
//! Beside the structural matchers there is a second, purely textual pass: a
//! scan of raw expression text for `UppercaseIdentifier(` constructor
//! patterns, filtered through the activity-name likelihood heuristic.  It is
//! the secondary extractor; the structural pass always takes precedence and
//! this one runs only where the structural pass found nothing.

use vstd::prelude::*;
use crate::model::{GTransition, NextAktivitet, clone_opt_string, opt_str_view, trans_views};
use crate::strutil::{
    contains_seq, ends_with_seq, ident_char, is_ident, is_upper, match_at, seq_contains_str,
    str_contains, upper_char, vec_contains_str,
};

verus! {

/// A constructor pattern found in raw text: its character position and
/// length, and the class name it invokes.
pub struct ConstructorMatch {
    pub start: usize,
    pub length: usize,
    pub name: String,
}

/// First position at or after `pos` that is not an identifier character.
pub open spec fn ident_end(s: Seq<char>, pos: int) -> int
    decreases s.len() - pos,
{
    if !(0 <= pos < s.len()) {
        pos
    } else if ident_char(s[pos]) {
        ident_end(s, pos + 1)
    } else {
        pos
    }
}

/// `ident_end` stays between `pos` and the end of the text.
pub proof fn lemma_ident_end_bounds(s: Seq<char>, pos: int)
    requires
        0 <= pos <= s.len(),
    ensures
        pos <= ident_end(s, pos) <= s.len(),
    decreases s.len() - pos,
{
    if pos < s.len() && ident_char(s[pos]) {
        lemma_ident_end_bounds(s, pos + 1);
    }
}

/// Scan from `pos` for the next `UppercaseIdentifier(` pattern: the result
/// is the match position, the length of the identifier plus the parenthesis,
/// and the identifier itself.
pub open spec fn scan_ctor(s: Seq<char>, pos: int) -> Option<(int, int, Seq<char>)>
    decreases s.len() - pos,
{
    if !(0 <= pos < s.len()) {
        None
    } else if upper_char(s[pos]) {
        let end = ident_end(s, pos);
        if end < s.len() && s[end] == '(' {
            Some((pos, end - pos + 1, s.subrange(pos, end)))
        } else if pos < end + 1 && end < s.len() {
            scan_ctor(s, end + 1)
        } else {
            None
        }
    } else {
        scan_ctor(s, pos + 1)
    }
}

/// A successful scan lies within the text, at or after the start position.
pub proof fn lemma_scan_ctor_bounds(s: Seq<char>, pos: int)
    requires
        0 <= pos,
        scan_ctor(s, pos) is Some,
    ensures
        ({
            let (st, ln, nm) = scan_ctor(s, pos)->Some_0;
            pos <= st && 1 <= ln && st + ln <= s.len()
        }),
    decreases s.len() - pos,
{
    if pos < s.len() {
        if upper_char(s[pos]) {
            lemma_ident_end_bounds(s, pos);
            let end = ident_end(s, pos);
            if end < s.len() && s[end] == '(' {
            } else if pos < end + 1 && end < s.len() {
                lemma_scan_ctor_bounds(s, end + 1);
            }
        } else {
            lemma_scan_ctor_bounds(s, pos + 1);
        }
    }
}

/// The activity-name likelihood heuristic: a bare identifier, starting with
/// an ASCII uppercase letter, of plausible length, carrying the designated
/// activity-name substring or suffix.
pub open spec fn likely_aktivitet(s: Seq<char>) -> bool {
    &&& forall|i: int| 0 <= i < s.len() ==> ident_char(s[i])
    &&& s.len() > 0 && upper_char(s[0])
    &&& 3 <= s.len() <= 100
    &&& (ends_with_seq(s, "Aktivitet"@) || ends_with_seq(s, "Activity"@) || contains_seq(
        s,
        "Aktivitet"@,
    ))
}

/// Decide whether `class_name` plausibly names an activity class.
pub fn is_likely_aktivitet_class(class_name: &str) -> (r: bool)
    ensures
        r == likely_aktivitet(class_name@),
{
    let n = class_name.unicode_len();
    let mut i: usize = 0;
    while i < n
        invariant
            n == class_name@.len(),
            0 <= i <= n,
            forall|k: int| 0 <= k < i ==> ident_char(class_name@[k]),
        decreases n - i,
    {
        if !is_ident(class_name.get_char(i)) {
            return false;
        }
        i += 1;
    }
    if n == 0 || !is_upper(class_name.get_char(0)) {
        return false;
    }
    if n < 3 || n > 100 {
        return false;
    }
    if str_ends_with_lit(class_name, "Aktivitet") {
        return true;
    }
    if str_ends_with_lit(class_name, "Activity") {
        return true;
    }
    str_contains(class_name, "Aktivitet")
}

fn str_ends_with_lit(hay: &str, suffix: &str) -> (r: bool)
    ensures
        r == ends_with_seq(hay@, suffix@),
{
    crate::strutil::str_ends_with(hay, suffix)
}

fn ident_end_exec(text: &str, pos: usize) -> (r: usize)
    requires
        pos <= text@.len(),
    ensures
        r == ident_end(text@, pos as int),
        pos <= r <= text@.len(),
    decreases text@.len() - pos,
{
    let n = text.unicode_len();
    if pos >= n {
        return pos;
    }
    if is_ident(text.get_char(pos)) {
        ident_end_exec(text, pos + 1)
    } else {
        pos
    }
}

fn scan_from(text: &str, pos: usize) -> (r: Option<ConstructorMatch>)
    requires
        pos <= text@.len(),
    ensures
        match r {
            Some(m) => scan_ctor(text@, pos as int) == Some(
                (m.start as int, m.length as int, m.name@),
            ),
            None => scan_ctor(text@, pos as int) is None,
        },
    decreases text@.len() - pos,
{
    let n = text.unicode_len();
    if pos >= n {
        return None;
    }
    if is_upper(text.get_char(pos)) {
        let end = ident_end_exec(text, pos);
        if end < n && text.get_char(end) == '(' {
            let name = text.substring_char(pos, end).to_owned();
            Some(ConstructorMatch { start: pos, length: end - pos + 1, name })
        } else if end < n {
            scan_from(text, end + 1)
        } else {
            None
        }
    } else {
        scan_from(text, pos + 1)
    }
}

/// Find the next `UppercaseIdentifier(` constructor pattern in `text`.
pub fn find_next_constructor(text: &str) -> (r: Option<ConstructorMatch>)
    ensures
        match r {
            Some(m) => scan_ctor(text@, 0) == Some((m.start as int, m.length as int, m.name@)),
            None => scan_ctor(text@, 0) is None,
        },
{
    scan_from(text, 0)
}

/// Whether the surrounding text marks a fan-out: it mentions one of the
/// designated collection-transform methods anywhere.
pub open spec fn fallback_is_collection(s: Seq<char>) -> bool {
    contains_seq(s, "it.map"@) || contains_seq(s, ".forEach"@) || contains_seq(s, ".flatMap"@)
}

/// Names yielded by the textual scan from `pos`, left to right, each
/// accepted by the likelihood heuristic and not previously seen.
pub open spec fn names_from(s: Seq<char>, pos: int, seen: Seq<Seq<char>>) -> Seq<Seq<char>>
    decreases s.len() - pos,
{
    match scan_ctor(s, pos) {
        None => Seq::empty(),
        Some(m) => {
            let st = m.0;
            let ln = m.1;
            let nm = m.2;
            if pos < st + ln && st + ln <= s.len() {
                if likely_aktivitet(nm) && !seen.contains(nm) {
                    seq![nm] + names_from(s, st + ln, seen.push(nm))
                } else {
                    names_from(s, st + ln, seen)
                }
            } else {
                Seq::empty()
            }
        },
    }
}

/// The transitions produced by the textual fallback on `text`.
pub open spec fn fallback_transitions(s: Seq<char>, cond: Option<Seq<char>>) -> Seq<GTransition> {
    names_from(s, 0, Seq::empty()).map_values(
        |nm: Seq<char>| GTransition {
            target: nm,
            condition: cond,
            is_collection: fallback_is_collection(s),
        },
    )
}

fn extract_from(
    text: &str,
    pos: usize,
    seen: &mut Vec<String>,
    aktiviteter: &mut Vec<NextAktivitet>,
    condition: &Option<String>,
    is_coll: bool,
)
    requires
        pos <= text@.len(),
    ensures
        trans_views(final(aktiviteter)@) == trans_views(old(aktiviteter)@) + names_from(
            text@,
            pos as int,
            old(seen)@.map_values(|x: String| x@),
        ).map_values(
            |nm: Seq<char>| GTransition {
                target: nm,
                condition: opt_str_view(*condition),
                is_collection: is_coll,
            },
        ),
    decreases text@.len() - pos,
{
    let ghost seen_views = seen@.map_values(|x: String| x@);
    match scan_from(text, pos) {
        None => {
            proof {
                assert(trans_views(aktiviteter@) =~= trans_views(aktiviteter@) + Seq::<
                    Seq<char>,
                >::empty().map_values(
                    |nm: Seq<char>| GTransition {
                        target: nm,
                        condition: opt_str_view(*condition),
                        is_collection: is_coll,
                    },
                ));
            }
        },
        Some(m) => {
            let n = text.unicode_len();
            proof {
                lemma_scan_ctor_bounds(text@, pos as int);
            }
            let nxt = m.start + m.length;
            let ghost nm = m.name@;
            let likely = is_likely_aktivitet_class(m.name.as_str());
            let fresh = !vec_contains_str(seen, m.name.as_str());
            proof {
                assert(seq_contains_str(seen@, nm) == seen_views.contains(nm)) by {
                    if seq_contains_str(seen@, nm) {
                        let i = choose|i: int| 0 <= i < seen@.len() && seen@[i]@ == nm;
                        assert(seen_views[i] == nm);
                    }
                    if seen_views.contains(nm) {
                        let i = choose|i: int| 0 <= i < seen_views.len() && seen_views[i] == nm;
                        assert(seen@[i]@ == nm);
                    }
                }
            }
            let ghost f = |x: Seq<char>| GTransition {
                target: x,
                condition: opt_str_view(*condition),
                is_collection: is_coll,
            };
            if likely && fresh {
                proof {
                    assert(names_from(text@, pos as int, seen_views) == seq![nm] + names_from(
                        text@,
                        nxt as int,
                        seen_views.push(nm),
                    ));
                }
                let ghost pre = trans_views(aktiviteter@);
                aktiviteter.push(
                    NextAktivitet {
                        aktivitet_name: m.name.clone(),
                        condition: clone_opt_string(condition),
                        is_collection: is_coll,
                    },
                );
                seen.push(m.name);
                proof {
                    assert(trans_views(aktiviteter@) =~= pre.push(f(nm)));
                    assert(seen@.map_values(|x: String| x@) =~= seen_views.push(nm));
                }
                extract_from(text, nxt, seen, aktiviteter, condition, is_coll);
                proof {
                    let rest = names_from(text@, nxt as int, seen_views.push(nm));
                    assert(trans_views(aktiviteter@) == pre.push(f(nm)) + rest.map_values(f));
                    assert((seq![nm] + rest).map_values(f) =~= seq![f(nm)] + rest.map_values(f));
                    assert(trans_views(aktiviteter@) =~= trans_views(old(aktiviteter)@) + (seq![
                        nm,
                    ] + rest).map_values(f));
                }
            } else {
                proof {
                    assert(names_from(text@, pos as int, seen_views) == names_from(
                        text@,
                        nxt as int,
                        seen_views,
                    ));
                }
                extract_from(text, nxt, seen, aktiviteter, condition, is_coll);
            }
        },
    }
}

/// Scan `text` for all constructor patterns that pass the likelihood
/// heuristic and append one transition per distinct name, all sharing
/// `condition`; the fan-out mark is set when the text mentions a
/// collection-transform method.
pub fn extract_all_activity_constructors(
    text: &str,
    aktiviteter: &mut Vec<NextAktivitet>,
    condition: Option<String>,
)
    ensures
        trans_views(final(aktiviteter)@) == trans_views(old(aktiviteter)@) + fallback_transitions(
            text@,
            opt_str_view(condition),
        ),
{
    let is_coll = str_contains(text, "it.map") || str_contains(text, ".forEach") || str_contains(
        text,
        ".flatMap",
    );
    let mut seen: Vec<String> = Vec::new();
    proof {
        assert(seen@.map_values(|x: String| x@) =~= Seq::<Seq<char>>::empty());
    }
    extract_from(text, 0, &mut seen, aktiviteter, &condition, is_coll);
}

/// One of the collection-transform markers occurs in `s`, and no closing
/// brace follows its last occurrence.
pub open spec fn open_collection_at_end(s: Seq<char>, p: Seq<char>) -> bool {
    exists|i: int|
        match_at(s, p, i) && (forall|j: int| j > i ==> !match_at(s, p, j)) && (forall|k: int|
            i + p.len() <= k < s.len() ==> s[k] != '}')
}

fn no_close_brace_from(text: &str, from: usize) -> (r: bool)
    requires
        from <= text@.len(),
    ensures
        r == (forall|k: int| from <= k < text@.len() ==> text@[k] != '}'),
{
    let n = text.unicode_len();
    let mut i: usize = from;
    while i < n
        invariant
            n == text@.len(),
            from <= i <= n,
            forall|k: int| from <= k < i ==> text@[k] != '}',
        decreases n - i,
    {
        if text.get_char(i) == '}' {
            return false;
        }
        i += 1;
    }
    true
}

fn open_collection_exec(text: &str, pattern: &str) -> (r: bool)
    ensures
        r == open_collection_at_end(text@, pattern@),
{
    match crate::strutil::str_rindex_of(text, pattern) {
        Some(i) => {
            let n = text.unicode_len();
            let plen = pattern.unicode_len();
            proof {
                assert(i + pattern@.len() <= text@.len());
            }
            no_close_brace_from(text, i + plen)
        },
        None => false,
    }
}

/// Whether the given preceding text ends inside a still-open collection
/// operation: a collection-transform marker occurs and no closing brace
/// follows its last occurrence.
pub fn is_inside_collection_operation(preceding_text: &str) -> (r: bool)
    ensures
        r == (open_collection_at_end(preceding_text@, "it.map"@) || open_collection_at_end(
            preceding_text@,
            ".map"@,
        ) || open_collection_at_end(preceding_text@, ".forEach"@) || open_collection_at_end(
            preceding_text@,
            ".flatMap"@,
        )),
{
    if open_collection_exec(preceding_text, "it.map") {
        return true;
    }
    if open_collection_exec(preceding_text, ".map") {
        return true;
    }
    if open_collection_exec(preceding_text, ".forEach") {
        return true;
    }
    open_collection_exec(preceding_text, ".flatMap")
}

} // verus!
