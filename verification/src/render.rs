//! Rendering the flow graph as a diagram-description document: label
//! escaping and shortening, condition-label formatting, node styling, the
//! reachable-graph walk, edge consolidation, and document assembly.

use vstd::prelude::*;
use crate::classes::{is_alde_spec, is_alde_aktivitet};
use crate::model::{
    ClassIndex, Edge, GClass, GEdge, GProcEntry, GTransition, ProcessorIndex, edge_views,
    lookup_proc, trans_views,
};
use crate::strutil::{
    alphabetic_char, char_is_alphabetic, contains_seq, find_first, replace_seq, starts_with_seq,
    str_contains, str_eq, str_index_of, str_starts_with, str_trim, trim_seq,
};

verus! {

/// The escaped form of one character inside a quoted label.
pub open spec fn esc_char(c: char) -> Seq<char> {
    if c == '\\' {
        seq!['\\', '\\']
    } else if c == '"' {
        seq!['\\', '"']
    } else if c == '\n' {
        seq!['\\', 'n']
    } else {
        seq![c]
    }
}

/// The escaped form of a label: backslashes, quotes and newlines are
/// backslash-escaped.
pub open spec fn esc_seq(s: Seq<char>) -> Seq<char>
    decreases s.len(),
{
    if s.len() == 0 {
        Seq::empty()
    } else {
        esc_char(s[0]) + esc_seq(s.subrange(1, s.len() as int))
    }
}

/// Escape a label for inclusion in the diagram text.
pub fn escape_label(s: &str) -> (r: String)
    ensures
        r@ == esc_seq(s@),
    decreases s@.len(),
{
    let n = s.unicode_len();
    if n == 0 {
        return String::new();
    }
    let c = s.get_char(0);
    let mut r: String;
    if c == '\\' {
        proof {
            reveal_strlit("\\\\");
        }
        r = "\\\\".to_owned();
    } else if c == '"' {
        proof {
            reveal_strlit("\\\"");
        }
        r = "\\\"".to_owned();
    } else if c == '\n' {
        proof {
            reveal_strlit("\\n");
        }
        r = "\\n".to_owned();
    } else {
        r = s.substring_char(0, 1).to_owned();
        proof {
            assert(r@ =~= esc_char(c));
        }
    }
    let rest = escape_label(s.substring_char(1, n));
    r.append(rest.as_str());
    r
}

/// Index of the first alphabetic character at or after `i`.
pub open spec fn first_alpha(s: Seq<char>, i: int) -> Option<int>
    decreases s.len() - i,
{
    if !(0 <= i < s.len()) {
        None
    } else if alphabetic_char(s[i]) {
        Some(i)
    } else {
        first_alpha(s, i + 1)
    }
}

/// The shortened display name: the designated prefixes removed, and a line
/// break inserted between a leading number and the remaining text.
pub open spec fn shorten_spec(name: Seq<char>) -> Seq<char> {
    let t = replace_seq(replace_seq(name, "FleksibelApSak"@, Seq::empty()), "Aktivitet"@, Seq::empty());
    match first_alpha(t, 0) {
        Some(p) => if p > 0 {
            t.subrange(0, p) + "\n"@ + t.subrange(p, t.len() as int)
        } else {
            t
        },
        None => t,
    }
}

fn first_alpha_exec(s: &str, i: usize) -> (r: Option<usize>)
    requires
        i <= s@.len(),
    ensures
        match r {
            Some(p) => first_alpha(s@, i as int) == Some(p as int) && p < s@.len(),
            None => first_alpha(s@, i as int) is None,
        },
    decreases s@.len() - i,
{
    let n = s.unicode_len();
    if i >= n {
        return None;
    }
    if char_is_alphabetic(s.get_char(i)) {
        Some(i)
    } else {
        first_alpha_exec(s, i + 1)
    }
}

/// Shorten an activity name for display: remove the designated prefixes and
/// break a leading step number onto its own line.
pub fn shorten_aktivitet_name(name: &str) -> (r: String)
    ensures
        r@ == shorten_spec(name@),
{
    proof {
        reveal_strlit("FleksibelApSak");
        reveal_strlit("Aktivitet");
        reveal_strlit("");
        assert(""@ =~= Seq::<char>::empty());
    }
    let t1 = crate::strutil::replace_all(name, "FleksibelApSak", "");
    let t = crate::strutil::replace_all(t1.as_str(), "Aktivitet", "");
    proof {
        assert(t@ == replace_seq(
            replace_seq(name@, "FleksibelApSak"@, Seq::empty()),
            "Aktivitet"@,
            Seq::empty(),
        ));
    }
    match first_alpha_exec(t.as_str(), 0) {
        Some(p) => {
            if p > 0 {
                let n = t.unicode_len();
                let mut r = t.substring_char(0, p).to_owned();
                r.append("\n");
                r.append(t.substring_char(p, n));
                proof {
                    assert(r@ =~= shorten_spec(name@));
                }
                r
            } else {
                t
            }
        },
        None => t,
    }
}

/// The extra condition text appearing after the feature-toggle call: the
/// trailing conjunction with the designated object prefixes removed.
pub open spec fn feature_rest_spec(after: Seq<char>) -> Seq<char> {
    match find_first(after, ")"@, 0) {
        Some(cp) => {
            let after_close = trim_seq(after.subrange(cp + 1, after.len() as int));
            if starts_with_seq(after_close, "&&"@) {
                let extra = replace_seq(
                    replace_seq(
                        trim_seq(after_close.subrange(2, after_close.len() as int)),
                        "behandling."@,
                        Seq::empty(),
                    ),
                    "krav."@,
                    Seq::empty(),
                );
                if extra.len() > 0 {
                    " && "@ + extra
                } else {
                    Seq::empty()
                }
            } else {
                Seq::empty()
            }
        },
        None => Seq::empty(),
    }
}

/// The feature-flag name extracted from the toggle call's first argument.
pub open spec fn feature_name_spec(after: Seq<char>) -> Seq<char> {
    let part = match find_first(after, ","@, 0) {
        Some(c) => after.subrange(0, c),
        None => match find_first(after, ")"@, 0) {
            Some(p) => after.subrange(0, p),
            None => after,
        },
    };
    replace_seq(replace_seq(trim_seq(part), "PenFeature."@, Seq::empty()), "\""@, Seq::empty())
}

/// The common tail of condition formatting: object prefixes removed, long
/// text truncated to 77 characters with an ellipsis.
pub open spec fn condition_tail_spec(f: Seq<char>) -> Seq<char> {
    let f2 = replace_seq(replace_seq(f, "behandling."@, Seq::empty()), "krav."@, Seq::empty());
    if f2.len() > 80 {
        f2.subrange(0, 77) + "..."@
    } else {
        f2
    }
}

/// The formatted condition label for `s`.
pub open spec fn format_condition_spec(s: Seq<char>) -> Seq<char> {
    if contains_seq(s, "unleashNextService.isEnabled"@) || contains_seq(s, "unleashNext"@) {
        match find_first(s, "isEnabled("@, 0) {
            Some(start) => {
                let after = s.subrange(start + 10, s.len() as int);
                "\u{1F6A9} FEATURE: "@ + trim_seq(feature_name_spec(after)) + feature_rest_spec(
                    after,
                )
            },
            None => condition_tail_spec("\u{1F6A9} FEATURE TOGGLE: "@ + s),
        }
    } else {
        condition_tail_spec(s)
    }
}

fn feature_rest_exec(after: &str) -> (r: String)
    ensures
        r@ == feature_rest_spec(after@),
{
    proof {
        reveal_strlit(")");
        reveal_strlit("&&");
        reveal_strlit("behandling.");
        reveal_strlit("krav.");
        reveal_strlit("");
        reveal_strlit(" && ");
        assert(""@ =~= Seq::<char>::empty());
    }
    let n = after.unicode_len();
    match str_index_of(after, ")") {
        Some(cp) => {
            let after_close = str_trim(after.substring_char(cp + 1, n));
            if str_starts_with(after_close.as_str(), "&&") {
                let m = after_close.unicode_len();
                let inner = str_trim(after_close.as_str().substring_char(2, m));
                let e1 = crate::strutil::replace_all(inner.as_str(), "behandling.", "");
                let extra = crate::strutil::replace_all(e1.as_str(), "krav.", "");
                if extra.unicode_len() > 0 {
                    let mut r = " && ".to_owned();
                    r.append(extra.as_str());
                    r
                } else {
                    String::new()
                }
            } else {
                String::new()
            }
        },
        None => String::new(),
    }
}

fn feature_name_exec(after: &str) -> (r: String)
    ensures
        r@ == feature_name_spec(after@),
{
    proof {
        reveal_strlit(",");
        reveal_strlit(")");
        reveal_strlit("PenFeature.");
        reveal_strlit("\"");
        reveal_strlit("");
        assert(""@ =~= Seq::<char>::empty());
    }
    let n = after.unicode_len();
    let part: String = match str_index_of(after, ",") {
        Some(c) => after.substring_char(0, c).to_owned(),
        None => match str_index_of(after, ")") {
            Some(p) => after.substring_char(0, p).to_owned(),
            None => after.to_owned(),
        },
    };
    let t = str_trim(part.as_str());
    let f1 = crate::strutil::replace_all(t.as_str(), "PenFeature.", "");
    crate::strutil::replace_all(f1.as_str(), "\"", "")
}

fn condition_tail_exec(f: &str) -> (r: String)
    ensures
        r@ == condition_tail_spec(f@),
{
    proof {
        reveal_strlit("behandling.");
        reveal_strlit("krav.");
        reveal_strlit("");
        reveal_strlit("...");
    }
    let f1 = crate::strutil::replace_all(f, "behandling.", "");
    proof {
        assert(""@ =~= Seq::<char>::empty());
        assert(f1@ == replace_seq(f@, "behandling."@, Seq::empty()));
    }
    let f2 = crate::strutil::replace_all(f1.as_str(), "krav.", "");
    proof {
        assert(f2@ == replace_seq(replace_seq(f@, "behandling."@, Seq::empty()), "krav."@, Seq::empty()));
    }
    let n = f2.unicode_len();
    if n > 80 {
        let mut r = f2.as_str().substring_char(0, 77).to_owned();
        r.append("...");
        r
    } else {
        f2
    }
}

/// Format a condition for display on an edge: feature-toggle calls are
/// rewritten to a flag marker, designated object prefixes are dropped, and
/// long text is truncated.
pub fn format_condition_label(condition: &str) -> (r: String)
    ensures
        r@ == format_condition_spec(condition@),
{
    if str_contains(condition, "unleashNextService.isEnabled") || str_contains(
        condition,
        "unleashNext",
    ) {
        match str_index_of(condition, "isEnabled(") {
            Some(start) => {
                proof {
                    reveal_strlit("isEnabled(");
                }
                let n = condition.unicode_len();
                let after = condition.substring_char(start + 10, n);
                let fname = feature_name_exec(after);
                let frest = feature_rest_exec(after);
                let tn = str_trim(fname.as_str());
                let mut r = "\u{1F6A9} FEATURE: ".to_owned();
                r.append(tn.as_str());
                r.append(frest.as_str());
                r
            },
            None => {
                let mut f = "\u{1F6A9} FEATURE TOGGLE: ".to_owned();
                f.append(condition);
                condition_tail_exec(f.as_str())
            },
        }
    } else {
        condition_tail_exec(condition)
    }
}

// ---------------------------------------------------------------------------
// Edge consolidation
// ---------------------------------------------------------------------------

/// The distinct condition labels of the edges with endpoint pair `p`, from
/// `i` on, in first-occurrence order, skipping empty and synthetic else
/// labels and labels already in `seenl`.
pub open spec fn dlabels(
    es: Seq<GEdge>,
    p: (Seq<char>, Seq<char>),
    i: int,
    seenl: Seq<Seq<char>>,
) -> Seq<Seq<char>>
    decreases es.len() - i,
{
    if !(0 <= i < es.len()) {
        Seq::empty()
    } else {
        let matches = (es[i].from, es[i].to) == p && es[i].label != Seq::<char>::empty()
            && es[i].label != "else"@ && !seenl.contains(es[i].label);
        if matches {
            seq![es[i].label] + dlabels(es, p, i + 1, seenl.push(es[i].label))
        } else {
            dlabels(es, p, i + 1, seenl)
        }
    }
}

/// Some edge with endpoint pair `p` is a fan-out edge.
pub open spec fn any_coll(es: Seq<GEdge>, p: (Seq<char>, Seq<char>)) -> bool {
    exists|i: int| 0 <= i < es.len() && ((#[trigger] es[i]).from, es[i].to) == p && es[i].is_collection
}

/// The label a consolidated edge carries: the first distinct condition
/// label, or nothing.
pub open spec fn pick_label(ls: Seq<Seq<char>>) -> Seq<char> {
    if ls.len() >= 1 {
        ls[0]
    } else {
        Seq::empty()
    }
}

/// The consolidated presentation edge for pair `p`.
pub open spec fn cons_edge(es: Seq<GEdge>, p: (Seq<char>, Seq<char>)) -> GEdge {
    GEdge {
        from: p.0,
        to: p.1,
        label: pick_label(dlabels(es, p, 0, Seq::empty())),
        is_collection: any_coll(es, p),
    }
}

/// One consolidated edge per endpoint pair, in first-occurrence order.
pub open spec fn cons_from(es: Seq<GEdge>, i: int, seen: Seq<(Seq<char>, Seq<char>)>) -> Seq<
    GEdge,
>
    decreases es.len() - i,
{
    if !(0 <= i < es.len()) {
        Seq::empty()
    } else {
        let p = (es[i].from, es[i].to);
        if seen.contains(p) {
            cons_from(es, i + 1, seen)
        } else {
            seq![cons_edge(es, p)] + cons_from(es, i + 1, seen.push(p))
        }
    }
}

/// The consolidated edge list of `es`.
pub open spec fn consolidate_spec(es: Seq<GEdge>) -> Seq<GEdge> {
    cons_from(es, 0, Seq::empty())
}

proof fn lemma_dlabels_singleton(es: Seq<GEdge>, k: int, i: int, seenl: Seq<Seq<char>>)
    requires
        0 <= k < es.len(),
        forall|a: int, b: int|
            0 <= a < b < es.len() ==> ((#[trigger] es[a]).from, es[a].to) != (
                (#[trigger] es[b]).from,
                es[b].to,
            ),
        0 <= i <= es.len(),
        !seenl.contains(es[k].label),
    ensures
        dlabels(es, (es[k].from, es[k].to), i, seenl) == (if i <= k && es[k].label != Seq::<
            char,
        >::empty() && es[k].label != "else"@ {
            seq![es[k].label]
        } else {
            Seq::<Seq<char>>::empty()
        }),
    decreases es.len() - i,
{
    if i < es.len() {
        if i == k {
            if es[k].label != Seq::<char>::empty() && es[k].label != "else"@ {
                lemma_dlabels_none(es, k, i + 1, seenl.push(es[k].label));
            } else {
                lemma_dlabels_none(es, k, i + 1, seenl);
            }
        } else {
            assert(((es[i].from, es[i].to)) != ((es[k].from, es[k].to)));
            lemma_dlabels_singleton(es, k, i + 1, seenl);
        }
    }
}

proof fn lemma_dlabels_none(es: Seq<GEdge>, k: int, i: int, seenl: Seq<Seq<char>>)
    requires
        0 <= k < es.len(),
        forall|a: int, b: int|
            0 <= a < b < es.len() ==> ((#[trigger] es[a]).from, es[a].to) != (
                (#[trigger] es[b]).from,
                es[b].to,
            ),
        k < i <= es.len(),
    ensures
        dlabels(es, (es[k].from, es[k].to), i, seenl) == Seq::<Seq<char>>::empty(),
    decreases es.len() - i,
{
    if i < es.len() {
        assert(((es[i].from, es[i].to)) != ((es[k].from, es[k].to)));
        lemma_dlabels_none(es, k, i + 1, seenl);
    }
}

proof fn lemma_any_coll_singleton(es: Seq<GEdge>, k: int)
    requires
        0 <= k < es.len(),
        forall|a: int, b: int|
            0 <= a < b < es.len() ==> ((#[trigger] es[a]).from, es[a].to) != (
                (#[trigger] es[b]).from,
                es[b].to,
            ),
    ensures
        any_coll(es, (es[k].from, es[k].to)) == es[k].is_collection,
{
    if es[k].is_collection {
        assert(((es[k].from, es[k].to)) == ((es[k].from, es[k].to)) && es[k].is_collection);
    }
    if any_coll(es, (es[k].from, es[k].to)) {
        let pk = (es[k].from, es[k].to);
        let i = choose|i: int|
            0 <= i < es.len() && ((#[trigger] es[i]).from, es[i].to) == pk && es[i].is_collection;
        if i != k {
            if i < k {
                assert(((es[i].from, es[i].to)) != ((es[k].from, es[k].to)));
            } else {
                assert(((es[k].from, es[k].to)) != ((es[i].from, es[i].to)));
            }
        }
    }
}

/// Consolidating a list that is already consolidated — one edge per
/// endpoint pair, no synthetic else labels — returns it unchanged.
pub proof fn lemma_consolidate_idempotent(es: Seq<GEdge>)
    requires
        forall|a: int, b: int|
            0 <= a < b < es.len() ==> ((#[trigger] es[a]).from, es[a].to) != (
                (#[trigger] es[b]).from,
                es[b].to,
            ),
        forall|a: int| 0 <= a < es.len() ==> (#[trigger] es[a]).label != "else"@,
    ensures
        consolidate_spec(es) == es,
{
    lemma_cons_from_identity(es, 0, Seq::empty());
    assert(consolidate_spec(es) =~= es);
}

proof fn lemma_cons_from_identity(es: Seq<GEdge>, i: int, seen: Seq<(Seq<char>, Seq<char>)>)
    requires
        forall|a: int, b: int|
            0 <= a < b < es.len() ==> ((#[trigger] es[a]).from, es[a].to) != (
                (#[trigger] es[b]).from,
                es[b].to,
            ),
        forall|a: int| 0 <= a < es.len() ==> (#[trigger] es[a]).label != "else"@,
        0 <= i <= es.len(),
        forall|a: int|
            i <= a < es.len() ==> !seen.contains((((#[trigger] es[a]).from, es[a].to))),
    ensures
        cons_from(es, i, seen) == es.skip(i),
    decreases es.len() - i,
{
    if i < es.len() {
        let p = (es[i].from, es[i].to);
        assert(!seen.contains(p));
        lemma_dlabels_singleton(es, i, 0, Seq::empty());
        lemma_any_coll_singleton(es, i);
        assert(cons_edge(es, p) == es[i]);
        assert forall|a: int|
            i + 1 <= a < es.len() implies !seen.push(p).contains(
            (((#[trigger] es[a]).from, es[a].to)),
        ) by {
            crate::graph::lemma_push_contains(seen, p, ((es[a].from, es[a].to)));
        }
        lemma_cons_from_identity(es, i + 1, seen.push(p));
        assert(cons_from(es, i, seen) =~= es.skip(i));
    } else {
        assert(cons_from(es, i, seen) =~= es.skip(i));
    }
}

/// The views of a sequence of endpoint pairs.
pub open spec fn epair_views(s: Seq<(String, String)>) -> Seq<(Seq<char>, Seq<char>)> {
    s.map_values(|p: (String, String)| (p.0@, p.1@))
}

fn edge_pair_seen(seen: &Vec<(String, String)>, from: &str, to: &str) -> (r: bool)
    ensures
        r == epair_views(seen@).contains((from@, to@)),
{
    let mut i: usize = 0;
    while i < seen.len()
        invariant
            0 <= i <= seen@.len(),
            forall|k: int| 0 <= k < i ==> epair_views(seen@)[k] != ((from@, to@)),
        decreases seen@.len() - i,
    {
        if str_eq(seen[i].0.as_str(), from) && str_eq(seen[i].1.as_str(), to) {
            proof {
                assert(epair_views(seen@)[i as int] == ((from@, to@)));
            }
            return true;
        }
        i += 1;
    }
    false
}

fn collect_dlabels(edges: &Vec<Edge>, from: &str, to: &str) -> (r: Vec<String>)
    ensures
        r@.map_values(|s: String| s@) == dlabels(
            edge_views(edges@),
            (from@, to@),
            0,
            Seq::empty(),
        ),
{
    let ghost ev = edge_views(edges@);
    let ghost p = (from@, to@);
    let mut out: Vec<String> = Vec::new();
    let mut seenl: Vec<String> = Vec::new();
    proof {
        assert(out@.map_values(|s: String| s@) =~= Seq::<Seq<char>>::empty());
        assert(seenl@.map_values(|s: String| s@) =~= Seq::<Seq<char>>::empty());
    }
    let mut i: usize = 0;
    while i < edges.len()
        invariant
            ev == edge_views(edges@),
            p == (from@, to@),
            0 <= i <= edges@.len(),
            dlabels(ev, p, 0, Seq::empty()) == out@.map_values(|s: String| s@) + dlabels(
                ev,
                p,
                i as int,
                seenl@.map_values(|s: String| s@),
            ),
        decreases edges@.len() - i,
    {
        let ghost outv = out@.map_values(|s: String| s@);
        let ghost seenv = seenl@.map_values(|s: String| s@);
        let e = &edges[i];
        proof {
            reveal_strlit("else");
            reveal_strlit("");
        }
        let lab_nonempty = e.label.unicode_len() > 0;
        let lab_not_else = !str_eq(e.label.as_str(), "else");
        let matches = str_eq(e.from.as_str(), from) && str_eq(e.to.as_str(), to) && lab_nonempty
            && lab_not_else && !crate::strutil::vec_contains_str(&seenl, e.label.as_str());
        proof {
            assert(crate::strutil::seq_contains_str(seenl@, e.label@) == seenv.contains(
                e.label@,
            )) by {
                if crate::strutil::seq_contains_str(seenl@, e.label@) {
                    let k = choose|k: int| 0 <= k < seenl@.len() && seenl@[k]@ == e.label@;
                    assert(seenv[k] == e.label@);
                }
                if seenv.contains(e.label@) {
                    let k = choose|k: int| 0 <= k < seenv.len() && seenv[k] == e.label@;
                    assert(seenl@[k]@ == e.label@);
                }
            }
            assert(ev[i as int] == edges@[i as int]@);
            if e.label@.len() == 0 {
                assert(e.label@ =~= Seq::<char>::empty());
            }
            assert(matches == ((ev[i as int].from, ev[i as int].to) == p && ev[i as int].label
                != Seq::<char>::empty() && ev[i as int].label != "else"@ && !seenv.contains(
                ev[i as int].label,
            )));
        }
        if matches {
            out.push(e.label.clone());
            seenl.push(e.label.clone());
            proof {
                assert(out@.map_values(|s: String| s@) =~= outv.push(ev[i as int].label));
                assert(seenl@.map_values(|s: String| s@) =~= seenv.push(ev[i as int].label));
            }
        }
        i += 1;
    }
    proof {
        assert(dlabels(ev, p, edges@.len() as int, seenl@.map_values(|s: String| s@)) =~= Seq::<
            Seq<char>,
        >::empty());
        assert(out@.map_values(|s: String| s@) =~= dlabels(ev, p, 0, Seq::empty()));
    }
    out
}

fn any_coll_exec(edges: &Vec<Edge>, from: &str, to: &str) -> (r: bool)
    ensures
        r == any_coll(edge_views(edges@), (from@, to@)),
{
    let ghost ev = edge_views(edges@);
    let mut i: usize = 0;
    while i < edges.len()
        invariant
            ev == edge_views(edges@),
            0 <= i <= edges@.len(),
            forall|k: int|
                0 <= k < i ==> !(((#[trigger] ev[k]).from, ev[k].to) == ((from@, to@))
                    && ev[k].is_collection),
        decreases edges@.len() - i,
    {
        if edges[i].is_collection && str_eq(edges[i].from.as_str(), from) && str_eq(
            edges[i].to.as_str(),
            to,
        ) {
            proof {
                let eiv = ev[i as int];
                assert(((eiv.from, eiv.to)) == ((from@, to@)) && eiv.is_collection);
            }
            return true;
        }
        i += 1;
    }
    false
}

/// Merge parallel edges between the same endpoints into one presentation
/// edge per pair: the first distinct non-empty, non-else condition label
/// is kept (or none), and the fan-out mark is OR-ed.  Consolidating an
/// already-consolidated list changes nothing.
pub fn consolidate_edge_list(edges: &Vec<Edge>) -> (r: Vec<Edge>)
    ensures
        edge_views(r@) == consolidate_spec(edge_views(edges@)),
{
    let ghost ev = edge_views(edges@);
    let mut out: Vec<Edge> = Vec::new();
    let mut seen: Vec<(String, String)> = Vec::new();
    proof {
        assert(edge_views(out@) =~= Seq::<GEdge>::empty());
        assert(epair_views(seen@) =~= Seq::<(Seq<char>, Seq<char>)>::empty());
        assert(consolidate_spec(ev) == Seq::<GEdge>::empty() + cons_from(ev, 0, Seq::empty()));
    }
    let mut i: usize = 0;
    while i < edges.len()
        invariant
            ev == edge_views(edges@),
            0 <= i <= edges@.len(),
            consolidate_spec(ev) == edge_views(out@) + cons_from(
                ev,
                i as int,
                epair_views(seen@),
            ),
        decreases edges@.len() - i,
    {
        let ghost outv = edge_views(out@);
        let ghost seenv = epair_views(seen@);
        let ghost p = (ev[i as int].from, ev[i as int].to);
        let from = edges[i].from.clone();
        let to = edges[i].to.clone();
        if !edge_pair_seen(&seen, from.as_str(), to.as_str()) {
            let ls = collect_dlabels(edges, from.as_str(), to.as_str());
            let coll = any_coll_exec(edges, from.as_str(), to.as_str());
            let label: String = if ls.len() > 0 {
                proof {
                    assert(ls@.map_values(|s: String| s@)[0] == ls@[0]@);
                }
                ls[0].clone()
            } else {
                String::new()
            };
            out.push(Edge { from: from.clone(), to: to.clone(), label, is_collection: coll });
            seen.push((from, to));
            proof {
                assert(edge_views(out@) =~= outv.push(cons_edge(ev, p)));
                assert(epair_views(seen@) =~= seenv.push(p));
            }
        }
        i += 1;
    }
    proof {
        assert(cons_from(ev, edges@.len() as int, epair_views(seen@)) =~= Seq::<GEdge>::empty());
        assert(edge_views(out@) =~= consolidate_spec(ev));
    }
    out
}

// ---------------------------------------------------------------------------
// Node styling and the reachable-graph walk
// ---------------------------------------------------------------------------

/// Whether the activity's handler creates a manual task.
pub open spec fn creates_oppgave(idx: Seq<GProcEntry>, name: Seq<char>) -> bool {
    match lookup_proc(idx, name) {
        Some(p) => p.has_manuell_behandling,
        None => false,
    }
}

/// The fill colour of a node, by first-matching precedence: marker
/// supertype, manual-task creation, then name-substring categories.
pub open spec fn node_color(cidx: Seq<GClass>, idx: Seq<GProcEntry>, name: Seq<char>) -> Seq<
    char,
> {
    if is_alde_spec(cidx, name) {
        "#9370DB"@
    } else if creates_oppgave(idx, name) {
        "#FFA500"@
    } else if contains_seq(name, "Vent"@) || contains_seq(name, "Wait"@) {
        "#FFD700"@
    } else if contains_seq(name, "Manuell"@) || contains_seq(name, "Oppgave"@) {
        "#FF6B6B"@
    } else if contains_seq(name, "Avbryt"@) || contains_seq(name, "Avslag"@) {
        "#FF4444"@
    } else if contains_seq(name, "Iverksett"@) || contains_seq(name, "Vedtak"@) {
        "#4CAF50"@
    } else {
        "#87CEEB"@
    }
}

/// The display label of a node: its shortened name, marked when the
/// activity creates a manual task.
pub open spec fn node_label(idx: Seq<GProcEntry>, name: Seq<char>) -> Seq<char> {
    if creates_oppgave(idx, name) {
        "\u{1F4CB} "@ + shorten_spec(name)
    } else {
        shorten_spec(name)
    }
}

/// The node-definition line for an activity.
pub open spec fn node_def_spec(cidx: Seq<GClass>, idx: Seq<GProcEntry>, name: Seq<char>) -> Seq<
    char,
> {
    "\""@ + esc_seq(name) + "\" [label=\""@ + esc_seq(node_label(idx, name))
        + "\", style=filled, fillcolor=\""@ + node_color(cidx, idx, name) + "\"]"@
}

/// The definition line of the synthetic end terminal.
pub open spec fn end_def_spec() -> Seq<char> {
    "end [label=\"END\", shape=circle, style=filled, fillcolor=\"#FFB6C1\"]"@
}

/// The identifier of the unknown terminal standing in for `name`.
pub open spec fn unknown_id(name: Seq<char>) -> Seq<char> {
    "unknown_"@ + name
}

/// The definition line of an unknown terminal.
pub open spec fn unknown_def_spec(name: Seq<char>) -> Seq<char> {
    esc_seq(unknown_id(name)) + " [label=\"?\", shape=diamond, style=filled, fillcolor=\"#CCCCCC\"]"@
}

fn node_color_exec(name: &str, class_index: &ClassIndex, processor_index: &ProcessorIndex) -> (r:
    &'static str)
    ensures
        r@ == node_color(class_index@, processor_index@, name@),
{
    let oppgave = match processor_index.get(name) {
        Some(p) => p.has_manuell_behandling,
        None => false,
    };
    if is_alde_aktivitet(name, class_index) {
        "#9370DB"
    } else if oppgave {
        "#FFA500"
    } else if str_contains(name, "Vent") || str_contains(name, "Wait") {
        "#FFD700"
    } else if str_contains(name, "Manuell") || str_contains(name, "Oppgave") {
        "#FF6B6B"
    } else if str_contains(name, "Avbryt") || str_contains(name, "Avslag") {
        "#FF4444"
    } else if str_contains(name, "Iverksett") || str_contains(name, "Vedtak") {
        "#4CAF50"
    } else {
        "#87CEEB"
    }
}

fn node_def_exec(name: &str, class_index: &ClassIndex, processor_index: &ProcessorIndex) -> (r:
    String)
    ensures
        r@ == node_def_spec(class_index@, processor_index@, name@),
{
    let oppgave = match processor_index.get(name) {
        Some(p) => p.has_manuell_behandling,
        None => false,
    };
    let display = shorten_aktivitet_name(name);
    let label: String = if oppgave {
        let mut l = "\u{1F4CB} ".to_owned();
        l.append(display.as_str());
        l
    } else {
        display
    };
    let color = node_color_exec(name, class_index, processor_index);
    let en = escape_label(name);
    let el = escape_label(label.as_str());
    let mut r = "\"".to_owned();
    r.append(en.as_str());
    r.append("\" [label=\"");
    r.append(el.as_str());
    r.append("\", style=filled, fillcolor=\"");
    r.append(color);
    r.append("\"]");
    r
}

/// The walk state after expanding `name`: the visited set, the node
/// definitions added, and the edges added.
pub open spec fn bdn_node(
    cidx: Seq<GClass>,
    idx: Seq<GProcEntry>,
    name: Seq<char>,
    vis: Seq<Seq<char>>,
    visiting: Seq<Seq<char>>,
    fuel: nat,
) -> (Seq<Seq<char>>, Seq<Seq<char>>, Seq<GEdge>)
    decreases fuel, 1int, 0int,
{
    if vis.contains(name) || visiting.contains(name) {
        (vis, Seq::empty(), Seq::empty())
    } else {
        let vis2 = vis.push(name);
        let def0 = seq![node_def_spec(cidx, idx, name)];
        match lookup_proc(idx, name) {
            None => (
                vis2,
                def0 + seq![unknown_def_spec(name)],
                seq![
                    GEdge {
                        from: name,
                        to: unknown_id(name),
                        label: Seq::empty(),
                        is_collection: false,
                    },
                ],
            ),
            Some(p) => {
                if p.transitions.len() == 0 {
                    (
                        vis2,
                        def0 + seq![end_def_spec()],
                        seq![
                            GEdge {
                                from: name,
                                to: "end"@,
                                label: Seq::empty(),
                                is_collection: false,
                            },
                        ],
                    )
                } else {
                    let r = bdn_list(
                        cidx,
                        idx,
                        name,
                        p.transitions,
                        0,
                        p.transitions.len() > 1,
                        vis2,
                        visiting.push(name),
                        fuel,
                    );
                    (r.0, def0 + r.1, r.2)
                }
            },
        }
    }
}

/// Fold [`bdn_node`] over the transitions of `from`, from `k` on, emitting
/// one edge per transition.
pub open spec fn bdn_list(
    cidx: Seq<GClass>,
    idx: Seq<GProcEntry>,
    from: Seq<char>,
    ts: Seq<GTransition>,
    k: int,
    multi: bool,
    vis: Seq<Seq<char>>,
    visiting: Seq<Seq<char>>,
    fuel: nat,
) -> (Seq<Seq<char>>, Seq<Seq<char>>, Seq<GEdge>)
    decreases fuel, 0int, ts.len() - k,
{
    if !(0 <= k < ts.len()) {
        (vis, Seq::empty(), Seq::empty())
    } else {
        let label = match ts[k].condition {
            Some(c) => format_condition_spec(c),
            None => if multi {
                "else"@
            } else {
                Seq::empty()
            },
        };
        let edge = GEdge {
            from: from,
            to: ts[k].target,
            label: label,
            is_collection: ts[k].is_collection,
        };
        let m: (Seq<Seq<char>>, Seq<Seq<char>>, Seq<GEdge>) = if fuel > 0 {
            bdn_node(cidx, idx, ts[k].target, vis, visiting, (fuel - 1) as nat)
        } else {
            (vis, Seq::empty(), Seq::empty())
        };
        let r = bdn_list(cidx, idx, from, ts, k + 1, multi, m.0, visiting, fuel);
        (r.0, m.1 + r.1, seq![edge] + m.2 + r.2)
    }
}

/// Walk the reachable graph from `aktivitet_name`, collecting node
/// definitions and edges: an activity without a processor gets an unknown
/// terminal, one without transitions gets the end terminal, and every
/// transition becomes one edge labelled with its formatted condition (or
/// the synthetic else marker on a multi-way branch).
pub fn build_dot_nodes(
    aktivitet_name: &str,
    processor_index: &ProcessorIndex,
    class_index: &ClassIndex,
    visited_nodes: &mut Vec<String>,
    node_definitions: &mut Vec<String>,
    edges: &mut Vec<Edge>,
    visiting: &mut Vec<String>,
)
    ensures
        forall|fuel: nat|
            fuel >= crate::graph::ucount(processor_index@, crate::graph::str_views(
                old(visited_nodes)@,
            )) + 1 ==> {
                let r = #[trigger] bdn_node(
                    class_index@,
                    processor_index@,
                    aktivitet_name@,
                    crate::graph::str_views(old(visited_nodes)@),
                    crate::graph::str_views(old(visiting)@),
                    fuel,
                );
                crate::graph::str_views(final(visited_nodes)@) == r.0 && crate::graph::str_views(
                    final(node_definitions)@,
                ) == crate::graph::str_views(old(node_definitions)@) + r.1 && edge_views(
                    final(edges)@,
                ) == edge_views(old(edges)@) + r.2
            },
        final(visiting)@ == old(visiting)@,
        final(visited_nodes)@.len() >= old(visited_nodes)@.len()
            && final(visited_nodes)@.take(old(visited_nodes)@.len() as int) == old(
            visited_nodes,
        )@,
    decreases crate::graph::ucount(processor_index@, crate::graph::str_views(visited_nodes@)),
        0int,
        0int,
{
    let ghost cidx = class_index@;
    let ghost idx = processor_index@;
    let ghost visv = crate::graph::str_views(visited_nodes@);
    let ghost vgv = crate::graph::str_views(visiting@);
    let in_vis = crate::strutil::vec_contains_str(visited_nodes, aktivitet_name);
    let in_visiting = crate::strutil::vec_contains_str(visiting, aktivitet_name);
    proof {
        assert(crate::strutil::seq_contains_str(visited_nodes@, aktivitet_name@) == visv.contains(
            aktivitet_name@,
        )) by {
            if crate::strutil::seq_contains_str(visited_nodes@, aktivitet_name@) {
                let i = choose|i: int|
                    0 <= i < visited_nodes@.len() && visited_nodes@[i]@ == aktivitet_name@;
                assert(visv[i] == aktivitet_name@);
            }
            if visv.contains(aktivitet_name@) {
                let i = choose|i: int| 0 <= i < visv.len() && visv[i] == aktivitet_name@;
                assert(visited_nodes@[i]@ == aktivitet_name@);
            }
        }
        assert(crate::strutil::seq_contains_str(visiting@, aktivitet_name@) == vgv.contains(
            aktivitet_name@,
        )) by {
            if crate::strutil::seq_contains_str(visiting@, aktivitet_name@) {
                let i = choose|i: int|
                    0 <= i < visiting@.len() && visiting@[i]@ == aktivitet_name@;
                assert(vgv[i] == aktivitet_name@);
            }
            if vgv.contains(aktivitet_name@) {
                let i = choose|i: int| 0 <= i < vgv.len() && vgv[i] == aktivitet_name@;
                assert(visiting@[i]@ == aktivitet_name@);
            }
        }
    }
    if in_vis || in_visiting {
        proof {
            assert(visited_nodes@.take(visited_nodes@.len() as int) =~= visited_nodes@);
            assert forall|fuel: nat|
                fuel >= crate::graph::ucount(idx, visv) + 1 implies {
                let r = #[trigger] bdn_node(cidx, idx, aktivitet_name@, visv, vgv, fuel);
                crate::graph::str_views(visited_nodes@) == r.0 && crate::graph::str_views(
                    node_definitions@,
                ) == crate::graph::str_views(old(node_definitions)@) + r.1 && edge_views(edges@)
                    == edge_views(old(edges)@) + r.2
            } by {
                assert(crate::graph::str_views(node_definitions@) =~= crate::graph::str_views(
                    old(node_definitions)@,
                ) + Seq::<Seq<char>>::empty());
                assert(edge_views(edges@) =~= edge_views(old(edges)@) + Seq::<GEdge>::empty());
            }
        }
        return ;
    }
    visited_nodes.push(aktivitet_name.to_owned());
    proof {
        assert(crate::graph::str_views(visited_nodes@) =~= visv.push(aktivitet_name@));
        assert(visited_nodes@.take(visited_nodes@.len() - 1) =~= old(visited_nodes)@);
    }
    let def = node_def_exec(aktivitet_name, class_index, processor_index);
    let ghost defs_pre = crate::graph::str_views(node_definitions@);
    node_definitions.push(def);
    proof {
        assert(crate::graph::str_views(node_definitions@) =~= defs_pre.push(
            node_def_spec(cidx, idx, aktivitet_name@),
        ));
    }
    match processor_index.get(aktivitet_name) {
        None => {
            let mut uid = "unknown_".to_owned();
            uid.append(aktivitet_name);
            let ghost uidv = uid@;
            let eud = escape_label(uid.as_str());
            let mut udef = eud;
            udef.append(" [label=\"?\", shape=diamond, style=filled, fillcolor=\"#CCCCCC\"]");
            node_definitions.push(udef);
            let ghost edges_pre = edge_views(edges@);
            edges.push(
                Edge {
                    from: aktivitet_name.to_owned(),
                    to: uid,
                    label: String::new(),
                    is_collection: false,
                },
            );
            proof {
                assert(uidv == unknown_id(aktivitet_name@));
                assert(crate::graph::str_views(node_definitions@) =~= defs_pre + (seq![
                    node_def_spec(cidx, idx, aktivitet_name@),
                ] + seq![unknown_def_spec(aktivitet_name@)]));
                assert(edge_views(edges@) =~= edges_pre + seq![
                    GEdge {
                        from: aktivitet_name@,
                        to: unknown_id(aktivitet_name@),
                        label: Seq::empty(),
                        is_collection: false,
                    },
                ]);
                assert forall|fuel: nat|
                    fuel >= crate::graph::ucount(idx, visv) + 1 implies {
                    let r = #[trigger] bdn_node(cidx, idx, aktivitet_name@, visv, vgv, fuel);
                    crate::graph::str_views(visited_nodes@) == r.0 && crate::graph::str_views(
                        node_definitions@,
                    ) == defs_pre + r.1 && edge_views(edges@) == edges_pre + r.2
                } by {}
            }
        },
        Some(p) => {
            if p.next_aktiviteter.len() == 0 {
                proof {
                    reveal_strlit("end");
                }
                node_definitions.push(
                    "end [label=\"END\", shape=circle, style=filled, fillcolor=\"#FFB6C1\"]".to_owned(),
                );
                let ghost edges_pre = edge_views(edges@);
                edges.push(
                    Edge {
                        from: aktivitet_name.to_owned(),
                        to: "end".to_owned(),
                        label: String::new(),
                        is_collection: false,
                    },
                );
                proof {
                    assert(trans_views(p.next_aktiviteter@) =~= Seq::<GTransition>::empty());
                    assert(crate::graph::str_views(node_definitions@) =~= defs_pre + (seq![
                        node_def_spec(cidx, idx, aktivitet_name@),
                    ] + seq![end_def_spec()]));
                    assert(edge_views(edges@) =~= edges_pre + seq![
                        GEdge {
                            from: aktivitet_name@,
                            to: "end"@,
                            label: Seq::empty(),
                            is_collection: false,
                        },
                    ]);
                    assert forall|fuel: nat|
                        fuel >= crate::graph::ucount(idx, visv) + 1 implies {
                        let r = #[trigger] bdn_node(cidx, idx, aktivitet_name@, visv, vgv, fuel);
                        crate::graph::str_views(visited_nodes@) == r.0
                            && crate::graph::str_views(node_definitions@) == defs_pre + r.1
                            && edge_views(edges@) == edges_pre + r.2
                    } by {}
                }
            } else {
                let multi = p.next_aktiviteter.len() > 1;
                let ghost edges_pre = edge_views(edges@);
                visiting.push(aktivitet_name.to_owned());
                proof {
                    assert(crate::graph::str_views(visiting@) =~= vgv.push(aktivitet_name@));
                    crate::graph::lemma_ucount_push_key(idx, visv, aktivitet_name@);
                    crate::graph::lemma_ucount_le(idx, visv.push(aktivitet_name@));
                }
                bdn_list_exec(
                    aktivitet_name,
                    &p.next_aktiviteter,
                    0,
                    multi,
                    processor_index,
                    class_index,
                    visited_nodes,
                    node_definitions,
                    edges,
                    visiting,
                );
                visiting.pop();
                proof {
                    assert(visiting@ =~= old(visiting)@);
                    assert forall|fuel: nat|
                        fuel >= crate::graph::ucount(idx, visv) + 1 implies {
                        let r = #[trigger] bdn_node(cidx, idx, aktivitet_name@, visv, vgv, fuel);
                        crate::graph::str_views(visited_nodes@) == r.0
                            && crate::graph::str_views(node_definitions@)
                            == crate::graph::str_views(old(node_definitions)@) + r.1
                            && edge_views(edges@) == edges_pre + r.2
                    } by {
                        let rl = bdn_list(
                            cidx,
                            idx,
                            aktivitet_name@,
                            trans_views(p.next_aktiviteter@),
                            0,
                            multi,
                            visv.push(aktivitet_name@),
                            vgv.push(aktivitet_name@),
                            fuel,
                        );
                        assert(fuel >= crate::graph::ucount(idx, visv.push(aktivitet_name@))
                            + 2);
                        assert(crate::graph::str_views(visited_nodes@) == rl.0);
                        assert(crate::graph::str_views(node_definitions@) == defs_pre.push(
                            node_def_spec(cidx, idx, aktivitet_name@),
                        ) + rl.1);
                        assert(crate::graph::str_views(node_definitions@)
                            =~= crate::graph::str_views(old(node_definitions)@) + (seq![
                            node_def_spec(cidx, idx, aktivitet_name@),
                        ] + rl.1));
                    }
                }
            }
        },
    }
}

#[verifier::rlimit(50)]
fn bdn_list_exec(
    from: &str,
    ts: &Vec<crate::model::NextAktivitet>,
    k: usize,
    multi: bool,
    processor_index: &ProcessorIndex,
    class_index: &ClassIndex,
    visited_nodes: &mut Vec<String>,
    node_definitions: &mut Vec<String>,
    edges: &mut Vec<Edge>,
    visiting: &mut Vec<String>,
)
    requires
        k <= ts@.len(),
    ensures
        forall|fuel: nat|
            fuel >= crate::graph::ucount(processor_index@, crate::graph::str_views(
                old(visited_nodes)@,
            )) + 2 ==> {
                let r = #[trigger] bdn_list(
                    class_index@,
                    processor_index@,
                    from@,
                    trans_views(ts@),
                    k as int,
                    multi,
                    crate::graph::str_views(old(visited_nodes)@),
                    crate::graph::str_views(old(visiting)@),
                    fuel,
                );
                crate::graph::str_views(final(visited_nodes)@) == r.0 && crate::graph::str_views(
                    final(node_definitions)@,
                ) == crate::graph::str_views(old(node_definitions)@) + r.1 && edge_views(
                    final(edges)@,
                ) == edge_views(old(edges)@) + r.2
            },
        final(visiting)@ == old(visiting)@,
        final(visited_nodes)@.len() >= old(visited_nodes)@.len()
            && final(visited_nodes)@.take(old(visited_nodes)@.len() as int) == old(
            visited_nodes,
        )@,
    decreases crate::graph::ucount(processor_index@, crate::graph::str_views(visited_nodes@)),
        1int,
        ts@.len() - k,
{
    if k >= ts.len() {
        proof {
            assert(visited_nodes@.take(visited_nodes@.len() as int) =~= visited_nodes@);
            assert(crate::graph::str_views(node_definitions@) =~= crate::graph::str_views(
                node_definitions@,
            ) + Seq::<Seq<char>>::empty());
            assert(edge_views(edges@) =~= edge_views(edges@) + Seq::<GEdge>::empty());
        }
        return ;
    }
    let ghost cidx = class_index@;
    let ghost idx = processor_index@;
    let ghost visv = crate::graph::str_views(visited_nodes@);
    let ghost vgv = crate::graph::str_views(visiting@);
    let ghost tsv = trans_views(ts@);
    let t = &ts[k];
    let label: String = match &t.condition {
        Some(c) => format_condition_label(c.as_str()),
        None => {
            if multi {
                proof {
                    reveal_strlit("else");
                }
                "else".to_owned()
            } else {
                String::new()
            }
        },
    };
    let ghost edges_pre = edge_views(edges@);
    edges.push(
        Edge {
            from: from.to_owned(),
            to: t.aktivitet_name.clone(),
            label,
            is_collection: t.is_collection,
        },
    );
    let ghost the_edge = GEdge {
        from: from@,
        to: tsv[k as int].target,
        label: (match tsv[k as int].condition {
            Some(c) => format_condition_spec(c),
            None => if multi {
                "else"@
            } else {
                Seq::<char>::empty()
            },
        }),
        is_collection: tsv[k as int].is_collection,
    };
    proof {
        assert(edge_views(edges@) =~= edges_pre.push(the_edge));
    }
    build_dot_nodes(
        t.aktivitet_name.as_str(),
        processor_index,
        class_index,
        visited_nodes,
        node_definitions,
        edges,
        visiting,
    );
    let ghost vismid = crate::graph::str_views(visited_nodes@);
    let ghost vismid_vec = visited_nodes@;
    let ghost defsmid = crate::graph::str_views(node_definitions@);
    let ghost edgesmid = edge_views(edges@);
    proof {
        crate::graph::lemma_str_prefix_contains(old(visited_nodes)@, vismid_vec);
        crate::graph::lemma_ucount_mono(idx, visv, vismid);
        crate::graph::lemma_ucount_le(idx, vismid);
    }
    bdn_list_exec(
        from,
        ts,
        k + 1,
        multi,
        processor_index,
        class_index,
        visited_nodes,
        node_definitions,
        edges,
        visiting,
    );
    proof {
        assert forall|fuel: nat|
            fuel >= crate::graph::ucount(idx, visv) + 2 implies {
            let r = #[trigger] bdn_list(cidx, idx, from@, tsv, k as int, multi, visv, vgv, fuel);
            crate::graph::str_views(visited_nodes@) == r.0 && crate::graph::str_views(
                node_definitions@,
            ) == crate::graph::str_views(old(node_definitions)@) + r.1 && edge_views(edges@)
                == edge_views(old(edges)@) + r.2
        } by {
            crate::graph::lemma_ucount_le(idx, visv);
            assert(fuel > 0);
            let m = bdn_node(cidx, idx, tsv[k as int].target, visv, vgv, (fuel - 1) as nat);
            assert(vismid == m.0 && defsmid == crate::graph::str_views(old(node_definitions)@)
                + m.1 && edgesmid == edge_views(old(edges)@).push(the_edge) + m.2) by {
                assert(fuel - 1 >= crate::graph::ucount(idx, visv) + 1);
                assert(edgesmid == edges_pre.push(the_edge) + m.2);
            }
            let r2 = bdn_list(cidx, idx, from@, tsv, k + 1, multi, vismid, vgv, fuel);
            assert(crate::graph::str_views(visited_nodes@) == r2.0);
            assert(crate::graph::str_views(node_definitions@) == defsmid + r2.1);
            assert(edge_views(edges@) == edgesmid + r2.2);
            assert(crate::graph::str_views(node_definitions@) =~= crate::graph::str_views(
                old(node_definitions)@,
            ) + (m.1 + r2.1));
            assert(edge_views(edges@) =~= edge_views(old(edges)@) + (seq![the_edge] + m.2
                + r2.2));
        }
        assert forall|i: int|
            0 <= i < old(visited_nodes)@.len() implies visited_nodes@[i] == old(
            visited_nodes,
        )@[i] by {
            assert(visited_nodes@.take(vismid_vec.len() as int)[i] == visited_nodes@[i]);
            assert(vismid_vec.take(old(visited_nodes)@.len() as int)[i] == vismid_vec[i]);
        }
        assert(visited_nodes@.take(old(visited_nodes)@.len() as int) =~= old(visited_nodes)@);
    }
}

// ---------------------------------------------------------------------------
// Formatted edge lines
// ---------------------------------------------------------------------------

/// All condition labels of the edges with endpoint pair `p`, from `i` on.
pub open spec fn labels_of(es: Seq<GEdge>, p: (Seq<char>, Seq<char>), i: int) -> Seq<Seq<char>>
    decreases es.len() - i,
{
    if !(0 <= i < es.len()) {
        Seq::empty()
    } else {
        let here: Seq<Seq<char>> = if (es[i].from, es[i].to) == p {
            seq![es[i].label]
        } else {
            Seq::empty()
        };
        here + labels_of(es, p, i + 1)
    }
}

/// A plain edge line.
pub open spec fn line_plain(p: (Seq<char>, Seq<char>)) -> Seq<char> {
    "\""@ + esc_seq(p.0) + "\" -> \""@ + esc_seq(p.1) + "\""@
}

/// A dashed edge line into an unknown terminal.
pub open spec fn line_dashed(p: (Seq<char>, Seq<char>)) -> Seq<char> {
    "\""@ + esc_seq(p.0) + "\" -> "@ + esc_seq(p.1) + " [style=dashed]"@
}

/// A back-edge line, optionally labelled.
pub open spec fn line_cycle(p: (Seq<char>, Seq<char>), lab: Option<Seq<char>>) -> Seq<char> {
    match lab {
        Some(l) => "\""@ + esc_seq(p.0) + "\" -> \""@ + esc_seq(p.1) + "\" [label=\""@ + esc_seq(
            l,
        ) + "\", color=\"#FF6B6B\", penwidth=2, style=bold, constraint=false]"@,
        None => "\""@ + esc_seq(p.0) + "\" -> \""@ + esc_seq(p.1)
            + "\" [color=\"#FF6B6B\", penwidth=2, style=bold, constraint=false]"@,
    }
}

/// A fan-out edge line, optionally labelled.
pub open spec fn line_coll(p: (Seq<char>, Seq<char>), lab: Option<Seq<char>>) -> Seq<char> {
    match lab {
        Some(l) => "\""@ + esc_seq(p.0) + "\" -> \""@ + esc_seq(p.1) + "\" [label=\""@ + esc_seq(
            l,
        ) + " (multiple)\", color=\"#4CAF50\", penwidth=2, style=bold]"@,
        None => "\""@ + esc_seq(p.0) + "\" -> \""@ + esc_seq(p.1)
            + "\" [label=\"multiple\", color=\"#4CAF50\", penwidth=2, style=bold]"@,
    }
}

/// A labelled edge line.
pub open spec fn line_labelled(p: (Seq<char>, Seq<char>), l: Seq<char>) -> Seq<char> {
    "\""@ + esc_seq(p.0) + "\" -> \""@ + esc_seq(p.1) + "\" [label=\""@ + esc_seq(l) + "\"]"@
}

/// The first distinct label truncated to forty characters with an
/// ellipsis.
pub open spec fn truncate40(l: Seq<char>) -> Seq<char> {
    if l.len() > 40 {
        l.subrange(0, 40) + "..."@
    } else {
        l
    }
}

/// The consolidated presentation line for pair `p`, by precedence:
/// unknown-target dashing (always, regardless of the other rules),
/// back-edge styling, fan-out styling (possibly combined with a label), a
/// single distinct label, the first of several labels truncated, or
/// nothing.
pub open spec fn line_for(
    es: Seq<GEdge>,
    p: (Seq<char>, Seq<char>),
    cyc: Seq<(Seq<char>, Seq<char>)>,
    show: bool,
) -> Seq<char> {
    let raw = labels_of(es, p, 0);
    let nels: Seq<Seq<char>> = if show {
        dlabels(es, p, 0, Seq::empty())
    } else {
        Seq::empty()
    };
    let single_empty = raw.len() == 1 && raw[0] == Seq::<char>::empty();
    let is_cyc = cyc.contains(p);
    let is_coll = any_coll(es, p);
    if starts_with_seq(p.1, "unknown_"@) {
        line_dashed(p)
    } else if !show || single_empty {
        if is_cyc {
            line_cycle(p, None)
        } else if is_coll {
            line_coll(p, None)
        } else {
            line_plain(p)
        }
    } else if nels.len() == 0 {
        if is_cyc {
            line_cycle(p, None)
        } else if is_coll {
            line_coll(p, None)
        } else {
            line_plain(p)
        }
    } else if nels.len() == 1 {
        if is_cyc {
            line_cycle(p, Some(nels[0]))
        } else if is_coll {
            line_coll(p, Some(nels[0]))
        } else {
            line_labelled(p, nels[0])
        }
    } else {
        if is_cyc {
            line_cycle(p, Some(truncate40(nels[0])))
        } else if is_coll {
            line_coll(p, Some(truncate40(nels[0])))
        } else {
            line_labelled(p, truncate40(nels[0]))
        }
    }
}

/// One consolidated line per endpoint pair, in first-occurrence order.
pub open spec fn cons_lines(
    es: Seq<GEdge>,
    i: int,
    seen: Seq<(Seq<char>, Seq<char>)>,
    cyc: Seq<(Seq<char>, Seq<char>)>,
    show: bool,
) -> Seq<Seq<char>>
    decreases es.len() - i,
{
    if !(0 <= i < es.len()) {
        Seq::empty()
    } else {
        let p = (es[i].from, es[i].to);
        if seen.contains(p) {
            cons_lines(es, i + 1, seen, cyc, show)
        } else {
            seq![line_for(es, p, cyc, show)] + cons_lines(es, i + 1, seen.push(p), cyc, show)
        }
    }
}

fn collect_raw_labels(edges: &Vec<Edge>, from: &str, to: &str) -> (r: Vec<String>)
    ensures
        r@.map_values(|s: String| s@) == labels_of(edge_views(edges@), (from@, to@), 0),
{
    let ghost ev = edge_views(edges@);
    let ghost p = (from@, to@);
    let mut out: Vec<String> = Vec::new();
    proof {
        assert(out@.map_values(|s: String| s@) =~= Seq::<Seq<char>>::empty());
    }
    let mut i: usize = 0;
    while i < edges.len()
        invariant
            ev == edge_views(edges@),
            p == (from@, to@),
            0 <= i <= edges@.len(),
            labels_of(ev, p, 0) == out@.map_values(|s: String| s@) + labels_of(ev, p, i as int),
        decreases edges@.len() - i,
    {
        let ghost outv = out@.map_values(|s: String| s@);
        if str_eq(edges[i].from.as_str(), from) && str_eq(edges[i].to.as_str(), to) {
            out.push(edges[i].label.clone());
            proof {
                assert(out@.map_values(|s: String| s@) =~= outv.push(ev[i as int].label));
            }
        }
        i += 1;
    }
    proof {
        assert(labels_of(ev, p, edges@.len() as int) =~= Seq::<Seq<char>>::empty());
        assert(out@.map_values(|s: String| s@) =~= labels_of(ev, p, 0));
    }
    out
}

fn line_for_exec(
    edges: &Vec<Edge>,
    from: &str,
    to: &str,
    cycle_edges: &Vec<(String, String)>,
    show_conditions: bool,
) -> (r: String)
    ensures
        r@ == line_for(
            edge_views(edges@),
            (from@, to@),
            epair_views(cycle_edges@),
            show_conditions,
        ),
{
    proof {
        reveal_strlit("");
    }
    let raw = collect_raw_labels(edges, from, to);
    let single_empty = raw.len() == 1 && raw[0].unicode_len() == 0;
    proof {
        let rawv = raw@.map_values(|s: String| s@);
        if raw@.len() == 1 {
            assert(rawv[0] == raw@[0]@);
            if raw@[0]@.len() == 0 {
                assert(raw@[0]@ =~= Seq::<char>::empty());
            }
        }
    }
    let is_cyc = edge_pair_seen(cycle_edges, from, to);
    let is_coll = any_coll_exec(edges, from, to);
    let ef = escape_label(from);
    let et = escape_label(to);
    if str_starts_with(to, "unknown_") {
        let mut r = "\"".to_owned();
        r.append(ef.as_str());
        r.append("\" -> ");
        r.append(et.as_str());
        r.append(" [style=dashed]");
        r
    } else if !show_conditions || single_empty {
        if is_cyc {
            let mut r = "\"".to_owned();
            r.append(ef.as_str());
            r.append("\" -> \"");
            r.append(et.as_str());
            r.append("\" [color=\"#FF6B6B\", penwidth=2, style=bold, constraint=false]");
            r
        } else if is_coll {
            let mut r = "\"".to_owned();
            r.append(ef.as_str());
            r.append("\" -> \"");
            r.append(et.as_str());
            r.append("\" [label=\"multiple\", color=\"#4CAF50\", penwidth=2, style=bold]");
            r
        } else {
            let mut r = "\"".to_owned();
            r.append(ef.as_str());
            r.append("\" -> \"");
            r.append(et.as_str());
            r.append("\"");
            r
        }
    } else {
        let nels = collect_dlabels(edges, from, to);
        if nels.len() == 0 {
            if is_cyc {
                let mut r = "\"".to_owned();
                r.append(ef.as_str());
                r.append("\" -> \"");
                r.append(et.as_str());
                r.append("\" [color=\"#FF6B6B\", penwidth=2, style=bold, constraint=false]");
                r
            } else if is_coll {
                let mut r = "\"".to_owned();
                r.append(ef.as_str());
                r.append("\" -> \"");
                r.append(et.as_str());
                r.append("\" [label=\"multiple\", color=\"#4CAF50\", penwidth=2, style=bold]");
                r
            } else {
                let mut r = "\"".to_owned();
                r.append(ef.as_str());
                r.append("\" -> \"");
                r.append(et.as_str());
                r.append("\"");
                r
            }
        } else {
            proof {
                assert(nels@.map_values(|s: String| s@)[0] == nels@[0]@);
            }
            if nels.len() == 1 {
                let el = escape_label(nels[0].as_str());
                if is_cyc {
                    let mut r = "\"".to_owned();
                    r.append(ef.as_str());
                    r.append("\" -> \"");
                    r.append(et.as_str());
                    r.append("\" [label=\"");
                    r.append(el.as_str());
                    r.append("\", color=\"#FF6B6B\", penwidth=2, style=bold, constraint=false]");
                    r
                } else if is_coll {
                    let mut r = "\"".to_owned();
                    r.append(ef.as_str());
                    r.append("\" -> \"");
                    r.append(et.as_str());
                    r.append("\" [label=\"");
                    r.append(el.as_str());
                    r.append(" (multiple)\", color=\"#4CAF50\", penwidth=2, style=bold]");
                    r
                } else {
                    let mut r = "\"".to_owned();
                    r.append(ef.as_str());
                    r.append("\" -> \"");
                    r.append(et.as_str());
                    r.append("\" [label=\"");
                    r.append(el.as_str());
                    r.append("\"]");
                    r
                }
            } else {
                let sample = &nels[0];
                let truncated: String = if sample.unicode_len() > 40 {
                    let mut tr = sample.as_str().substring_char(0, 40).to_owned();
                    tr.append("...");
                    tr
                } else {
                    sample.clone()
                };
                proof {
                    assert(truncated@ == truncate40(nels@[0]@));
                }
                let el = escape_label(truncated.as_str());
                if is_cyc {
                    let mut r = "\"".to_owned();
                    r.append(ef.as_str());
                    r.append("\" -> \"");
                    r.append(et.as_str());
                    r.append("\" [label=\"");
                    r.append(el.as_str());
                    r.append("\", color=\"#FF6B6B\", penwidth=2, style=bold, constraint=false]");
                    r
                } else if is_coll {
                    let mut r = "\"".to_owned();
                    r.append(ef.as_str());
                    r.append("\" -> \"");
                    r.append(et.as_str());
                    r.append("\" [label=\"");
                    r.append(el.as_str());
                    r.append(" (multiple)\", color=\"#4CAF50\", penwidth=2, style=bold]");
                    r
                } else {
                    let mut r = "\"".to_owned();
                    r.append(ef.as_str());
                    r.append("\" -> \"");
                    r.append(et.as_str());
                    r.append("\" [label=\"");
                    r.append(el.as_str());
                    r.append("\"]");
                    r
                }
            }
        }
    }
}

/// Produce one formatted presentation line per endpoint pair, merging
/// parallel edges, in first-occurrence order.
pub fn consolidate_edges(
    edges: &Vec<Edge>,
    cycle_edges: &Vec<(String, String)>,
    show_conditions: bool,
) -> (r: Vec<String>)
    ensures
        r@.map_values(|s: String| s@) == cons_lines(
            edge_views(edges@),
            0,
            Seq::empty(),
            epair_views(cycle_edges@),
            show_conditions,
        ),
{
    let ghost ev = edge_views(edges@);
    let ghost cyc = epair_views(cycle_edges@);
    let mut out: Vec<String> = Vec::new();
    let mut seen: Vec<(String, String)> = Vec::new();
    proof {
        assert(out@.map_values(|s: String| s@) =~= Seq::<Seq<char>>::empty());
        assert(epair_views(seen@) =~= Seq::<(Seq<char>, Seq<char>)>::empty());
    }
    let mut i: usize = 0;
    while i < edges.len()
        invariant
            ev == edge_views(edges@),
            cyc == epair_views(cycle_edges@),
            0 <= i <= edges@.len(),
            cons_lines(ev, 0, Seq::empty(), cyc, show_conditions) == out@.map_values(
                |s: String| s@,
            ) + cons_lines(ev, i as int, epair_views(seen@), cyc, show_conditions),
        decreases edges@.len() - i,
    {
        let ghost outv = out@.map_values(|s: String| s@);
        let ghost seenv = epair_views(seen@);
        let ghost p = (ev[i as int].from, ev[i as int].to);
        let from = edges[i].from.clone();
        let to = edges[i].to.clone();
        if !edge_pair_seen(&seen, from.as_str(), to.as_str()) {
            let line = line_for_exec(edges, from.as_str(), to.as_str(), cycle_edges, show_conditions);
            out.push(line);
            seen.push((from, to));
            proof {
                assert(out@.map_values(|s: String| s@) =~= outv.push(
                    line_for(ev, p, cyc, show_conditions),
                ));
                assert(epair_views(seen@) =~= seenv.push(p));
            }
        }
        i += 1;
    }
    proof {
        assert(cons_lines(ev, edges@.len() as int, epair_views(seen@), cyc, show_conditions)
            =~= Seq::<Seq<char>>::empty());
        assert(out@.map_values(|s: String| s@) =~= cons_lines(
            ev,
            0,
            Seq::empty(),
            cyc,
            show_conditions,
        ));
    }
    out
}

// ---------------------------------------------------------------------------
// Document assembly
// ---------------------------------------------------------------------------

/// The splines setting for an edge-style name.
pub open spec fn splines_of(style: Seq<char>) -> Seq<char> {
    if style == "straight"@ || style == "polyline"@ {
        "  splines=polyline;\n"@
    } else if style == "ortho"@ || style == "orthogonal"@ {
        "  splines=ortho;\n"@
    } else if style == "curved"@ || style == "spline"@ {
        "  splines=spline;\n"@
    } else {
        "  splines=polyline;\n"@
    }
}

/// The document preamble: graph attributes, title, and the start terminal
/// wired to the entry activity.
pub open spec fn doc_header(name: Seq<char>, initial: Seq<char>, style: Seq<char>) -> Seq<char> {
    "digraph BehandlingFlow {\n"@ + "  rankdir=TB;\n"@ + splines_of(style)
        + "  node [shape=box, style=rounded, fontname=\"Arial\"];\n"@
        + "  edge [fontname=\"Arial\", fontsize=10];\n\n"@ + "  labelloc=\"t\";\n  label=\""@
        + name + " Flow\";\n  fontsize=16;\n\n"@
        + "  start [label=\"START\", shape=circle, style=filled, fillcolor=\"#90EE90\"];\n"@
        + "  start -> \""@ + esc_seq(initial) + "\";\n\n"@
}

/// Whether some node definition line mentions the quoted escaped node name.
pub open spec fn def_mentions(defs: Seq<Seq<char>>, node: Seq<char>) -> bool {
    exists|d: int|
        0 <= d < defs.len() && contains_seq(#[trigger] defs[d], "\""@ + esc_seq(node) + "\""@)
}

/// The member lines of an iteration cluster, for nodes that have a
/// definition.
pub open spec fn iter_nodes_lines(ns: Seq<Seq<char>>, k: int, defs: Seq<Seq<char>>) -> Seq<char>
    decreases ns.len() - k,
{
    if !(0 <= k < ns.len()) {
        Seq::empty()
    } else {
        let here: Seq<char> = if def_mentions(defs, ns[k]) {
            "    \""@ + esc_seq(ns[k]) + "\";\n"@
        } else {
            Seq::empty()
        };
        here + iter_nodes_lines(ns, k + 1, defs)
    }
}

/// One iteration-cluster block.
pub open spec fn iter_cluster(g: crate::model::GIterationGroup, gi: int, defs: Seq<Seq<char>>) -> Seq<
    char,
> {
    "  subgraph cluster_iteration_"@ + crate::strutil::dec_seq(gi as nat) + " {\n"@
        + "    style=\"rounded,dashed\";\n"@ + "    color=\"#4CAF50\";\n"@
        + "    penwidth=2.5;\n"@ + "    bgcolor=\"#F0FFF0\";\n"@
        + "    label=\"Loop (triggered by "@ + g.trigger_node + ")\";\n"@
        + "    fontcolor=\"#2E7D32\";\n"@ + "    fontsize=12;\n"@ + iter_nodes_lines(
        g.iterated_nodes,
        0,
        defs,
    ) + "  }\n\n"@
}

/// The iteration-cluster section: one block per group with more than one
/// node, numbered by position.
pub open spec fn iter_section(
    igs: Seq<crate::model::GIterationGroup>,
    gi: int,
    defs: Seq<Seq<char>>,
) -> Seq<char>
    decreases igs.len() - gi,
{
    if !(0 <= gi < igs.len()) {
        Seq::empty()
    } else {
        let here: Seq<char> = if igs[gi].iterated_nodes.len() > 1 {
            iter_cluster(igs[gi], gi, defs)
        } else {
            Seq::empty()
        };
        here + iter_section(igs, gi + 1, defs)
    }
}

/// The member lines of a cycle cluster.
pub open spec fn cyc_nodes_lines(ns: Seq<Seq<char>>, k: int) -> Seq<char>
    decreases ns.len() - k,
{
    if !(0 <= k < ns.len()) {
        Seq::empty()
    } else {
        "    \""@ + esc_seq(ns[k]) + "\";\n"@ + cyc_nodes_lines(ns, k + 1)
    }
}

/// One cycle-cluster block.
pub open spec fn cyc_cluster(ns: Seq<Seq<char>>, gi: int) -> Seq<char> {
    "\n  subgraph cluster_"@ + crate::strutil::dec_seq(gi as nat) + " {\n"@
        + "    style=\"rounded,dashed\";\n"@ + "    color=\"#FF6B6B\";\n"@
        + "    penwidth=2.5;\n"@ + "    bgcolor=\"#FFF5F5\";\n"@
        + "    label=\"\u{1F504} Waiting/Retry Loop\";\n"@ + "    fontcolor=\"#FF6B6B\";\n"@
        + "    fontsize=12;\n"@ + "    fontname=\"Arial Bold\";\n"@ + cyc_nodes_lines(ns, 0)
        + "  }\n"@
}

/// The cycle-cluster section: one block per group with more than one node.
pub open spec fn cyc_section(cgs: Seq<Seq<Seq<char>>>, gi: int) -> Seq<char>
    decreases cgs.len() - gi,
{
    if !(0 <= gi < cgs.len()) {
        Seq::empty()
    } else {
        let here: Seq<char> = if cgs[gi].len() > 1 {
            cyc_cluster(cgs[gi], gi)
        } else {
            Seq::empty()
        };
        here + cyc_section(cgs, gi + 1)
    }
}

/// The node-definition section.
pub open spec fn defs_section(defs: Seq<Seq<char>>, k: int) -> Seq<char>
    decreases defs.len() - k,
{
    if !(0 <= k < defs.len()) {
        Seq::empty()
    } else {
        "  "@ + defs[k] + ";\n"@ + defs_section(defs, k + 1)
    }
}

/// The line for one raw (unconsolidated) edge.
pub open spec fn raw_edge_line(e: GEdge, cyc: Seq<(Seq<char>, Seq<char>)>, show: bool) -> Seq<
    char,
> {
    let p = (e.from, e.to);
    if starts_with_seq(e.to, "unknown_"@) {
        line_dashed(p)
    } else if cyc.contains(p) {
        "\""@ + esc_seq(e.from) + "\" -> \""@ + esc_seq(e.to)
            + "\" [color=\"#FF6B6B\", penwidth=2, style=bold, constraint=false"@ + (if show
            && e.label != Seq::<char>::empty() {
            ", label=\""@ + esc_seq(e.label) + "\""@
        } else {
            Seq::empty()
        }) + "]"@
    } else if e.is_collection {
        "\""@ + esc_seq(e.from) + "\" -> \""@ + esc_seq(e.to) + "\" [label=\""@ + (if show
            && e.label != Seq::<char>::empty() {
            esc_seq(e.label) + " (multiple)"@
        } else {
            "multiple"@
        }) + "\", color=\"#4CAF50\", penwidth=2, style=bold]"@
    } else if show && e.label != Seq::<char>::empty() {
        line_labelled(p, e.label)
    } else {
        line_plain(p)
    }
}

/// The raw edge section.
pub open spec fn raw_edges_section(
    es: Seq<GEdge>,
    k: int,
    cyc: Seq<(Seq<char>, Seq<char>)>,
    show: bool,
) -> Seq<char>
    decreases es.len() - k,
{
    if !(0 <= k < es.len()) {
        Seq::empty()
    } else {
        "  "@ + raw_edge_line(es[k], cyc, show) + ";\n"@ + raw_edges_section(es, k + 1, cyc, show)
    }
}

/// The consolidated edge section.
pub open spec fn cons_edges_section(lines: Seq<Seq<char>>, k: int) -> Seq<char>
    decreases lines.len() - k,
{
    if !(0 <= k < lines.len()) {
        Seq::empty()
    } else {
        "  "@ + lines[k] + ";\n"@ + cons_edges_section(lines, k + 1)
    }
}

/// The static legend block.
pub open spec fn legend_spec() -> Seq<char> {
    "\n  // Legend\n"@ + "  {rank=sink;\n"@ + "    Legend [shape=none, margin=0, label=<\n"@
        + "      <TABLE BORDER=\"0\" CELLBORDER=\"1\" CELLSPACING=\"0\" CELLPADDING=\"4\">\n"@
        + "        <TR>\n"@ + "          <TD COLSPAN=\"2\" BGCOLOR=\"#E8E8E8\"><B>Legend</B></TD>\n"@
        + "        </TR>\n"@ + "        <TR>\n"@ + "          <TD BGCOLOR=\"#90EE90\">  </TD>\n"@
        + "          <TD ALIGN=\"LEFT\">START</TD>\n"@ + "        </TR>\n"@ + "        <TR>\n"@
        + "          <TD BGCOLOR=\"#9370DB\">  </TD>\n"@
        + "          <TD ALIGN=\"LEFT\">AldeAktivitet</TD>\n"@ + "        </TR>\n"@
        + "        <TR>\n"@ + "          <TD BGCOLOR=\"#FFA500\">  </TD>\n"@
        + "          <TD ALIGN=\"LEFT\">\u{1F4CB} Creates Oppgave</TD>\n"@ + "        </TR>\n"@
        + "        <TR>\n"@ + "          <TD BGCOLOR=\"#87CEEB\">  </TD>\n"@
        + "          <TD ALIGN=\"LEFT\">Regular</TD>\n"@ + "        </TR>\n"@ + "        <TR>\n"@
        + "          <TD BGCOLOR=\"#FFD700\">  </TD>\n"@
        + "          <TD ALIGN=\"LEFT\">Waiting</TD>\n"@ + "        </TR>\n"@ + "        <TR>\n"@
        + "          <TD BGCOLOR=\"#FF6B6B\">  </TD>\n"@
        + "          <TD ALIGN=\"LEFT\">Manual</TD>\n"@ + "        </TR>\n"@ + "        <TR>\n"@
        + "          <TD BGCOLOR=\"#FF4444\">  </TD>\n"@ + "          <TD ALIGN=\"LEFT\">Abort</TD>\n"@
        + "        </TR>\n"@ + "        <TR>\n"@ + "          <TD BGCOLOR=\"#4CAF50\">  </TD>\n"@
        + "          <TD ALIGN=\"LEFT\">Decision</TD>\n"@ + "        </TR>\n"@ + "        <TR>\n"@
        + "          <TD BGCOLOR=\"#FFB6C1\">  </TD>\n"@ + "          <TD ALIGN=\"LEFT\">END</TD>\n"@
        + "        </TR>\n"@ + "        <TR>\n"@ + "          <TD BGCOLOR=\"#CCCCCC\">  </TD>\n"@
        + "          <TD ALIGN=\"LEFT\">Unknown</TD>\n"@ + "        </TR>\n"@ + "      </TABLE>\n"@
        + "    >];\n"@ + "  }\n"@
}

/// The reachable-graph walk from `initial`: visited nodes, node
/// definitions, and edges, at the canonical walk depth.
pub open spec fn walk_of(cidx: Seq<GClass>, idx: Seq<GProcEntry>, initial: Seq<char>) -> (
    Seq<Seq<char>>,
    Seq<Seq<char>>,
    Seq<GEdge>,
) {
    bdn_node(cidx, idx, initial, Seq::empty(), Seq::empty(), (idx.len() + 1) as nat)
}

/// The whole diagram document, given the cycle clusters.  The iteration
/// clusters are the detector's exact result over the walk's edges.
pub open spec fn doc_spec(
    name: Seq<char>,
    initial: Seq<char>,
    cidx: Seq<GClass>,
    idx: Seq<GProcEntry>,
    style: Seq<char>,
    show_conditions: bool,
    show_legend: bool,
    deduplicate: bool,
    cgs: Seq<Seq<Seq<char>>>,
) -> Seq<char> {
    let walk = walk_of(cidx, idx, initial);
    let defs = walk.1;
    let es = walk.2;
    let igs = crate::graph::ig_groups_spec(idx, es, 0);
    let cyc = crate::graph::detect_cycles_spec(initial, idx);
    let edge_part: Seq<char> = if deduplicate {
        cons_edges_section(cons_lines(es, 0, Seq::empty(), cyc, show_conditions), 0)
    } else {
        raw_edges_section(es, 0, cyc, show_conditions)
    };
    doc_header(name, initial, style) + iter_section(igs, 0, defs) + cyc_section(cgs, 0)
        + defs_section(defs, 0) + edge_part + (if show_legend {
        legend_spec()
    } else {
        Seq::empty()
    }) + "}\n"@
}

fn def_mentions_exec(defs: &Vec<String>, node: &str) -> (r: bool)
    ensures
        r == def_mentions(crate::graph::str_views(defs@), node@),
{
    let ghost dv = crate::graph::str_views(defs@);
    let en = escape_label(node);
    let mut quoted = "\"".to_owned();
    quoted.append(en.as_str());
    quoted.append("\"");
    let mut d: usize = 0;
    while d < defs.len()
        invariant
            dv == crate::graph::str_views(defs@),
            quoted@ == "\""@ + esc_seq(node@) + "\""@,
            0 <= d <= defs@.len(),
            forall|k: int| 0 <= k < d ==> !contains_seq(#[trigger] dv[k], "\""@ + esc_seq(node@) + "\""@),
        decreases defs@.len() - d,
    {
        if str_contains(defs[d].as_str(), quoted.as_str()) {
            proof {
                assert(dv[d as int] == defs@[d as int]@);
            }
            return true;
        }
        d += 1;
    }
    false
}

#[verifier::rlimit(50)]
fn iter_section_exec(igs: &Vec<crate::model::IterationGroup>, defs: &Vec<String>) -> (r: String)
    ensures
        r@ == iter_section(igs@.map_values(|g: crate::model::IterationGroup| g@), 0, crate::graph::str_views(defs@)),
{
    let ghost igv = igs@.map_values(|g: crate::model::IterationGroup| g@);
    let ghost dv = crate::graph::str_views(defs@);
    let mut out = String::new();
    let mut gi: usize = 0;
    while gi < igs.len()
        invariant
            igv == igs@.map_values(|g: crate::model::IterationGroup| g@),
            dv == crate::graph::str_views(defs@),
            0 <= gi <= igs@.len(),
            iter_section(igv, 0, dv) == out@ + iter_section(igv, gi as int, dv),
        decreases igs@.len() - gi,
    {
        let ghost outv = out@;
        if igs[gi].iterated_nodes.len() > 1 {
            out.append("  subgraph cluster_iteration_");
            let num = crate::strutil::usize_to_string(gi);
            out.append(num.as_str());
            out.append(" {\n");
            out.append("    style=\"rounded,dashed\";\n");
            out.append("    color=\"#4CAF50\";\n");
            out.append("    penwidth=2.5;\n");
            out.append("    bgcolor=\"#F0FFF0\";\n");
            out.append("    label=\"Loop (triggered by ");
            out.append(igs[gi].trigger_node.as_str());
            out.append(")\";\n");
            out.append("    fontcolor=\"#2E7D32\";\n");
            out.append("    fontsize=12;\n");
            let ghost before_nodes = out@;
            let ns = &igs[gi].iterated_nodes;
            let ghost nsv = crate::graph::str_views(ns@);
            let mut k: usize = 0;
            while k < ns.len()
                invariant
                    dv == crate::graph::str_views(defs@),
                    nsv == crate::graph::str_views(ns@),
                    0 <= k <= ns@.len(),
                    out@ + iter_nodes_lines(nsv, k as int, dv) == before_nodes
                        + iter_nodes_lines(nsv, 0, dv),
                decreases ns@.len() - k,
            {
                let ghost outv2 = out@;
                if def_mentions_exec(defs, ns[k].as_str()) {
                    out.append("    \"");
                    let eno = escape_label(ns[k].as_str());
                    out.append(eno.as_str());
                    out.append("\";\n");
                    proof {
                        assert(nsv[k as int] == ns@[k as int]@);
                    }
                }
                k += 1;
            }
            out.append("  }\n\n");
            proof {
                assert(igv[gi as int] == igs@[gi as int]@);
                assert(out@ =~= outv + iter_cluster(igv[gi as int], gi as int, dv));
            }
        }
        gi += 1;
    }
    proof {
        assert(iter_section(igv, igs@.len() as int, dv) =~= Seq::<char>::empty());
        assert(iter_section(igv, 0, dv) =~= out@);
    }
    out
}

fn cyc_section_exec(cgs: &Vec<Vec<String>>) -> (r: String)
    ensures
        r@ == cyc_section(cgs@.map_values(|v: Vec<String>| crate::graph::str_views(v@)), 0),
{
    let ghost cv = cgs@.map_values(|v: Vec<String>| crate::graph::str_views(v@));
    let mut out = String::new();
    let mut gi: usize = 0;
    while gi < cgs.len()
        invariant
            cv == cgs@.map_values(|v: Vec<String>| crate::graph::str_views(v@)),
            0 <= gi <= cgs@.len(),
            cyc_section(cv, 0) == out@ + cyc_section(cv, gi as int),
        decreases cgs@.len() - gi,
    {
        let ghost outv = out@;
        if cgs[gi].len() > 1 {
            out.append("\n  subgraph cluster_");
            let num = crate::strutil::usize_to_string(gi);
            out.append(num.as_str());
            out.append(" {\n");
            out.append("    style=\"rounded,dashed\";\n");
            out.append("    color=\"#FF6B6B\";\n");
            out.append("    penwidth=2.5;\n");
            out.append("    bgcolor=\"#FFF5F5\";\n");
            out.append("    label=\"\u{1F504} Waiting/Retry Loop\";\n");
            out.append("    fontcolor=\"#FF6B6B\";\n");
            out.append("    fontsize=12;\n");
            out.append("    fontname=\"Arial Bold\";\n");
            let ghost before_nodes = out@;
            let ns = &cgs[gi];
            let ghost nsv = crate::graph::str_views(ns@);
            let mut k: usize = 0;
            while k < ns.len()
                invariant
                    nsv == crate::graph::str_views(ns@),
                    0 <= k <= ns@.len(),
                    out@ + cyc_nodes_lines(nsv, k as int) == before_nodes + cyc_nodes_lines(
                        nsv,
                        0,
                    ),
                decreases ns@.len() - k,
            {
                out.append("    \"");
                let eno = escape_label(ns[k].as_str());
                out.append(eno.as_str());
                out.append("\";\n");
                proof {
                    assert(nsv[k as int] == ns@[k as int]@);
                }
                k += 1;
            }
            out.append("  }\n");
            proof {
                assert(cv[gi as int] == crate::graph::str_views(cgs@[gi as int]@));
                assert(out@ =~= outv + cyc_cluster(cv[gi as int], gi as int));
            }
        }
        gi += 1;
    }
    proof {
        assert(cyc_section(cv, cgs@.len() as int) =~= Seq::<char>::empty());
        assert(cyc_section(cv, 0) =~= out@);
    }
    out
}

fn defs_section_exec(defs: &Vec<String>) -> (r: String)
    ensures
        r@ == defs_section(crate::graph::str_views(defs@), 0),
{
    let ghost dv = crate::graph::str_views(defs@);
    let mut out = String::new();
    let mut k: usize = 0;
    while k < defs.len()
        invariant
            dv == crate::graph::str_views(defs@),
            0 <= k <= defs@.len(),
            defs_section(dv, 0) == out@ + defs_section(dv, k as int),
        decreases defs@.len() - k,
    {
        out.append("  ");
        out.append(defs[k].as_str());
        out.append(";\n");
        proof {
            assert(dv[k as int] == defs@[k as int]@);
        }
        k += 1;
    }
    proof {
        assert(defs_section(dv, defs@.len() as int) =~= Seq::<char>::empty());
        assert(defs_section(dv, 0) =~= out@);
    }
    out
}

fn raw_edge_line_exec(
    e: &Edge,
    cycle_edges: &Vec<(String, String)>,
    show_conditions: bool,
) -> (r: String)
    ensures
        r@ == raw_edge_line(e@, epair_views(cycle_edges@), show_conditions),
{
    proof {
        reveal_strlit("");
    }
    let ef = escape_label(e.from.as_str());
    let et = escape_label(e.to.as_str());
    let labelled = show_conditions && e.label.unicode_len() > 0;
    proof {
        if e.label@.len() == 0 {
            assert(e.label@ =~= Seq::<char>::empty());
        }
    }
    if str_starts_with(e.to.as_str(), "unknown_") {
        let mut r = "\"".to_owned();
        r.append(ef.as_str());
        r.append("\" -> ");
        r.append(et.as_str());
        r.append(" [style=dashed]");
        r
    } else if edge_pair_seen(cycle_edges, e.from.as_str(), e.to.as_str()) {
        let mut r = "\"".to_owned();
        r.append(ef.as_str());
        r.append("\" -> \"");
        r.append(et.as_str());
        r.append("\" [color=\"#FF6B6B\", penwidth=2, style=bold, constraint=false");
        if labelled {
            r.append(", label=\"");
            let el = escape_label(e.label.as_str());
            r.append(el.as_str());
            r.append("\"");
        }
        r.append("]");
        r
    } else if e.is_collection {
        let mut r = "\"".to_owned();
        r.append(ef.as_str());
        r.append("\" -> \"");
        r.append(et.as_str());
        r.append("\" [label=\"");
        if labelled {
            let el = escape_label(e.label.as_str());
            r.append(el.as_str());
            r.append(" (multiple)");
        } else {
            r.append("multiple");
        }
        r.append("\", color=\"#4CAF50\", penwidth=2, style=bold]");
        r
    } else if labelled {
        let mut r = "\"".to_owned();
        r.append(ef.as_str());
        r.append("\" -> \"");
        r.append(et.as_str());
        r.append("\" [label=\"");
        let el = escape_label(e.label.as_str());
        r.append(el.as_str());
        r.append("\"]");
        r
    } else {
        let mut r = "\"".to_owned();
        r.append(ef.as_str());
        r.append("\" -> \"");
        r.append(et.as_str());
        r.append("\"");
        r
    }
}

fn raw_edges_section_exec(
    edges: &Vec<Edge>,
    cycle_edges: &Vec<(String, String)>,
    show_conditions: bool,
) -> (r: String)
    ensures
        r@ == raw_edges_section(edge_views(edges@), 0, epair_views(cycle_edges@), show_conditions),
{
    let ghost ev = edge_views(edges@);
    let ghost cyc = epair_views(cycle_edges@);
    let mut out = String::new();
    let mut k: usize = 0;
    while k < edges.len()
        invariant
            ev == edge_views(edges@),
            cyc == epair_views(cycle_edges@),
            0 <= k <= edges@.len(),
            raw_edges_section(ev, 0, cyc, show_conditions) == out@ + raw_edges_section(
                ev,
                k as int,
                cyc,
                show_conditions,
            ),
        decreases edges@.len() - k,
    {
        out.append("  ");
        let line = raw_edge_line_exec(&edges[k], cycle_edges, show_conditions);
        out.append(line.as_str());
        out.append(";\n");
        proof {
            assert(ev[k as int] == edges@[k as int]@);
        }
        k += 1;
    }
    proof {
        assert(raw_edges_section(ev, edges@.len() as int, cyc, show_conditions) =~= Seq::<
            char,
        >::empty());
        assert(raw_edges_section(ev, 0, cyc, show_conditions) =~= out@);
    }
    out
}

fn cons_edges_section_exec(lines: &Vec<String>) -> (r: String)
    ensures
        r@ == cons_edges_section(crate::graph::str_views(lines@), 0),
{
    let ghost lv = crate::graph::str_views(lines@);
    let mut out = String::new();
    let mut k: usize = 0;
    while k < lines.len()
        invariant
            lv == crate::graph::str_views(lines@),
            0 <= k <= lines@.len(),
            cons_edges_section(lv, 0) == out@ + cons_edges_section(lv, k as int),
        decreases lines@.len() - k,
    {
        out.append("  ");
        out.append(lines[k].as_str());
        out.append(";\n");
        proof {
            assert(lv[k as int] == lines@[k as int]@);
        }
        k += 1;
    }
    proof {
        assert(cons_edges_section(lv, lines@.len() as int) =~= Seq::<char>::empty());
        assert(cons_edges_section(lv, 0) =~= out@);
    }
    out
}

fn legend_exec() -> (r: String)
    ensures
        r@ == legend_spec(),
{
    let mut out = String::new();
    out.append("\n  // Legend\n");
    out.append("  {rank=sink;\n");
    out.append("    Legend [shape=none, margin=0, label=<\n");
    out.append("      <TABLE BORDER=\"0\" CELLBORDER=\"1\" CELLSPACING=\"0\" CELLPADDING=\"4\">\n");
    out.append("        <TR>\n");
    out.append("          <TD COLSPAN=\"2\" BGCOLOR=\"#E8E8E8\"><B>Legend</B></TD>\n");
    out.append("        </TR>\n");
    out.append("        <TR>\n");
    out.append("          <TD BGCOLOR=\"#90EE90\">  </TD>\n");
    out.append("          <TD ALIGN=\"LEFT\">START</TD>\n");
    out.append("        </TR>\n");
    out.append("        <TR>\n");
    out.append("          <TD BGCOLOR=\"#9370DB\">  </TD>\n");
    out.append("          <TD ALIGN=\"LEFT\">AldeAktivitet</TD>\n");
    out.append("        </TR>\n");
    out.append("        <TR>\n");
    out.append("          <TD BGCOLOR=\"#FFA500\">  </TD>\n");
    out.append("          <TD ALIGN=\"LEFT\">\u{1F4CB} Creates Oppgave</TD>\n");
    out.append("        </TR>\n");
    out.append("        <TR>\n");
    out.append("          <TD BGCOLOR=\"#87CEEB\">  </TD>\n");
    out.append("          <TD ALIGN=\"LEFT\">Regular</TD>\n");
    out.append("        </TR>\n");
    out.append("        <TR>\n");
    out.append("          <TD BGCOLOR=\"#FFD700\">  </TD>\n");
    out.append("          <TD ALIGN=\"LEFT\">Waiting</TD>\n");
    out.append("        </TR>\n");
    out.append("        <TR>\n");
    out.append("          <TD BGCOLOR=\"#FF6B6B\">  </TD>\n");
    out.append("          <TD ALIGN=\"LEFT\">Manual</TD>\n");
    out.append("        </TR>\n");
    out.append("        <TR>\n");
    out.append("          <TD BGCOLOR=\"#FF4444\">  </TD>\n");
    out.append("          <TD ALIGN=\"LEFT\">Abort</TD>\n");
    out.append("        </TR>\n");
    out.append("        <TR>\n");
    out.append("          <TD BGCOLOR=\"#4CAF50\">  </TD>\n");
    out.append("          <TD ALIGN=\"LEFT\">Decision</TD>\n");
    out.append("        </TR>\n");
    out.append("        <TR>\n");
    out.append("          <TD BGCOLOR=\"#FFB6C1\">  </TD>\n");
    out.append("          <TD ALIGN=\"LEFT\">END</TD>\n");
    out.append("        </TR>\n");
    out.append("        <TR>\n");
    out.append("          <TD BGCOLOR=\"#CCCCCC\">  </TD>\n");
    out.append("          <TD ALIGN=\"LEFT\">Unknown</TD>\n");
    out.append("        </TR>\n");
    out.append("      </TABLE>\n");
    out.append("    >];\n");
    out.append("  }\n");
    out
}

/// Serialize the flow graph reachable from `initial_aktivitet` as a
/// diagram-description document: a title and start terminal, iteration and
/// cycle clusters, one definition per visited node, and the consolidated
/// (or raw) edge list, with an optional legend.  The document is exactly
/// determined by the indices and options together with the cycle-cluster
/// list, which satisfies the cycle-grouping contract over the walk's edges
/// and back-edges; the iteration clusters are the detector's exact result.
pub fn generate_dot_graph(
    behandling_name: &str,
    initial_aktivitet: &str,
    processor_index: &ProcessorIndex,
    class_index: &ClassIndex,
    edge_style: &str,
    show_conditions: bool,
    show_legend: bool,
    deduplicate: bool,
) -> (r: String)
    ensures
        exists|cgs: Seq<Seq<Seq<char>>>|
            crate::graph::components_ok(
                walk_of(class_index@, processor_index@, initial_aktivitet@).2,
                crate::graph::detect_cycles_spec(initial_aktivitet@, processor_index@),
                cgs,
            ) && r@ == #[trigger] doc_spec(
                behandling_name@,
                initial_aktivitet@,
                class_index@,
                processor_index@,
                edge_style@,
                show_conditions,
                show_legend,
                deduplicate,
                cgs,
            ),
{
    let ghost cidx = class_index@;
    let ghost idx = processor_index@;
    let mut visited: Vec<String> = Vec::new();
    let mut defs: Vec<String> = Vec::new();
    let mut edges: Vec<Edge> = Vec::new();
    let mut visiting: Vec<String> = Vec::new();
    proof {
        assert(crate::graph::str_views(visited@) =~= Seq::<Seq<char>>::empty());
        assert(crate::graph::str_views(defs@) =~= Seq::<Seq<char>>::empty());
        assert(edge_views(edges@) =~= Seq::<GEdge>::empty());
        assert(crate::graph::str_views(visiting@) =~= Seq::<Seq<char>>::empty());
        crate::graph::lemma_ucount_le(idx, Seq::empty());
    }
    build_dot_nodes(
        initial_aktivitet,
        processor_index,
        class_index,
        &mut visited,
        &mut defs,
        &mut edges,
        &mut visiting,
    );
    proof {
        let walk = bdn_node(
            cidx,
            idx,
            initial_aktivitet@,
            Seq::empty(),
            Seq::empty(),
            (idx.len() + 1) as nat,
        );
        assert(crate::graph::str_views(defs@) =~= Seq::<Seq<char>>::empty() + walk.1);
        assert(edge_views(edges@) =~= Seq::<GEdge>::empty() + walk.2);
    }
    let igroups = crate::graph::detect_iteration_groups(processor_index, &edges);
    let cycles = crate::graph::detect_cycles(initial_aktivitet, processor_index);
    let cgroups = crate::graph::group_cycles(&cycles, &edges);
    let mut dot = "digraph BehandlingFlow {\n".to_owned();
    dot.append("  rankdir=TB;\n");
    proof {
        reveal_strlit("straight");
        reveal_strlit("polyline");
        reveal_strlit("ortho");
        reveal_strlit("orthogonal");
        reveal_strlit("curved");
        reveal_strlit("spline");
    }
    if str_eq(edge_style, "straight") || str_eq(edge_style, "polyline") {
        dot.append("  splines=polyline;\n");
    } else if str_eq(edge_style, "ortho") || str_eq(edge_style, "orthogonal") {
        dot.append("  splines=ortho;\n");
    } else if str_eq(edge_style, "curved") || str_eq(edge_style, "spline") {
        dot.append("  splines=spline;\n");
    } else {
        dot.append("  splines=polyline;\n");
    }
    dot.append("  node [shape=box, style=rounded, fontname=\"Arial\"];\n");
    dot.append("  edge [fontname=\"Arial\", fontsize=10];\n\n");
    dot.append("  labelloc=\"t\";\n  label=\"");
    dot.append(behandling_name);
    dot.append(" Flow\";\n  fontsize=16;\n\n");
    dot.append("  start [label=\"START\", shape=circle, style=filled, fillcolor=\"#90EE90\"];\n");
    dot.append("  start -> \"");
    let ei = escape_label(initial_aktivitet);
    dot.append(ei.as_str());
    dot.append("\";\n\n");
    proof {
        assert(dot@ =~= doc_header(behandling_name@, initial_aktivitet@, edge_style@));
    }
    let isec = iter_section_exec(&igroups, &defs);
    dot.append(isec.as_str());
    let csec = cyc_section_exec(&cgroups);
    dot.append(csec.as_str());
    let dsec = defs_section_exec(&defs);
    dot.append(dsec.as_str());
    if deduplicate {
        let lines = consolidate_edges(&edges, &cycles, show_conditions);
        let esec = cons_edges_section_exec(&lines);
        dot.append(esec.as_str());
    } else {
        let esec = raw_edges_section_exec(&edges, &cycles, show_conditions);
        dot.append(esec.as_str());
    }
    if show_legend {
        let leg = legend_exec();
        dot.append(leg.as_str());
    }
    dot.append("}\n");
    proof {
        let walk = walk_of(cidx, idx, initial_aktivitet@);
        let igsv = igroups@.map_values(|g: crate::model::IterationGroup| g@);
        let cgsv = cgroups@.map_values(|v: Vec<String>| crate::graph::str_views(v@));
        assert(edge_views(edges@) == walk.2);
        assert(igsv == crate::graph::ig_groups_spec(idx, walk.2, 0));
        assert(crate::graph::components_ok(
            walk.2,
            crate::graph::detect_cycles_spec(initial_aktivitet@, idx),
            cgsv,
        ));
        assert(dot@ =~= doc_spec(
            behandling_name@,
            initial_aktivitet@,
            cidx,
            idx,
            edge_style@,
            show_conditions,
            show_legend,
            deduplicate,
            cgsv,
        ));
    }
    dot
}

} // verus!
