//! Recognizing transition-producing call shapes inside handler method
//! bodies: direct single-transition calls, conditional branches, fan-out
//! through collection operations, and explicit multi-target calls.
//!
//! As elsewhere, each executable function is proved equal to a recursive
//! specification mirror over the node arena.

use vstd::prelude::*;
use crate::classes::{first_child_of_kinds, first_child_of_kinds_exec};
use crate::model::{GTransition, NextAktivitet, clone_opt_string, opt_str_view, trans_views};
use crate::strutil::{contains_seq, ends_with_seq, str_contains, str_ends_with, str_eq, upper_char};
use crate::syntax::{SyntaxNode, SyntaxTree};
use crate::textscan::{is_likely_aktivitet_class, likely_aktivitet};

verus! {

/// Whether node `i`'s first plain identifier child names the designated
/// single- or multi-transition function.
pub open spec fn is_neste_call_spec(nodes: Seq<SyntaxNode>, i: int) -> bool {
    match first_child_of_kinds(nodes, i, 0, seq!["simple_identifier"@]) {
        Some(c) => nodes[c].text@ == "nesteAktivitet"@ || nodes[c].text@ == "nesteAktiviteter"@,
        None => false,
    }
}

/// Whether call node `i` is a transition call (single or multi form).
pub fn is_neste_aktivitet_call(tree: &SyntaxTree, i: usize) -> (r: bool)
    requires
        tree.wf(),
        i < tree.nodes@.len(),
    ensures
        r == is_neste_call_spec(tree.nodes@, i as int),
{
    let mut kinds: Vec<&str> = Vec::new();
    kinds.push("simple_identifier");
    proof {
        assert(kinds@.map_values(|s: &str| s@) =~= seq!["simple_identifier"@]);
    }
    match first_child_of_kinds_exec(tree, i, 0, &kinds) {
        Some(c) => str_eq(tree.nodes[c].text.as_str(), "nesteAktivitet") || str_eq(
            tree.nodes[c].text.as_str(),
            "nesteAktiviteter",
        ),
        None => false,
    }
}

/// Some plain identifier child of `i` is exactly the multi-transition name.
pub open spec fn is_nesteer_call_spec(nodes: Seq<SyntaxNode>, i: int) -> bool {
    exists|k: int|
        0 <= k < nodes[i].children@.len() && {
            let c = #[trigger] nodes[i].children@[k] as int;
            0 <= c < nodes.len() && nodes[c].kind@ == "simple_identifier"@ && nodes[c].text@
                == "nesteAktiviteter"@
        }
}

/// Whether call node `i` is a multi-transition call.
pub fn is_neste_aktiviteter_call(tree: &SyntaxTree, i: usize) -> (r: bool)
    requires
        tree.wf(),
        i < tree.nodes@.len(),
    ensures
        r == is_nesteer_call_spec(tree.nodes@, i as int),
{
    let n = tree.nodes[i].children.len();
    let mut k: usize = 0;
    while k < n
        invariant
            tree.wf(),
            i < tree.nodes@.len(),
            n == tree.nodes@[i as int].children@.len(),
            0 <= k <= n,
            forall|m: int|
                0 <= m < k ==> !{
                    let c = #[trigger] tree.nodes@[i as int].children@[m] as int;
                    0 <= c < tree.nodes@.len() && tree.nodes@[c].kind@ == "simple_identifier"@
                        && tree.nodes@[c].text@ == "nesteAktiviteter"@
                },
        decreases n - k,
    {
        let c = tree.nodes[i].children[k];
        proof {
            assert(i < tree.nodes@[i as int].children@[k as int] < tree.nodes@.len());
        }
        if str_eq(tree.nodes[c].kind.as_str(), "simple_identifier") && str_eq(
            tree.nodes[c].text.as_str(),
            "nesteAktiviteter",
        ) {
            return true;
        }
        k += 1;
    }
    false
}

/// Some `navigation_expression` child of `i` ends in a designated
/// collection-transform method name.
pub open spec fn is_collection_op_spec(nodes: Seq<SyntaxNode>, i: int) -> bool {
    exists|k: int|
        0 <= k < nodes[i].children@.len() && {
            let c = #[trigger] nodes[i].children@[k] as int;
            0 <= c < nodes.len() && nodes[c].kind@ == "navigation_expression"@ && (ends_with_seq(
                nodes[c].text@,
                ".map"@,
            ) || ends_with_seq(nodes[c].text@, ".forEach"@) || ends_with_seq(
                nodes[c].text@,
                ".flatMap"@,
            ))
        }
}

/// Whether call node `i` is a collection operation that fans transitions
/// out.
pub fn is_collection_operation(tree: &SyntaxTree, i: usize) -> (r: bool)
    requires
        tree.wf(),
        i < tree.nodes@.len(),
    ensures
        r == is_collection_op_spec(tree.nodes@, i as int),
{
    let n = tree.nodes[i].children.len();
    let mut k: usize = 0;
    while k < n
        invariant
            tree.wf(),
            i < tree.nodes@.len(),
            n == tree.nodes@[i as int].children@.len(),
            0 <= k <= n,
            forall|m: int|
                0 <= m < k ==> !{
                    let c = #[trigger] tree.nodes@[i as int].children@[m] as int;
                    0 <= c < tree.nodes@.len() && tree.nodes@[c].kind@ == "navigation_expression"@
                        && (ends_with_seq(tree.nodes@[c].text@, ".map"@) || ends_with_seq(
                        tree.nodes@[c].text@,
                        ".forEach"@,
                    ) || ends_with_seq(tree.nodes@[c].text@, ".flatMap"@))
                },
        decreases n - k,
    {
        let c = tree.nodes[i].children[k];
        proof {
            assert(i < tree.nodes@[i as int].children@[k as int] < tree.nodes@.len());
        }
        if str_eq(tree.nodes[c].kind.as_str(), "navigation_expression") {
            if str_ends_with(tree.nodes[c].text.as_str(), ".map") || str_ends_with(
                tree.nodes[c].text.as_str(),
                ".forEach",
            ) || str_ends_with(tree.nodes[c].text.as_str(), ".flatMap") {
                return true;
            }
        }
        k += 1;
    }
    false
}

/// First identifier-like child of `i`, from `k` on, whose text starts with
/// an ASCII uppercase letter: the constructed class name.
pub open spec fn ctor_name_from(nodes: Seq<SyntaxNode>, i: int, k: int) -> Option<Seq<char>>
    decreases (if 0 <= i < nodes.len() {
        nodes[i].children@.len() - k
    } else {
        0
    }),
{
    if !(0 <= i < nodes.len()) || !(0 <= k < nodes[i].children@.len()) {
        None
    } else {
        let c = nodes[i].children@[k] as int;
        if 0 <= c < nodes.len() && (nodes[c].kind@ == "simple_identifier"@ || nodes[c].kind@
            == "type_identifier"@) && nodes[c].text@.len() > 0 && upper_char(nodes[c].text@[0]) {
            Some(nodes[c].text@)
        } else {
            ctor_name_from(nodes, i, k + 1)
        }
    }
}

/// Extract the class name constructed by call node `i`, if its callee is a
/// capitalized identifier.
pub fn extract_constructor_name(tree: &SyntaxTree, i: usize) -> (r: Option<String>)
    requires
        tree.wf(),
        i < tree.nodes@.len(),
    ensures
        match r {
            Some(s) => ctor_name_from(tree.nodes@, i as int, 0) == Some(s@),
            None => ctor_name_from(tree.nodes@, i as int, 0) is None,
        },
{
    ctor_name_from_exec(tree, i, 0)
}

fn ctor_name_from_exec(tree: &SyntaxTree, i: usize, k: usize) -> (r: Option<String>)
    requires
        tree.wf(),
        i < tree.nodes@.len(),
        k <= tree.nodes@[i as int].children@.len(),
    ensures
        match r {
            Some(s) => ctor_name_from(tree.nodes@, i as int, k as int) == Some(s@),
            None => ctor_name_from(tree.nodes@, i as int, k as int) is None,
        },
    decreases tree.nodes@[i as int].children@.len() - k,
{
    if k >= tree.nodes[i].children.len() {
        return None;
    }
    let c = tree.nodes[i].children[k];
    proof {
        assert(i < tree.nodes@[i as int].children@[k as int] < tree.nodes@.len());
    }
    if str_eq(tree.nodes[c].kind.as_str(), "simple_identifier") || str_eq(
        tree.nodes[c].kind.as_str(),
        "type_identifier",
    ) {
        let t = &tree.nodes[c].text;
        if t.unicode_len() > 0 {
            if crate::strutil::is_upper(t.get_char(0)) {
                return Some(t.clone());
            }
        }
    }
    ctor_name_from_exec(tree, i, k + 1)
}

/// First constructor name found below `i`: a `call_expression` is decided
/// by its own callee and ends the search; other nodes are searched in
/// preorder.
pub open spec fn fcin_at(nodes: Seq<SyntaxNode>, i: int) -> Option<Seq<char>>
    decreases nodes.len() - i, 1int, 0int,
{
    if !(0 <= i < nodes.len()) {
        None
    } else if nodes[i].kind@ == "call_expression"@ {
        ctor_name_from(nodes, i, 0)
    } else {
        fcin_children(nodes, i, 0)
    }
}

/// Fold [`fcin_at`] over the children of `i`, from `k` on.
pub open spec fn fcin_children(nodes: Seq<SyntaxNode>, i: int, k: int) -> Option<Seq<char>>
    decreases nodes.len() - i, 0int, (if 0 <= i < nodes.len() {
        nodes[i].children@.len() - k
    } else {
        0
    }),
{
    if !(0 <= i < nodes.len()) || !(0 <= k < nodes[i].children@.len()) {
        None
    } else {
        let c = nodes[i].children@[k] as int;
        let r = if i < c < nodes.len() {
            fcin_at(nodes, c)
        } else {
            None
        };
        if r is Some {
            r
        } else {
            fcin_children(nodes, i, k + 1)
        }
    }
}

/// Search node `i` for a constructor invocation, stopping at the first
/// `call_expression` met.
pub fn find_constructor_in_node(tree: &SyntaxTree, i: usize) -> (r: Option<String>)
    requires
        tree.wf(),
        i < tree.nodes@.len(),
    ensures
        match r {
            Some(s) => fcin_at(tree.nodes@, i as int) == Some(s@),
            None => fcin_at(tree.nodes@, i as int) is None,
        },
    decreases tree.nodes@.len() - i, 1int, 0int,
{
    if str_eq(tree.nodes[i].kind.as_str(), "call_expression") {
        return ctor_name_from_exec(tree, i, 0);
    }
    fcin_children_exec(tree, i, 0)
}

fn fcin_children_exec(tree: &SyntaxTree, i: usize, k: usize) -> (r: Option<String>)
    requires
        tree.wf(),
        i < tree.nodes@.len(),
        k <= tree.nodes@[i as int].children@.len(),
    ensures
        match r {
            Some(s) => fcin_children(tree.nodes@, i as int, k as int) == Some(s@),
            None => fcin_children(tree.nodes@, i as int, k as int) is None,
        },
    decreases tree.nodes@.len() - i, 0int, tree.nodes@[i as int].children@.len() - k,
{
    if k >= tree.nodes[i].children.len() {
        return None;
    }
    let c = tree.nodes[i].children[k];
    proof {
        assert(i < tree.nodes@[i as int].children@[k as int] < tree.nodes@.len());
    }
    match find_constructor_in_node(tree, c) {
        Some(s) => Some(s),
        None => fcin_children_exec(tree, i, k + 1),
    }
}

/// The activity named by value-argument node `a`, scanning children from
/// `k`: a `call_expression` child decides immediately by its constructor
/// name, a plain identifier is skipped, anything else is searched.
pub open spec fn eava_from(nodes: Seq<SyntaxNode>, a: int, k: int) -> Option<Seq<char>>
    decreases nodes.len() - a, 2int, (if 0 <= a < nodes.len() {
        nodes[a].children@.len() - k
    } else {
        0
    }),
{
    if !(0 <= a < nodes.len()) || !(0 <= k < nodes[a].children@.len()) {
        None
    } else {
        let c = nodes[a].children@[k] as int;
        if !(a < c < nodes.len()) {
            eava_from(nodes, a, k + 1)
        } else if nodes[c].kind@ == "call_expression"@ {
            ctor_name_from(nodes, c, 0)
        } else if nodes[c].kind@ == "simple_identifier"@ {
            eava_from(nodes, a, k + 1)
        } else {
            match fcin_at(nodes, c) {
                Some(s) => Some(s),
                None => eava_from(nodes, a, k + 1),
            }
        }
    }
}

/// Extract the target activity from value-argument node `a`.
pub fn extract_aktivitet_from_value_argument(tree: &SyntaxTree, a: usize) -> (r: Option<String>)
    requires
        tree.wf(),
        a < tree.nodes@.len(),
    ensures
        match r {
            Some(s) => eava_from(tree.nodes@, a as int, 0) == Some(s@),
            None => eava_from(tree.nodes@, a as int, 0) is None,
        },
{
    eava_from_exec(tree, a, 0)
}

fn eava_from_exec(tree: &SyntaxTree, a: usize, k: usize) -> (r: Option<String>)
    requires
        tree.wf(),
        a < tree.nodes@.len(),
        k <= tree.nodes@[a as int].children@.len(),
    ensures
        match r {
            Some(s) => eava_from(tree.nodes@, a as int, k as int) == Some(s@),
            None => eava_from(tree.nodes@, a as int, k as int) is None,
        },
    decreases tree.nodes@[a as int].children@.len() - k,
{
    if k >= tree.nodes[a].children.len() {
        return None;
    }
    let c = tree.nodes[a].children[k];
    proof {
        assert(a < tree.nodes@[a as int].children@[k as int] < tree.nodes@.len());
    }
    if str_eq(tree.nodes[c].kind.as_str(), "call_expression") {
        ctor_name_from_exec(tree, c, 0)
    } else if str_eq(tree.nodes[c].kind.as_str(), "simple_identifier") {
        eava_from_exec(tree, a, k + 1)
    } else {
        match find_constructor_in_node(tree, c) {
            Some(s) => Some(s),
            None => eava_from_exec(tree, a, k + 1),
        }
    }
}

/// First target named by the `value_argument` children of node `va`.
pub open spec fn eafc_args(nodes: Seq<SyntaxNode>, va: int, k: int) -> Option<Seq<char>>
    decreases (if 0 <= va < nodes.len() {
        nodes[va].children@.len() - k
    } else {
        0
    }),
{
    if !(0 <= va < nodes.len()) || !(0 <= k < nodes[va].children@.len()) {
        None
    } else {
        let c = nodes[va].children@[k] as int;
        if 0 <= c < nodes.len() && nodes[c].kind@ == "value_argument"@ && eava_from(nodes, c, 0)
            is Some {
            eava_from(nodes, c, 0)
        } else {
            eafc_args(nodes, va, k + 1)
        }
    }
}

/// First target named under the `value_arguments` children of suffix `cs`.
pub open spec fn eafc_vargs(nodes: Seq<SyntaxNode>, cs: int, k: int) -> Option<Seq<char>>
    decreases (if 0 <= cs < nodes.len() {
        nodes[cs].children@.len() - k
    } else {
        0
    }),
{
    if !(0 <= cs < nodes.len()) || !(0 <= k < nodes[cs].children@.len()) {
        None
    } else {
        let c = nodes[cs].children@[k] as int;
        if 0 <= c < nodes.len() && nodes[c].kind@ == "value_arguments"@ && eafc_args(nodes, c, 0)
            is Some {
            eafc_args(nodes, c, 0)
        } else {
            eafc_vargs(nodes, cs, k + 1)
        }
    }
}

/// First target named under the `call_suffix` children of call node `i`.
pub open spec fn eafc_suffixes(nodes: Seq<SyntaxNode>, i: int, k: int) -> Option<Seq<char>>
    decreases (if 0 <= i < nodes.len() {
        nodes[i].children@.len() - k
    } else {
        0
    }),
{
    if !(0 <= i < nodes.len()) || !(0 <= k < nodes[i].children@.len()) {
        None
    } else {
        let c = nodes[i].children@[k] as int;
        if 0 <= c < nodes.len() && nodes[c].kind@ == "call_suffix"@ && eafc_vargs(nodes, c, 0)
            is Some {
            eafc_vargs(nodes, c, 0)
        } else {
            eafc_suffixes(nodes, i, k + 1)
        }
    }
}

fn eafc_args_exec(tree: &SyntaxTree, va: usize, k: usize) -> (r: Option<String>)
    requires
        tree.wf(),
        va < tree.nodes@.len(),
        k <= tree.nodes@[va as int].children@.len(),
    ensures
        match r {
            Some(s) => eafc_args(tree.nodes@, va as int, k as int) == Some(s@),
            None => eafc_args(tree.nodes@, va as int, k as int) is None,
        },
    decreases tree.nodes@[va as int].children@.len() - k,
{
    if k >= tree.nodes[va].children.len() {
        return None;
    }
    let c = tree.nodes[va].children[k];
    proof {
        assert(va < tree.nodes@[va as int].children@[k as int] < tree.nodes@.len());
    }
    if str_eq(tree.nodes[c].kind.as_str(), "value_argument") {
        match eava_from_exec(tree, c, 0) {
            Some(s) => {
                return Some(s);
            },
            None => {},
        }
    }
    eafc_args_exec(tree, va, k + 1)
}

fn eafc_vargs_exec(tree: &SyntaxTree, cs: usize, k: usize) -> (r: Option<String>)
    requires
        tree.wf(),
        cs < tree.nodes@.len(),
        k <= tree.nodes@[cs as int].children@.len(),
    ensures
        match r {
            Some(s) => eafc_vargs(tree.nodes@, cs as int, k as int) == Some(s@),
            None => eafc_vargs(tree.nodes@, cs as int, k as int) is None,
        },
    decreases tree.nodes@[cs as int].children@.len() - k,
{
    if k >= tree.nodes[cs].children.len() {
        return None;
    }
    let c = tree.nodes[cs].children[k];
    proof {
        assert(cs < tree.nodes@[cs as int].children@[k as int] < tree.nodes@.len());
    }
    if str_eq(tree.nodes[c].kind.as_str(), "value_arguments") {
        match eafc_args_exec(tree, c, 0) {
            Some(s) => {
                return Some(s);
            },
            None => {},
        }
    }
    eafc_vargs_exec(tree, cs, k + 1)
}

/// Extract the single transition target from transition-call node `i`: the
/// first constructor-valued argument's type name.
pub fn extract_aktivitet_from_call(tree: &SyntaxTree, i: usize) -> (r: Option<String>)
    requires
        tree.wf(),
        i < tree.nodes@.len(),
    ensures
        match r {
            Some(s) => eafc_suffixes(tree.nodes@, i as int, 0) == Some(s@),
            None => eafc_suffixes(tree.nodes@, i as int, 0) is None,
        },
{
    eafc_suffixes_exec(tree, i, 0)
}

fn eafc_suffixes_exec(tree: &SyntaxTree, i: usize, k: usize) -> (r: Option<String>)
    requires
        tree.wf(),
        i < tree.nodes@.len(),
        k <= tree.nodes@[i as int].children@.len(),
    ensures
        match r {
            Some(s) => eafc_suffixes(tree.nodes@, i as int, k as int) == Some(s@),
            None => eafc_suffixes(tree.nodes@, i as int, k as int) is None,
        },
    decreases tree.nodes@[i as int].children@.len() - k,
{
    if k >= tree.nodes[i].children.len() {
        return None;
    }
    let c = tree.nodes[i].children[k];
    proof {
        assert(i < tree.nodes@[i as int].children@[k as int] < tree.nodes@.len());
    }
    if str_eq(tree.nodes[c].kind.as_str(), "call_suffix") {
        match eafc_vargs_exec(tree, c, 0) {
            Some(s) => {
                return Some(s);
            },
            None => {},
        }
    }
    eafc_suffixes_exec(tree, i, k + 1)
}

// ---------------------------------------------------------------------------
// Unrestricted descent for activity constructors
// ---------------------------------------------------------------------------

/// Activity names found below `i` by unrestricted preorder descent: a
/// `call_expression` with a capitalized callee contributes its name when the
/// likelihood heuristic accepts it, and is not descended further.
pub open spec fn eaan_at(nodes: Seq<SyntaxNode>, i: int) -> Seq<Seq<char>>
    decreases nodes.len() - i, 1int, 0int,
{
    if !(0 <= i < nodes.len()) {
        Seq::empty()
    } else if nodes[i].kind@ == "call_expression"@ {
        match ctor_name_from(nodes, i, 0) {
            Some(n) => if likely_aktivitet(n) {
                seq![n]
            } else {
                Seq::empty()
            },
            None => eaan_children(nodes, i, 0),
        }
    } else {
        eaan_children(nodes, i, 0)
    }
}

/// Fold [`eaan_at`] over the children of `i`, from `k` on.
pub open spec fn eaan_children(nodes: Seq<SyntaxNode>, i: int, k: int) -> Seq<Seq<char>>
    decreases nodes.len() - i, 0int, (if 0 <= i < nodes.len() {
        nodes[i].children@.len() - k
    } else {
        0
    }),
{
    if !(0 <= i < nodes.len()) || !(0 <= k < nodes[i].children@.len()) {
        Seq::empty()
    } else {
        let c = nodes[i].children@[k] as int;
        let here: Seq<Seq<char>> = if i < c < nodes.len() {
            eaan_at(nodes, c)
        } else {
            Seq::empty()
        };
        here + eaan_children(nodes, i, k + 1)
    }
}

/// Collect activity constructor names below node `i`.
pub fn extract_activities_from_ast_node(
    tree: &SyntaxTree,
    i: usize,
    aktivitet_names: &mut Vec<String>,
)
    requires
        tree.wf(),
        i < tree.nodes@.len(),
    ensures
        final(aktivitet_names)@.map_values(|s: String| s@) == old(aktivitet_names)@.map_values(
            |s: String| s@,
        ) + eaan_at(tree.nodes@, i as int),
    decreases tree.nodes@.len() - i, 1int, 0int,
{
    let ghost pre = aktivitet_names@.map_values(|s: String| s@);
    if str_eq(tree.nodes[i].kind.as_str(), "call_expression") {
        match ctor_name_from_exec(tree, i, 0) {
            Some(n) => {
                if is_likely_aktivitet_class(n.as_str()) {
                    let ghost nv = n@;
                    aktivitet_names.push(n);
                    proof {
                        assert(aktivitet_names@.map_values(|s: String| s@) =~= pre + seq![nv]);
                    }
                } else {
                    proof {
                        assert(aktivitet_names@.map_values(|s: String| s@) =~= pre + Seq::<
                            Seq<char>,
                        >::empty());
                    }
                }
                return ;
            },
            None => {
                eaan_children_exec(tree, i, 0, aktivitet_names);
                return ;
            },
        }
    }
    eaan_children_exec(tree, i, 0, aktivitet_names);
}

fn eaan_children_exec(tree: &SyntaxTree, i: usize, k: usize, out: &mut Vec<String>)
    requires
        tree.wf(),
        i < tree.nodes@.len(),
        k <= tree.nodes@[i as int].children@.len(),
    ensures
        final(out)@.map_values(|s: String| s@) == old(out)@.map_values(|s: String| s@)
            + eaan_children(tree.nodes@, i as int, k as int),
    decreases tree.nodes@.len() - i, 0int, tree.nodes@[i as int].children@.len() - k,
{
    let ghost pre = out@.map_values(|s: String| s@);
    if k >= tree.nodes[i].children.len() {
        proof {
            assert(out@.map_values(|s: String| s@) =~= pre + Seq::<Seq<char>>::empty());
        }
        return ;
    }
    let c = tree.nodes[i].children[k];
    proof {
        assert(i < tree.nodes@[i as int].children@[k as int] < tree.nodes@.len());
    }
    extract_activities_from_ast_node(tree, c, out);
    eaan_children_exec(tree, i, k + 1, out);
    proof {
        assert(out@.map_values(|s: String| s@) =~= pre + eaan_children(
            tree.nodes@,
            i as int,
            k as int,
        ));
    }
}

/// Collect activity names from every child of value-arguments node `i`.
pub fn extract_from_value_arguments(
    tree: &SyntaxTree,
    i: usize,
    aktivitet_names: &mut Vec<String>,
)
    requires
        tree.wf(),
        i < tree.nodes@.len(),
    ensures
        final(aktivitet_names)@.map_values(|s: String| s@) == old(aktivitet_names)@.map_values(
            |s: String| s@,
        ) + eaan_children(tree.nodes@, i as int, 0),
{
    eaan_children_exec(tree, i, 0, aktivitet_names);
}

/// Activity names found under the `value_arguments` children of suffix `i`.
pub open spec fn efcs_children(nodes: Seq<SyntaxNode>, i: int, k: int) -> Seq<Seq<char>>
    decreases (if 0 <= i < nodes.len() {
        nodes[i].children@.len() - k
    } else {
        0
    }),
{
    if !(0 <= i < nodes.len()) || !(0 <= k < nodes[i].children@.len()) {
        Seq::empty()
    } else {
        let c = nodes[i].children@[k] as int;
        let here: Seq<Seq<char>> = if 0 <= c < nodes.len() && nodes[c].kind@
            == "value_arguments"@ {
            eaan_children(nodes, c, 0)
        } else {
            Seq::empty()
        };
        here + efcs_children(nodes, i, k + 1)
    }
}

/// Collect activity names from the argument lists of call-suffix node `i`.
pub fn extract_from_call_suffix(tree: &SyntaxTree, i: usize, aktivitet_names: &mut Vec<String>)
    requires
        tree.wf(),
        i < tree.nodes@.len(),
    ensures
        final(aktivitet_names)@.map_values(|s: String| s@) == old(aktivitet_names)@.map_values(
            |s: String| s@,
        ) + efcs_children(tree.nodes@, i as int, 0),
{
    efcs_children_exec(tree, i, 0, aktivitet_names);
}

fn efcs_children_exec(tree: &SyntaxTree, i: usize, k: usize, out: &mut Vec<String>)
    requires
        tree.wf(),
        i < tree.nodes@.len(),
        k <= tree.nodes@[i as int].children@.len(),
    ensures
        final(out)@.map_values(|s: String| s@) == old(out)@.map_values(|s: String| s@)
            + efcs_children(tree.nodes@, i as int, k as int),
    decreases tree.nodes@[i as int].children@.len() - k,
{
    let ghost pre = out@.map_values(|s: String| s@);
    if k >= tree.nodes[i].children.len() {
        proof {
            assert(out@.map_values(|s: String| s@) =~= pre + Seq::<Seq<char>>::empty());
        }
        return ;
    }
    let c = tree.nodes[i].children[k];
    proof {
        assert(i < tree.nodes@[i as int].children@[k as int] < tree.nodes@.len());
    }
    if str_eq(tree.nodes[c].kind.as_str(), "value_arguments") {
        eaan_children_exec(tree, c, 0, out);
    }
    efcs_children_exec(tree, i, k + 1, out);
    proof {
        assert(out@.map_values(|s: String| s@) =~= pre + efcs_children(
            tree.nodes@,
            i as int,
            k as int,
        ));
    }
}

/// Activity names found under the `call_suffix` children of call node `i`.
pub open spec fn eacp_names(nodes: Seq<SyntaxNode>, i: int, k: int) -> Seq<Seq<char>>
    decreases (if 0 <= i < nodes.len() {
        nodes[i].children@.len() - k
    } else {
        0
    }),
{
    if !(0 <= i < nodes.len()) || !(0 <= k < nodes[i].children@.len()) {
        Seq::empty()
    } else {
        let c = nodes[i].children@[k] as int;
        let here: Seq<Seq<char>> = if 0 <= c < nodes.len() && nodes[c].kind@ == "call_suffix"@ {
            efcs_children(nodes, c, 0)
        } else {
            Seq::empty()
        };
        here + eacp_names(nodes, i, k + 1)
    }
}

/// Extract every activity constructed in the argument list of
/// multi-transition call `i`; `None` when nothing was found.
pub fn extract_aktiviteter_from_collection_pattern(tree: &SyntaxTree, i: usize) -> (r: Option<
    Vec<String>,
>)
    requires
        tree.wf(),
        i < tree.nodes@.len(),
    ensures
        match r {
            Some(v) => v@.map_values(|s: String| s@) == eacp_names(tree.nodes@, i as int, 0)
                && v@.len() > 0,
            None => eacp_names(tree.nodes@, i as int, 0).len() == 0,
        },
{
    let mut out: Vec<String> = Vec::new();
    proof {
        assert(out@.map_values(|s: String| s@) =~= Seq::<Seq<char>>::empty());
    }
    eacp_names_exec(tree, i, 0, &mut out);
    if out.len() == 0 {
        None
    } else {
        Some(out)
    }
}

fn eacp_names_exec(tree: &SyntaxTree, i: usize, k: usize, out: &mut Vec<String>)
    requires
        tree.wf(),
        i < tree.nodes@.len(),
        k <= tree.nodes@[i as int].children@.len(),
    ensures
        final(out)@.map_values(|s: String| s@) == old(out)@.map_values(|s: String| s@)
            + eacp_names(tree.nodes@, i as int, k as int),
    decreases tree.nodes@[i as int].children@.len() - k,
{
    let ghost pre = out@.map_values(|s: String| s@);
    if k >= tree.nodes[i].children.len() {
        proof {
            assert(out@.map_values(|s: String| s@) =~= pre + Seq::<Seq<char>>::empty());
        }
        return ;
    }
    let c = tree.nodes[i].children[k];
    proof {
        assert(i < tree.nodes@[i as int].children@[k as int] < tree.nodes@.len());
    }
    if str_eq(tree.nodes[c].kind.as_str(), "call_suffix") {
        efcs_children_exec(tree, c, 0, out);
    }
    eacp_names_exec(tree, i, k + 1, out);
    proof {
        assert(out@.map_values(|s: String| s@) =~= pre + eacp_names(
            tree.nodes@,
            i as int,
            k as int,
        ));
    }
}

/// The first activity constructed inside the trailing lambda of suffix `i`.
pub fn extract_from_lambda_in_suffix(tree: &SyntaxTree, i: usize) -> (r: Option<String>)
    requires
        tree.wf(),
        i < tree.nodes@.len(),
    ensures
        match r {
            Some(s) => eaan_at(tree.nodes@, i as int).len() > 0 && eaan_at(
                tree.nodes@,
                i as int,
            )[0] == s@,
            None => eaan_at(tree.nodes@, i as int).len() == 0,
        },
{
    let mut acts: Vec<String> = Vec::new();
    proof {
        assert(acts@.map_values(|s: String| s@) =~= Seq::<Seq<char>>::empty());
    }
    extract_activities_from_ast_node(tree, i, &mut acts);
    if acts.len() == 0 {
        None
    } else {
        proof {
            assert(acts@.map_values(|s: String| s@)[0] == acts@[0]@);
        }
        Some(acts[0].clone())
    }
}

/// The fan-out target of collection-operation call `i`: the first activity
/// constructed inside a `call_suffix` child.
pub open spec fn eafcc_spec(nodes: Seq<SyntaxNode>, i: int, k: int) -> Option<Seq<char>>
    decreases (if 0 <= i < nodes.len() {
        nodes[i].children@.len() - k
    } else {
        0
    }),
{
    if !(0 <= i < nodes.len()) || !(0 <= k < nodes[i].children@.len()) {
        None
    } else {
        let c = nodes[i].children@[k] as int;
        if 0 <= c < nodes.len() && nodes[c].kind@ == "call_suffix"@ && eaan_at(nodes, c).len()
            > 0 {
            Some(eaan_at(nodes, c)[0])
        } else {
            eafcc_spec(nodes, i, k + 1)
        }
    }
}

/// Extract the fan-out target from collection-operation call `i`.
pub fn extract_aktivitet_from_collection_call(tree: &SyntaxTree, i: usize) -> (r: Option<String>)
    requires
        tree.wf(),
        i < tree.nodes@.len(),
    ensures
        match r {
            Some(s) => eafcc_spec(tree.nodes@, i as int, 0) == Some(s@),
            None => eafcc_spec(tree.nodes@, i as int, 0) is None,
        },
{
    eafcc_exec(tree, i, 0)
}

fn eafcc_exec(tree: &SyntaxTree, i: usize, k: usize) -> (r: Option<String>)
    requires
        tree.wf(),
        i < tree.nodes@.len(),
        k <= tree.nodes@[i as int].children@.len(),
    ensures
        match r {
            Some(s) => eafcc_spec(tree.nodes@, i as int, k as int) == Some(s@),
            None => eafcc_spec(tree.nodes@, i as int, k as int) is None,
        },
    decreases tree.nodes@[i as int].children@.len() - k,
{
    if k >= tree.nodes[i].children.len() {
        return None;
    }
    let c = tree.nodes[i].children[k];
    proof {
        assert(i < tree.nodes@[i as int].children@[k as int] < tree.nodes@.len());
    }
    if str_eq(tree.nodes[c].kind.as_str(), "call_suffix") {
        match extract_from_lambda_in_suffix(tree, c) {
            Some(s) => {
                return Some(s);
            },
            None => {},
        }
    }
    eafcc_exec(tree, i, k + 1)
}

// ---------------------------------------------------------------------------
// The transition extractor proper
// ---------------------------------------------------------------------------

/// `names` as fan-in transitions under one shared condition and fan-out
/// mark.
pub open spec fn names_to_trans(
    names: Seq<Seq<char>>,
    cond: Option<Seq<char>>,
    is_coll: bool,
) -> Seq<GTransition> {
    names.map_values(
        |nm: Seq<char>| GTransition { target: nm, condition: cond, is_collection: is_coll },
    )
}

/// The condition label of a later branch: the first branch's literal
/// condition text behind the logical-negation marker.
pub open spec fn negated_seq(c: Seq<char>) -> Seq<char> {
    "NOT ("@ + c + ")"@
}

/// A guarded condition label prefixed with the logical-negation marker, as
/// used for else branches.
pub fn negate_condition(condition: &str) -> (r: String)
    ensures
        r@ == negated_seq(condition@),
{
    let mut s = String::new();
    s.append("NOT (");
    s.append(condition);
    s.append(")");
    s
}

/// Position of the condition child of if-node `i`: the first child whose
/// kind is neither the keyword, the opening parenthesis, nor a branch body.
pub open spec fn if_cond_child(nodes: Seq<SyntaxNode>, i: int, k: int) -> Option<int>
    decreases (if 0 <= i < nodes.len() {
        nodes[i].children@.len() - k
    } else {
        0
    }),
{
    if !(0 <= i < nodes.len()) || !(0 <= k < nodes[i].children@.len()) {
        None
    } else {
        let c = nodes[i].children@[k] as int;
        if 0 <= c < nodes.len() && nodes[c].kind@ != "if"@ && nodes[c].kind@ != "("@
            && nodes[c].kind@ != "control_structure_body"@ {
            Some(k)
        } else {
            if_cond_child(nodes, i, k + 1)
        }
    }
}

/// Whether child position `k` of if-node `i` is a branch body: a
/// `control_structure_body` or bare `call_expression` other than the
/// condition child.
pub open spec fn is_branch_child(nodes: Seq<SyntaxNode>, i: int, k: int, ck: Option<int>) -> bool {
    0 <= i < nodes.len() && 0 <= k < nodes[i].children@.len() && Some(k) != ck && {
        let c = nodes[i].children@[k] as int;
        0 <= c < nodes.len() && (nodes[c].kind@ == "control_structure_body"@ || nodes[c].kind@
            == "call_expression"@)
    }
}

/// The condition handed to branch number `bc`: the literal text for the
/// first branch, its negation-marked form for every later branch.
pub open spec fn branch_cond(bc: int, ctext: Option<Seq<char>>) -> Option<Seq<char>> {
    if bc == 0 {
        ctext
    } else {
        match ctext {
            Some(c) => Some(negated_seq(c)),
            None => None,
        }
    }
}

/// Transitions extracted below node `i` under inherited condition `cond`.
pub open spec fn fna_at(nodes: Seq<SyntaxNode>, i: int, cond: Option<Seq<char>>) -> Seq<
    GTransition,
>
    decreases nodes.len() - i, 2int, 0int,
{
    if !(0 <= i < nodes.len()) {
        Seq::empty()
    } else if nodes[i].kind@ == "call_expression"@ {
        let direct: Seq<GTransition> = if is_neste_call_spec(nodes, i) {
            match eafc_suffixes(nodes, i, 0) {
                Some(t) => seq![
                    GTransition { target: t, condition: cond, is_collection: false },
                ],
                None => Seq::empty(),
            }
        } else if is_collection_op_spec(nodes, i) {
            match eafcc_spec(nodes, i, 0) {
                Some(t) => seq![GTransition { target: t, condition: cond, is_collection: true }],
                None => Seq::empty(),
            }
        } else if is_nesteer_call_spec(nodes, i) {
            names_to_trans(eacp_names(nodes, i, 0), cond, true)
        } else {
            Seq::empty()
        };
        direct + fna_children(nodes, i, 0, cond, false, None)
    } else if nodes[i].kind@ == "if_expression"@ {
        let ck = if_cond_child(nodes, i, 0);
        let ctext = match ck {
            Some(k) => Some(nodes[nodes[i].children@[k] as int].text@),
            None => None,
        };
        fna_branches(nodes, i, 0, 0, ctext, ck) + fna_children(nodes, i, 0, cond, true, ck)
    } else {
        fna_children(nodes, i, 0, cond, false, None)
    }
}

/// Fold [`fna_at`] over the branch children of if-node `i`, numbering the
/// branches.
pub open spec fn fna_branches(
    nodes: Seq<SyntaxNode>,
    i: int,
    k: int,
    bc: int,
    ctext: Option<Seq<char>>,
    ck: Option<int>,
) -> Seq<GTransition>
    decreases nodes.len() - i, 1int, (if 0 <= i < nodes.len() {
        nodes[i].children@.len() - k
    } else {
        0
    }),
{
    if !(0 <= i < nodes.len()) || !(0 <= k < nodes[i].children@.len()) {
        Seq::empty()
    } else if is_branch_child(nodes, i, k, ck) {
        let c = nodes[i].children@[k] as int;
        let here: Seq<GTransition> = if i < c < nodes.len() {
            fna_at(nodes, c, branch_cond(bc, ctext))
        } else {
            Seq::empty()
        };
        here + fna_branches(nodes, i, k + 1, bc + 1, ctext, ck)
    } else {
        fna_branches(nodes, i, k + 1, bc, ctext, ck)
    }
}

/// Fold [`fna_at`] over the children of `i` with the inherited condition,
/// skipping branch bodies when `skip_branches` is set.
pub open spec fn fna_children(
    nodes: Seq<SyntaxNode>,
    i: int,
    k: int,
    cond: Option<Seq<char>>,
    skip_branches: bool,
    ck: Option<int>,
) -> Seq<GTransition>
    decreases nodes.len() - i, 1int, (if 0 <= i < nodes.len() {
        nodes[i].children@.len() - k
    } else {
        0
    }),
{
    if !(0 <= i < nodes.len()) || !(0 <= k < nodes[i].children@.len()) {
        Seq::empty()
    } else if skip_branches && is_branch_child(nodes, i, k, ck) {
        fna_children(nodes, i, k + 1, cond, skip_branches, ck)
    } else {
        let c = nodes[i].children@[k] as int;
        let here: Seq<GTransition> = if i < c < nodes.len() {
            fna_at(nodes, c, cond)
        } else {
            Seq::empty()
        };
        here + fna_children(nodes, i, k + 1, cond, skip_branches, ck)
    }
}

fn push_transitions_for_names(
    out: &mut Vec<NextAktivitet>,
    names: &Vec<String>,
    cond: &Option<String>,
    is_coll: bool,
)
    ensures
        trans_views(final(out)@) == trans_views(old(out)@) + names_to_trans(
            names@.map_values(|s: String| s@),
            opt_str_view(*cond),
            is_coll,
        ),
{
    let ghost nv = names@.map_values(|s: String| s@);
    let mut j: usize = 0;
    while j < names.len()
        invariant
            nv == names@.map_values(|s: String| s@),
            0 <= j <= names@.len(),
            trans_views(out@) == trans_views(old(out)@) + names_to_trans(
                nv.take(j as int),
                opt_str_view(*cond),
                is_coll,
            ),
        decreases names@.len() - j,
    {
        let ghost pre = trans_views(out@);
        out.push(
            NextAktivitet {
                aktivitet_name: names[j].clone(),
                condition: clone_opt_string(cond),
                is_collection: is_coll,
            },
        );
        proof {
            assert(trans_views(out@) =~= pre.push(
                GTransition {
                    target: nv[j as int],
                    condition: opt_str_view(*cond),
                    is_collection: is_coll,
                },
            ));
            assert(trans_views(old(out)@) + names_to_trans(
                nv.take(j + 1),
                opt_str_view(*cond),
                is_coll,
            ) =~= (trans_views(old(out)@) + names_to_trans(
                nv.take(j as int),
                opt_str_view(*cond),
                is_coll,
            )).push(
                GTransition {
                    target: nv[j as int],
                    condition: opt_str_view(*cond),
                    is_collection: is_coll,
                },
            ));
        }
        j += 1;
    }
    proof {
        assert(nv.take(names@.len() as int) =~= nv);
        assert(trans_views(out@) =~= trans_views(old(out)@) + names_to_trans(
            nv,
            opt_str_view(*cond),
            is_coll,
        ));
    }
}

fn if_cond_child_exec(tree: &SyntaxTree, i: usize, k: usize) -> (r: Option<usize>)
    requires
        tree.wf(),
        i < tree.nodes@.len(),
        k <= tree.nodes@[i as int].children@.len(),
    ensures
        match r {
            Some(p) => if_cond_child(tree.nodes@, i as int, k as int) == Some(p as int) && p
                < tree.nodes@[i as int].children@.len(),
            None => if_cond_child(tree.nodes@, i as int, k as int) is None,
        },
    decreases tree.nodes@[i as int].children@.len() - k,
{
    if k >= tree.nodes[i].children.len() {
        return None;
    }
    let c = tree.nodes[i].children[k];
    proof {
        assert(i < tree.nodes@[i as int].children@[k as int] < tree.nodes@.len());
    }
    if !str_eq(tree.nodes[c].kind.as_str(), "if") && !str_eq(tree.nodes[c].kind.as_str(), "(")
        && !str_eq(tree.nodes[c].kind.as_str(), "control_structure_body") {
        Some(k)
    } else {
        if_cond_child_exec(tree, i, k + 1)
    }
}

fn is_branch_child_exec(tree: &SyntaxTree, i: usize, k: usize, ck: &Option<usize>) -> (r: bool)
    requires
        tree.wf(),
        i < tree.nodes@.len(),
        k < tree.nodes@[i as int].children@.len(),
    ensures
        r == is_branch_child(
            tree.nodes@,
            i as int,
            k as int,
            match *ck {
                Some(p) => Some(p as int),
                None => None,
            },
        ),
{
    let same = match ck {
        Some(p) => *p == k,
        None => false,
    };
    if same {
        return false;
    }
    let c = tree.nodes[i].children[k];
    proof {
        assert(i < tree.nodes@[i as int].children@[k as int] < tree.nodes@.len());
    }
    str_eq(tree.nodes[c].kind.as_str(), "control_structure_body") || str_eq(
        tree.nodes[c].kind.as_str(),
        "call_expression",
    )
}

/// Collect the transitions produced below node `i`, under the inherited
/// `condition`: direct calls keep it, the branches of an `if` get the
/// branch's own condition text (negation-marked from the second branch on).
pub fn find_neste_aktivitet_in_node(
    tree: &SyntaxTree,
    i: usize,
    aktiviteter: &mut Vec<NextAktivitet>,
    condition: Option<String>,
)
    requires
        tree.wf(),
        i < tree.nodes@.len(),
    ensures
        trans_views(final(aktiviteter)@) == trans_views(old(aktiviteter)@) + fna_at(
            tree.nodes@,
            i as int,
            opt_str_view(condition),
        ),
{
    fna_at_exec(tree, i, aktiviteter, &condition);
}

fn fna_at_exec(
    tree: &SyntaxTree,
    i: usize,
    out: &mut Vec<NextAktivitet>,
    cond: &Option<String>,
)
    requires
        tree.wf(),
        i < tree.nodes@.len(),
    ensures
        trans_views(final(out)@) == trans_views(old(out)@) + fna_at(
            tree.nodes@,
            i as int,
            opt_str_view(*cond),
        ),
    decreases tree.nodes@.len() - i, 2int, 0int,
{
    let ghost pre = trans_views(out@);
    if str_eq(tree.nodes[i].kind.as_str(), "call_expression") {
        if is_neste_aktivitet_call(tree, i) {
            match extract_aktivitet_from_call(tree, i) {
                Some(t) => {
                    let ghost tv = t@;
                    out.push(
                        NextAktivitet {
                            aktivitet_name: t,
                            condition: clone_opt_string(cond),
                            is_collection: false,
                        },
                    );
                    proof {
                        assert(trans_views(out@) =~= pre + seq![
                            GTransition {
                                target: tv,
                                condition: opt_str_view(*cond),
                                is_collection: false,
                            },
                        ]);
                    }
                },
                None => {
                    proof {
                        assert(trans_views(out@) =~= pre + Seq::<GTransition>::empty());
                    }
                },
            }
        } else if is_collection_operation(tree, i) {
            match extract_aktivitet_from_collection_call(tree, i) {
                Some(t) => {
                    let ghost tv = t@;
                    out.push(
                        NextAktivitet {
                            aktivitet_name: t,
                            condition: clone_opt_string(cond),
                            is_collection: true,
                        },
                    );
                    proof {
                        assert(trans_views(out@) =~= pre + seq![
                            GTransition {
                                target: tv,
                                condition: opt_str_view(*cond),
                                is_collection: true,
                            },
                        ]);
                    }
                },
                None => {
                    proof {
                        assert(trans_views(out@) =~= pre + Seq::<GTransition>::empty());
                    }
                },
            }
        } else if is_neste_aktiviteter_call(tree, i) {
            match extract_aktiviteter_from_collection_pattern(tree, i) {
                Some(names) => {
                    push_transitions_for_names(out, &names, cond, true);
                },
                None => {
                    proof {
                        assert(names_to_trans(
                            eacp_names(tree.nodes@, i as int, 0),
                            opt_str_view(*cond),
                            true,
                        ) =~= Seq::<GTransition>::empty());
                        assert(trans_views(out@) =~= pre + Seq::<GTransition>::empty());
                    }
                },
            }
        }
        let ghost mid = trans_views(out@);
        fna_children_exec(tree, i, 0, out, cond, false, &None);
        proof {
            assert(trans_views(out@) =~= pre + fna_at(
                tree.nodes@,
                i as int,
                opt_str_view(*cond),
            ));
        }
    } else if str_eq(tree.nodes[i].kind.as_str(), "if_expression") {
        let ck = if_cond_child_exec(tree, i, 0);
        let ctext: Option<String> = match &ck {
            Some(p) => {
                let c = tree.nodes[i].children[*p];
                proof {
                    assert(i < tree.nodes@[i as int].children@[*p as int] < tree.nodes@.len());
                }
                Some(tree.nodes[c].text.clone())
            },
            None => None,
        };
        fna_branches_exec(tree, i, 0, 0, out, &ctext, &ck);
        fna_children_exec(tree, i, 0, out, cond, true, &ck);
        proof {
            assert(trans_views(out@) =~= pre + fna_at(
                tree.nodes@,
                i as int,
                opt_str_view(*cond),
            ));
        }
    } else {
        fna_children_exec(tree, i, 0, out, cond, false, &None);
    }
}

fn fna_branches_exec(
    tree: &SyntaxTree,
    i: usize,
    k: usize,
    bc: usize,
    out: &mut Vec<NextAktivitet>,
    ctext: &Option<String>,
    ck: &Option<usize>,
)
    requires
        tree.wf(),
        i < tree.nodes@.len(),
        k <= tree.nodes@[i as int].children@.len(),
        bc <= k,
    ensures
        trans_views(final(out)@) == trans_views(old(out)@) + fna_branches(
            tree.nodes@,
            i as int,
            k as int,
            bc as int,
            opt_str_view(*ctext),
            match *ck {
                Some(p) => Some(p as int),
                None => None,
            },
        ),
    decreases tree.nodes@.len() - i, 1int, tree.nodes@[i as int].children@.len() - k,
{
    let ghost pre = trans_views(out@);
    if k >= tree.nodes[i].children.len() {
        proof {
            assert(trans_views(out@) =~= pre + Seq::<GTransition>::empty());
        }
        return ;
    }
    if is_branch_child_exec(tree, i, k, ck) {
        let c = tree.nodes[i].children[k];
        proof {
            assert(i < tree.nodes@[i as int].children@[k as int] < tree.nodes@.len());
        }
        if bc == 0 {
            let bcond = clone_opt_string(ctext);
            fna_at_exec(tree, c, out, &bcond);
        } else {
            let bcond: Option<String> = match ctext {
                Some(c0) => Some(negate_condition(c0.as_str())),
                None => None,
            };
            fna_at_exec(tree, c, out, &bcond);
        }
        fna_branches_exec(tree, i, k + 1, bc + 1, out, ctext, ck);
        proof {
            assert(trans_views(out@) =~= pre + fna_branches(
                tree.nodes@,
                i as int,
                k as int,
                bc as int,
                opt_str_view(*ctext),
                match *ck {
                    Some(p) => Some(p as int),
                    None => None,
                },
            ));
        }
    } else {
        fna_branches_exec(tree, i, k + 1, bc, out, ctext, ck);
    }
}

fn fna_children_exec(
    tree: &SyntaxTree,
    i: usize,
    k: usize,
    out: &mut Vec<NextAktivitet>,
    cond: &Option<String>,
    skip_branches: bool,
    ck: &Option<usize>,
)
    requires
        tree.wf(),
        i < tree.nodes@.len(),
        k <= tree.nodes@[i as int].children@.len(),
    ensures
        trans_views(final(out)@) == trans_views(old(out)@) + fna_children(
            tree.nodes@,
            i as int,
            k as int,
            opt_str_view(*cond),
            skip_branches,
            match *ck {
                Some(p) => Some(p as int),
                None => None,
            },
        ),
    decreases tree.nodes@.len() - i, 1int, tree.nodes@[i as int].children@.len() - k,
{
    let ghost pre = trans_views(out@);
    if k >= tree.nodes[i].children.len() {
        proof {
            assert(trans_views(out@) =~= pre + Seq::<GTransition>::empty());
        }
        return ;
    }
    if skip_branches && is_branch_child_exec(tree, i, k, ck) {
        fna_children_exec(tree, i, k + 1, out, cond, skip_branches, ck);
        return ;
    }
    let c = tree.nodes[i].children[k];
    proof {
        assert(i < tree.nodes@[i as int].children@[k as int] < tree.nodes@.len());
    }
    fna_at_exec(tree, c, out, cond);
    fna_children_exec(tree, i, k + 1, out, cond, skip_branches, ck);
    proof {
        assert(trans_views(out@) =~= pre + fna_children(
            tree.nodes@,
            i as int,
            k as int,
            opt_str_view(*cond),
            skip_branches,
            match *ck {
                Some(p) => Some(p as int),
                None => None,
            },
        ));
    }
}

// ---------------------------------------------------------------------------
// Per-method extraction, with the textual fallback
// ---------------------------------------------------------------------------

/// Structural transitions of function node `i`: the fold of [`fna_at`] over
/// its `function_body` children, unconditioned.
pub open spec fn enac_children(nodes: Seq<SyntaxNode>, i: int, k: int) -> Seq<GTransition>
    decreases (if 0 <= i < nodes.len() {
        nodes[i].children@.len() - k
    } else {
        0
    }),
{
    if !(0 <= i < nodes.len()) || !(0 <= k < nodes[i].children@.len()) {
        Seq::empty()
    } else {
        let c = nodes[i].children@[k] as int;
        let here: Seq<GTransition> = if 0 <= c < nodes.len() && nodes[c].kind@
            == "function_body"@ {
            fna_at(nodes, c, None)
        } else {
            Seq::empty()
        };
        here + enac_children(nodes, i, k + 1)
    }
}

/// All transitions of the handler method at node `i`.  The structural
/// extractor decides; only where it finds nothing and the method's text
/// mentions the multi-transition call does the textual fallback run.
pub open spec fn extract_calls_spec(nodes: Seq<SyntaxNode>, i: int) -> Seq<GTransition> {
    let structural = enac_children(nodes, i, 0);
    if structural.len() == 0 && contains_seq(nodes[i].text@, "nesteAktiviteter("@)
        && !contains_seq(nodes[i].text@, "nesteAktivitet("@) {
        crate::textscan::fallback_transitions(nodes[i].text@, None)
    } else {
        structural
    }
}

fn enac_children_exec(tree: &SyntaxTree, i: usize, k: usize, out: &mut Vec<NextAktivitet>)
    requires
        tree.wf(),
        i < tree.nodes@.len(),
        k <= tree.nodes@[i as int].children@.len(),
    ensures
        trans_views(final(out)@) == trans_views(old(out)@) + enac_children(
            tree.nodes@,
            i as int,
            k as int,
        ),
    decreases tree.nodes@[i as int].children@.len() - k,
{
    let ghost pre = trans_views(out@);
    if k >= tree.nodes[i].children.len() {
        proof {
            assert(trans_views(out@) =~= pre + Seq::<GTransition>::empty());
        }
        return ;
    }
    let c = tree.nodes[i].children[k];
    proof {
        assert(i < tree.nodes@[i as int].children@[k as int] < tree.nodes@.len());
    }
    if str_eq(tree.nodes[c].kind.as_str(), "function_body") {
        let none_cond: Option<String> = None;
        fna_at_exec(tree, c, out, &none_cond);
    }
    enac_children_exec(tree, i, k + 1, out);
    proof {
        assert(trans_views(out@) =~= pre + enac_children(tree.nodes@, i as int, k as int));
    }
}

/// Extract the transitions of the handler method at node `func_i`.
pub fn extract_neste_aktivitet_calls(tree: &SyntaxTree, func_i: usize) -> (r: Vec<NextAktivitet>)
    requires
        tree.wf(),
        func_i < tree.nodes@.len(),
    ensures
        trans_views(r@) == extract_calls_spec(tree.nodes@, func_i as int),
{
    let mut out: Vec<NextAktivitet> = Vec::new();
    proof {
        assert(trans_views(out@) =~= Seq::<GTransition>::empty());
        assert(Seq::<GTransition>::empty() + enac_children(tree.nodes@, func_i as int, 0)
            =~= enac_children(tree.nodes@, func_i as int, 0));
    }
    enac_children_exec(tree, func_i, 0, &mut out);
    if out.len() == 0 {
        let text = tree.nodes[func_i].text.as_str();
        if str_contains(text, "nesteAktiviteter(") && !str_contains(text, "nesteAktivitet(") {
            crate::textscan::extract_all_activity_constructors(text, &mut out, None);
            proof {
                assert(trans_views(out@) =~= Seq::<GTransition>::empty()
                    + crate::textscan::fallback_transitions(
                    tree.nodes@[func_i as int].text@,
                    None,
                ));
            }
        }
    }
    out
}

/// Transitions found by descending only into children whose text mentions
/// the multi-transition call, stopping at the first such call node.
pub open spec fn sfn_at(nodes: Seq<SyntaxNode>, i: int, cond: Option<Seq<char>>) -> Seq<
    GTransition,
>
    decreases nodes.len() - i, 1int, 0int,
{
    if !(0 <= i < nodes.len()) {
        Seq::empty()
    } else if nodes[i].kind@ == "call_expression"@ && is_nesteer_call_spec(nodes, i) {
        names_to_trans(eacp_names(nodes, i, 0), cond, true)
    } else {
        sfn_children(nodes, i, 0, cond)
    }
}

/// Fold [`sfn_at`] over the children of `i` whose text mentions the
/// multi-transition call.
pub open spec fn sfn_children(
    nodes: Seq<SyntaxNode>,
    i: int,
    k: int,
    cond: Option<Seq<char>>,
) -> Seq<GTransition>
    decreases nodes.len() - i, 0int, (if 0 <= i < nodes.len() {
        nodes[i].children@.len() - k
    } else {
        0
    }),
{
    if !(0 <= i < nodes.len()) || !(0 <= k < nodes[i].children@.len()) {
        Seq::empty()
    } else {
        let c = nodes[i].children@[k] as int;
        let here: Seq<GTransition> = if i < c < nodes.len() && contains_seq(
            nodes[c].text@,
            "nesteAktiviteter("@,
        ) {
            sfn_at(nodes, c, cond)
        } else {
            Seq::empty()
        };
        here + sfn_children(nodes, i, k + 1, cond)
    }
}

/// Search complex expressions below `i` for multi-transition calls,
/// descending only where the text mentions them.
pub fn search_for_nested_neste_aktiviteter(
    tree: &SyntaxTree,
    i: usize,
    aktiviteter: &mut Vec<NextAktivitet>,
    condition: Option<String>,
)
    requires
        tree.wf(),
        i < tree.nodes@.len(),
    ensures
        trans_views(final(aktiviteter)@) == trans_views(old(aktiviteter)@) + sfn_at(
            tree.nodes@,
            i as int,
            opt_str_view(condition),
        ),
{
    sfn_at_exec(tree, i, aktiviteter, &condition);
}

fn sfn_at_exec(
    tree: &SyntaxTree,
    i: usize,
    out: &mut Vec<NextAktivitet>,
    cond: &Option<String>,
)
    requires
        tree.wf(),
        i < tree.nodes@.len(),
    ensures
        trans_views(final(out)@) == trans_views(old(out)@) + sfn_at(
            tree.nodes@,
            i as int,
            opt_str_view(*cond),
        ),
    decreases tree.nodes@.len() - i, 1int, 0int,
{
    let ghost pre = trans_views(out@);
    if str_eq(tree.nodes[i].kind.as_str(), "call_expression") && is_neste_aktiviteter_call(
        tree,
        i,
    ) {
        match extract_aktiviteter_from_collection_pattern(tree, i) {
            Some(names) => {
                push_transitions_for_names(out, &names, cond, true);
            },
            None => {
                proof {
                    assert(names_to_trans(
                        eacp_names(tree.nodes@, i as int, 0),
                        opt_str_view(*cond),
                        true,
                    ) =~= Seq::<GTransition>::empty());
                    assert(trans_views(out@) =~= pre + Seq::<GTransition>::empty());
                }
            },
        }
        return ;
    }
    sfn_children_exec(tree, i, 0, out, cond);
}

fn sfn_children_exec(
    tree: &SyntaxTree,
    i: usize,
    k: usize,
    out: &mut Vec<NextAktivitet>,
    cond: &Option<String>,
)
    requires
        tree.wf(),
        i < tree.nodes@.len(),
        k <= tree.nodes@[i as int].children@.len(),
    ensures
        trans_views(final(out)@) == trans_views(old(out)@) + sfn_children(
            tree.nodes@,
            i as int,
            k as int,
            opt_str_view(*cond),
        ),
    decreases tree.nodes@.len() - i, 0int, tree.nodes@[i as int].children@.len() - k,
{
    let ghost pre = trans_views(out@);
    if k >= tree.nodes[i].children.len() {
        proof {
            assert(trans_views(out@) =~= pre + Seq::<GTransition>::empty());
        }
        return ;
    }
    let c = tree.nodes[i].children[k];
    proof {
        assert(i < tree.nodes@[i as int].children@[k as int] < tree.nodes@.len());
    }
    if str_contains(tree.nodes[c].text.as_str(), "nesteAktiviteter(") {
        sfn_at_exec(tree, c, out, cond);
    }
    sfn_children_exec(tree, i, k + 1, out, cond);
    proof {
        assert(trans_views(out@) =~= pre + sfn_children(
            tree.nodes@,
            i as int,
            k as int,
            opt_str_view(*cond),
        ));
    }
}

/// Run the textual fallback on node `i` when its text holds a
/// multi-transition call and no single-transition call.
#[allow(non_snake_case)]
pub fn extract_aktiviteter_from_generic_nesteAktiviteter_pattern(
    tree: &SyntaxTree,
    i: usize,
    aktiviteter: &mut Vec<NextAktivitet>,
    condition: Option<String>,
)
    requires
        tree.wf(),
        i < tree.nodes@.len(),
    ensures
        trans_views(final(aktiviteter)@) == trans_views(old(aktiviteter)@) + (if contains_seq(
            tree.nodes@[i as int].text@,
            "nesteAktiviteter("@,
        ) && !contains_seq(tree.nodes@[i as int].text@, "nesteAktivitet("@) {
            crate::textscan::fallback_transitions(
                tree.nodes@[i as int].text@,
                opt_str_view(condition),
            )
        } else {
            Seq::empty()
        }),
{
    let text = tree.nodes[i].text.as_str();
    if str_contains(text, "nesteAktiviteter(") && !str_contains(text, "nesteAktivitet(") {
        crate::textscan::extract_all_activity_constructors(text, aktiviteter, condition);
    } else {
        proof {
            assert(trans_views(aktiviteter@) =~= trans_views(aktiviteter@) + Seq::<
                GTransition,
            >::empty());
        }
    }
}

/// The first activity constructed inside a lambda below node `i`.
pub fn find_nested_aktivitet_in_lambda(tree: &SyntaxTree, i: usize) -> (r: Option<String>)
    requires
        tree.wf(),
        i < tree.nodes@.len(),
    ensures
        match r {
            Some(s) => eaan_at(tree.nodes@, i as int).len() > 0 && eaan_at(
                tree.nodes@,
                i as int,
            )[0] == s@,
            None => eaan_at(tree.nodes@, i as int).len() == 0,
        },
{
    extract_from_lambda_in_suffix(tree, i)
}

} // verus!
