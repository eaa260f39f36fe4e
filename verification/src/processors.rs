//! Building the processor index: recognizing handler classes by their name
//! suffix, recovering the activity they are bound to from a supertype's
//! generic argument, and folding each handler method's transitions into the
//! index.

use vstd::prelude::*;
use crate::classes::{first_child_of_kinds, first_child_of_kinds_exec, type_name_spec, extract_type_name};
use crate::model::{
    GProcEntry, ProcessorIndex, index_merge, lookup_proc, no_dup_targets, has_target,
    merge_transitions, dedup_transitions, lemma_merge_no_dup, lemma_merge_has_target,
    opt_str_view, trans_views, GTransition,
};
use crate::strutil::{contains_seq, ends_with_seq, str_contains, str_ends_with, str_eq};
use crate::syntax::{SourceTree, SyntaxNode, SyntaxTree};
use crate::transitions::{extract_calls_spec, extract_neste_aktivitet_calls};

verus! {

/// Type names inside type-projection node `tp`.
pub open spec fn proj_types(nodes: Seq<SyntaxNode>, tp: int, k: int) -> Seq<Seq<char>>
    decreases (if 0 <= tp < nodes.len() {
        nodes[tp].children@.len() - k
    } else {
        0
    }),
{
    if !(0 <= tp < nodes.len()) || !(0 <= k < nodes[tp].children@.len()) {
        Seq::empty()
    } else {
        let c = nodes[tp].children@[k] as int;
        let here: Seq<Seq<char>> = if 0 <= c < nodes.len() && (nodes[c].kind@ == "user_type"@
            || nodes[c].kind@ == "type_identifier"@) {
            seq![type_name_spec(nodes, c)]
        } else {
            Seq::empty()
        };
        here + proj_types(nodes, tp, k + 1)
    }
}

/// All type projections inside type-arguments node `ta`.
pub open spec fn ta_projections(nodes: Seq<SyntaxNode>, ta: int, k: int) -> Seq<Seq<char>>
    decreases (if 0 <= ta < nodes.len() {
        nodes[ta].children@.len() - k
    } else {
        0
    }),
{
    if !(0 <= ta < nodes.len()) || !(0 <= k < nodes[ta].children@.len()) {
        Seq::empty()
    } else {
        let c = nodes[ta].children@[k] as int;
        let here: Seq<Seq<char>> = if 0 <= c < nodes.len() && nodes[c].kind@
            == "type_projection"@ {
            proj_types(nodes, c, 0)
        } else {
            Seq::empty()
        };
        here + ta_projections(nodes, ta, k + 1)
    }
}

/// The bound activity type named by type-arguments node `ta`: the second
/// positional type when there are at least two, the only one otherwise.
pub open spec fn ta_activity(nodes: Seq<SyntaxNode>, ta: int) -> Option<Seq<char>> {
    let ps = ta_projections(nodes, ta, 0);
    if ps.len() >= 2 {
        Some(ps[1])
    } else if ps.len() == 1 {
        Some(ps[0])
    } else {
        None
    }
}

/// First `type_arguments` child of user-type `ut` that names an activity.
pub open spec fn ut_activity(nodes: Seq<SyntaxNode>, ut: int, k: int) -> Option<Seq<char>>
    decreases (if 0 <= ut < nodes.len() {
        nodes[ut].children@.len() - k
    } else {
        0
    }),
{
    if !(0 <= ut < nodes.len()) || !(0 <= k < nodes[ut].children@.len()) {
        None
    } else {
        let c = nodes[ut].children@[k] as int;
        if 0 <= c < nodes.len() && nodes[c].kind@ == "type_arguments"@ && ta_activity(nodes, c)
            is Some {
            ta_activity(nodes, c)
        } else {
            ut_activity(nodes, ut, k + 1)
        }
    }
}

/// First `user_type` child of constructor-invocation `ci` that names an
/// activity.
pub open spec fn ci_activity(nodes: Seq<SyntaxNode>, ci: int, k: int) -> Option<Seq<char>>
    decreases (if 0 <= ci < nodes.len() {
        nodes[ci].children@.len() - k
    } else {
        0
    }),
{
    if !(0 <= ci < nodes.len()) || !(0 <= k < nodes[ci].children@.len()) {
        None
    } else {
        let c = nodes[ci].children@[k] as int;
        if 0 <= c < nodes.len() && nodes[c].kind@ == "user_type"@ && ut_activity(nodes, c, 0)
            is Some {
            ut_activity(nodes, c, 0)
        } else {
            ci_activity(nodes, ci, k + 1)
        }
    }
}

/// The activity type recovered from the generic arguments under node `i`.
pub open spec fn type_param_spec(nodes: Seq<SyntaxNode>, i: int, k: int) -> Option<Seq<char>>
    decreases (if 0 <= i < nodes.len() {
        nodes[i].children@.len() - k
    } else {
        0
    }),
{
    if !(0 <= i < nodes.len()) || !(0 <= k < nodes[i].children@.len()) {
        None
    } else {
        let c = nodes[i].children@[k] as int;
        if 0 <= c < nodes.len() && nodes[c].kind@ == "constructor_invocation"@ && ci_activity(
            nodes,
            c,
            0,
        ) is Some {
            ci_activity(nodes, c, 0)
        } else {
            type_param_spec(nodes, i, k + 1)
        }
    }
}

/// The bound activity of processor class `i`: the first delegation
/// specifier whose generic arguments name one.
pub open spec fn processor_activity_spec(nodes: Seq<SyntaxNode>, i: int, k: int) -> Option<
    Seq<char>,
>
    decreases (if 0 <= i < nodes.len() {
        nodes[i].children@.len() - k
    } else {
        0
    }),
{
    if !(0 <= i < nodes.len()) || !(0 <= k < nodes[i].children@.len()) {
        None
    } else {
        let c = nodes[i].children@[k] as int;
        if 0 <= c < nodes.len() && nodes[c].kind@ == "delegation_specifier"@ && type_param_spec(
            nodes,
            c,
            0,
        ) is Some {
            type_param_spec(nodes, c, 0)
        } else {
            processor_activity_spec(nodes, i, k + 1)
        }
    }
}

fn proj_types_exec(tree: &SyntaxTree, tp: usize, k: usize, out: &mut Vec<String>)
    requires
        tree.wf(),
        tp < tree.nodes@.len(),
        k <= tree.nodes@[tp as int].children@.len(),
    ensures
        final(out)@.map_values(|s: String| s@) == old(out)@.map_values(|s: String| s@)
            + proj_types(tree.nodes@, tp as int, k as int),
    decreases tree.nodes@[tp as int].children@.len() - k,
{
    let ghost pre = out@.map_values(|s: String| s@);
    if k >= tree.nodes[tp].children.len() {
        proof {
            assert(out@.map_values(|s: String| s@) =~= pre + Seq::<Seq<char>>::empty());
        }
        return ;
    }
    let c = tree.nodes[tp].children[k];
    proof {
        assert(tp < tree.nodes@[tp as int].children@[k as int] < tree.nodes@.len());
    }
    if str_eq(tree.nodes[c].kind.as_str(), "user_type") || str_eq(
        tree.nodes[c].kind.as_str(),
        "type_identifier",
    ) {
        let t = extract_type_name(tree, c);
        let ghost tv = t@;
        out.push(t);
        proof {
            assert(out@.map_values(|s: String| s@) =~= pre + seq![tv]);
        }
    }
    proj_types_exec(tree, tp, k + 1, out);
    proof {
        assert(out@.map_values(|s: String| s@) =~= pre + proj_types(
            tree.nodes@,
            tp as int,
            k as int,
        ));
    }
}

fn ta_projections_exec(tree: &SyntaxTree, ta: usize, k: usize, out: &mut Vec<String>)
    requires
        tree.wf(),
        ta < tree.nodes@.len(),
        k <= tree.nodes@[ta as int].children@.len(),
    ensures
        final(out)@.map_values(|s: String| s@) == old(out)@.map_values(|s: String| s@)
            + ta_projections(tree.nodes@, ta as int, k as int),
    decreases tree.nodes@[ta as int].children@.len() - k,
{
    let ghost pre = out@.map_values(|s: String| s@);
    if k >= tree.nodes[ta].children.len() {
        proof {
            assert(out@.map_values(|s: String| s@) =~= pre + Seq::<Seq<char>>::empty());
        }
        return ;
    }
    let c = tree.nodes[ta].children[k];
    proof {
        assert(ta < tree.nodes@[ta as int].children@[k as int] < tree.nodes@.len());
    }
    if str_eq(tree.nodes[c].kind.as_str(), "type_projection") {
        proj_types_exec(tree, c, 0, out);
    }
    ta_projections_exec(tree, ta, k + 1, out);
    proof {
        assert(out@.map_values(|s: String| s@) =~= pre + ta_projections(
            tree.nodes@,
            ta as int,
            k as int,
        ));
    }
}

fn ta_activity_exec(tree: &SyntaxTree, ta: usize) -> (r: Option<String>)
    requires
        tree.wf(),
        ta < tree.nodes@.len(),
    ensures
        match r {
            Some(s) => ta_activity(tree.nodes@, ta as int) == Some(s@),
            None => ta_activity(tree.nodes@, ta as int) is None,
        },
{
    let mut ps: Vec<String> = Vec::new();
    proof {
        assert(ps@.map_values(|s: String| s@) =~= Seq::<Seq<char>>::empty());
        assert(Seq::<Seq<char>>::empty() + ta_projections(tree.nodes@, ta as int, 0)
            =~= ta_projections(tree.nodes@, ta as int, 0));
    }
    ta_projections_exec(tree, ta, 0, &mut ps);
    if ps.len() >= 2 {
        proof {
            assert(ps@.map_values(|s: String| s@)[1] == ps@[1]@);
        }
        Some(ps[1].clone())
    } else if ps.len() == 1 {
        proof {
            assert(ps@.map_values(|s: String| s@)[0] == ps@[0]@);
        }
        Some(ps[0].clone())
    } else {
        None
    }
}

fn ut_activity_exec(tree: &SyntaxTree, ut: usize, k: usize) -> (r: Option<String>)
    requires
        tree.wf(),
        ut < tree.nodes@.len(),
        k <= tree.nodes@[ut as int].children@.len(),
    ensures
        match r {
            Some(s) => ut_activity(tree.nodes@, ut as int, k as int) == Some(s@),
            None => ut_activity(tree.nodes@, ut as int, k as int) is None,
        },
    decreases tree.nodes@[ut as int].children@.len() - k,
{
    if k >= tree.nodes[ut].children.len() {
        return None;
    }
    let c = tree.nodes[ut].children[k];
    proof {
        assert(ut < tree.nodes@[ut as int].children@[k as int] < tree.nodes@.len());
    }
    if str_eq(tree.nodes[c].kind.as_str(), "type_arguments") {
        match ta_activity_exec(tree, c) {
            Some(s) => {
                return Some(s);
            },
            None => {},
        }
    }
    ut_activity_exec(tree, ut, k + 1)
}

fn ci_activity_exec(tree: &SyntaxTree, ci: usize, k: usize) -> (r: Option<String>)
    requires
        tree.wf(),
        ci < tree.nodes@.len(),
        k <= tree.nodes@[ci as int].children@.len(),
    ensures
        match r {
            Some(s) => ci_activity(tree.nodes@, ci as int, k as int) == Some(s@),
            None => ci_activity(tree.nodes@, ci as int, k as int) is None,
        },
    decreases tree.nodes@[ci as int].children@.len() - k,
{
    if k >= tree.nodes[ci].children.len() {
        return None;
    }
    let c = tree.nodes[ci].children[k];
    proof {
        assert(ci < tree.nodes@[ci as int].children@[k as int] < tree.nodes@.len());
    }
    if str_eq(tree.nodes[c].kind.as_str(), "user_type") {
        match ut_activity_exec(tree, c, 0) {
            Some(s) => {
                return Some(s);
            },
            None => {},
        }
    }
    ci_activity_exec(tree, ci, k + 1)
}

/// Recover the bound activity type from the generic arguments of node `i`'s
/// supertype.
pub fn extract_type_parameter(tree: &SyntaxTree, i: usize) -> (r: Option<String>)
    requires
        tree.wf(),
        i < tree.nodes@.len(),
    ensures
        match r {
            Some(s) => type_param_spec(tree.nodes@, i as int, 0) == Some(s@),
            None => type_param_spec(tree.nodes@, i as int, 0) is None,
        },
{
    type_param_exec(tree, i, 0)
}

fn type_param_exec(tree: &SyntaxTree, i: usize, k: usize) -> (r: Option<String>)
    requires
        tree.wf(),
        i < tree.nodes@.len(),
        k <= tree.nodes@[i as int].children@.len(),
    ensures
        match r {
            Some(s) => type_param_spec(tree.nodes@, i as int, k as int) == Some(s@),
            None => type_param_spec(tree.nodes@, i as int, k as int) is None,
        },
    decreases tree.nodes@[i as int].children@.len() - k,
{
    if k >= tree.nodes[i].children.len() {
        return None;
    }
    let c = tree.nodes[i].children[k];
    proof {
        assert(i < tree.nodes@[i as int].children@[k as int] < tree.nodes@.len());
    }
    if str_eq(tree.nodes[c].kind.as_str(), "constructor_invocation") {
        match ci_activity_exec(tree, c, 0) {
            Some(s) => {
                return Some(s);
            },
            None => {},
        }
    }
    type_param_exec(tree, i, k + 1)
}

/// Recover the activity a processor class is bound to from its delegation
/// specifiers.
pub fn extract_aktivitet_from_processor(tree: &SyntaxTree, class_node: usize) -> (r: Option<
    String,
>)
    requires
        tree.wf(),
        class_node < tree.nodes@.len(),
    ensures
        match r {
            Some(s) => processor_activity_spec(tree.nodes@, class_node as int, 0) == Some(s@),
            None => processor_activity_spec(tree.nodes@, class_node as int, 0) is None,
        },
{
    processor_activity_exec(tree, class_node, 0)
}

fn processor_activity_exec(tree: &SyntaxTree, i: usize, k: usize) -> (r: Option<String>)
    requires
        tree.wf(),
        i < tree.nodes@.len(),
        k <= tree.nodes@[i as int].children@.len(),
    ensures
        match r {
            Some(s) => processor_activity_spec(tree.nodes@, i as int, k as int) == Some(s@),
            None => processor_activity_spec(tree.nodes@, i as int, k as int) is None,
        },
    decreases tree.nodes@[i as int].children@.len() - k,
{
    if k >= tree.nodes[i].children.len() {
        return None;
    }
    let c = tree.nodes[i].children[k];
    proof {
        assert(i < tree.nodes@[i as int].children@[k as int] < tree.nodes@.len());
    }
    if str_eq(tree.nodes[c].kind.as_str(), "delegation_specifier") {
        match type_param_exec(tree, c, 0) {
            Some(s) => {
                return Some(s);
            },
            None => {},
        }
    }
    processor_activity_exec(tree, i, k + 1)
}

/// Whether function node `i` is named by the designated handler-method
/// name `name`.
pub open spec fn is_named_function(nodes: Seq<SyntaxNode>, i: int, name: Seq<char>) -> bool {
    match first_child_of_kinds(nodes, i, 0, seq!["simple_identifier"@]) {
        Some(c) => nodes[c].text@ == name,
        None => false,
    }
}

fn named_function_exec(tree: &SyntaxTree, i: usize, name: &str) -> (r: bool)
    requires
        tree.wf(),
        i < tree.nodes@.len(),
    ensures
        r == is_named_function(tree.nodes@, i as int, name@),
{
    let mut kinds: Vec<&str> = Vec::new();
    kinds.push("simple_identifier");
    proof {
        assert(kinds@.map_values(|s: &str| s@) =~= seq!["simple_identifier"@]);
    }
    match first_child_of_kinds_exec(tree, i, 0, &kinds) {
        Some(c) => str_eq(tree.nodes[c].text.as_str(), name),
        None => false,
    }
}

/// Whether function node `i` is the primary handler method.
pub fn is_do_process_function(tree: &SyntaxTree, i: usize) -> (r: bool)
    requires
        tree.wf(),
        i < tree.nodes@.len(),
    ensures
        r == is_named_function(tree.nodes@, i as int, "doProcess"@),
{
    named_function_exec(tree, i, "doProcess")
}

/// Whether function node `i` is the completion handler method.
pub fn is_on_finished_function(tree: &SyntaxTree, i: usize) -> (r: bool)
    requires
        tree.wf(),
        i < tree.nodes@.len(),
    ensures
        r == is_named_function(tree.nodes@, i as int, "onFinished"@),
{
    named_function_exec(tree, i, "onFinished")
}

/// Some assignment below `i` mentions both the manual-task field and type.
pub open spec fn hmb_at(nodes: Seq<SyntaxNode>, i: int) -> bool
    decreases nodes.len() - i, 1int, 0int,
{
    if !(0 <= i < nodes.len()) {
        false
    } else {
        (nodes[i].kind@ == "assignment"@ && contains_seq(nodes[i].text@, "manuellBehandling"@)
            && contains_seq(nodes[i].text@, "ManuellBehandling"@)) || hmb_children(nodes, i, 0)
    }
}

/// Fold [`hmb_at`] over the children of `i`, from `k` on.
pub open spec fn hmb_children(nodes: Seq<SyntaxNode>, i: int, k: int) -> bool
    decreases nodes.len() - i, 0int, (if 0 <= i < nodes.len() {
        nodes[i].children@.len() - k
    } else {
        0
    }),
{
    if !(0 <= i < nodes.len()) || !(0 <= k < nodes[i].children@.len()) {
        false
    } else {
        let c = nodes[i].children@[k] as int;
        (i < c < nodes.len() && hmb_at(nodes, c)) || hmb_children(nodes, i, k + 1)
    }
}

/// Whether the handler method at `func_i` creates a manual task: some
/// nested assignment mentions both the designated field and type names.
pub fn has_manuell_behandling_call(tree: &SyntaxTree, func_i: usize) -> (r: bool)
    requires
        tree.wf(),
        func_i < tree.nodes@.len(),
    ensures
        r == hmb_at(tree.nodes@, func_i as int),
    decreases tree.nodes@.len() - func_i, 1int, 0int,
{
    if str_eq(tree.nodes[func_i].kind.as_str(), "assignment") {
        if str_contains(tree.nodes[func_i].text.as_str(), "manuellBehandling") && str_contains(
            tree.nodes[func_i].text.as_str(),
            "ManuellBehandling",
        ) {
            return true;
        }
    }
    hmb_children_exec(tree, func_i, 0)
}

fn hmb_children_exec(tree: &SyntaxTree, i: usize, k: usize) -> (r: bool)
    requires
        tree.wf(),
        i < tree.nodes@.len(),
        k <= tree.nodes@[i as int].children@.len(),
    ensures
        r == hmb_children(tree.nodes@, i as int, k as int),
    decreases tree.nodes@.len() - i, 0int, tree.nodes@[i as int].children@.len() - k,
{
    if k >= tree.nodes[i].children.len() {
        return false;
    }
    let c = tree.nodes[i].children[k];
    proof {
        assert(i < tree.nodes@[i as int].children@[k as int] < tree.nodes@.len());
    }
    if has_manuell_behandling_call(tree, c) {
        return true;
    }
    hmb_children_exec(tree, i, k + 1)
}

// ---------------------------------------------------------------------------
// The processor-index visitor
// ---------------------------------------------------------------------------

/// State of the processor pass after visiting the subtree at `i`: the class
/// in scope, the activity that class handles, and the index.
pub open spec fn ep_at(
    nodes: Seq<SyntaxNode>,
    i: int,
    cc: Option<Seq<char>>,
    ca: Option<Seq<char>>,
    idx: Seq<GProcEntry>,
) -> (Option<Seq<char>>, Option<Seq<char>>, Seq<GProcEntry>)
    decreases nodes.len() - i, 1int, 0int,
{
    if !(0 <= i < nodes.len()) {
        (cc, ca, idx)
    } else {
        let st = if nodes[i].kind@ == "class_declaration"@ {
            match first_child_of_kinds(
                nodes,
                i,
                0,
                seq!["type_identifier"@, "simple_identifier"@],
            ) {
                Some(c) => {
                    let name = nodes[c].text@;
                    let ca1 = if ends_with_seq(name, "Processor"@) {
                        processor_activity_spec(nodes, i, 0)
                    } else {
                        None
                    };
                    (Some(name), ca1, idx)
                },
                None => (cc, ca, idx),
            }
        } else if nodes[i].kind@ == "function_declaration"@ && cc is Some && ca is Some && (
        is_named_function(nodes, i, "doProcess"@) || is_named_function(
            nodes,
            i,
            "onFinished"@,
        )) {
            (
                cc,
                ca,
                index_merge(
                    idx,
                    ca->Some_0,
                    cc->Some_0,
                    extract_calls_spec(nodes, i),
                    hmb_at(nodes, i),
                ),
            )
        } else {
            (cc, ca, idx)
        };
        ep_children(nodes, i, 0, st.0, st.1, st.2)
    }
}

/// Fold [`ep_at`] over the children of `i`, from `k` on.
pub open spec fn ep_children(
    nodes: Seq<SyntaxNode>,
    i: int,
    k: int,
    cc: Option<Seq<char>>,
    ca: Option<Seq<char>>,
    idx: Seq<GProcEntry>,
) -> (Option<Seq<char>>, Option<Seq<char>>, Seq<GProcEntry>)
    decreases nodes.len() - i, 0int, (if 0 <= i < nodes.len() {
        nodes[i].children@.len() - k
    } else {
        0
    }),
{
    if !(0 <= i < nodes.len()) || !(0 <= k < nodes[i].children@.len()) {
        (cc, ca, idx)
    } else {
        let c = nodes[i].children@[k] as int;
        let st = if i < c < nodes.len() {
            ep_at(nodes, c, cc, ca, idx)
        } else {
            (cc, ca, idx)
        };
        ep_children(nodes, i, k + 1, st.0, st.1, st.2)
    }
}

fn ep_at_exec(
    tree: &SyntaxTree,
    i: usize,
    cc: &mut Option<String>,
    ca: &mut Option<String>,
    index: &mut ProcessorIndex,
)
    requires
        tree.wf(),
        i < tree.nodes@.len(),
    ensures
        ({
            let st = ep_at(
                tree.nodes@,
                i as int,
                opt_str_view(*old(cc)),
                opt_str_view(*old(ca)),
                old(index)@,
            );
            opt_str_view(*final(cc)) == st.0 && opt_str_view(*final(ca)) == st.1
                && final(index)@ == st.2
        }),
    decreases tree.nodes@.len() - i, 1int, 0int,
{
    if str_eq(tree.nodes[i].kind.as_str(), "class_declaration") {
        let mut kinds: Vec<&str> = Vec::new();
        kinds.push("type_identifier");
        kinds.push("simple_identifier");
        proof {
            assert(kinds@.map_values(|s: &str| s@) =~= seq![
                "type_identifier"@,
                "simple_identifier"@,
            ]);
        }
        match first_child_of_kinds_exec(tree, i, 0, &kinds) {
            Some(c) => {
                let name = tree.nodes[c].text.clone();
                if str_ends_with(name.as_str(), "Processor") {
                    *ca = extract_aktivitet_from_processor(tree, i);
                } else {
                    *ca = None;
                }
                *cc = Some(name);
            },
            None => {},
        }
    } else if str_eq(tree.nodes[i].kind.as_str(), "function_declaration") {
        if cc.is_some() && ca.is_some() {
            if is_do_process_function(tree, i) || is_on_finished_function(tree, i) {
                let trans = extract_neste_aktivitet_calls(tree, i);
                let hm = has_manuell_behandling_call(tree, i);
                let akt = match ca {
                    Some(a) => a.clone(),
                    None => String::new(),
                };
                let pc = match cc {
                    Some(p) => p.clone(),
                    None => String::new(),
                };
                index.merge(akt.as_str(), pc.as_str(), &trans, hm);
            }
        }
    }
    ep_children_exec(tree, i, 0, cc, ca, index);
}

fn ep_children_exec(
    tree: &SyntaxTree,
    i: usize,
    k: usize,
    cc: &mut Option<String>,
    ca: &mut Option<String>,
    index: &mut ProcessorIndex,
)
    requires
        tree.wf(),
        i < tree.nodes@.len(),
        k <= tree.nodes@[i as int].children@.len(),
    ensures
        ({
            let st = ep_children(
                tree.nodes@,
                i as int,
                k as int,
                opt_str_view(*old(cc)),
                opt_str_view(*old(ca)),
                old(index)@,
            );
            opt_str_view(*final(cc)) == st.0 && opt_str_view(*final(ca)) == st.1
                && final(index)@ == st.2
        }),
    decreases tree.nodes@.len() - i, 0int, tree.nodes@[i as int].children@.len() - k,
{
    if k >= tree.nodes[i].children.len() {
        return ;
    }
    let c = tree.nodes[i].children[k];
    proof {
        assert(i < tree.nodes@[i as int].children@[k as int] < tree.nodes@.len());
    }
    ep_at_exec(tree, c, cc, ca, index);
    ep_children_exec(tree, i, k + 1, cc, ca, index);
}

/// Walk one tree and fold every handler method's findings into `index`.
pub fn extract_processors(tree: &SyntaxTree, index: &mut ProcessorIndex)
    requires
        tree.wf(),
    ensures
        tree.nodes@.len() > 0 ==> final(index)@ == ep_at(
            tree.nodes@,
            0,
            None,
            None,
            old(index)@,
        ).2,
        tree.nodes@.len() == 0 ==> final(index)@ == old(index)@,
{
    if tree.nodes.len() > 0 {
        let mut cc: Option<String> = None;
        let mut ca: Option<String> = None;
        ep_at_exec(tree, 0, &mut cc, &mut ca, index);
    }
}

/// Processor-index state after the pass over trees `t..`.
pub open spec fn processors_pass(trees: Seq<SourceTree>, t: int, idx: Seq<GProcEntry>) -> Seq<
    GProcEntry,
>
    decreases trees.len() - t,
{
    if !(0 <= t < trees.len()) {
        idx
    } else {
        let idx1 = if trees[t].tree.nodes@.len() > 0 {
            ep_at(trees[t].tree.nodes@, 0, None, None, idx).2
        } else {
            idx
        };
        processors_pass(trees, t + 1, idx1)
    }
}

/// The processor index that [`build_processor_index`] produces.
pub open spec fn build_processor_index_spec(trees: Seq<SourceTree>) -> Seq<GProcEntry> {
    processors_pass(trees, 0, Seq::empty())
}

fn processors_pass_exec(trees: &Vec<SourceTree>, t: usize, index: &mut ProcessorIndex)
    requires
        forall|k: int| 0 <= k < trees@.len() ==> (#[trigger] trees@[k].tree).wf(),
        t <= trees@.len(),
    ensures
        final(index)@ == processors_pass(trees@, t as int, old(index)@),
    decreases trees@.len() - t,
{
    if t >= trees.len() {
        return ;
    }
    extract_processors(&trees[t].tree, index);
    processors_pass_exec(trees, t + 1, index);
}

/// Build the processor index over all parsed trees.
pub fn build_processor_index(trees: &Vec<SourceTree>) -> (r: ProcessorIndex)
    requires
        forall|k: int| 0 <= k < trees@.len() ==> (#[trigger] trees@[k].tree).wf(),
    ensures
        r@ == build_processor_index_spec(trees@),
{
    let mut index = ProcessorIndex::new();
    processors_pass_exec(trees, 0, &mut index);
    index
}

// ---------------------------------------------------------------------------
// Index invariants
// ---------------------------------------------------------------------------

/// Well-formedness of a processor index: activity keys are unique and no
/// entry holds two transitions to the same target.
pub open spec fn proc_index_wf(s: Seq<GProcEntry>) -> bool {
    &&& forall|i: int, j: int| 0 <= i < j < s.len() ==> s[i].aktivitet != s[j].aktivitet
    &&& forall|i: int| 0 <= i < s.len() ==> no_dup_targets(#[trigger] s[i].info.transitions)
}

/// Folding one handler method into a well-formed index keeps it well
/// formed: however many methods contribute transitions for one activity,
/// its entry never holds two transitions to the same target.
pub proof fn lemma_index_merge_wf(
    s: Seq<GProcEntry>,
    akt: Seq<char>,
    pclass: Seq<char>,
    ts: Seq<GTransition>,
    hm: bool,
)
    requires
        proc_index_wf(s),
    ensures
        proc_index_wf(index_merge(s, akt, pclass, ts, hm)),
        forall|j: int|
            0 <= j < s.len() ==> index_merge(s, akt, pclass, ts, hm)[j].aktivitet == s[
                j
            ].aktivitet,
        index_merge(s, akt, pclass, ts, hm).len() == s.len() || (index_merge(
            s,
            akt,
            pclass,
            ts,
            hm,
        ).len() == s.len() + 1 && index_merge(s, akt, pclass, ts, hm)[s.len() as int].aktivitet
            == akt),
    decreases s.len(),
{
    let r = index_merge(s, akt, pclass, ts, hm);
    if s.len() == 0 {
        lemma_merge_no_dup(Seq::empty(), ts);
    } else if s[0].aktivitet == akt {
        lemma_merge_no_dup(s[0].info.transitions, ts);
        assert forall|j: int| 0 <= j < s.len() implies r[j].aktivitet == s[j].aktivitet by {
            if j > 0 {
                assert(r[j] == s.drop_first()[j - 1]);
            }
        }
        assert forall|i: int, j: int| 0 <= i < j < r.len() implies r[i].aktivitet != r[
            j
        ].aktivitet by {
            assert(r[i].aktivitet == s[i].aktivitet);
            assert(r[j].aktivitet == s[j].aktivitet);
        }
        assert forall|i: int| 0 <= i < r.len() implies no_dup_targets(
            #[trigger] r[i].info.transitions,
        ) by {
            if i > 0 {
                assert(r[i].info.transitions == s[i].info.transitions);
            }
        }
    } else {
        let tail = s.drop_first();
        assert(proc_index_wf(tail)) by {
            assert(forall|i: int, j: int|
                0 <= i < j < tail.len() ==> tail[i].aktivitet == s[i + 1].aktivitet && tail[
                    j
                ].aktivitet == s[j + 1].aktivitet);
            assert(forall|i: int|
                0 <= i < tail.len() ==> #[trigger] tail[i].info.transitions == s[
                    i + 1
                ].info.transitions);
        }
        lemma_index_merge_wf(tail, akt, pclass, ts, hm);
        let rt = index_merge(tail, akt, pclass, ts, hm);
        assert(r == seq![s[0]] + rt);
        assert forall|j: int| 0 <= j < s.len() implies r[j].aktivitet == s[j].aktivitet by {
            if j > 0 {
                assert(r[j] == rt[j - 1]);
                assert(rt[j - 1].aktivitet == tail[j - 1].aktivitet);
                assert(tail[j - 1] == s[j]);
            }
        }
        assert forall|i: int, j: int| 0 <= i < j < r.len() implies r[i].aktivitet != r[
            j
        ].aktivitet by {
            if i == 0 {
                if j - 1 < tail.len() {
                    assert(rt[j - 1].aktivitet == tail[j - 1].aktivitet);
                } else {
                    assert(rt[j - 1].aktivitet == akt);
                }
            } else {
                assert(r[i].aktivitet == rt[i - 1].aktivitet);
                assert(r[j].aktivitet == rt[j - 1].aktivitet);
            }
        }
        assert forall|i: int| 0 <= i < r.len() implies no_dup_targets(
            #[trigger] r[i].info.transitions,
        ) by {
            if i > 0 {
                assert(r[i].info.transitions == rt[i - 1].info.transitions);
            }
        }
    }
}

proof fn lemma_ep_at_wf(
    nodes: Seq<SyntaxNode>,
    i: int,
    cc: Option<Seq<char>>,
    ca: Option<Seq<char>>,
    idx: Seq<GProcEntry>,
)
    requires
        proc_index_wf(idx),
    ensures
        proc_index_wf(ep_at(nodes, i, cc, ca, idx).2),
    decreases nodes.len() - i, 1int, 0int,
{
    if 0 <= i < nodes.len() {
        let st = if nodes[i].kind@ == "class_declaration"@ {
            match first_child_of_kinds(
                nodes,
                i,
                0,
                seq!["type_identifier"@, "simple_identifier"@],
            ) {
                Some(c) => {
                    let name = nodes[c].text@;
                    let ca1 = if ends_with_seq(name, "Processor"@) {
                        processor_activity_spec(nodes, i, 0)
                    } else {
                        None
                    };
                    (Some(name), ca1, idx)
                },
                None => (cc, ca, idx),
            }
        } else if nodes[i].kind@ == "function_declaration"@ && cc is Some && ca is Some && (
        is_named_function(nodes, i, "doProcess"@) || is_named_function(
            nodes,
            i,
            "onFinished"@,
        )) {
            (
                cc,
                ca,
                index_merge(
                    idx,
                    ca->Some_0,
                    cc->Some_0,
                    extract_calls_spec(nodes, i),
                    hmb_at(nodes, i),
                ),
            )
        } else {
            (cc, ca, idx)
        };
        if nodes[i].kind@ != "class_declaration"@ && nodes[i].kind@ == "function_declaration"@
            && cc is Some && ca is Some && (is_named_function(nodes, i, "doProcess"@)
            || is_named_function(nodes, i, "onFinished"@)) {
            lemma_index_merge_wf(
                idx,
                ca->Some_0,
                cc->Some_0,
                extract_calls_spec(nodes, i),
                hmb_at(nodes, i),
            );
        }
        lemma_ep_children_wf(nodes, i, 0, st.0, st.1, st.2);
    }
}

proof fn lemma_ep_children_wf(
    nodes: Seq<SyntaxNode>,
    i: int,
    k: int,
    cc: Option<Seq<char>>,
    ca: Option<Seq<char>>,
    idx: Seq<GProcEntry>,
)
    requires
        proc_index_wf(idx),
    ensures
        proc_index_wf(ep_children(nodes, i, k, cc, ca, idx).2),
    decreases nodes.len() - i, 0int, (if 0 <= i < nodes.len() {
        nodes[i].children@.len() - k
    } else {
        0
    }),
{
    if 0 <= i < nodes.len() && 0 <= k < nodes[i].children@.len() {
        let c = nodes[i].children@[k] as int;
        let st = if i < c < nodes.len() {
            ep_at(nodes, c, cc, ca, idx)
        } else {
            (cc, ca, idx)
        };
        if i < c < nodes.len() {
            lemma_ep_at_wf(nodes, c, cc, ca, idx);
        }
        lemma_ep_children_wf(nodes, i, k + 1, st.0, st.1, st.2);
    }
}

proof fn lemma_processors_pass_wf(trees: Seq<SourceTree>, t: int, idx: Seq<GProcEntry>)
    requires
        proc_index_wf(idx),
    ensures
        proc_index_wf(processors_pass(trees, t, idx)),
    decreases trees.len() - t,
{
    if 0 <= t < trees.len() {
        let idx1 = if trees[t].tree.nodes@.len() > 0 {
            ep_at(trees[t].tree.nodes@, 0, None, None, idx).2
        } else {
            idx
        };
        if trees[t].tree.nodes@.len() > 0 {
            lemma_ep_at_wf(trees[t].tree.nodes@, 0, None, None, idx);
        }
        lemma_processors_pass_wf(trees, t + 1, idx1);
    }
}

/// However many handler methods contribute to the built index, its
/// activity keys are unique and no entry holds two transitions to the same
/// target.
pub proof fn lemma_build_processor_index_wf(trees: Seq<SourceTree>)
    ensures
        proc_index_wf(build_processor_index_spec(trees)),
{
    assert(proc_index_wf(Seq::<GProcEntry>::empty()));
    lemma_processors_pass_wf(trees, 0, Seq::empty());
}

/// After the fold, the entry for the handled activity holds a transition to
/// a target exactly when the entry before the fold did, or the new
/// findings do.
pub proof fn lemma_index_merge_has_target(
    s: Seq<GProcEntry>,
    akt: Seq<char>,
    pclass: Seq<char>,
    ts: Seq<GTransition>,
    hm: bool,
    y: Seq<char>,
)
    ensures
        ({
            let merged = lookup_proc(index_merge(s, akt, pclass, ts, hm), akt);
            let before = lookup_proc(s, akt);
            merged is Some && (has_target(merged->Some_0.transitions, y) <==> ((before is Some
                && has_target(before->Some_0.transitions, y)) || has_target(ts, y)))
        }),
    decreases s.len(),
{
    let r = index_merge(s, akt, pclass, ts, hm);
    if s.len() == 0 {
        lemma_merge_has_target(Seq::empty(), ts, y);
        assert(r.drop_first() =~= Seq::<GProcEntry>::empty());
        assert(lookup_proc(r, akt) == Some(r[0].info));
    } else if s[0].aktivitet == akt {
        lemma_merge_has_target(s[0].info.transitions, ts, y);
        assert(lookup_proc(r, akt) == Some(r[0].info));
    } else {
        lemma_index_merge_has_target(s.drop_first(), akt, pclass, ts, hm, y);
        assert(r.drop_first() =~= index_merge(s.drop_first(), akt, pclass, ts, hm));
        assert(lookup_proc(r, akt) == lookup_proc(r.drop_first(), akt));
        assert(lookup_proc(s, akt) == lookup_proc(s.drop_first(), akt));
    }
}

} // verus!
