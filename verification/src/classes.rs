//! Building the class index: every declaration's name and supertypes, and,
//! in a second pass, the entry activity returned by the designated factory
//! method `opprettInitiellAktivitet`.
//!
//! Every traversal is specified by a recursive mirror over the node arena;
//! the executable functions are proved equal to those mirrors.

use vstd::prelude::*;
use crate::model::{ClassIndex, ClassInfo, GClass, lookup_class, opt_str_view, set_initial, upsert_class};
use crate::strutil::{contains_seq, str_contains, str_eq};
use crate::syntax::{SourceTree, SyntaxNode, SyntaxTree};

verus! {

/// Texts of the type-identifier children of node `i`, from child `k` on.
pub open spec fn type_name_parts(nodes: Seq<SyntaxNode>, i: int, k: int) -> Seq<Seq<char>>
    decreases (if 0 <= i < nodes.len() {
        nodes[i].children@.len() - k
    } else {
        0
    }),
{
    if !(0 <= i < nodes.len()) || !(0 <= k < nodes[i].children@.len()) {
        Seq::empty()
    } else {
        let c = nodes[i].children@[k] as int;
        let here: Seq<Seq<char>> = if 0 <= c < nodes.len() && (nodes[c].kind@
            == "type_identifier"@ || nodes[c].kind@ == "simple_identifier"@) {
            seq![nodes[c].text@]
        } else {
            Seq::empty()
        };
        here + type_name_parts(nodes, i, k + 1)
    }
}

/// `parts` joined with a dot between neighbours.
pub open spec fn join_dot(parts: Seq<Seq<char>>) -> Seq<char>
    decreases parts.len(),
{
    if parts.len() == 0 {
        Seq::empty()
    } else if parts.len() == 1 {
        parts[0]
    } else {
        parts[0] + "."@ + join_dot(parts.drop_first())
    }
}

/// First child of `i`, from `k` on, whose kind is listed in `kinds`.
pub open spec fn first_child_of_kinds(
    nodes: Seq<SyntaxNode>,
    i: int,
    k: int,
    kinds: Seq<Seq<char>>,
) -> Option<int>
    decreases (if 0 <= i < nodes.len() {
        nodes[i].children@.len() - k
    } else {
        0
    }),
{
    if !(0 <= i < nodes.len()) || !(0 <= k < nodes[i].children@.len()) {
        None
    } else {
        let c = nodes[i].children@[k] as int;
        if 0 <= c < nodes.len() && kinds.contains(nodes[c].kind@) {
            Some(c)
        } else {
            first_child_of_kinds(nodes, i, k + 1, kinds)
        }
    }
}

/// The positional type name of node `i`: for a `user_type`, its identifier
/// parts joined with dots; for a `constructor_invocation`, the name of the
/// invoked type; for anything else, the node's own text.
pub open spec fn type_name_spec(nodes: Seq<SyntaxNode>, i: int) -> Seq<char>
    decreases (if 0 <= i < nodes.len() {
        nodes.len() - i
    } else {
        0
    }),
{
    if !(0 <= i < nodes.len()) {
        Seq::empty()
    } else if nodes[i].kind@ == "user_type"@ {
        let parts = type_name_parts(nodes, i, 0);
        if parts.len() > 0 {
            join_dot(parts)
        } else {
            nodes[i].text@
        }
    } else if nodes[i].kind@ == "constructor_invocation"@ {
        match first_child_of_kinds(
            nodes,
            i,
            0,
            seq!["user_type"@, "type_identifier"@, "simple_identifier"@],
        ) {
            Some(c) => if i < c < nodes.len() {
                type_name_spec(nodes, c)
            } else {
                nodes[i].text@
            },
            None => nodes[i].text@,
        }
    } else {
        nodes[i].text@
    }
}

/// The supertype named by a delegation specifier: the type name of its
/// first `user_type`, `type_identifier` or `constructor_invocation` child.
pub open spec fn single_supertype_spec(nodes: Seq<SyntaxNode>, d: int) -> Option<Seq<char>> {
    match first_child_of_kinds(
        nodes,
        d,
        0,
        seq!["user_type"@, "type_identifier"@, "constructor_invocation"@],
    ) {
        Some(c) => Some(type_name_spec(nodes, c)),
        None => None,
    }
}

/// Fold over the children of a class declaration: the first identifier-like
/// child names the class, every delegation specifier contributes a
/// supertype.
pub open spec fn class_info_children(
    nodes: Seq<SyntaxNode>,
    i: int,
    k: int,
    name: Option<Seq<char>>,
    supers: Seq<Seq<char>>,
) -> (Option<Seq<char>>, Seq<Seq<char>>)
    decreases (if 0 <= i < nodes.len() {
        nodes[i].children@.len() - k
    } else {
        0
    }),
{
    if !(0 <= i < nodes.len()) || !(0 <= k < nodes[i].children@.len()) {
        (name, supers)
    } else {
        let c = nodes[i].children@[k] as int;
        if !(0 <= c < nodes.len()) {
            class_info_children(nodes, i, k + 1, name, supers)
        } else if nodes[c].kind@ == "simple_identifier"@ || nodes[c].kind@
            == "type_identifier"@ {
            let name1 = if name is None {
                Some(nodes[c].text@)
            } else {
                name
            };
            class_info_children(nodes, i, k + 1, name1, supers)
        } else if nodes[c].kind@ == "delegation_specifier"@ {
            let supers1 = match single_supertype_spec(nodes, c) {
                Some(s) => supers.push(s),
                None => supers,
            };
            class_info_children(nodes, i, k + 1, name, supers1)
        } else {
            class_info_children(nodes, i, k + 1, name, supers)
        }
    }
}

/// The class entry extracted from declaration node `i`, if it has a name.
pub open spec fn class_info_spec(nodes: Seq<SyntaxNode>, i: int, file: Seq<char>) -> Option<
    GClass,
> {
    let (name, supers) = class_info_children(nodes, i, 0, None, Seq::empty());
    match name {
        Some(nm) => Some(
            GClass { name: nm, file: file, supertypes: supers, initial_aktivitet: None },
        ),
        None => None,
    }
}

/// Index state after visiting the subtree rooted at `i`: every class
/// declaration met in preorder is upserted.
pub open spec fn extract_classes_at(
    nodes: Seq<SyntaxNode>,
    file: Seq<char>,
    i: int,
    idx: Seq<GClass>,
) -> Seq<GClass>
    decreases nodes.len() - i, 1int, 0int,
{
    if !(0 <= i < nodes.len()) {
        idx
    } else {
        let idx1 = if nodes[i].kind@ == "class_declaration"@ {
            match class_info_spec(nodes, i, file) {
                Some(c) => upsert_class(idx, c),
                None => idx,
            }
        } else {
            idx
        };
        extract_classes_children(nodes, file, i, 0, idx1)
    }
}

/// Fold [`extract_classes_at`] over the children of `i`, from `k` on.
pub open spec fn extract_classes_children(
    nodes: Seq<SyntaxNode>,
    file: Seq<char>,
    i: int,
    k: int,
    idx: Seq<GClass>,
) -> Seq<GClass>
    decreases nodes.len() - i, 0int, (if 0 <= i < nodes.len() {
        nodes[i].children@.len() - k
    } else {
        0
    }),
{
    if !(0 <= i < nodes.len()) || !(0 <= k < nodes[i].children@.len()) {
        idx
    } else {
        let c = nodes[i].children@[k] as int;
        let idx1 = if i < c < nodes.len() {
            extract_classes_at(nodes, file, c, idx)
        } else {
            idx
        };
        extract_classes_children(nodes, file, i, k + 1, idx1)
    }
}

pub fn first_child_of_kinds_exec(tree: &SyntaxTree, i: usize, k: usize, kinds: &Vec<&str>) -> (r:
    Option<usize>)
    requires
        tree.wf(),
        i < tree.nodes@.len(),
        k <= tree.nodes@[i as int].children@.len(),
    ensures
        match r {
            Some(c) => first_child_of_kinds(
                tree.nodes@,
                i as int,
                k as int,
                kinds@.map_values(|s: &str| s@),
            ) == Some(c as int) && i < c < tree.nodes@.len(),
            None => first_child_of_kinds(
                tree.nodes@,
                i as int,
                k as int,
                kinds@.map_values(|s: &str| s@),
            ) is None,
        },
    decreases tree.nodes@[i as int].children@.len() - k,
{
    let ghost kinds_v = kinds@.map_values(|s: &str| s@);
    if k >= tree.nodes[i].children.len() {
        return None;
    }
    let c = tree.nodes[i].children[k];
    proof {
        assert(i < tree.nodes@[i as int].children@[k as int] < tree.nodes@.len());
    }
    let mut m: usize = 0;
    while m < kinds.len()
        invariant
            kinds_v == kinds@.map_values(|s: &str| s@),
            tree.wf(),
            i < tree.nodes@.len(),
            k < tree.nodes@[i as int].children@.len(),
            c == tree.nodes@[i as int].children@[k as int],
            i < c < tree.nodes@.len(),
            0 <= m <= kinds@.len(),
            forall|t: int| 0 <= t < m ==> kinds_v[t] != tree.nodes@[c as int].kind@,
        decreases kinds@.len() - m,
    {
        if str_eq(tree.nodes[c].kind.as_str(), kinds[m]) {
            proof {
                assert(kinds_v[m as int] == tree.nodes@[c as int].kind@);
            }
            return Some(c);
        }
        m += 1;
    }
    proof {
        assert(!kinds_v.contains(tree.nodes@[c as int].kind@));
    }
    first_child_of_kinds_exec(tree, i, k + 1, kinds)
}

fn join_dot_exec(parts: &Vec<String>, k: usize) -> (r: String)
    requires
        k <= parts@.len(),
    ensures
        r@ == join_dot(parts@.map_values(|s: String| s@).skip(k as int)),
    decreases parts@.len() - k,
{
    let ghost pv = parts@.map_values(|s: String| s@);
    if k >= parts.len() {
        proof {
            assert(pv.skip(k as int) =~= Seq::<Seq<char>>::empty());
        }
        String::new()
    } else if k + 1 == parts.len() {
        proof {
            assert(pv.skip(k as int) =~= seq![pv[k as int]]);
        }
        parts[k].clone()
    } else {
        let mut r = parts[k].clone();
        r.append(".");
        let rest = join_dot_exec(parts, k + 1);
        r.append(rest.as_str());
        proof {
            assert(pv.skip(k as int).drop_first() =~= pv.skip(k + 1));
            assert(pv.skip(k as int)[0] == pv[k as int]);
        }
        r
    }
}

fn type_name_parts_exec(tree: &SyntaxTree, i: usize, k: usize, parts: &mut Vec<String>)
    requires
        tree.wf(),
        i < tree.nodes@.len(),
        k <= tree.nodes@[i as int].children@.len(),
    ensures
        final(parts)@.map_values(|s: String| s@) == old(parts)@.map_values(|s: String| s@)
            + type_name_parts(tree.nodes@, i as int, k as int),
    decreases tree.nodes@[i as int].children@.len() - k,
{
    if k >= tree.nodes[i].children.len() {
        proof {
            assert(parts@.map_values(|s: String| s@) =~= parts@.map_values(|s: String| s@)
                + Seq::<Seq<char>>::empty());
        }
        return ;
    }
    let c = tree.nodes[i].children[k];
    proof {
        assert(i < tree.nodes@[i as int].children@[k as int] < tree.nodes@.len());
    }
    let ghost pre = parts@.map_values(|s: String| s@);
    if str_eq(tree.nodes[c].kind.as_str(), "type_identifier") || str_eq(
        tree.nodes[c].kind.as_str(),
        "simple_identifier",
    ) {
        parts.push(tree.nodes[c].text.clone());
        proof {
            assert(parts@.map_values(|s: String| s@) =~= pre.push(tree.nodes@[c as int].text@));
        }
    }
    type_name_parts_exec(tree, i, k + 1, parts);
    proof {
        assert(parts@.map_values(|s: String| s@) =~= pre + type_name_parts(
            tree.nodes@,
            i as int,
            k as int,
        ));
    }
}

/// Extract the positional type name of node `i`.
pub fn extract_type_name(tree: &SyntaxTree, i: usize) -> (r: String)
    requires
        tree.wf(),
        i < tree.nodes@.len(),
    ensures
        r@ == type_name_spec(tree.nodes@, i as int),
    decreases tree.nodes@.len() - i,
{
    if str_eq(tree.nodes[i].kind.as_str(), "user_type") {
        let mut parts: Vec<String> = Vec::new();
        proof {
            assert(parts@.map_values(|s: String| s@) =~= Seq::<Seq<char>>::empty());
            assert(Seq::<Seq<char>>::empty() + type_name_parts(tree.nodes@, i as int, 0)
                =~= type_name_parts(tree.nodes@, i as int, 0));
        }
        type_name_parts_exec(tree, i, 0, &mut parts);
        if parts.len() > 0 {
            let r = join_dot_exec(&parts, 0);
            proof {
                assert(parts@.map_values(|s: String| s@).skip(0) =~= parts@.map_values(
                    |s: String| s@,
                ));
            }
            r
        } else {
            proof {
                assert(type_name_parts(tree.nodes@, i as int, 0).len() == 0);
            }
            tree.nodes[i].text.clone()
        }
    } else if str_eq(tree.nodes[i].kind.as_str(), "constructor_invocation") {
        let mut kinds: Vec<&str> = Vec::new();
        kinds.push("user_type");
        kinds.push("type_identifier");
        kinds.push("simple_identifier");
        proof {
            assert(kinds@.map_values(|s: &str| s@) =~= seq![
                "user_type"@,
                "type_identifier"@,
                "simple_identifier"@,
            ]);
        }
        match first_child_of_kinds_exec(tree, i, 0, &kinds) {
            Some(c) => extract_type_name(tree, c),
            None => tree.nodes[i].text.clone(),
        }
    } else {
        tree.nodes[i].text.clone()
    }
}

/// Extract the supertype named by delegation-specifier node `d`.
pub fn extract_single_supertype(tree: &SyntaxTree, d: usize) -> (r: Option<String>)
    requires
        tree.wf(),
        d < tree.nodes@.len(),
    ensures
        match r {
            Some(s) => single_supertype_spec(tree.nodes@, d as int) == Some(s@),
            None => single_supertype_spec(tree.nodes@, d as int) is None,
        },
{
    let mut kinds: Vec<&str> = Vec::new();
    kinds.push("user_type");
    kinds.push("type_identifier");
    kinds.push("constructor_invocation");
    proof {
        assert(kinds@.map_values(|s: &str| s@) =~= seq![
            "user_type"@,
            "type_identifier"@,
            "constructor_invocation"@,
        ]);
    }
    match first_child_of_kinds_exec(tree, d, 0, &kinds) {
        Some(c) => Some(extract_type_name(tree, c)),
        None => None,
    }
}

fn class_info_children_exec(
    tree: &SyntaxTree,
    i: usize,
    k: usize,
    name: &mut Option<String>,
    supers: &mut Vec<String>,
)
    requires
        tree.wf(),
        i < tree.nodes@.len(),
        k <= tree.nodes@[i as int].children@.len(),
    ensures
        ({
            let (n2, s2) = class_info_children(
                tree.nodes@,
                i as int,
                k as int,
                opt_str_view(*old(name)),
                old(supers)@.map_values(|s: String| s@),
            );
            opt_str_view(*final(name)) == n2 && final(supers)@.map_values(|s: String| s@) == s2
        }),
    decreases tree.nodes@[i as int].children@.len() - k,
{
    if k >= tree.nodes[i].children.len() {
        return ;
    }
    let c = tree.nodes[i].children[k];
    proof {
        assert(i < tree.nodes@[i as int].children@[k as int] < tree.nodes@.len());
    }
    if str_eq(tree.nodes[c].kind.as_str(), "simple_identifier") || str_eq(
        tree.nodes[c].kind.as_str(),
        "type_identifier",
    ) {
        if name.is_none() {
            *name = Some(tree.nodes[c].text.clone());
        }
        class_info_children_exec(tree, i, k + 1, name, supers);
    } else if str_eq(tree.nodes[c].kind.as_str(), "delegation_specifier") {
        let ghost pre = supers@.map_values(|s: String| s@);
        match extract_single_supertype(tree, c) {
            Some(s) => {
                let ghost sv = s@;
                supers.push(s);
                proof {
                    assert(supers@.map_values(|s: String| s@) =~= pre.push(sv));
                }
            },
            None => {},
        }
        class_info_children_exec(tree, i, k + 1, name, supers);
    } else {
        class_info_children_exec(tree, i, k + 1, name, supers);
    }
}

/// Extract the class entry declared by node `class_node`, if it has a name.
pub fn extract_class_info(tree: &SyntaxTree, class_node: usize, file: &str) -> (r: Option<
    ClassInfo,
>)
    requires
        tree.wf(),
        class_node < tree.nodes@.len(),
    ensures
        match r {
            Some(c) => class_info_spec(tree.nodes@, class_node as int, file@) == Some(c@),
            None => class_info_spec(tree.nodes@, class_node as int, file@) is None,
        },
{
    let mut name: Option<String> = None;
    let mut supers: Vec<String> = Vec::new();
    proof {
        assert(supers@.map_values(|s: String| s@) =~= Seq::<Seq<char>>::empty());
    }
    class_info_children_exec(tree, class_node, 0, &mut name, &mut supers);
    match name {
        Some(nm) => Some(
            ClassInfo { name: nm, file: file.to_owned(), supertypes: supers, initial_aktivitet: None },
        ),
        None => None,
    }
}

/// Walk the whole tree and upsert every class declaration into `index`.
pub fn extract_classes(tree: &SyntaxTree, file: &str, index: &mut ClassIndex)
    requires
        tree.wf(),
    ensures
        tree.nodes@.len() > 0 ==> final(index)@ == extract_classes_at(
            tree.nodes@,
            file@,
            0,
            old(index)@,
        ),
        tree.nodes@.len() == 0 ==> final(index)@ == old(index)@,
{
    if tree.nodes.len() > 0 {
        extract_classes_at_exec(tree, file, 0, index);
    }
}

fn extract_classes_at_exec(tree: &SyntaxTree, file: &str, i: usize, index: &mut ClassIndex)
    requires
        tree.wf(),
        i < tree.nodes@.len(),
    ensures
        final(index)@ == extract_classes_at(tree.nodes@, file@, i as int, old(index)@),
    decreases tree.nodes@.len() - i, 1int, 0int,
{
    if str_eq(tree.nodes[i].kind.as_str(), "class_declaration") {
        match extract_class_info(tree, i, file) {
            Some(c) => index.insert(c),
            None => {},
        }
    }
    extract_classes_children_exec(tree, file, i, 0, index);
}

/// Whether node `i` declares the designated factory method.
pub open spec fn is_opprett_spec(nodes: Seq<SyntaxNode>, i: int) -> bool {
    match first_child_of_kinds(nodes, i, 0, seq!["simple_identifier"@]) {
        Some(c) => nodes[c].text@ == "opprettInitiellAktivitet"@,
        None => false,
    }
}

/// First constructor invocation found by preorder search below node `i`.
pub open spec fn find_constructor_call_at(nodes: Seq<SyntaxNode>, i: int) -> Option<Seq<char>>
    decreases nodes.len() - i, 1int, 0int,
{
    if !(0 <= i < nodes.len()) {
        None
    } else if nodes[i].kind@ == "call_expression"@ && first_child_of_kinds(
        nodes,
        i,
        0,
        seq!["simple_identifier"@, "type_identifier"@],
    ) is Some {
        Some(nodes[first_child_of_kinds(
            nodes,
            i,
            0,
            seq!["simple_identifier"@, "type_identifier"@],
        )->Some_0].text@)
    } else {
        find_constructor_call_children(nodes, i, 0)
    }
}

/// Fold [`find_constructor_call_at`] over the children of `i`, from `k` on.
pub open spec fn find_constructor_call_children(nodes: Seq<SyntaxNode>, i: int, k: int) -> Option<
    Seq<char>,
>
    decreases nodes.len() - i, 0int, (if 0 <= i < nodes.len() {
        nodes[i].children@.len() - k
    } else {
        0
    }),
{
    if !(0 <= i < nodes.len()) || !(0 <= k < nodes[i].children@.len()) {
        None
    } else {
        let c = nodes[i].children@[k] as int;
        let r = if i < c < nodes.len() {
            find_constructor_call_at(nodes, c)
        } else {
            None
        };
        if r is Some {
            r
        } else {
            find_constructor_call_children(nodes, i, k + 1)
        }
    }
}

/// The type constructed by the first constructor invocation inside a
/// `function_body` child of function node `i`.
pub open spec fn return_type_children(nodes: Seq<SyntaxNode>, i: int, k: int) -> Option<Seq<char>>
    decreases (if 0 <= i < nodes.len() {
        nodes[i].children@.len() - k
    } else {
        0
    }),
{
    if !(0 <= i < nodes.len()) || !(0 <= k < nodes[i].children@.len()) {
        None
    } else {
        let c = nodes[i].children@[k] as int;
        if 0 <= c < nodes.len() && nodes[c].kind@ == "function_body"@ && find_constructor_call_at(
            nodes,
            c,
        ) is Some {
            find_constructor_call_at(nodes, c)
        } else {
            return_type_children(nodes, i, k + 1)
        }
    }
}

/// State of the factory-method pass after visiting the subtree at `i`: the
/// class currently in scope, and the index with entry activities recorded.
pub open spec fn initial_pass_at(
    nodes: Seq<SyntaxNode>,
    i: int,
    cur: Option<Seq<char>>,
    idx: Seq<GClass>,
) -> (Option<Seq<char>>, Seq<GClass>)
    decreases nodes.len() - i, 1int, 0int,
{
    if !(0 <= i < nodes.len()) {
        (cur, idx)
    } else {
        let cur1 = if nodes[i].kind@ == "class_declaration"@ {
            match first_child_of_kinds(
                nodes,
                i,
                0,
                seq!["type_identifier"@, "simple_identifier"@],
            ) {
                Some(c) => Some(nodes[c].text@),
                None => cur,
            }
        } else {
            cur
        };
        let idx1 = if nodes[i].kind@ == "function_declaration"@ && cur1 is Some
            && is_opprett_spec(nodes, i) && return_type_children(nodes, i, 0) is Some {
            set_initial(idx, cur1->Some_0, return_type_children(nodes, i, 0)->Some_0)
        } else {
            idx
        };
        initial_pass_children(nodes, i, 0, cur1, idx1)
    }
}

/// Fold [`initial_pass_at`] over the children of `i`, from `k` on.
pub open spec fn initial_pass_children(
    nodes: Seq<SyntaxNode>,
    i: int,
    k: int,
    cur: Option<Seq<char>>,
    idx: Seq<GClass>,
) -> (Option<Seq<char>>, Seq<GClass>)
    decreases nodes.len() - i, 0int, (if 0 <= i < nodes.len() {
        nodes[i].children@.len() - k
    } else {
        0
    }),
{
    if !(0 <= i < nodes.len()) || !(0 <= k < nodes[i].children@.len()) {
        (cur, idx)
    } else {
        let c = nodes[i].children@[k] as int;
        let st = if i < c < nodes.len() {
            initial_pass_at(nodes, c, cur, idx)
        } else {
            (cur, idx)
        };
        initial_pass_children(nodes, i, k + 1, st.0, st.1)
    }
}

fn extract_classes_children_exec(
    tree: &SyntaxTree,
    file: &str,
    i: usize,
    k: usize,
    index: &mut ClassIndex,
)
    requires
        tree.wf(),
        i < tree.nodes@.len(),
        k <= tree.nodes@[i as int].children@.len(),
    ensures
        final(index)@ == extract_classes_children(
            tree.nodes@,
            file@,
            i as int,
            k as int,
            old(index)@,
        ),
    decreases tree.nodes@.len() - i, 0int, tree.nodes@[i as int].children@.len() - k,
{
    if k >= tree.nodes[i].children.len() {
        return ;
    }
    let c = tree.nodes[i].children[k];
    proof {
        assert(i < tree.nodes@[i as int].children@[k as int] < tree.nodes@.len());
    }
    extract_classes_at_exec(tree, file, c, index);
    extract_classes_children_exec(tree, file, i, k + 1, index);
}

/// Whether function node `i` is named `opprettInitiellAktivitet`.
pub fn is_opprett_initiell_aktivitet(tree: &SyntaxTree, i: usize) -> (r: bool)
    requires
        tree.wf(),
        i < tree.nodes@.len(),
    ensures
        r == is_opprett_spec(tree.nodes@, i as int),
{
    let mut kinds: Vec<&str> = Vec::new();
    kinds.push("simple_identifier");
    proof {
        assert(kinds@.map_values(|s: &str| s@) =~= seq!["simple_identifier"@]);
    }
    match first_child_of_kinds_exec(tree, i, 0, &kinds) {
        Some(c) => str_eq(tree.nodes[c].text.as_str(), "opprettInitiellAktivitet"),
        None => false,
    }
}

/// Find the first constructor invocation below node `i` by preorder search.
pub fn find_constructor_call(tree: &SyntaxTree, i: usize) -> (r: Option<String>)
    requires
        tree.wf(),
        i < tree.nodes@.len(),
    ensures
        match r {
            Some(s) => find_constructor_call_at(tree.nodes@, i as int) == Some(s@),
            None => find_constructor_call_at(tree.nodes@, i as int) is None,
        },
    decreases tree.nodes@.len() - i, 1int, 0int,
{
    if str_eq(tree.nodes[i].kind.as_str(), "call_expression") {
        let mut kinds: Vec<&str> = Vec::new();
        kinds.push("simple_identifier");
        kinds.push("type_identifier");
        proof {
            assert(kinds@.map_values(|s: &str| s@) =~= seq![
                "simple_identifier"@,
                "type_identifier"@,
            ]);
        }
        match first_child_of_kinds_exec(tree, i, 0, &kinds) {
            Some(c) => {
                return Some(tree.nodes[c].text.clone());
            },
            None => {},
        }
    }
    find_constructor_call_children_exec(tree, i, 0)
}

fn find_constructor_call_children_exec(tree: &SyntaxTree, i: usize, k: usize) -> (r: Option<
    String,
>)
    requires
        tree.wf(),
        i < tree.nodes@.len(),
        k <= tree.nodes@[i as int].children@.len(),
    ensures
        match r {
            Some(s) => find_constructor_call_children(tree.nodes@, i as int, k as int) == Some(
                s@,
            ),
            None => find_constructor_call_children(tree.nodes@, i as int, k as int) is None,
        },
    decreases tree.nodes@.len() - i, 0int, tree.nodes@[i as int].children@.len() - k,
{
    if k >= tree.nodes[i].children.len() {
        return None;
    }
    let c = tree.nodes[i].children[k];
    proof {
        assert(i < tree.nodes@[i as int].children@[k as int] < tree.nodes@.len());
    }
    match find_constructor_call(tree, c) {
        Some(s) => Some(s),
        None => find_constructor_call_children_exec(tree, i, k + 1),
    }
}

/// The entry activity constructed inside function node `i`'s body.
pub fn extract_return_type_from_function(tree: &SyntaxTree, i: usize) -> (r: Option<String>)
    requires
        tree.wf(),
        i < tree.nodes@.len(),
    ensures
        match r {
            Some(s) => return_type_children(tree.nodes@, i as int, 0) == Some(s@),
            None => return_type_children(tree.nodes@, i as int, 0) is None,
        },
{
    return_type_children_exec(tree, i, 0)
}

fn return_type_children_exec(tree: &SyntaxTree, i: usize, k: usize) -> (r: Option<String>)
    requires
        tree.wf(),
        i < tree.nodes@.len(),
        k <= tree.nodes@[i as int].children@.len(),
    ensures
        match r {
            Some(s) => return_type_children(tree.nodes@, i as int, k as int) == Some(s@),
            None => return_type_children(tree.nodes@, i as int, k as int) is None,
        },
    decreases tree.nodes@[i as int].children@.len() - k,
{
    if k >= tree.nodes[i].children.len() {
        return None;
    }
    let c = tree.nodes[i].children[k];
    proof {
        assert(i < tree.nodes@[i as int].children@[k as int] < tree.nodes@.len());
    }
    if str_eq(tree.nodes[c].kind.as_str(), "function_body") {
        match find_constructor_call(tree, c) {
            Some(s) => {
                return Some(s);
            },
            None => {},
        }
    }
    return_type_children_exec(tree, i, k + 1)
}

fn initial_pass_at_exec(
    tree: &SyntaxTree,
    i: usize,
    cur: &mut Option<String>,
    index: &mut ClassIndex,
)
    requires
        tree.wf(),
        i < tree.nodes@.len(),
    ensures
        ({
            let st = initial_pass_at(
                tree.nodes@,
                i as int,
                opt_str_view(*old(cur)),
                old(index)@,
            );
            opt_str_view(*final(cur)) == st.0 && final(index)@ == st.1
        }),
    decreases tree.nodes@.len() - i, 1int, 0int,
{
    if str_eq(tree.nodes[i].kind.as_str(), "class_declaration") {
        let mut kinds: Vec<&str> = Vec::new();
        kinds.push("type_identifier");
        kinds.push("simple_identifier");
        proof {
            assert(kinds@.map_values(|s: &str| s@) =~= seq![
                "type_identifier"@,
                "simple_identifier"@,
            ]);
        }
        match first_child_of_kinds_exec(tree, i, 0, &kinds) {
            Some(c) => {
                *cur = Some(tree.nodes[c].text.clone());
            },
            None => {},
        }
    }
    if str_eq(tree.nodes[i].kind.as_str(), "function_declaration") {
        if cur.is_some() {
            if is_opprett_initiell_aktivitet(tree, i) {
                match extract_return_type_from_function(tree, i) {
                    Some(act) => {
                        let cn = match cur {
                            Some(c) => c.clone(),
                            None => String::new(),
                        };
                        index.record_initial(cn.as_str(), act);
                    },
                    None => {},
                }
            }
        }
    }
    initial_pass_children_exec(tree, i, 0, cur, index);
}

fn initial_pass_children_exec(
    tree: &SyntaxTree,
    i: usize,
    k: usize,
    cur: &mut Option<String>,
    index: &mut ClassIndex,
)
    requires
        tree.wf(),
        i < tree.nodes@.len(),
        k <= tree.nodes@[i as int].children@.len(),
    ensures
        ({
            let st = initial_pass_children(
                tree.nodes@,
                i as int,
                k as int,
                opt_str_view(*old(cur)),
                old(index)@,
            );
            opt_str_view(*final(cur)) == st.0 && final(index)@ == st.1
        }),
    decreases tree.nodes@.len() - i, 0int, tree.nodes@[i as int].children@.len() - k,
{
    if k >= tree.nodes[i].children.len() {
        return ;
    }
    let c = tree.nodes[i].children[k];
    proof {
        assert(i < tree.nodes@[i as int].children@[k as int] < tree.nodes@.len());
    }
    initial_pass_at_exec(tree, c, cur, index);
    initial_pass_children_exec(tree, i, k + 1, cur, index);
}

/// Second pass over one tree: record every factory method's entry activity
/// on the class declaring it.
pub fn extract_initial_aktivitet(tree: &SyntaxTree, index: &mut ClassIndex)
    requires
        tree.wf(),
    ensures
        tree.nodes@.len() > 0 ==> final(index)@ == initial_pass_at(
            tree.nodes@,
            0,
            None,
            old(index)@,
        ).1,
        tree.nodes@.len() == 0 ==> final(index)@ == old(index)@,
{
    if tree.nodes.len() > 0 {
        let mut cur: Option<String> = None;
        initial_pass_at_exec(tree, 0, &mut cur, index);
    }
}

/// Class-index state after the first pass over trees `t..`.
pub open spec fn classes_pass(trees: Seq<SourceTree>, t: int, idx: Seq<GClass>) -> Seq<GClass>
    decreases trees.len() - t,
{
    if !(0 <= t < trees.len()) {
        idx
    } else {
        let idx1 = if trees[t].tree.nodes@.len() > 0 {
            extract_classes_at(trees[t].tree.nodes@, trees[t].file@, 0, idx)
        } else {
            idx
        };
        classes_pass(trees, t + 1, idx1)
    }
}

/// Class-index state after the second pass over trees `t..`.
pub open spec fn initial_pass(trees: Seq<SourceTree>, t: int, idx: Seq<GClass>) -> Seq<GClass>
    decreases trees.len() - t,
{
    if !(0 <= t < trees.len()) {
        idx
    } else {
        let idx1 = if trees[t].tree.nodes@.len() > 0 {
            initial_pass_at(trees[t].tree.nodes@, 0, None, idx).1
        } else {
            idx
        };
        initial_pass(trees, t + 1, idx1)
    }
}

/// The class index that [`build_class_index`] produces.
pub open spec fn build_class_index_spec(trees: Seq<SourceTree>) -> Seq<GClass> {
    initial_pass(trees, 0, classes_pass(trees, 0, Seq::empty()))
}

fn classes_pass_exec(trees: &Vec<SourceTree>, t: usize, index: &mut ClassIndex)
    requires
        forall|k: int| 0 <= k < trees@.len() ==> (#[trigger] trees@[k].tree).wf(),
        t <= trees@.len(),
    ensures
        final(index)@ == classes_pass(trees@, t as int, old(index)@),
    decreases trees@.len() - t,
{
    if t >= trees.len() {
        return ;
    }
    extract_classes(&trees[t].tree, trees[t].file.as_str(), index);
    classes_pass_exec(trees, t + 1, index);
}

fn initial_pass_exec(trees: &Vec<SourceTree>, t: usize, index: &mut ClassIndex)
    requires
        forall|k: int| 0 <= k < trees@.len() ==> (#[trigger] trees@[k].tree).wf(),
        t <= trees@.len(),
    ensures
        final(index)@ == initial_pass(trees@, t as int, old(index)@),
    decreases trees@.len() - t,
{
    if t >= trees.len() {
        return ;
    }
    extract_initial_aktivitet(&trees[t].tree, index);
    initial_pass_exec(trees, t + 1, index);
}

/// Build the class index over all parsed trees: one pass indexing every
/// declaration, a second pass recording entry activities.
pub fn build_class_index(trees: &Vec<SourceTree>) -> (r: ClassIndex)
    requires
        forall|k: int| 0 <= k < trees@.len() ==> (#[trigger] trees@[k].tree).wf(),
    ensures
        r@ == build_class_index_spec(trees@),
{
    let mut index = ClassIndex::new();
    classes_pass_exec(trees, 0, &mut index);
    initial_pass_exec(trees, 0, &mut index);
    index
}

/// A class qualifies as a workflow root: some supertype name carries the
/// designated marker substring, and an entry activity was found.
pub open spec fn is_workflow_root(c: GClass) -> bool {
    (exists|i: int| 0 <= i < c.supertypes.len() && contains_seq(c.supertypes[i], "Behandling"@))
        && c.initial_aktivitet is Some
}

/// The (class name, entry activity) pairs of all workflow roots, in index
/// order.
pub open spec fn roots_spec(s: Seq<GClass>) -> Seq<(Seq<char>, Seq<char>)>
    decreases s.len(),
{
    if s.len() == 0 {
        Seq::empty()
    } else {
        let head: Seq<(Seq<char>, Seq<char>)> = if is_workflow_root(s[0]) {
            seq![(s[0].name, s[0].initial_aktivitet->Some_0)]
        } else {
            Seq::empty()
        };
        head + roots_spec(s.drop_first())
    }
}

fn supertype_contains(c: &ClassInfo, pat: &str) -> (r: bool)
    ensures
        r == (exists|i: int|
            0 <= i < c@.supertypes.len() && contains_seq(#[trigger] c@.supertypes[i], pat@)),
{
    let mut i: usize = 0;
    while i < c.supertypes.len()
        invariant
            0 <= i <= c.supertypes@.len(),
            forall|k: int| 0 <= k < i ==> !contains_seq(#[trigger] c@.supertypes[k], pat@),
        decreases c.supertypes@.len() - i,
    {
        if str_contains(c.supertypes[i].as_str(), pat) {
            proof {
                assert(c@.supertypes[i as int] == c.supertypes@[i as int]@);
            }
            return true;
        }
        i += 1;
    }
    false
}

fn roots_from(entries: &Vec<ClassInfo>, k: usize, out: &mut Vec<(String, String)>)
    requires
        k <= entries@.len(),
    ensures
        final(out)@.map_values(|p: (String, String)| (p.0@, p.1@)) == old(out)@.map_values(
            |p: (String, String)| (p.0@, p.1@),
        ) + roots_spec(crate::model::class_views(entries@).skip(k as int)),
    decreases entries@.len() - k,
{
    let ghost views = crate::model::class_views(entries@);
    if k >= entries.len() {
        proof {
            assert(views.skip(k as int) =~= Seq::<GClass>::empty());
            assert(out@.map_values(|p: (String, String)| (p.0@, p.1@)) =~= out@.map_values(
                |p: (String, String)| (p.0@, p.1@),
            ) + roots_spec(views.skip(k as int)));
        }
        return ;
    }
    proof {
        assert(views.skip(k as int).drop_first() =~= views.skip(k + 1));
        assert(views.skip(k as int)[0] == views[k as int]);
    }
    let ghost pre = out@.map_values(|p: (String, String)| (p.0@, p.1@));
    let is_root = supertype_contains(&entries[k], "Behandling") && entries[k].initial_aktivitet.is_some();
    if is_root {
        let initial = match &entries[k].initial_aktivitet {
            Some(a) => a.clone(),
            None => String::new(),
        };
        out.push((entries[k].name.clone(), initial));
        proof {
            assert(out@.map_values(|p: (String, String)| (p.0@, p.1@)) =~= pre.push(
                (views[k as int].name, views[k as int].initial_aktivitet->Some_0),
            ));
        }
    }
    roots_from(entries, k + 1, out);
    proof {
        assert(out@.map_values(|p: (String, String)| (p.0@, p.1@)) =~= pre + roots_spec(
            views.skip(k as int),
        ));
    }
}

/// All workflow roots of the index: class name and entry activity, in index
/// order.
pub fn find_workflow_roots(index: &ClassIndex) -> (r: Vec<(String, String)>)
    ensures
        r@.map_values(|p: (String, String)| (p.0@, p.1@)) == roots_spec(index@),
{
    let mut out: Vec<(String, String)> = Vec::new();
    proof {
        assert(out@.map_values(|p: (String, String)| (p.0@, p.1@)) =~= Seq::<
            (Seq<char>, Seq<char>),
        >::empty());
        assert(crate::model::class_views(index.entries@).skip(0) =~= crate::model::class_views(
            index.entries@,
        ));
    }
    roots_from(&index.entries, 0, &mut out);
    out
}

/// Whether `aktivitet_name` names a class whose supertypes carry the
/// designated important-activity marker.
pub open spec fn is_alde_spec(idx: Seq<GClass>, nm: Seq<char>) -> bool {
    match lookup_class(idx, nm) {
        Some(c) => exists|i: int|
            0 <= i < c.supertypes.len() && contains_seq(#[trigger] c.supertypes[i], "AldeAktivitet"@),
        None => false,
    }
}

/// Whether the named activity class extends the designated marker
/// supertype.
pub fn is_alde_aktivitet(aktivitet_name: &str, class_index: &ClassIndex) -> (r: bool)
    ensures
        r == is_alde_spec(class_index@, aktivitet_name@),
{
    match class_index.get(aktivitet_name) {
        Some(c) => supertype_contains(c, "AldeAktivitet"),
        None => false,
    }
}

} // verus!
