//! Laws of the transition extractor that relate several of its functions.

use vstd::prelude::*;
use crate::model::GTransition;
use crate::syntax::SyntaxNode;
use crate::transitions::{
    branch_cond, eafcc_spec, fna_at, fna_branches, fna_children, if_cond_child, is_branch_child,
    is_collection_op_spec, is_neste_call_spec, negated_seq,
};

verus! {

/// The fan-out extraction law: a `call_expression` that is not a direct
/// transition call but is a collection operation whose trailing lambda
/// yields target `t`, and whose child re-walk yields nothing further,
/// contributes exactly one fan-out transition under the inherited
/// condition.
pub proof fn lemma_fan_out_extraction(
    nodes: Seq<SyntaxNode>,
    i: int,
    cond: Option<Seq<char>>,
    t: Seq<char>,
)
    requires
        0 <= i < nodes.len(),
        nodes[i].kind@ == "call_expression"@,
        !is_neste_call_spec(nodes, i),
        is_collection_op_spec(nodes, i),
        eafcc_spec(nodes, i, 0) == Some(t),
        fna_children(nodes, i, 0, cond, false, None) == Seq::<GTransition>::empty(),
    ensures
        fna_at(nodes, i, cond) == seq![
            GTransition { target: t, condition: cond, is_collection: true },
        ],
{
    assert(fna_at(nodes, i, cond) =~= seq![
        GTransition { target: t, condition: cond, is_collection: true },
    ]);
}

proof fn lemma_branches_none(
    nodes: Seq<SyntaxNode>,
    i: int,
    k: int,
    bc: int,
    ctext: Option<Seq<char>>,
    ck: Option<int>,
)
    requires
        crate::syntax::wf_nodes(nodes),
        0 <= i < nodes.len(),
        0 <= k,
        forall|m: int| k <= m ==> !is_branch_child(nodes, i, m, ck),
    ensures
        fna_branches(nodes, i, k, bc, ctext, ck) == Seq::<GTransition>::empty(),
    decreases nodes[i].children@.len() - k,
{
    if k < nodes[i].children@.len() {
        lemma_branches_none(nodes, i, k + 1, bc, ctext, ck);
        assert(fna_branches(nodes, i, k, bc, ctext, ck) =~= Seq::<GTransition>::empty());
    } else {
        assert(fna_branches(nodes, i, k, bc, ctext, ck) =~= Seq::<GTransition>::empty());
    }
}

proof fn lemma_branches_skip_to(
    nodes: Seq<SyntaxNode>,
    i: int,
    k: int,
    b: int,
    bc: int,
    ctext: Option<Seq<char>>,
    ck: Option<int>,
)
    requires
        crate::syntax::wf_nodes(nodes),
        0 <= i < nodes.len(),
        0 <= k <= b,
        is_branch_child(nodes, i, b, ck),
        forall|m: int| k <= m < b ==> !is_branch_child(nodes, i, m, ck),
    ensures
        fna_branches(nodes, i, k, bc, ctext, ck) == fna_at(
            nodes,
            nodes[i].children@[b] as int,
            branch_cond(bc, ctext),
        ) + fna_branches(nodes, i, b + 1, bc + 1, ctext, ck),
    decreases b - k,
{
    if k < b {
        lemma_branches_skip_to(nodes, i, k + 1, b, bc, ctext, ck);
    } else {
        let c = nodes[i].children@[b] as int;
        assert(i < nodes[i].children@[b] < nodes.len());
        assert(i < c < nodes.len());
    }
}

/// The conditional-extraction law for a two-branch conditional.  Consider
/// an `if_expression` node whose condition child at position `kc` has text
/// `ctext`, with exactly two branch bodies, at positions `b1 < b2`, each of
/// which yields exactly one unconditioned transition (to `t1` and `t2`)
/// under any inherited condition, and whose remaining children yield
/// nothing.  Then the extractor yields exactly two transitions: the first
/// to `t1` under the literal condition text, the second to `t2` under the
/// negation-marked form of that same text, and when the condition text is
/// nonempty both condition labels are nonempty.
pub proof fn lemma_if_else_extraction(
    nodes: Seq<SyntaxNode>,
    i: int,
    kc: int,
    b1: int,
    b2: int,
    t1: Seq<char>,
    t2: Seq<char>,
    cond0: Option<Seq<char>>,
)
    requires
        crate::syntax::wf_nodes(nodes),
        0 <= i < nodes.len(),
        nodes[i].kind@ == "if_expression"@,
        if_cond_child(nodes, i, 0) == Some(kc),
        is_branch_child(nodes, i, b1, Some(kc)),
        is_branch_child(nodes, i, b2, Some(kc)),
        b1 < b2,
        forall|m: int| is_branch_child(nodes, i, m, Some(kc)) ==> m == b1 || m == b2,
        forall|cond: Option<Seq<char>>|
            #[trigger] fna_at(nodes, nodes[i].children@[b1] as int, cond) == seq![
                GTransition { target: t1, condition: cond, is_collection: false },
            ],
        forall|cond: Option<Seq<char>>|
            #[trigger] fna_at(nodes, nodes[i].children@[b2] as int, cond) == seq![
                GTransition { target: t2, condition: cond, is_collection: false },
            ],
        fna_children(nodes, i, 0, cond0, true, Some(kc)) == Seq::<GTransition>::empty(),
    ensures
        ({
            let ctext = nodes[nodes[i].children@[kc] as int].text@;
            fna_at(nodes, i, cond0) == seq![
                GTransition { target: t1, condition: Some(ctext), is_collection: false },
                GTransition {
                    target: t2,
                    condition: Some(negated_seq(ctext)),
                    is_collection: false,
                },
            ]
        }),
        ({
            let ctext = nodes[nodes[i].children@[kc] as int].text@;
            ctext.len() > 0 ==> (Some(ctext)->Some_0.len() > 0 && Some(
                negated_seq(ctext),
            )->Some_0.len() > 0)
        }),
{
    reveal_strlit("call_expression");
    reveal_strlit("if_expression");
    let ctext = nodes[nodes[i].children@[kc] as int].text@;
    let ct = Some(ctext);
    lemma_branches_skip_to(nodes, i, 0, b1, 0, ct, Some(kc));
    lemma_branches_skip_to(nodes, i, b1 + 1, b2, 1, ct, Some(kc));
    if b2 + 1 <= nodes[i].children@.len() {
        lemma_branches_none(nodes, i, b2 + 1, 2, ct, Some(kc));
    }
    let c1 = nodes[i].children@[b1] as int;
    let c2 = nodes[i].children@[b2] as int;
    assert(fna_at(nodes, c1, branch_cond(0, ct)) == seq![
        GTransition { target: t1, condition: ct, is_collection: false },
    ]);
    assert(branch_cond(1, ct) == Some(negated_seq(ctext)));
    assert(fna_at(nodes, c2, branch_cond(1, ct)) == seq![
        GTransition { target: t2, condition: Some(negated_seq(ctext)), is_collection: false },
    ]);
    assert(fna_branches(nodes, i, b2 + 1, 2, ct, Some(kc)) == Seq::<GTransition>::empty()) by {
        if !(b2 + 1 <= nodes[i].children@.len()) {
            assert(fna_branches(nodes, i, b2 + 1, 2, ct, Some(kc)) =~= Seq::<
                GTransition,
            >::empty());
        }
    }
    assert(fna_branches(nodes, i, 0, 0, ct, Some(kc)) =~= seq![
        GTransition { target: t1, condition: Some(ctext), is_collection: false },
        GTransition { target: t2, condition: Some(negated_seq(ctext)), is_collection: false },
    ]);
    assert(nodes[i].kind@ != "call_expression"@) by {
        assert("if_expression"@.len() != "call_expression"@.len());
    }
    assert(fna_at(nodes, i, cond0) == fna_branches(nodes, i, 0, 0, ct, Some(kc)) + fna_children(
        nodes,
        i,
        0,
        cond0,
        true,
        Some(kc),
    ));
    assert(fna_at(nodes, i, cond0) =~= seq![
        GTransition { target: t1, condition: Some(ctext), is_collection: false },
        GTransition { target: t2, condition: Some(negated_seq(ctext)), is_collection: false },
    ]);
    reveal_strlit("NOT (");
    assert(negated_seq(ctext).len() > 0);
}

proof fn lemma_branches_exact(
    nodes: Seq<SyntaxNode>,
    i: int,
    k: int,
    bidx: int,
    ctext: Option<Seq<char>>,
    ck: Option<int>,
    bs: Seq<int>,
    ts: Seq<Seq<char>>,
)
    requires
        crate::syntax::wf_nodes(nodes),
        0 <= i < nodes.len(),
        0 <= k,
        bs.len() == ts.len(),
        0 <= bidx <= bs.len(),
        forall|a: int, b: int| 0 <= a < b < bs.len() ==> bs[a] < bs[b],
        forall|b: int| 0 <= b < bs.len() ==> is_branch_child(nodes, i, #[trigger] bs[b], ck),
        forall|m: int| is_branch_child(nodes, i, m, ck) ==> bs.contains(m),
        forall|b: int| bidx <= b < bs.len() ==> k <= #[trigger] bs[b],
        forall|b: int| 0 <= b < bidx ==> #[trigger] bs[b] < k,
        forall|b: int, cond: Option<Seq<char>>|
            0 <= b < bs.len() ==> #[trigger] fna_at(
                nodes,
                nodes[i].children@[bs[b]] as int,
                cond,
            ) == seq![GTransition { target: ts[b], condition: cond, is_collection: false }],
    ensures
        fna_branches(nodes, i, k, bidx, ctext, ck) == Seq::new(
            (bs.len() - bidx) as nat,
            |j: int|
                GTransition {
                    target: ts[bidx + j],
                    condition: branch_cond(bidx + j, ctext),
                    is_collection: false,
                },
        ),
    decreases nodes[i].children@.len() - k,
{
    let want = Seq::new(
        (bs.len() - bidx) as nat,
        |j: int|
            GTransition {
                target: ts[bidx + j],
                condition: branch_cond(bidx + j, ctext),
                is_collection: false,
            },
    );
    if !(0 <= k < nodes[i].children@.len()) {
        assert(bidx == bs.len()) by {
            if bidx < bs.len() {
                assert(is_branch_child(nodes, i, bs[bidx], ck));
            }
        }
        assert(fna_branches(nodes, i, k, bidx, ctext, ck) =~= want);
    } else if is_branch_child(nodes, i, k, ck) {
        assert(bs.contains(k));
        let b = choose|b: int| 0 <= b < bs.len() && bs[b] == k;
        assert(b == bidx) by {
            if b < bidx {
                assert(bs[b] < k);
            } else if b > bidx {
                assert(bidx < bs.len());
                assert(bs[bidx] < bs[b]);
                assert(k <= bs[bidx]);
            }
        }
        assert(i < nodes[i].children@[k] < nodes.len());
        assert(fna_at(nodes, nodes[i].children@[k] as int, branch_cond(bidx, ctext)) == seq![
            GTransition {
                target: ts[bidx],
                condition: branch_cond(bidx, ctext),
                is_collection: false,
            },
        ]);
        assert forall|b2: int| bidx + 1 <= b2 < bs.len() implies k + 1 <= #[trigger] bs[b2] by {
            assert(bs[bidx] < bs[b2]);
        }
        lemma_branches_exact(nodes, i, k + 1, bidx + 1, ctext, ck, bs, ts);
        assert(fna_branches(nodes, i, k, bidx, ctext, ck) =~= want);
    } else {
        assert forall|b2: int| bidx <= b2 < bs.len() implies k + 1 <= #[trigger] bs[b2] by {
            if bs[b2] == k {
                assert(is_branch_child(nodes, i, bs[b2], ck));
            }
        }
        lemma_branches_exact(nodes, i, k + 1, bidx, ctext, ck, bs, ts);
    }
}

/// The conditional-extraction law for a chain of any number of branches.
/// Consider an `if_expression` node whose condition child at position `kc`
/// has text `ctext`, whose branch bodies stand exactly at the strictly
/// increasing positions `bs`, each yielding exactly one unconditioned
/// transition (to the corresponding element of `ts`) under any inherited
/// condition, and whose remaining children yield nothing.  Then the
/// extractor yields exactly one transition per branch, in source order:
/// the first under the literal condition text, every later one under its
/// negation-marked form, and when the condition text is nonempty every
/// condition label is nonempty.
pub proof fn lemma_if_chain_extraction(
    nodes: Seq<SyntaxNode>,
    i: int,
    kc: int,
    bs: Seq<int>,
    ts: Seq<Seq<char>>,
    cond0: Option<Seq<char>>,
)
    requires
        crate::syntax::wf_nodes(nodes),
        0 <= i < nodes.len(),
        nodes[i].kind@ == "if_expression"@,
        if_cond_child(nodes, i, 0) == Some(kc),
        bs.len() == ts.len(),
        forall|a: int, b: int| 0 <= a < b < bs.len() ==> bs[a] < bs[b],
        forall|b: int|
            0 <= b < bs.len() ==> is_branch_child(nodes, i, #[trigger] bs[b], Some(kc)),
        forall|m: int| is_branch_child(nodes, i, m, Some(kc)) ==> bs.contains(m),
        forall|b: int, cond: Option<Seq<char>>|
            0 <= b < bs.len() ==> #[trigger] fna_at(
                nodes,
                nodes[i].children@[bs[b]] as int,
                cond,
            ) == seq![GTransition { target: ts[b], condition: cond, is_collection: false }],
        fna_children(nodes, i, 0, cond0, true, Some(kc)) == Seq::<GTransition>::empty(),
    ensures
        ({
            let ctext = nodes[nodes[i].children@[kc] as int].text@;
            fna_at(nodes, i, cond0) == Seq::new(
                bs.len() as nat,
                |b: int|
                    GTransition {
                        target: ts[b],
                        condition: branch_cond(b, Some(ctext)),
                        is_collection: false,
                    },
            )
        }),
        ({
            let ctext = nodes[nodes[i].children@[kc] as int].text@;
            ctext.len() > 0 ==> forall|b: int|
                0 <= b < bs.len() ==> (#[trigger] branch_cond(b, Some(ctext))) is Some
                    && branch_cond(b, Some(ctext))->Some_0.len() > 0
        }),
{
    reveal_strlit("call_expression");
    reveal_strlit("if_expression");
    let ctext = nodes[nodes[i].children@[kc] as int].text@;
    let ct = Some(ctext);
    assert forall|b: int| 0 <= b < bs.len() implies 0 <= #[trigger] bs[b] by {
        assert(is_branch_child(nodes, i, bs[b], Some(kc)));
    }
    lemma_branches_exact(nodes, i, 0, 0, ct, Some(kc), bs, ts);
    assert(nodes[i].kind@ != "call_expression"@) by {
        assert("if_expression"@.len() != "call_expression"@.len());
    }
    assert(fna_at(nodes, i, cond0) =~= Seq::new(
        bs.len() as nat,
        |b: int|
            GTransition {
                target: ts[b],
                condition: branch_cond(b, ct),
                is_collection: false,
            },
    ));
    reveal_strlit("NOT (");
    if ctext.len() > 0 {
        assert forall|b: int|
            0 <= b < bs.len() implies (#[trigger] branch_cond(b, ct)) is Some && branch_cond(
            b,
            ct,
        )->Some_0.len() > 0 by {
            if b > 0 {
                assert(branch_cond(b, ct) == Some(negated_seq(ctext)));
            }
        }
    }
}

} // verus!
