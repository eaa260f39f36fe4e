//! Flow-graph analysis over the processor index: the transition relation,
//! reachability, back-edge detection from an entry point, cycle grouping,
//! and iteration-region detection.

use vstd::prelude::*;
use crate::model::{
    Edge, GEdge, GProcEntry, GTransition, NextAktivitet, ProcessorIndex, edge_views, lookup_proc,
    trans_views,
};
use crate::strutil::{str_eq, vec_contains_str};

verus! {

/// The outgoing transitions of `name`: empty when it has no processor.
pub open spec fn succs_of(idx: Seq<GProcEntry>, name: Seq<char>) -> Seq<GTransition> {
    match lookup_proc(idx, name) {
        Some(p) => p.transitions,
        None => Seq::empty(),
    }
}

/// Whether `name` has a processor entry.
pub open spec fn is_key(idx: Seq<GProcEntry>, name: Seq<char>) -> bool {
    lookup_proc(idx, name) is Some
}

/// The transition relation: some transition of `a` targets `b`.
pub open spec fn step(idx: Seq<GProcEntry>, a: Seq<char>, b: Seq<char>) -> bool {
    exists|i: int| 0 <= i < succs_of(idx, a).len() && succs_of(idx, a)[i].target == b
}

/// `p` is a nonempty walk along the transition relation.
pub open spec fn is_path(idx: Seq<GProcEntry>, p: Seq<Seq<char>>) -> bool {
    p.len() >= 1 && forall|i: int| 0 <= i < p.len() - 1 ==> step(idx, #[trigger] p[i], p[i + 1])
}

/// `b` can be reached from `a` by following transitions (trivially, when
/// they are equal).
pub open spec fn reachable(idx: Seq<GProcEntry>, a: Seq<char>, b: Seq<char>) -> bool {
    exists|p: Seq<Seq<char>>| is_path(idx, p) && p[0] == a && p.last() == b
}

/// The views of a sequence of name pairs.
pub open spec fn pair_views(s: Seq<(String, String)>) -> Seq<(Seq<char>, Seq<char>)> {
    s.map_values(|p: (String, String)| (p.0@, p.1@))
}

/// The views of a sequence of strings.
pub open spec fn str_views(s: Seq<String>) -> Seq<Seq<char>> {
    s.map_values(|x: String| x@)
}

/// Number of index entries whose activity is not yet visited.
pub open spec fn ucount(idx: Seq<GProcEntry>, vis: Seq<Seq<char>>) -> int
    decreases idx.len(),
{
    if idx.len() == 0 {
        0
    } else {
        ucount(idx.drop_first(), vis) + (if vis.contains(idx[0].aktivitet) {
            0int
        } else {
            1int
        })
    }
}

/// The unvisited count lies between zero and the index size.
pub proof fn lemma_ucount_le(idx: Seq<GProcEntry>, vis: Seq<Seq<char>>)
    ensures
        0 <= ucount(idx, vis) <= idx.len(),
    decreases idx.len(),
{
    if idx.len() > 0 {
        lemma_ucount_le(idx.drop_first(), vis);
    }
}

/// Membership in a pushed sequence.
pub proof fn lemma_push_contains<A>(s: Seq<A>, x: A, y: A)
    ensures
        s.push(x).contains(y) <==> (s.contains(y) || x == y),
{
    if s.push(x).contains(y) {
        let i = choose|i: int| 0 <= i < s.push(x).len() && s.push(x)[i] == y;
        if i < s.len() {
            assert(s[i] == y);
        }
    }
    if s.contains(y) {
        let i = choose|i: int| 0 <= i < s.len() && s[i] == y;
        assert(s.push(x)[i] == y);
    }
    if x == y {
        assert(s.push(x)[s.len() as int] == y);
    }
}

/// Growing the visited set never grows the unvisited count.
pub proof fn lemma_ucount_mono(idx: Seq<GProcEntry>, vis: Seq<Seq<char>>, vis2: Seq<Seq<char>>)
    requires
        forall|x: Seq<char>| vis.contains(x) ==> vis2.contains(x),
    ensures
        ucount(idx, vis2) <= ucount(idx, vis),
    decreases idx.len(),
{
    if idx.len() > 0 {
        lemma_ucount_mono(idx.drop_first(), vis, vis2);
    }
}

/// Visiting an unvisited key strictly shrinks the unvisited count.
pub proof fn lemma_ucount_push_key(idx: Seq<GProcEntry>, vis: Seq<Seq<char>>, n: Seq<char>)
    requires
        is_key(idx, n),
        !vis.contains(n),
    ensures
        ucount(idx, vis.push(n)) <= ucount(idx, vis) - 1,
        ucount(idx, vis) >= 1,
    decreases idx.len(),
{
    lemma_push_contains(vis, n, idx[0].aktivitet);
    if idx[0].aktivitet == n {
        assert(forall|x: Seq<char>| vis.contains(x) ==> vis.push(n).contains(x)) by {
            assert forall|x: Seq<char>| vis.contains(x) implies vis.push(n).contains(x) by {
                lemma_push_contains(vis, n, x);
            }
        }
        lemma_ucount_mono(idx.drop_first(), vis, vis.push(n));
        lemma_ucount_le(idx.drop_first(), vis.push(n));
        lemma_ucount_le(idx.drop_first(), vis);
    } else {
        lemma_ucount_push_key(idx.drop_first(), vis, n);
        lemma_ucount_le(idx, vis);
    }
}

/// A contiguous part of a walk is a walk.
pub proof fn lemma_subpath(idx: Seq<GProcEntry>, p: Seq<Seq<char>>, a: int, b: int)
    requires
        is_path(idx, p),
        0 <= a < b <= p.len(),
    ensures
        is_path(idx, p.subrange(a, b)),
{
    let q = p.subrange(a, b);
    assert forall|i: int| 0 <= i < q.len() - 1 implies step(idx, #[trigger] q[i], q[i + 1]) by {
        assert(q[i] == p[a + i]);
        assert(q[i + 1] == p[a + i + 1]);
    }
}

/// Depth-first search from `node` (already marked visited, `stack` not yet
/// holding it): the visited set after the walk, and the back-edges found,
/// in discovery order.
pub open spec fn dfs_node(
    idx: Seq<GProcEntry>,
    node: Seq<char>,
    vis: Seq<Seq<char>>,
    stack: Seq<Seq<char>>,
    fuel: nat,
) -> (Seq<Seq<char>>, Seq<(Seq<char>, Seq<char>)>)
    decreases fuel, 1int, 0int,
{
    dfs_list(idx, node, succs_of(idx, node), 0, vis, stack.push(node), fuel)
}

/// Fold of [`dfs_node`] over the successors of `from`, from `k` on: a
/// successor on the stack records a back-edge, an unvisited one is visited
/// (and expanded when it has a processor), a visited one is skipped.
pub open spec fn dfs_list(
    idx: Seq<GProcEntry>,
    from: Seq<char>,
    succs: Seq<GTransition>,
    k: int,
    vis: Seq<Seq<char>>,
    stack: Seq<Seq<char>>,
    fuel: nat,
) -> (Seq<Seq<char>>, Seq<(Seq<char>, Seq<char>)>)
    decreases fuel, 0int, succs.len() - k,
{
    if !(0 <= k < succs.len()) {
        (vis, Seq::empty())
    } else {
        let nxt = succs[k].target;
        if stack.contains(nxt) {
            let r = dfs_list(idx, from, succs, k + 1, vis, stack, fuel);
            (r.0, seq![(from, nxt)] + r.1)
        } else if !vis.contains(nxt) {
            let vis2 = vis.push(nxt);
            let m: (Seq<Seq<char>>, Seq<(Seq<char>, Seq<char>)>) = if is_key(idx, nxt) && fuel
                > 0 {
                dfs_node(idx, nxt, vis2, stack, (fuel - 1) as nat)
            } else {
                (vis2, Seq::empty())
            };
            let r = dfs_list(idx, from, succs, k + 1, m.0, stack, fuel);
            (r.0, m.1 + r.1)
        } else {
            dfs_list(idx, from, succs, k + 1, vis, stack, fuel)
        }
    }
}

/// The back-edges that [`detect_cycles`] reports for `start`.
pub open spec fn detect_cycles_spec(start: Seq<char>, idx: Seq<GProcEntry>) -> Seq<
    (Seq<char>, Seq<char>),
> {
    if is_key(idx, start) {
        dfs_node(idx, start, seq![start], Seq::empty(), idx.len() as nat).1
    } else {
        Seq::empty()
    }
}

fn dfs_node_exec(
    index: &ProcessorIndex,
    node: &str,
    vis: &mut Vec<String>,
    stack: &mut Vec<String>,
    cycles: &mut Vec<(String, String)>,
)
    requires
        is_path(index@, str_views(old(stack)@).push(node@)),
        forall|x: Seq<char>| str_views(old(stack)@).contains(x) ==> str_views(old(vis)@).contains(
            x,
        ),
        str_views(old(vis)@).contains(node@),
    ensures
        forall|fuel: nat|
            fuel >= ucount(index@, str_views(old(vis)@)) ==> str_views(final(vis)@)
                == (#[trigger] dfs_node(
                index@,
                node@,
                str_views(old(vis)@),
                str_views(old(stack)@),
                fuel,
            )).0 && pair_views(final(cycles)@) == pair_views(old(cycles)@) + dfs_node(
                index@,
                node@,
                str_views(old(vis)@),
                str_views(old(stack)@),
                fuel,
            ).1,
        final(stack)@ == old(stack)@,
        final(vis)@.len() >= old(vis)@.len() && final(vis)@.take(old(vis)@.len() as int) == old(
            vis,
        )@,
        final(cycles)@.len() >= old(cycles)@.len() && final(cycles)@.take(
            old(cycles)@.len() as int,
        ) == old(cycles)@,
        forall|j: int|
            old(cycles)@.len() <= j < final(cycles)@.len() ==> step(
                index@,
                (#[trigger] final(cycles)@[j]).0@,
                final(cycles)@[j].1@,
            ) && reachable(index@, final(cycles)@[j].1@, final(cycles)@[j].0@),
    decreases ucount(index@, str_views(vis@)), 1int, 0int,
{
    let ghost idx = index@;
    let ghost visv = str_views(vis@);
    let ghost stackv = str_views(stack@);
    stack.push(node.to_owned());
    proof {
        assert(str_views(stack@) =~= stackv.push(node@));
    }
    match index.get(node) {
        Some(p) => {
            proof {
                assert(trans_views(p.next_aktiviteter@) == succs_of(idx, node@));
                assert(str_views(stack@).last() == node@);
                assert forall|x: Seq<char>| str_views(stack@).contains(x) implies str_views(
                    vis@,
                ).contains(x) by {
                    lemma_push_contains(stackv, node@, x);
                }
            }
            dfs_list_exec(index, node, &p.next_aktiviteter, 0, vis, stack, cycles);
            proof {
                assert forall|fuel: nat| fuel >= ucount(idx, visv) implies str_views(vis@)
                    == (#[trigger] dfs_node(idx, node@, visv, stackv, fuel)).0 && pair_views(
                    cycles@,
                ) == pair_views(old(cycles)@) + dfs_node(idx, node@, visv, stackv, fuel).1 by {
                    let r = dfs_list(
                        idx,
                        node@,
                        succs_of(idx, node@),
                        0,
                        visv,
                        stackv.push(node@),
                        fuel,
                    );
                    assert(str_views(vis@) == r.0);
                }
            }
        },
        None => {
            proof {
                assert(succs_of(idx, node@) =~= Seq::<GTransition>::empty());
                assert forall|fuel: nat| fuel >= ucount(idx, visv) implies str_views(vis@)
                    == (#[trigger] dfs_node(idx, node@, visv, stackv, fuel)).0 && pair_views(
                    cycles@,
                ) == pair_views(old(cycles)@) + dfs_node(idx, node@, visv, stackv, fuel).1 by {
                    let r = dfs_list(
                        idx,
                        node@,
                        succs_of(idx, node@),
                        0,
                        visv,
                        stackv.push(node@),
                        fuel,
                    );
                    assert(r.0 == visv && r.1 == Seq::<(Seq<char>, Seq<char>)>::empty());
                    assert(pair_views(cycles@) =~= pair_views(old(cycles)@) + Seq::<
                        (Seq<char>, Seq<char>),
                    >::empty());
                }
            }
        },
    }
    stack.pop();
    proof {
        assert(stack@ =~= old(stack)@);
    }
}

pub proof fn lemma_str_prefix_contains(a: Seq<String>, b: Seq<String>)
    requires
        a.len() <= b.len(),
        b.take(a.len() as int) == a,
    ensures
        forall|x: Seq<char>| str_views(a).contains(x) ==> #[trigger] str_views(b).contains(x),
{
    assert forall|x: Seq<char>| str_views(a).contains(x) implies #[trigger] str_views(
        b,
    ).contains(x) by {
        let i = choose|i: int| 0 <= i < str_views(a).len() && str_views(a)[i] == x;
        assert(b.take(a.len() as int)[i] == a[i]);
        assert(b[i] == a[i]);
        assert(str_views(b)[i] == x);
    }
}

fn dfs_list_exec(
    index: &ProcessorIndex,
    from: &str,
    succs: &Vec<NextAktivitet>,
    k: usize,
    vis: &mut Vec<String>,
    stack: &mut Vec<String>,
    cycles: &mut Vec<(String, String)>,
)
    requires
        trans_views(succs@) == succs_of(index@, from@),
        k <= succs@.len(),
        is_path(index@, str_views(old(stack)@)),
        str_views(old(stack)@).len() >= 1,
        str_views(old(stack)@).last() == from@,
        forall|x: Seq<char>| str_views(old(stack)@).contains(x) ==> str_views(old(vis)@).contains(
            x,
        ),
    ensures
        forall|fuel: nat|
            fuel >= ucount(index@, str_views(old(vis)@)) ==> str_views(final(vis)@)
                == (#[trigger] dfs_list(
                index@,
                from@,
                succs_of(index@, from@),
                k as int,
                str_views(old(vis)@),
                str_views(old(stack)@),
                fuel,
            )).0 && pair_views(final(cycles)@) == pair_views(old(cycles)@) + dfs_list(
                index@,
                from@,
                succs_of(index@, from@),
                k as int,
                str_views(old(vis)@),
                str_views(old(stack)@),
                fuel,
            ).1,
        final(stack)@ == old(stack)@,
        final(vis)@.len() >= old(vis)@.len() && final(vis)@.take(old(vis)@.len() as int) == old(
            vis,
        )@,
        final(cycles)@.len() >= old(cycles)@.len() && final(cycles)@.take(
            old(cycles)@.len() as int,
        ) == old(cycles)@,
        forall|j: int|
            old(cycles)@.len() <= j < final(cycles)@.len() ==> step(
                index@,
                (#[trigger] final(cycles)@[j]).0@,
                final(cycles)@[j].1@,
            ) && reachable(index@, final(cycles)@[j].1@, final(cycles)@[j].0@),
    decreases ucount(index@, str_views(vis@)), 0int, succs@.len() - k,
{
    if k >= succs.len() {
        proof {
            assert(pair_views(cycles@) =~= pair_views(cycles@) + Seq::<
                (Seq<char>, Seq<char>),
            >::empty());
            assert(vis@.take(vis@.len() as int) =~= vis@);
        }
        return ;
    }
    let ghost idx = index@;
    let ghost visv = str_views(vis@);
    let ghost stackv = str_views(stack@);
    let ghost succv = succs_of(index@, from@);
    let nxt = succs[k].aktivitet_name.as_str();
    proof {
        assert(succv[k as int].target == nxt@);
        assert(step(idx, from@, nxt@));
    }
    if vec_contains_str(stack, nxt) {
        proof {
            assert(str_views(stack@).contains(nxt@)) by {
                let i = choose|i: int| 0 <= i < stack@.len() && stack@[i]@ == nxt@;
                assert(str_views(stack@)[i] == nxt@);
            }
            assert(reachable(idx, nxt@, from@)) by {
                let i = choose|i: int| 0 <= i < stackv.len() && stackv[i] == nxt@;
                lemma_subpath(idx, stackv, i, stackv.len() as int);
                let q = stackv.subrange(i, stackv.len() as int);
                assert(q[0] == nxt@);
                assert(q.last() == from@);
            }
        }
        cycles.push((from.to_owned(), nxt.to_owned()));
        let ghost cypush = cycles@;
        proof {
            assert(pair_views(cycles@) =~= pair_views(old(cycles)@).push((from@, nxt@)));
        }
        dfs_list_exec(index, from, succs, k + 1, vis, stack, cycles);
        proof {
            assert forall|j: int|
                old(cycles)@.len() <= j < cycles@.len() implies step(
                idx,
                (#[trigger] cycles@[j]).0@,
                cycles@[j].1@,
            ) && reachable(idx, cycles@[j].1@, cycles@[j].0@) by {
                if j < cypush.len() {
                    assert(cycles@.take(cypush.len() as int)[j] == cycles@[j]);
                    assert(cycles@[j] == cypush[j]);
                    assert(pair_views(cypush)[j] == (cypush[j].0@, cypush[j].1@));
                    assert(pair_views(cypush)[j] == (from@, nxt@));
                    assert(cycles@[j].0@ == from@ && cycles@[j].1@ == nxt@);
                }
            }
            assert forall|fuel: nat| fuel >= ucount(idx, visv) implies str_views(vis@)
                == (#[trigger] dfs_list(idx, from@, succv, k as int, visv, stackv, fuel)).0
                && pair_views(cycles@) == pair_views(old(cycles)@) + dfs_list(
                idx,
                from@,
                succv,
                k as int,
                visv,
                stackv,
                fuel,
            ).1 by {
                let r2 = dfs_list(idx, from@, succv, k + 1, visv, stackv, fuel);
                assert(pair_views(cycles@) =~= pair_views(old(cycles)@) + (seq![(from@, nxt@)]
                    + r2.1));
            }
        }
    } else if !vec_contains_str(vis, nxt) {
        proof {
            assert(!stackv.contains(nxt@)) by {
                if stackv.contains(nxt@) {
                    let i = choose|i: int| 0 <= i < stackv.len() && stackv[i] == nxt@;
                    assert(stack@[i]@ == nxt@);
                }
            }
            assert(!visv.contains(nxt@)) by {
                if visv.contains(nxt@) {
                    let i = choose|i: int| 0 <= i < visv.len() && visv[i] == nxt@;
                    assert(vis@[i]@ == nxt@);
                }
            }
        }
        vis.push(nxt.to_owned());
        let ghost vis2str = vis@;
        proof {
            assert(str_views(vis@) =~= visv.push(nxt@));
            lemma_push_contains(visv, nxt@, nxt@);
        }
        let expand = match index.get(nxt) {
            Some(_) => true,
            None => false,
        };
        proof {
            lemma_ucount_push_key_if(idx, visv, nxt@, expand);
            lemma_ucount_le(idx, visv.push(nxt@));
            lemma_ucount_le(idx, visv);
        }
        if expand {
            proof {
                assert(is_path(idx, stackv.push(nxt@))) by {
                    assert forall|i: int|
                        0 <= i < stackv.push(nxt@).len() - 1 implies step(
                        idx,
                        #[trigger] stackv.push(nxt@)[i],
                        stackv.push(nxt@)[i + 1],
                    ) by {
                        if i < stackv.len() - 1 {
                            assert(stackv.push(nxt@)[i] == stackv[i]);
                            assert(stackv.push(nxt@)[i + 1] == stackv[i + 1]);
                        } else {
                            assert(stackv.push(nxt@)[i] == stackv.last());
                            assert(stackv.push(nxt@)[i + 1] == nxt@);
                        }
                    }
                }
                assert forall|x: Seq<char>| stackv.contains(x) implies str_views(
                    vis@,
                ).contains(x) by {
                    assert(visv.contains(x));
                    lemma_push_contains(visv, nxt@, x);
                }
            }
            dfs_node_exec(index, nxt, vis, stack, cycles);
        }
        let ghost vismidvec = vis@;
        let ghost vismid = str_views(vis@);
        let ghost cymidvec = cycles@;
        let ghost cymid = pair_views(cycles@);
        proof {
            assert(vismidvec.take(vis2str.len() as int) == vis2str) by {
                if !expand {
                    assert(vismidvec =~= vis2str);
                    assert(vis2str.take(vis2str.len() as int) =~= vis2str);
                }
            }
            lemma_str_prefix_contains(vis2str, vismidvec);
            assert(str_views(vis2str) == visv.push(nxt@));
            assert forall|x: Seq<char>|
                visv.push(nxt@).contains(x) implies #[trigger] vismid.contains(x) by {
                assert(str_views(vis2str).contains(x));
                assert(str_views(vismidvec).contains(x));
            }
            lemma_ucount_mono(idx, visv.push(nxt@), vismid);
            lemma_ucount_le(idx, vismid);
            assert forall|x: Seq<char>| stackv.contains(x) implies str_views(vis@).contains(
                x,
            ) by {
                assert(visv.contains(x));
                lemma_push_contains(visv, nxt@, x);
                assert(visv.push(nxt@).contains(x));
            }
        }
        dfs_list_exec(index, from, succs, k + 1, vis, stack, cycles);
        proof {
            assert forall|j: int|
                old(cycles)@.len() <= j < cycles@.len() implies step(
                idx,
                (#[trigger] cycles@[j]).0@,
                cycles@[j].1@,
            ) && reachable(idx, cycles@[j].1@, cycles@[j].0@) by {
                if j < cymidvec.len() {
                    assert(cycles@.take(cymidvec.len() as int)[j] == cycles@[j]);
                    assert(cycles@[j] == cymidvec[j]);
                }
            }
            assert forall|fuel: nat| fuel >= ucount(idx, visv) implies str_views(vis@)
                == (#[trigger] dfs_list(idx, from@, succv, k as int, visv, stackv, fuel)).0
                && pair_views(cycles@) == pair_views(old(cycles)@) + dfs_list(
                idx,
                from@,
                succv,
                k as int,
                visv,
                stackv,
                fuel,
            ).1 by {
                let vis2 = visv.push(nxt@);
                dfs_list_step_proof(idx, visv, stackv, succv, from@, nxt@, k as int, fuel, expand);
                let m: (Seq<Seq<char>>, Seq<(Seq<char>, Seq<char>)>) = if expand {
                    dfs_node(idx, nxt@, vis2, stackv, (fuel - 1) as nat)
                } else {
                    (vis2, Seq::<(Seq<char>, Seq<char>)>::empty())
                };
                if expand {
                    lemma_ucount_push_key(idx, visv, nxt@);
                    assert(fuel - 1 >= ucount(idx, vis2));
                    assert(vismid == m.0 && cymid == pair_views(old(cycles)@) + m.1);
                } else {
                    assert(vismid == vis2);
                    assert(cymid =~= pair_views(old(cycles)@) + Seq::<
                        (Seq<char>, Seq<char>),
                    >::empty());
                }
                let r = dfs_list(idx, from@, succv, k + 1, vismid, stackv, fuel);
                assert(str_views(vis@) == r.0);
                assert(pair_views(cycles@) == cymid + r.1);
                assert(pair_views(cycles@) =~= pair_views(old(cycles)@) + (m.1 + r.1));
            }
            assert forall|i: int| 0 <= i < old(vis)@.len() implies vis@[i] == old(vis)@[i] by {
                assert(vis@.take(vismidvec.len() as int)[i] == vis@[i]);
                assert(vis@[i] == vismidvec[i]);
                assert(vismidvec.take(vis2str.len() as int)[i] == vismidvec[i]);
                assert(vismidvec[i] == vis2str[i]);
                assert(vis2str[i] == old(vis)@[i]);
            }
            assert(vis@.take(old(vis)@.len() as int) =~= old(vis)@);
        }
    } else {
        proof {
            assert(!stackv.contains(nxt@)) by {
                if stackv.contains(nxt@) {
                    let i = choose|i: int| 0 <= i < stackv.len() && stackv[i] == nxt@;
                    assert(stack@[i]@ == nxt@);
                }
            }
            assert(str_views(vis@).contains(nxt@)) by {
                let i = choose|i: int| 0 <= i < vis@.len() && vis@[i]@ == nxt@;
                assert(str_views(vis@)[i] == nxt@);
            }
        }
        dfs_list_exec(index, from, succs, k + 1, vis, stack, cycles);
        proof {
            assert forall|fuel: nat| fuel >= ucount(idx, visv) implies str_views(vis@)
                == (#[trigger] dfs_list(idx, from@, succv, k as int, visv, stackv, fuel)).0
                && pair_views(cycles@) == pair_views(old(cycles)@) + dfs_list(
                idx,
                from@,
                succv,
                k as int,
                visv,
                stackv,
                fuel,
            ).1 by {
                let r2 = dfs_list(idx, from@, succv, k + 1, visv, stackv, fuel);
                assert(str_views(vis@) == r2.0);
            }
        }
    }
}

proof fn lemma_ucount_push_key_if(
    idx: Seq<GProcEntry>,
    vis: Seq<Seq<char>>,
    n: Seq<char>,
    key: bool,
)
    requires
        key == is_key(idx, n),
        !vis.contains(n),
    ensures
        key ==> ucount(idx, vis.push(n)) <= ucount(idx, vis) - 1 && ucount(idx, vis) >= 1,
        ucount(idx, vis.push(n)) <= ucount(idx, vis),
{
    if key {
        lemma_ucount_push_key(idx, vis, n);
    }
    assert forall|x: Seq<char>| vis.contains(x) implies vis.push(n).contains(x) by {
        lemma_push_contains(vis, n, x);
    }
    lemma_ucount_mono(idx, vis, vis.push(n));
}

proof fn dfs_list_step_proof(
    idx: Seq<GProcEntry>,
    visv: Seq<Seq<char>>,
    stackv: Seq<Seq<char>>,
    succv: Seq<GTransition>,
    from: Seq<char>,
    nxt: Seq<char>,
    k: int,
    fuel: nat,
    expand: bool,
)
    requires
        0 <= k < succv.len(),
        succv[k].target == nxt,
        !stackv.contains(nxt),
        !visv.contains(nxt),
        expand == is_key(idx, nxt),
        fuel >= ucount(idx, visv),
    ensures
        ({
            let vis2 = visv.push(nxt);
            let m: (Seq<Seq<char>>, Seq<(Seq<char>, Seq<char>)>) = if expand {
                dfs_node(idx, nxt, vis2, stackv, (fuel - 1) as nat)
            } else {
                (vis2, Seq::empty())
            };
            let r = dfs_list(idx, from, succv, k + 1, m.0, stackv, fuel);
            dfs_list(idx, from, succv, k, visv, stackv, fuel) == (r.0, m.1 + r.1)
        }),
{
    let vis2 = visv.push(nxt);
    if expand {
        lemma_ucount_push_key(idx, visv, nxt);
        assert(fuel > 0);
    }
}

/// `x` is mentioned by some back-edge.
pub open spec fn in_cycles(cv: Seq<(Seq<char>, Seq<char>)>, x: Seq<char>) -> bool {
    exists|i: int| 0 <= i < cv.len() && ((#[trigger] cv[i]).0 == x || cv[i].1 == x)
}

/// The nested views of a sequence of node groups.
pub open spec fn group_views(s: Seq<Vec<String>>) -> Seq<Seq<Seq<char>>> {
    s.map_values(|g: Vec<String>| str_views(g@))
}

/// Number of candidate names not yet in `lv`.
pub open spec fn scount(cands: Seq<Seq<char>>, lv: Seq<Seq<char>>) -> int
    decreases cands.len(),
{
    if cands.len() == 0 {
        0
    } else {
        scount(cands.drop_first(), lv) + (if lv.contains(cands[0]) {
            0int
        } else {
            1int
        })
    }
}

proof fn lemma_scount_le(cands: Seq<Seq<char>>, lv: Seq<Seq<char>>)
    ensures
        0 <= scount(cands, lv) <= cands.len(),
    decreases cands.len(),
{
    if cands.len() > 0 {
        lemma_scount_le(cands.drop_first(), lv);
    }
}

proof fn lemma_scount_push(cands: Seq<Seq<char>>, lv: Seq<Seq<char>>, n: Seq<char>)
    requires
        cands.contains(n),
        !lv.contains(n),
    ensures
        scount(cands, lv.push(n)) <= scount(cands, lv) - 1,
    decreases cands.len(),
{
    lemma_push_contains(lv, n, cands[0]);
    if cands[0] == n {
        assert forall|x: Seq<char>| lv.contains(x) implies lv.push(n).contains(x) by {
            lemma_push_contains(lv, n, x);
        }
        lemma_scount_mono(cands.drop_first(), lv, lv.push(n));
    } else {
        assert(cands.drop_first().contains(n)) by {
            let i = choose|i: int| 0 <= i < cands.len() && cands[i] == n;
            assert(cands.drop_first()[i - 1] == n);
        }
        lemma_scount_push(cands.drop_first(), lv, n);
    }
}

proof fn lemma_scount_mono(cands: Seq<Seq<char>>, lv: Seq<Seq<char>>, lv2: Seq<Seq<char>>)
    requires
        forall|x: Seq<char>| lv.contains(x) ==> lv2.contains(x),
    ensures
        scount(cands, lv2) <= scount(cands, lv),
    decreases cands.len(),
{
    if cands.len() > 0 {
        lemma_scount_mono(cands.drop_first(), lv, lv2);
    }
}

/// Detect the back-edges of the transition graph walked from `start`: each
/// reported pair `(a, b)` is a real transition whose source `a` can be
/// reached back from its target `b`.
pub fn detect_cycles(start: &str, processor_index: &ProcessorIndex) -> (r: Vec<(String, String)>)
    ensures
        pair_views(r@) == detect_cycles_spec(start@, processor_index@),
        forall|j: int|
            0 <= j < r@.len() ==> step(processor_index@, (#[trigger] r@[j]).0@, r@[j].1@)
                && reachable(processor_index@, r@[j].1@, r@[j].0@),
{
    let mut vis: Vec<String> = Vec::new();
    vis.push(start.to_owned());
    let mut stack: Vec<String> = Vec::new();
    let mut cycles: Vec<(String, String)> = Vec::new();
    proof {
        assert(str_views(vis@) =~= seq![start@]);
        assert(str_views(stack@) =~= Seq::<Seq<char>>::empty());
        assert(pair_views(cycles@) =~= Seq::<(Seq<char>, Seq<char>)>::empty());
        assert(str_views(vis@)[0] == start@);
        assert(is_path(processor_index@, Seq::<Seq<char>>::empty().push(start@)));
    }
    let expand = match processor_index.get(start) {
        Some(_) => true,
        None => false,
    };
    if expand {
        dfs_node_exec(processor_index, start, &mut vis, &mut stack, &mut cycles);
        proof {
            lemma_ucount_le(processor_index@, seq![start@]);
            assert(pair_views(cycles@) =~= Seq::<(Seq<char>, Seq<char>)>::empty() + dfs_node(
                processor_index@,
                start@,
                seq![start@],
                Seq::empty(),
                processor_index@.len() as nat,
            ).1);
        }
    }
    cycles
}

/// Some group member equals `x`.
pub open spec fn group_has(gs: Seq<Vec<String>>, x: Seq<char>) -> bool {
    exists|g: int, m: int|
        0 <= g < gs.len() && 0 <= m < gs[g]@.len() && (#[trigger] gs[g]@[m])@ == x
}

fn push_unique(v: &mut Vec<String>, x: &str)
    ensures
        str_views(final(v)@).contains(x@),
        final(v)@.len() >= old(v)@.len(),
        final(v)@.take(old(v)@.len() as int) == old(v)@,
        forall|j: int| old(v)@.len() <= j < final(v)@.len() ==> (#[trigger] final(v)@[j])@ == x@,
{
    if !vec_contains_str(v, x) {
        v.push(x.to_owned());
        proof {
            assert(str_views(v@)[v@.len() - 1] == x@);
            assert(v@.take(old(v)@.len() as int) =~= old(v)@);
        }
    } else {
        proof {
            let i = choose|i: int| 0 <= i < v@.len() && v@[i]@ == x@;
            assert(str_views(v@)[i] == x@);
            assert(v@.take(v@.len() as int) =~= v@);
        }
    }
}

/// One step of the grouping relation: a forward edge into a back-edge
/// node, or a back-edge followed in reverse.
pub open spec fn gc_step(
    ev: Seq<GEdge>,
    cv: Seq<(Seq<char>, Seq<char>)>,
    a: Seq<char>,
    b: Seq<char>,
) -> bool {
    (exists|i: int|
        0 <= i < ev.len() && (#[trigger] ev[i]).from == a && ev[i].to == b && in_cycles(cv, b))
        || (exists|u: int| 0 <= u < cv.len() && (#[trigger] cv[u]).1 == a && cv[u].0 == b)
}

/// `p` is a nonempty walk along the grouping relation.
pub open spec fn gc_path(ev: Seq<GEdge>, cv: Seq<(Seq<char>, Seq<char>)>, p: Seq<Seq<char>>) -> bool {
    p.len() >= 1 && forall|i: int|
        0 <= i < p.len() - 1 ==> gc_step(ev, cv, #[trigger] p[i], p[i + 1])
}

/// `b` can be reached from `a` along the grouping relation.
pub open spec fn gc_connected(
    ev: Seq<GEdge>,
    cv: Seq<(Seq<char>, Seq<char>)>,
    a: Seq<char>,
    b: Seq<char>,
) -> bool {
    exists|p: Seq<Seq<char>>| gc_path(ev, cv, p) && p[0] == a && p.last() == b
}

proof fn lemma_gc_extend(
    ev: Seq<GEdge>,
    cv: Seq<(Seq<char>, Seq<char>)>,
    a: Seq<char>,
    b: Seq<char>,
    c: Seq<char>,
)
    requires
        gc_connected(ev, cv, a, b),
        gc_step(ev, cv, b, c),
    ensures
        gc_connected(ev, cv, a, c),
{
    let p = choose|p: Seq<Seq<char>>| gc_path(ev, cv, p) && p[0] == a && p.last() == b;
    let q = p.push(c);
    assert forall|i: int| 0 <= i < q.len() - 1 implies gc_step(ev, cv, #[trigger] q[i], q[i + 1]) by {
        if i < p.len() - 1 {
            assert(q[i] == p[i] && q[i + 1] == p[i + 1]);
        } else {
            assert(q[i] == p.last() && q[i + 1] == c);
        }
    }
    assert(q[0] == a && q.last() == c);
}

/// Some member of some cluster equals `x`.
pub open spec fn cgroup_has(cgs: Seq<Seq<Seq<char>>>, x: Seq<char>) -> bool {
    exists|g: int, m: int|
        0 <= g < cgs.len() && 0 <= m < cgs[g].len() && #[trigger] cgs[g][m] == x
}

/// The cycle clusters are presentation components of the back-edge nodes:
/// nonempty, made only of back-edge nodes, jointly covering them, pairwise
/// disjoint, and internally connected under the grouping relation.
pub open spec fn components_ok(
    ev: Seq<GEdge>,
    cyc: Seq<(Seq<char>, Seq<char>)>,
    cgs: Seq<Seq<Seq<char>>>,
) -> bool {
    &&& (cyc.len() == 0 ==> cgs.len() == 0)
    &&& forall|g: int| 0 <= g < cgs.len() ==> (#[trigger] cgs[g]).len() > 0
    &&& forall|g: int, m: int|
        0 <= g < cgs.len() && 0 <= m < cgs[g].len() ==> in_cycles(cyc, #[trigger] cgs[g][m])
    &&& forall|x: Seq<char>| in_cycles(cyc, x) ==> cgroup_has(cgs, x)
    &&& forall|g: int, m: int|
        0 <= g < cgs.len() && 0 <= m < cgs[g].len() ==> gc_connected(
            ev,
            cyc,
            cgs[g][0],
            #[trigger] cgs[g][m],
        )
    &&& forall|g1: int, m1: int, g2: int, m2: int|
        0 <= g1 < cgs.len() && 0 <= m1 < cgs[g1].len() && 0 <= g2 < cgs.len() && 0 <= m2 < cgs[
            g2
        ].len() && (g1 != g2 || m1 != m2) ==> #[trigger] cgs[g1][m1] != #[trigger] cgs[g2][m2]
}

/// Group the nodes mentioned by back-edges into presentation clusters: the
/// connected components of the back-edge nodes under forward edges and
/// reversed back-edges, walked iteratively from each node in order of
/// first mention.  Every group is nonempty and holds only back-edge nodes,
/// every back-edge node lands in exactly one group, the groups are
/// pairwise disjoint, and every group member is connected to the group's
/// first member along the grouping relation.
pub fn group_cycles(cycles: &Vec<(String, String)>, edges: &Vec<Edge>) -> (r: Vec<Vec<String>>)
    ensures
        cycles@.len() == 0 ==> r@.len() == 0,
        forall|g: int| 0 <= g < r@.len() ==> (#[trigger] r@[g])@.len() > 0,
        forall|g: int, m: int|
            0 <= g < r@.len() && 0 <= m < r@[g]@.len() ==> in_cycles(
                pair_views(cycles@),
                (#[trigger] r@[g]@[m])@,
            ),
        forall|x: Seq<char>| in_cycles(pair_views(cycles@), x) ==> group_has(r@, x),
        forall|g: int, m: int|
            0 <= g < r@.len() && 0 <= m < r@[g]@.len() ==> gc_connected(
                edge_views(edges@),
                pair_views(cycles@),
                r@[g]@[0]@,
                (#[trigger] r@[g]@[m])@,
            ),
        forall|g1: int, m1: int, g2: int, m2: int|
            0 <= g1 < r@.len() && 0 <= m1 < r@[g1]@.len() && 0 <= g2 < r@.len() && 0 <= m2 < r@[
                g2
            ]@.len() && (g1 != g2 || m1 != m2) ==> (#[trigger] r@[g1]@[m1])@ != (
            #[trigger] r@[g2]@[m2])@,
        components_ok(
            edge_views(edges@),
            pair_views(cycles@),
            r@.map_values(|v: Vec<String>| str_views(v@)),
        ),
{
    let ghost cv = pair_views(cycles@);
    let ghost evw = edge_views(edges@);
    if cycles.len() == 0 {
        let r: Vec<Vec<String>> = Vec::new();
        proof {
            assert(r@.map_values(|v: Vec<String>| str_views(v@)) =~= Seq::<
                Seq<Seq<char>>,
            >::empty());
            assert(forall|x: Seq<char>| !in_cycles(cv, x));
        }
        return r;
    }
    // Candidate nodes, in order of first mention by a back-edge.
    let mut candidates: Vec<String> = Vec::new();
    let mut t: usize = 0;
    while t < cycles.len()
        invariant
            cv == pair_views(cycles@),
            0 <= t <= cycles@.len(),
            forall|j: int|
                0 <= j < candidates@.len() ==> in_cycles(cv, (#[trigger] candidates@[j])@),
            forall|u: int|
                0 <= u < t ==> str_views(candidates@).contains((#[trigger] cv[u]).0)
                    && str_views(candidates@).contains(cv[u].1),
        decreases cycles@.len() - t,
    {
        let ghost pre0 = candidates@;
        push_unique(&mut candidates, cycles[t].0.as_str());
        let ghost pre1 = candidates@;
        push_unique(&mut candidates, cycles[t].1.as_str());
        proof {
            lemma_str_prefix_contains(pre0, pre1);
            lemma_str_prefix_contains(pre1, candidates@);
            assert(str_views(pre1).contains(cv[t as int].0));
            assert(str_views(candidates@).contains(cv[t as int].0));
            assert(str_views(candidates@).contains(cv[t as int].1));
            assert(candidates@.take(pre0.len() as int) =~= pre0) by {
                assert forall|i: int| 0 <= i < pre0.len() implies candidates@[i] == pre0[i] by {
                    assert(candidates@.take(pre1.len() as int)[i] == candidates@[i]);
                    assert(pre1.take(pre0.len() as int)[i] == pre1[i]);
                }
            }
            assert forall|j: int|
                0 <= j < candidates@.len() implies in_cycles(cv, (#[trigger] candidates@[j])@) by {
                if j < pre0.len() {
                    assert(candidates@.take(pre1.len() as int)[j] == candidates@[j]);
                    assert(pre1.take(pre0.len() as int)[j] == pre1[j]);
                    assert(candidates@[j] == pre0[j]);
                } else if j < pre1.len() {
                    assert(candidates@.take(pre1.len() as int)[j] == candidates@[j]);
                    assert(candidates@[j] == pre1[j]);
                    assert(pre1[j]@ == cv[t as int].0);
                } else {
                    assert(candidates@[j]@ == cv[t as int].1);
                }
            }
            assert forall|u: int|
                0 <= u < t + 1 implies str_views(candidates@).contains((#[trigger] cv[u]).0)
                && str_views(candidates@).contains(cv[u].1) by {
                if u < t {
                    lemma_str_prefix_contains(pre0, candidates@);
                }
            }
        }
        t += 1;
    }
    let ghost candv = str_views(candidates@);
    let mut groups: Vec<Vec<String>> = Vec::new();
    let mut visited: Vec<String> = Vec::new();
    let mut ci: usize = 0;
    while ci < candidates.len()
        invariant
            cv == pair_views(cycles@),
            evw == edge_views(edges@),
            candv == str_views(candidates@),
            forall|j: int|
                0 <= j < candidates@.len() ==> in_cycles(cv, (#[trigger] candidates@[j])@),
            forall|u: int|
                0 <= u < cycles@.len() ==> candv.contains((#[trigger] cv[u]).0) && candv.contains(
                    cv[u].1,
                ),
            0 <= ci <= candidates@.len(),
            forall|g: int| 0 <= g < groups@.len() ==> (#[trigger] groups@[g])@.len() > 0,
            forall|g: int, m: int|
                0 <= g < groups@.len() && 0 <= m < groups@[g]@.len() ==> in_cycles(
                    cv,
                    (#[trigger] groups@[g]@[m])@,
                ),
            forall|x: Seq<char>| str_views(visited@).contains(x) ==> group_has(groups@, x),
            forall|g: int, m: int|
                0 <= g < groups@.len() && 0 <= m < groups@[g]@.len() ==> str_views(
                    visited@,
                ).contains((#[trigger] groups@[g]@[m])@),
            forall|g: int, m: int|
                0 <= g < groups@.len() && 0 <= m < groups@[g]@.len() ==> gc_connected(
                    evw,
                    cv,
                    groups@[g]@[0]@,
                    (#[trigger] groups@[g]@[m])@,
                ),
            forall|g1: int, m1: int, g2: int, m2: int|
                0 <= g1 < groups@.len() && 0 <= m1 < groups@[g1]@.len() && 0 <= g2
                    < groups@.len() && 0 <= m2 < groups@[g2]@.len() && (g1 != g2 || m1 != m2)
                    ==> (#[trigger] groups@[g1]@[m1])@ != (#[trigger] groups@[g2]@[m2])@,
            forall|j: int|
                0 <= j < ci ==> str_views(visited@).contains((#[trigger] candidates@[j])@),
        decreases candidates@.len() - ci,
    {
        let ghost target = candidates@[ci as int]@;
        if !vec_contains_str(&visited, candidates[ci].as_str()) {
            proof {
                assert(!str_views(visited@).contains(target)) by {
                    if str_views(visited@).contains(target) {
                        let k = choose|k: int|
                            0 <= k < visited@.len() && str_views(visited@)[k] == target;
                        assert(visited@[k]@ == target);
                    }
                }
            }
            let ghost vpre_outer = visited@;
            let mut component: Vec<String> = Vec::new();
            let mut stack: Vec<String> = Vec::new();
            stack.push(candidates[ci].clone());
            proof {
                assert(str_views(stack@)[0] == target);
                assert(candv.contains(target)) by {
                    assert(str_views(candidates@)[ci as int] == target);
                }
                assert(gc_connected(evw, cv, target, target)) by {
                    let p = seq![target];
                    assert(gc_path(evw, cv, p));
                    assert(p[0] == target && p.last() == target);
                }
                assert(!str_views(vpre_outer).contains(target));
                lemma_scount_le(candv, str_views(visited@));
            }
            while stack.len() > 0
                invariant
                    cv == pair_views(cycles@),
                    evw == edge_views(edges@),
                    candv == str_views(candidates@),
                    forall|j: int|
                        0 <= j < candidates@.len() ==> in_cycles(cv, (#[trigger] candidates@[j])@),
                    forall|u: int|
                        0 <= u < cycles@.len() ==> candv.contains((#[trigger] cv[u]).0)
                            && candv.contains(cv[u].1),
                    forall|s: int|
                        0 <= s < stack@.len() ==> candv.contains((#[trigger] stack@[s])@),
                    forall|s: int|
                        0 <= s < stack@.len() ==> gc_connected(
                            evw,
                            cv,
                            target,
                            (#[trigger] stack@[s])@,
                        ),
                    forall|m: int|
                        0 <= m < component@.len() ==> in_cycles(cv, (#[trigger] component@[m])@),
                    forall|m: int|
                        0 <= m < component@.len() ==> gc_connected(
                            evw,
                            cv,
                            target,
                            (#[trigger] component@[m])@,
                        ),
                    component@.len() > 0 ==> component@[0]@ == target,
                    !str_views(vpre_outer).contains(target),
                    component@.len() == 0 ==> stack@.len() == 1 && stack@[0]@ == target
                        && visited@ == vpre_outer,
                    forall|m: int|
                        0 <= m < component@.len() ==> str_views(visited@).contains(
                            (#[trigger] component@[m])@,
                        ),
                    forall|m: int|
                        0 <= m < component@.len() ==> !str_views(vpre_outer).contains(
                            (#[trigger] component@[m])@,
                        ),
                    forall|m1: int, m2: int|
                        0 <= m1 < m2 < component@.len() ==> (#[trigger] component@[m1])@ != (
                        #[trigger] component@[m2])@,
                    visited@.len() >= vpre_outer.len() && visited@.take(vpre_outer.len() as int)
                        == vpre_outer,
                    forall|x: Seq<char>|
                        str_views(visited@).contains(x) ==> group_has(groups@, x) || str_views(
                            component@,
                        ).contains(x),
                    str_views(visited@).contains(target) || str_views(stack@).contains(target),
                    forall|g: int| 0 <= g < groups@.len() ==> (#[trigger] groups@[g])@.len() > 0,
                    forall|g: int, m: int|
                        0 <= g < groups@.len() && 0 <= m < groups@[g]@.len() ==> in_cycles(
                            cv,
                            (#[trigger] groups@[g]@[m])@,
                        ),
                    forall|g: int, m: int|
                        0 <= g < groups@.len() && 0 <= m < groups@[g]@.len() ==> str_views(
                            vpre_outer,
                        ).contains((#[trigger] groups@[g]@[m])@),
                    forall|g: int, m: int|
                        0 <= g < groups@.len() && 0 <= m < groups@[g]@.len() ==> gc_connected(
                            evw,
                            cv,
                            groups@[g]@[0]@,
                            (#[trigger] groups@[g]@[m])@,
                        ),
                    forall|g1: int, m1: int, g2: int, m2: int|
                        0 <= g1 < groups@.len() && 0 <= m1 < groups@[g1]@.len() && 0 <= g2
                            < groups@.len() && 0 <= m2 < groups@[g2]@.len() && (g1 != g2 || m1
                            != m2) ==> (#[trigger] groups@[g1]@[m1])@ != (
                        #[trigger] groups@[g2]@[m2])@,
                decreases scount(candv, str_views(visited@)), stack@.len(),
            {
                let ghost stackv_pre = str_views(stack@);
                let ghost visv_pre = str_views(visited@);
                let current = match stack.pop() {
                    Some(c) => c,
                    None => vstd::pervasive::unreached(),
                };
                proof {
                    assert(current@ == stackv_pre.last());
                    assert(candv.contains(current@));
                    assert(gc_connected(evw, cv, target, current@));
                    assert(str_views(stack@) =~= stackv_pre.drop_last());
                }
                if !vec_contains_str(&visited, current.as_str()) {
                    proof {
                        assert(!visv_pre.contains(current@)) by {
                            if visv_pre.contains(current@) {
                                let k = choose|k: int|
                                    0 <= k < visv_pre.len() && visv_pre[k] == current@;
                                assert(visited@[k]@ == current@);
                            }
                        }
                        lemma_scount_push(candv, visv_pre, current@);
                        lemma_scount_le(candv, visv_pre.push(current@));
                        assert(in_cycles(cv, current@)) by {
                            let i = choose|i: int|
                                0 <= i < candv.len() && candv[i] == current@;
                            assert(candidates@[i]@ == current@);
                        }
                    }
                    let ghost compv = component@;
                    component.push(current.clone());
                    visited.push(current.clone());
                    proof {
                        assert(str_views(visited@) =~= visv_pre.push(current@));
                        assert(visited@.take(vpre_outer.len() as int) =~= vpre_outer);
                        assert(str_views(visited@).contains(current@)) by {
                            assert(str_views(visited@)[visited@.len() - 1] == current@);
                        }
                        assert(!str_views(vpre_outer).contains(current@)) by {
                            if str_views(vpre_outer).contains(current@) {
                                let k = choose|k: int|
                                    0 <= k < vpre_outer.len() && str_views(vpre_outer)[k]
                                        == current@;
                                assert(visv_pre[k] == current@);
                            }
                        }
                        assert forall|m: int|
                            0 <= m < component@.len() implies str_views(visited@).contains(
                            (#[trigger] component@[m])@,
                        ) by {
                            if m < compv.len() {
                                assert(component@[m] == compv[m]);
                                assert(visv_pre.contains(compv[m]@));
                                let k = choose|k: int|
                                    0 <= k < visv_pre.len() && visv_pre[k] == compv[m]@;
                                assert(str_views(visited@)[k] == compv[m]@);
                            }
                        }
                        assert forall|m1: int, m2: int|
                            0 <= m1 < m2 < component@.len() implies (#[trigger] component@[m1])@
                            != (#[trigger] component@[m2])@ by {
                            if m2 == component@.len() - 1 {
                                assert(component@[m1] == compv[m1]);
                                assert(visv_pre.contains(compv[m1]@));
                                assert(component@[m2]@ == current@);
                            }
                        }
                        assert forall|x: Seq<char>|
                            str_views(visited@).contains(x) implies group_has(groups@, x)
                            || str_views(component@).contains(x) by {
                            let i = choose|i: int|
                                0 <= i < visited@.len() && visited@[i]@ == x;
                            if i < visv_pre.len() {
                                assert(visv_pre[i] == x);
                                if str_views(compv).contains(x) {
                                    let m = choose|m: int|
                                        0 <= m < compv.len() && compv[m]@ == x;
                                    assert(component@[m]@ == x);
                                    assert(str_views(component@)[m] == x);
                                }
                            } else {
                                assert(x == current@);
                                assert(str_views(component@)[component@.len() - 1] == x);
                            }
                        }
                        if compv.len() == 0 {
                            assert(current@ == target);
                            assert(component@[0]@ == target);
                        }
                        assert(str_views(visited@).contains(target) || str_views(
                            stack@,
                        ).contains(target)) by {
                            if current@ == target {
                            } else if visv_pre.contains(target) {
                                let k = choose|k: int|
                                    0 <= k < visv_pre.len() && visv_pre[k] == target;
                                assert(str_views(visited@)[k] == target);
                            } else {
                                assert(stackv_pre.contains(target));
                                let i = choose|i: int|
                                    0 <= i < stackv_pre.len() && stackv_pre[i] == target;
                                assert(i < stackv_pre.len() - 1);
                                assert(str_views(stack@)[i] == target);
                            }
                        }
                    }
                    // forward neighbours among the candidates
                    let mut ei: usize = 0;
                    while ei < edges.len()
                        invariant
                            evw == edge_views(edges@),
                            cv == pair_views(cycles@),
                            candv == str_views(candidates@),
                            forall|j: int|
                                0 <= j < candidates@.len() ==> in_cycles(
                                    cv,
                                    (#[trigger] candidates@[j])@,
                                ),
                            0 <= ei <= edges@.len(),
                            gc_connected(evw, cv, target, current@),
                            forall|s: int|
                                0 <= s < stack@.len() ==> candv.contains((#[trigger] stack@[s])@),
                            forall|s: int|
                                0 <= s < stack@.len() ==> gc_connected(
                                    evw,
                                    cv,
                                    target,
                                    (#[trigger] stack@[s])@,
                                ),
                            str_views(visited@).contains(target) || str_views(stack@).contains(
                                target,
                            ),
                        decreases edges@.len() - ei,
                    {
                        if str_eq(edges[ei].from.as_str(), current.as_str()) && vec_contains_str(
                            &candidates,
                            edges[ei].to.as_str(),
                        ) && !vec_contains_str(&visited, edges[ei].to.as_str()) {
                            let ghost spre = stack@;
                            stack.push(edges[ei].to.clone());
                            proof {
                                assert(stack@[spre.len() as int]@ == edges@[ei as int].to@);
                                assert(candv.contains(edges@[ei as int].to@)) by {
                                    let tv = edges@[ei as int].to@;
                                    let i = choose|i: int|
                                        0 <= i < candidates@.len() && candidates@[i]@ == tv;
                                    assert(str_views(candidates@)[i] == tv);
                                }
                                assert(in_cycles(cv, edges@[ei as int].to@)) by {
                                    let tv = edges@[ei as int].to@;
                                    let i = choose|i: int|
                                        0 <= i < candidates@.len() && candidates@[i]@ == tv;
                                }
                                assert(gc_step(evw, cv, current@, edges@[ei as int].to@)) by {
                                    assert(evw[ei as int].from == current@ && evw[ei as int].to
                                        == edges@[ei as int].to@);
                                }
                                lemma_gc_extend(evw, cv, target, current@, edges@[ei as int].to@);
                                if str_views(spre).contains(target) {
                                    let i = choose|i: int|
                                        0 <= i < spre.len() && str_views(spre)[i] == target;
                                    assert(str_views(stack@)[i] == target);
                                }
                            }
                        }
                        ei += 1;
                    }
                    // sources of back-edges into the current node
                    let mut bi: usize = 0;
                    while bi < cycles.len()
                        invariant
                            evw == edge_views(edges@),
                            cv == pair_views(cycles@),
                            candv == str_views(candidates@),
                            forall|u: int|
                                0 <= u < cycles@.len() ==> candv.contains((#[trigger] cv[u]).0)
                                    && candv.contains(cv[u].1),
                            0 <= bi <= cycles@.len(),
                            gc_connected(evw, cv, target, current@),
                            forall|s: int|
                                0 <= s < stack@.len() ==> candv.contains((#[trigger] stack@[s])@),
                            forall|s: int|
                                0 <= s < stack@.len() ==> gc_connected(
                                    evw,
                                    cv,
                                    target,
                                    (#[trigger] stack@[s])@,
                                ),
                            str_views(visited@).contains(target) || str_views(stack@).contains(
                                target,
                            ),
                        decreases cycles@.len() - bi,
                    {
                        if str_eq(cycles[bi].1.as_str(), current.as_str()) && !vec_contains_str(
                            &visited,
                            cycles[bi].0.as_str(),
                        ) {
                            let ghost spre = stack@;
                            stack.push(cycles[bi].0.clone());
                            proof {
                                assert(stack@[spre.len() as int]@ == cv[bi as int].0);
                                assert(gc_step(evw, cv, current@, cv[bi as int].0)) by {
                                    assert(cv[bi as int].1 == current@);
                                }
                                lemma_gc_extend(evw, cv, target, current@, cv[bi as int].0);
                                if str_views(spre).contains(target) {
                                    let i = choose|i: int|
                                        0 <= i < spre.len() && str_views(spre)[i] == target;
                                    assert(str_views(stack@)[i] == target);
                                }
                            }
                        }
                        bi += 1;
                    }
                } else {
                    proof {
                        assert(str_views(visited@).contains(current@)) by {
                            let k = choose|k: int|
                                0 <= k < visited@.len() && visited@[k]@ == current@;
                            assert(str_views(visited@)[k] == current@);
                        }
                        assert(str_views(visited@).contains(target) || str_views(
                            stack@,
                        ).contains(target)) by {
                            if !str_views(visited@).contains(target) {
                                assert(stackv_pre.contains(target));
                                assert(target != current@);
                                let i = choose|i: int|
                                    0 <= i < stackv_pre.len() && stackv_pre[i] == target;
                                assert(i < stackv_pre.len() - 1);
                                assert(str_views(stack@)[i] == target);
                            }
                        }
                    }
                }
            }
            proof {
                assert forall|g: int, m: int|
                    0 <= g < groups@.len() && 0 <= m < groups@[g]@.len() implies str_views(
                    visited@,
                ).contains((#[trigger] groups@[g]@[m])@) by {
                    assert(str_views(vpre_outer).contains(groups@[g]@[m]@));
                    lemma_str_prefix_contains(vpre_outer, visited@);
                }
            }
            if component.len() > 0 {
                let ghost gpre = groups@;
                groups.push(component);
                proof {
                    assert forall|x: Seq<char>|
                        str_views(visited@).contains(x) implies group_has(groups@, x) by {
                        if group_has(gpre, x) {
                            let (g, m) = choose|g: int, m: int|
                                0 <= g < gpre.len() && 0 <= m < gpre[g]@.len() && (
                                #[trigger] gpre[g]@[m])@ == x;
                            assert(groups@[g]@[m]@ == x);
                        } else {
                            let m = choose|m: int|
                                0 <= m < groups@[groups@.len() - 1]@.len() && (#[trigger] groups@[
                                    groups@.len() - 1
                                ]@[m])@ == x;
                        }
                    }
                    assert forall|g: int, m: int|
                        0 <= g < groups@.len() && 0 <= m < groups@[g]@.len() implies str_views(
                        visited@,
                    ).contains((#[trigger] groups@[g]@[m])@) by {
                        if g < gpre.len() {
                            assert(groups@[g] == gpre[g]);
                            assert(str_views(vpre_outer).contains(gpre[g]@[m]@));
                            lemma_str_prefix_contains(vpre_outer, visited@);
                        }
                    }
                    assert forall|g1: int, m1: int, g2: int, m2: int|
                        0 <= g1 < groups@.len() && 0 <= m1 < groups@[g1]@.len() && 0 <= g2
                            < groups@.len() && 0 <= m2 < groups@[g2]@.len() && (g1 != g2 || m1
                            != m2) implies (#[trigger] groups@[g1]@[m1])@ != (
                        #[trigger] groups@[g2]@[m2])@ by {
                        let last = groups@.len() - 1;
                        if g1 < last && g2 < last {
                            assert(groups@[g1] == gpre[g1] && groups@[g2] == gpre[g2]);
                        } else if g1 == last && g2 < last {
                            assert(groups@[g2] == gpre[g2]);
                            assert(str_views(vpre_outer).contains(gpre[g2]@[m2]@));
                            assert(!str_views(vpre_outer).contains(groups@[g1]@[m1]@));
                        } else if g1 < last && g2 == last {
                            assert(groups@[g1] == gpre[g1]);
                            assert(str_views(vpre_outer).contains(gpre[g1]@[m1]@));
                            assert(!str_views(vpre_outer).contains(groups@[g2]@[m2]@));
                        }
                    }
                }
            }
            proof {
                assert forall|j: int|
                    0 <= j < ci + 1 implies str_views(visited@).contains(
                    (#[trigger] candidates@[j])@,
                ) by {
                    if j < ci {
                        assert(str_views(vpre_outer).contains(candidates@[j]@));
                        lemma_str_prefix_contains(vpre_outer, visited@);
                    } else {
                        assert(str_views(visited@).contains(target));
                    }
                }
            }
        } else {
            proof {
                assert(str_views(visited@).contains(target)) by {
                    let i = choose|i: int| 0 <= i < visited@.len() && visited@[i]@ == target;
                    assert(str_views(visited@)[i] == target);
                }
            }
        }
        ci += 1;
    }
    proof {
        assert forall|x: Seq<char>| in_cycles(cv, x) implies group_has(groups@, x) by {
            let u = choose|u: int| 0 <= u < cv.len() && ((#[trigger] cv[u]).0 == x || cv[u].1 == x);
            assert(candv.contains(x));
            let i = choose|i: int| 0 <= i < candv.len() && candv[i] == x;
            assert(candidates@[i]@ == x);
            assert(str_views(visited@).contains(candidates@[i]@));
        }
        let cgs = groups@.map_values(|v: Vec<String>| str_views(v@));
        assert forall|g: int, m: int|
            0 <= g < cgs.len() && 0 <= m < cgs[g].len() implies #[trigger] cgs[g][m]
            == groups@[g]@[m]@ by {
            assert(cgs[g] == str_views(groups@[g]@));
        }
        assert(components_ok(evw, cv, cgs)) by {
            assert forall|x: Seq<char>| in_cycles(cv, x) implies cgroup_has(cgs, x) by {
                assert(group_has(groups@, x));
                let (g, m) = choose|g: int, m: int|
                    0 <= g < groups@.len() && 0 <= m < groups@[g]@.len() && (
                    #[trigger] groups@[g]@[m])@ == x;
                assert(cgs[g][m] == x);
            }
        }
    }
    groups
}

/// The single successor of `name`: the target of its only transition, when
/// it has exactly one.
pub open spec fn single_succ(idx: Seq<GProcEntry>, name: Seq<char>) -> Option<Seq<char>> {
    match lookup_proc(idx, name) {
        Some(p) => if p.transitions.len() == 1 {
            Some(p.transitions[0].target)
        } else {
            None
        },
        None => None,
    }
}

/// Node `m` of the path is the single successor of some earlier node.
pub open spec fn chain_link(idx: Seq<GProcEntry>, s: Seq<Seq<char>>, m: int) -> bool {
    exists|j: int| 0 <= j < m && single_succ(idx, #[trigger] s[j]) == Some(s[m])
}

/// Every later node of the path is the single successor of an earlier one.
pub open spec fn chain_ok(idx: Seq<GProcEntry>, s: Seq<Seq<char>>) -> bool {
    forall|m: int| 1 <= m < s.len() ==> #[trigger] chain_link(idx, s, m)
}

/// Every element of `s` occurs in `it`.
pub open spec fn all_mentioned(s: Seq<Seq<char>>, it: Seq<Seq<char>>) -> bool {
    forall|c: int| 0 <= c < s.len() ==> it.contains(#[trigger] s[c])
}

proof fn lemma_chain_push(idx: Seq<GProcEntry>, it: Seq<Seq<char>>, target: Seq<char>)
    requires
        chain_ok(idx, it),
        exists|j: int| 0 <= j < it.len() && single_succ(idx, #[trigger] it[j]) == Some(target),
    ensures
        chain_ok(idx, it.push(target)),
{
    let it2 = it.push(target);
    assert forall|m: int| 1 <= m < it2.len() implies #[trigger] chain_link(idx, it2, m) by {
        if m < it.len() {
            assert(chain_link(idx, it, m));
            let j = choose|j: int|
                0 <= j < m && single_succ(idx, #[trigger] it[j]) == Some(it[m]);
            assert(it2[j] == it[j] && it2[m] == it[m]);
            assert(single_succ(idx, it2[j]) == Some(it2[m]));
        } else {
            let j = choose|j: int|
                0 <= j < it.len() && single_succ(idx, #[trigger] it[j]) == Some(target);
            assert(it2[j] == it[j]);
            assert(it2[m] == target);
            assert(single_succ(idx, it2[j]) == Some(it2[m]));
        }
    }
}

/// The group arises from a fan-out edge: its trigger is the edge's source
/// and its path starts at the edge's target.
pub open spec fn group_from_edge(edges: Seq<Edge>, g: crate::model::IterationGroup) -> bool {
    exists|e: int|
        0 <= e < edges.len() && (#[trigger] edges[e]).is_collection && g.trigger_node@ == edges[
            e
        ].from@ && g.iterated_nodes@[0]@ == edges[e].to@
}

/// One pass over the frontier `current` from position `ci`: an unvisited
/// node is marked, and when it has exactly one outgoing transition its
/// target extends both the next frontier and the iterated path.
pub open spec fn ig_pass(
    idx: Seq<GProcEntry>,
    current: Seq<Seq<char>>,
    ci: int,
    visited: Seq<Seq<char>>,
    next: Seq<Seq<char>>,
    iterated: Seq<Seq<char>>,
) -> (Seq<Seq<char>>, Seq<Seq<char>>, Seq<Seq<char>>)
    decreases current.len() - ci,
{
    if !(0 <= ci < current.len()) {
        (visited, next, iterated)
    } else if visited.contains(current[ci]) {
        ig_pass(idx, current, ci + 1, visited, next, iterated)
    } else {
        let v2 = visited.push(current[ci]);
        match single_succ(idx, current[ci]) {
            Some(t) => ig_pass(idx, current, ci + 1, v2, next.push(t), iterated.push(t)),
            None => ig_pass(idx, current, ci + 1, v2, next, iterated),
        }
    }
}

/// The chain walk: passes repeat while the frontier is nonempty, and stop
/// once more than twenty nodes have been marked.
pub open spec fn ig_walk(
    idx: Seq<GProcEntry>,
    current: Seq<Seq<char>>,
    visited: Seq<Seq<char>>,
    iterated: Seq<Seq<char>>,
    fuel: nat,
) -> Seq<Seq<char>>
    decreases fuel,
{
    if current.len() == 0 || fuel == 0 {
        iterated
    } else {
        let st = ig_pass(idx, current, 0, visited, Seq::empty(), iterated);
        if st.0.len() > 20 {
            st.2
        } else {
            ig_walk(idx, st.1, st.0, st.2, (fuel - 1) as nat)
        }
    }
}

/// The iterated path gathered from fan-out edge `e`: the chain walk
/// started at the edge's target.  Twenty-two passes always suffice: each
/// continuing pass marks a node or empties the frontier, and the walk
/// stops beyond twenty marked nodes.
pub open spec fn ig_path(idx: Seq<GProcEntry>, e: GEdge) -> Seq<Seq<char>> {
    ig_walk(idx, seq![e.to], Seq::empty(), seq![e.to], 22)
}

/// One group per fan-out edge whose gathered path has more than one node,
/// in edge order.
pub open spec fn ig_groups_spec(
    idx: Seq<GProcEntry>,
    ev: Seq<GEdge>,
    ei: int,
) -> Seq<crate::model::GIterationGroup>
    decreases ev.len() - ei,
{
    if !(0 <= ei < ev.len()) {
        Seq::empty()
    } else {
        let here: Seq<crate::model::GIterationGroup> = if ev[ei].is_collection && ig_path(
            idx,
            ev[ei],
        ).len() > 1 {
            seq![
                crate::model::GIterationGroup {
                    trigger_node: ev[ei].from,
                    iterated_nodes: ig_path(idx, ev[ei]),
                },
            ]
        } else {
            Seq::empty()
        };
        here + ig_groups_spec(idx, ev, ei + 1)
    }
}

/// Detect iteration regions: from each fan-out edge, follow
/// single-successor chains (capped at twenty visited nodes) to gather the
/// implicitly iterated path.  The result is exactly one group per fan-out
/// edge whose path has more than one node, in edge order, each group
/// carrying the edge's source as trigger and the gathered path; every
/// later path node is the single successor of an earlier one.
pub fn detect_iteration_groups(
    processor_index: &ProcessorIndex,
    edges: &Vec<Edge>,
) -> (r: Vec<crate::model::IterationGroup>)
    ensures
        r@.map_values(|g: crate::model::IterationGroup| g@) == ig_groups_spec(
            processor_index@,
            edge_views(edges@),
            0,
        ),
        forall|g: int| 0 <= g < r@.len() ==> (#[trigger] r@[g]).iterated_nodes@.len() > 1,
        forall|g: int| 0 <= g < r@.len() ==> group_from_edge(edges@, #[trigger] r@[g]),
        forall|g: int|
            0 <= g < r@.len() ==> chain_ok(
                processor_index@,
                str_views((#[trigger] r@[g]).iterated_nodes@),
            ),
{
    let ghost idx = processor_index@;
    let ghost ev = edge_views(edges@);
    let mut groups: Vec<crate::model::IterationGroup> = Vec::new();
    proof {
        assert(groups@.map_values(|g: crate::model::IterationGroup| g@) =~= Seq::<
            crate::model::GIterationGroup,
        >::empty());
    }
    let mut ei: usize = 0;
    while ei < edges.len()
        invariant
            idx == processor_index@,
            ev == edge_views(edges@),
            0 <= ei <= edges@.len(),
            ig_groups_spec(idx, ev, 0) == groups@.map_values(
                |g: crate::model::IterationGroup| g@,
            ) + ig_groups_spec(idx, ev, ei as int),
            forall|g: int|
                0 <= g < groups@.len() ==> (#[trigger] groups@[g]).iterated_nodes@.len() > 1,
            forall|g: int|
                0 <= g < groups@.len() ==> group_from_edge(edges@, #[trigger] groups@[g]),
            forall|g: int|
                0 <= g < groups@.len() ==> chain_ok(
                    idx,
                    str_views((#[trigger] groups@[g]).iterated_nodes@),
                ),
        decreases edges@.len() - ei,
    {
        let ghost gviews_pre = groups@.map_values(|g: crate::model::IterationGroup| g@);
        if edges[ei].is_collection {
            let trigger = edges[ei].from.clone();
            let first = edges[ei].to.clone();
            let mut iterated: Vec<String> = Vec::new();
            iterated.push(first.clone());
            let mut current: Vec<String> = Vec::new();
            current.push(first);
            let mut visited: Vec<String> = Vec::new();
            let ghost mut fuel: nat = 22;
            proof {
                assert(str_views(current@) =~= seq![ev[ei as int].to]);
                assert(str_views(iterated@) =~= seq![ev[ei as int].to]);
                assert(str_views(visited@) =~= Seq::<Seq<char>>::empty());
            }
            while current.len() > 0
                invariant_except_break
                    ig_path(idx, ev[ei as int]) == ig_walk(
                        idx,
                        str_views(current@),
                        str_views(visited@),
                        str_views(iterated@),
                        fuel,
                    ),
                    current@.len() == 0 || (visited@.len() <= 20 && fuel >= 22 - visited@.len()),
                invariant
                    idx == processor_index@,
                    ev == edge_views(edges@),
                    iterated@.len() >= 1,
                    iterated@[0]@ == edges@[ei as int].to@,
                    0 <= ei < edges@.len(),
                    chain_ok(idx, str_views(iterated@)),
                    all_mentioned(str_views(current@), str_views(iterated@)),
                ensures
                    ig_path(idx, ev[ei as int]) == str_views(iterated@),
                decreases (if visited@.len() > 20 {
                    0int
                } else {
                    21 - visited@.len()
                }), current@.len(),
            {
                let ghost curv = str_views(current@);
                let ghost vstart = visited@;
                let ghost vstartv = str_views(visited@);
                let ghost iterstartv = str_views(iterated@);
                let mut next: Vec<String> = Vec::new();
                proof {
                    assert(str_views(next@) =~= Seq::<Seq<char>>::empty());
                }
                let mut ci: usize = 0;
                while ci < current.len()
                    invariant
                        idx == processor_index@,
                        curv == str_views(current@),
                        iterated@.len() >= 1,
                        iterated@[0]@ == edges@[ei as int].to@,
                        0 <= ei < edges@.len(),
                        ev == edge_views(edges@),
                        0 <= ci <= current@.len(),
                        visited@.len() >= vstart.len(),
                        visited@.len() == vstart.len() ==> next@.len() == 0,
                        chain_ok(idx, str_views(iterated@)),
                        all_mentioned(str_views(current@), str_views(iterated@)),
                        all_mentioned(str_views(next@), str_views(iterated@)),
                        ig_pass(idx, curv, 0, vstartv, Seq::empty(), iterstartv) == ig_pass(
                            idx,
                            curv,
                            ci as int,
                            str_views(visited@),
                            str_views(next@),
                            str_views(iterated@),
                        ),
                    decreases current@.len() - ci,
                {
                    let ghost visv0 = str_views(visited@);
                    let ghost nextv0 = str_views(next@);
                    let ghost iterv0 = str_views(iterated@);
                    let seen_here = vec_contains_str(&visited, current[ci].as_str());
                    proof {
                        assert(crate::strutil::seq_contains_str(visited@, current@[ci as int]@)
                            == visv0.contains(curv[ci as int])) by {
                            assert(curv[ci as int] == current@[ci as int]@);
                            if crate::strutil::seq_contains_str(visited@, current@[ci as int]@) {
                                let k = choose|k: int|
                                    0 <= k < visited@.len() && visited@[k]@ == current@[
                                        ci as int
                                    ]@;
                                assert(visv0[k] == current@[ci as int]@);
                            }
                            if visv0.contains(curv[ci as int]) {
                                let k = choose|k: int|
                                    0 <= k < visv0.len() && visv0[k] == curv[ci as int];
                                assert(visited@[k]@ == current@[ci as int]@);
                            }
                        }
                    }
                    if !seen_here {
                        visited.push(current[ci].clone());
                        proof {
                            assert(str_views(visited@) =~= visv0.push(curv[ci as int]));
                        }
                        match processor_index.get(current[ci].as_str()) {
                            Some(p) => {
                                if p.next_aktiviteter.len() == 1 {
                                    let target = p.next_aktiviteter[0].aktivitet_name.clone();
                                    let ghost itv = str_views(iterated@);
                                    let ghost nextv = str_views(next@);
                                    proof {
                                        assert(single_succ(idx, current@[ci as int]@) == Some(
                                            target@,
                                        )) by {
                                            assert(trans_views(p.next_aktiviteter@)[0].target
                                                == target@);
                                        }
                                        assert(str_views(current@)[ci as int] == current@[
                                            ci as int
                                        ]@);
                                        assert(itv.contains(current@[ci as int]@));
                                        let j = choose|j: int|
                                            0 <= j < itv.len() && itv[j] == current@[ci as int]@;
                                        assert(single_succ(idx, itv[j]) == Some(target@));
                                        lemma_chain_push(idx, itv, target@);
                                    }
                                    next.push(target.clone());
                                    iterated.push(target);
                                    proof {
                                        assert(str_views(iterated@) =~= itv.push(
                                            str_views(next@).last(),
                                        ));
                                        assert(str_views(next@) =~= nextv.push(
                                            str_views(iterated@).last(),
                                        ));
                                        assert forall|c: int|
                                            0 <= c < str_views(next@).len() implies str_views(
                                            iterated@,
                                        ).contains(#[trigger] str_views(next@)[c]) by {
                                            if c < nextv.len() {
                                                assert(str_views(next@)[c] == nextv[c]);
                                                let j = choose|j: int|
                                                    0 <= j < itv.len() && itv[j] == nextv[c];
                                                assert(str_views(iterated@)[j] == nextv[c]);
                                            } else {
                                                assert(str_views(iterated@).last() == str_views(
                                                    next@,
                                                )[c]);
                                            }
                                        }
                                        assert forall|c: int|
                                            0 <= c < str_views(current@).len() implies str_views(
                                            iterated@,
                                        ).contains(#[trigger] str_views(current@)[c]) by {
                                            let j = choose|j: int|
                                                0 <= j < itv.len() && itv[j] == str_views(
                                                    current@,
                                                )[c];
                                            assert(str_views(iterated@)[j] == str_views(
                                                current@,
                                            )[c]);
                                        }
                                    }
                                } else {
                                    proof {
                                        assert(single_succ(idx, curv[ci as int]) is None) by {
                                            assert(trans_views(p.next_aktiviteter@).len()
                                                == p.next_aktiviteter@.len());
                                        }
                                    }
                                }
                            },
                            None => {
                                proof {
                                    assert(single_succ(idx, curv[ci as int]) is None);
                                }
                            },
                        }
                    }
                    proof {
                        assert(ig_pass(idx, curv, ci as int, visv0, nextv0, iterv0) == ig_pass(
                            idx,
                            curv,
                            ci + 1,
                            str_views(visited@),
                            str_views(next@),
                            str_views(iterated@),
                        ));
                    }
                    ci += 1;
                }
                proof {
                    assert(ig_pass(
                        idx,
                        curv,
                        current@.len() as int,
                        str_views(visited@),
                        str_views(next@),
                        str_views(iterated@),
                    ) == (str_views(visited@), str_views(next@), str_views(iterated@)));
                }
                let ghost stv = str_views(visited@);
                let ghost stn = str_views(next@);
                let ghost sti = str_views(iterated@);
                current = next;
                proof {
                    assert(fuel > 0);
                    assert(ig_walk(idx, curv, vstartv, iterstartv, fuel) == (if stv.len() > 20 {
                        sti
                    } else {
                        ig_walk(idx, stn, stv, sti, (fuel - 1) as nat)
                    }));
                    fuel = (fuel - 1) as nat;
                }
                if visited.len() > 20 {
                    proof {
                        assert(ig_path(idx, ev[ei as int]) == str_views(iterated@));
                    }
                    break ;
                }
                proof {
                    assert(vstart.len() == vstartv.len());
                    if str_views(visited@).len() == vstartv.len() {
                        assert(current@.len() == 0);
                    }
                }
            }
            proof {
                assert(ig_path(idx, ev[ei as int]) == str_views(iterated@));
            }
            if iterated.len() > 1 {
                let ghost gpre = groups@;
                let ghost pathv = str_views(iterated@);
                groups.push(
                    crate::model::IterationGroup { trigger_node: trigger, iterated_nodes: iterated },
                );
                proof {
                    assert(groups@.map_values(|g: crate::model::IterationGroup| g@)
                        =~= gviews_pre.push(
                        crate::model::GIterationGroup {
                            trigger_node: ev[ei as int].from,
                            iterated_nodes: pathv,
                        },
                    ));
                    assert forall|g: int|
                        0 <= g < groups@.len() implies group_from_edge(
                        edges@,
                        #[trigger] groups@[g],
                    ) && chain_ok(idx, str_views(groups@[g].iterated_nodes@)) by {
                        if g == groups@.len() - 1 {
                            assert(edges@[ei as int].is_collection && groups@[g].trigger_node@
                                == edges@[ei as int].from@ && groups@[g].iterated_nodes@[0]@
                                == edges@[ei as int].to@);
                        } else {
                            assert(groups@[g] == gpre[g]);
                        }
                    }
                    assert(ig_groups_spec(idx, ev, ei as int) =~= seq![
                        crate::model::GIterationGroup {
                            trigger_node: ev[ei as int].from,
                            iterated_nodes: ig_path(idx, ev[ei as int]),
                        },
                    ] + ig_groups_spec(idx, ev, ei + 1));
                    assert(groups@.map_values(|g: crate::model::IterationGroup| g@)
                        + ig_groups_spec(idx, ev, ei + 1) =~= gviews_pre + ig_groups_spec(
                        idx,
                        ev,
                        ei as int,
                    ));
                }
            } else {
                proof {
                    assert(ig_groups_spec(idx, ev, ei as int) =~= ig_groups_spec(idx, ev, ei + 1));
                }
            }
        } else {
            proof {
                assert(!ev[ei as int].is_collection);
                assert(ig_groups_spec(idx, ev, ei as int) =~= ig_groups_spec(idx, ev, ei + 1));
            }
        }
        ei += 1;
    }
    proof {
        assert(ig_groups_spec(idx, ev, edges@.len() as int) =~= Seq::<
            crate::model::GIterationGroup,
        >::empty());
        assert(groups@.map_values(|g: crate::model::IterationGroup| g@) =~= ig_groups_spec(
            idx,
            ev,
            0,
        ));
    }
    groups
}

} // verus!
