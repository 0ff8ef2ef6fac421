//! Graph traversal over a body's CFG: depth-first postorder, which visits a
//! block only after the search has finished with all of its successors, so a
//! single pass over it suffices for the backward-propagation passes.

use vstd::prelude::*;

use crate::ir::{body_wf, term_ok, Body};
use crate::simplify::{count_false, lemma_count_false_update, term_succs_vec};

verus! {

/// Work left in one depth-first stack entry: the successor edges of its block
/// not yet explored.
pub open spec fn entry_work(e: (usize, usize), blocks: Seq<crate::ir::BasicBlockV>) -> nat {
    if e.0 < blocks.len() && e.1 <= blocks[e.0 as int].terminator.succs().len() {
        (blocks[e.0 as int].terminator.succs().len() - e.1) as nat
    } else {
        0
    }
}

/// Work left in the whole depth-first stack.
pub open spec fn stack_work(st: Seq<(usize, usize)>, blocks: Seq<crate::ir::BasicBlockV>) -> nat
    decreases st.len(),
{
    if st.len() == 0 {
        0
    } else {
        stack_work(st.drop_last(), blocks) + entry_work(st.last(), blocks)
    }
}

/// The block ids a depth-first stack holds, in order.
pub open spec fn stack_blocks(st: Seq<(usize, usize)>) -> Seq<usize> {
    st.map_values(|e: (usize, usize)| e.0)
}

/// A valid postorder listing: exactly the blocks reachable from the entry,
/// each exactly once.
pub open spec fn postorder_valid(blocks: Seq<crate::ir::BasicBlockV>, order: Seq<usize>) -> bool {
    &&& forall|e: int| 0 <= e < order.len() ==> #[trigger] order[e] < blocks.len()
    &&& order.no_duplicates()
    &&& forall|b: usize| #[trigger] order.contains(b) <==> crate::simplify::reachable(blocks, b)
}

/// The postorder discipline: every successor of a listed block is listed
/// before it, except along a cycle — a successor listed later reaches the
/// block back.
pub open spec fn postorder_ordered(blocks: Seq<crate::ir::BasicBlockV>, order: Seq<usize>) -> bool {
    forall|e: int, x: int|
        0 <= e < order.len() && 0 <= x < blocks[order[e] as int].terminator.succs().len()
            ==> exists|e2: int|
            0 <= e2 < order.len() && order[e2] == #[trigger] blocks[order[e] as int].terminator.succs()[x]
                && (e2 < e || crate::simplify::reaches(
                blocks,
                blocks[order[e] as int].terminator.succs()[x],
                order[e],
            ))
}

/// The blocks of the body in depth-first postorder from the entry block:
/// exactly the blocks reachable from the entry, each exactly once, every
/// successor listed before its predecessor unless it closes a cycle.
pub fn postorder(body: &Body) -> (r: Vec<usize>)
    requires
        body_wf(body@),
    ensures
        postorder_valid(body@.blocks, r@),
        postorder_ordered(body@.blocks, r@),
        forall|e: int| 0 <= e < r@.len() ==> #[trigger] r@[e] < body@.blocks.len(),
        r@.no_duplicates(),
        forall|b: usize| #[trigger] r@.contains(b) <==> crate::simplify::reachable(
            body@.blocks,
            b,
        ),
{
    let ghost blocks = body@.blocks;
    let n = body.basic_blocks.len();
    let mut visited: Vec<bool> = Vec::new();
    let mut i: usize = 0;
    while i < n
        invariant
            i <= n,
            visited@.len() == i,
            forall|m: int| 0 <= m < i ==> !visited@[m],
        decreases n - i,
    {
        visited.push(false);
        i = i + 1;
    }
    let mut order: Vec<usize> = Vec::new();
    let mut stack: Vec<(usize, usize)> = Vec::new();
    visited[0] = true;
    stack.push((0, 0));
    proof {
        crate::simplify::lemma_reachable_entry(blocks);
        assert(stack_blocks(stack@)[0] == 0);
        assert(stack_blocks(stack@).contains(0usize));
        crate::simplify::lemma_reaches_refl(blocks, 0);
    }
    while stack.len() > 0
        invariant
            body_wf(body@),
            blocks == body@.blocks,
            n == blocks.len(),
            visited@.len() == n,
            visited@[0],
            forall|e: int| 0 <= e < stack@.len() ==> #[trigger] stack@[e].0 < n && stack@[e].1
                <= blocks[stack@[e].0 as int].terminator.succs().len(),
            forall|e: int| 0 <= e < order@.len() ==> #[trigger] order@[e] < n,
            // Each block sits at most once in the stack and the output, and
            // the visited table lists exactly the blocks placed in either.
            order@.no_duplicates(),
            stack_blocks(stack@).no_duplicates(),
            forall|b: usize|
                #[trigger] order@.contains(b) ==> !stack_blocks(stack@).contains(b),
            forall|b: usize|
                b < n ==> (visited@[b as int] <==> (order@.contains(b) || stack_blocks(
                    stack@,
                ).contains(b))),
            // Soundness, and the successor closure completeness needs.
            forall|m: int| 0 <= m < n ==> (#[trigger] visited@[m] ==> crate::simplify::reachable(
                blocks,
                m as usize,
            )),
            forall|e: int, x: int|
                0 <= e < stack@.len() && 0 <= x < (#[trigger] stack@[e]).1 ==> #[trigger] blocks[stack@[e].0 as int].terminator.succs()[x]
                    < n && visited@[blocks[stack@[e].0 as int].terminator.succs()[x] as int],
            forall|e: int|
                0 <= e < order@.len() ==> (forall|x: int|
                    0 <= x < blocks[(#[trigger] order@[e]) as int].terminator.succs().len()
                        ==> #[trigger] blocks[order@[e] as int].terminator.succs()[x] < n
                        && visited@[blocks[order@[e] as int].terminator.succs()[x] as int]),
            // The stack is a path: every entry reaches the entries above it.
            forall|q1: int, q2: int|
                0 <= q1 <= q2 < stack@.len() ==> crate::simplify::reaches(
                    blocks,
                    (#[trigger] stack@[q1]).0,
                    (#[trigger] stack@[q2]).0,
                ),
            // Each listed block's successors are listed earlier or reach it.
            forall|e: int, x: int|
                0 <= e < order@.len() && 0 <= x < blocks[order@[e] as int].terminator.succs().len()
                    ==> (exists|e2: int|
                    0 <= e2 < e && order@[e2] == #[trigger] blocks[order@[e] as int].terminator.succs()[x])
                    || crate::simplify::reaches(
                    blocks,
                    blocks[order@[e] as int].terminator.succs()[x],
                    order@[e],
                ),
        decreases count_false(visited@), stack_work(stack@, blocks), stack@.len(),
    {
        let ghost stack0 = stack@;
        let (b, idx) = stack[stack.len() - 1];
        let succs = term_succs_vec(&body.basic_blocks[b].terminator);
        proof {
            assert(body@.blocks[b as int] == body.basic_blocks@[b as int]@);
            assert(succs@ == blocks[b as int].terminator.succs());
            assert(stack0[stack0.len() - 1].0 == b);
            assert(stack_blocks(stack0)[stack0.len() - 1] == b);
            assert(stack_blocks(stack0).contains(b));
            assert(visited@[b as int]);
        }
        if idx < succs.len() {
            let last = stack.len() - 1;
            stack[last] = (b, idx + 1);
            proof {
                assert(stack@.drop_last() =~= stack0.drop_last());
                assert(stack@.last() == (b, (idx + 1) as usize));
                assert(stack_work(stack@, blocks) < stack_work(stack0, blocks));
                assert(stack_blocks(stack@) =~= stack_blocks(stack0));
                assert forall|q1: int, q2: int|
                    0 <= q1 <= q2 < stack@.len() implies crate::simplify::reaches(
                    blocks,
                    (#[trigger] stack@[q1]).0,
                    (#[trigger] stack@[q2]).0,
                ) by {
                    assert(stack@[q1].0 == stack0[q1].0);
                    assert(stack@[q2].0 == stack0[q2].0);
                }
            }
            let s = succs[idx];
            proof {
                assert(term_ok(blocks[b as int].terminator, blocks));
                assert(blocks[b as int].terminator.succs()[idx as int] < n);
                assert(blocks[b as int].terminator.succs().contains(s)) by {
                    assert(blocks[b as int].terminator.succs()[idx as int] == s);
                }
                crate::simplify::lemma_reachable_step(blocks, b, s);
            }
            if !visited[s] {
                let ghost stack1 = stack@;
                proof {
                    lemma_count_false_update(visited@, s as int);
                }
                visited[s] = true;
                stack.push((s, 0));
                proof {
                    assert(stack_blocks(stack@) =~= stack_blocks(stack1).push(s));
                    assert forall|y: usize| #[trigger] stack_blocks(stack@).contains(y) implies
                        stack_blocks(stack1).contains(y) || y == s by {
                        crate::simplify::lemma_contains_push(stack_blocks(stack1), s, y);
                    }
                    assert forall|y: usize| stack_blocks(stack1).contains(y) || y == s implies
                        #[trigger] stack_blocks(stack@).contains(y) by {
                        crate::simplify::lemma_contains_push(stack_blocks(stack1), s, y);
                    }
                    assert(stack_blocks(stack@).no_duplicates()) by {
                        assert(!stack_blocks(stack1).contains(s));
                        assert forall|e1: int, e2: int|
                            0 <= e1 < e2 < stack_blocks(stack@).len() implies stack_blocks(
                            stack@,
                        )[e1] != stack_blocks(stack@)[e2] by {
                            if e2 == stack_blocks(stack@).len() - 1 {
                                assert(stack_blocks(stack@)[e1] == stack_blocks(stack1)[e1]);
                                assert(stack_blocks(stack1).contains(stack_blocks(stack1)[e1]));
                            }
                        }
                    }
                    assert forall|q1: int, q2: int|
                        0 <= q1 <= q2 < stack@.len() implies crate::simplify::reaches(
                        blocks,
                        (#[trigger] stack@[q1]).0,
                        (#[trigger] stack@[q2]).0,
                    ) by {
                        if q2 == stack@.len() - 1 {
                            assert(stack@[q2].0 == s);
                            if q1 == q2 {
                                crate::simplify::lemma_reaches_refl(blocks, s);
                            } else {
                                assert(stack@[q1] == stack1[q1]);
                                assert(crate::simplify::reaches(
                                    blocks,
                                    stack1[q1].0,
                                    stack1[stack1.len() - 1].0,
                                ));
                                assert(stack1[stack1.len() - 1].0 == b);
                                assert(crate::simplify::edge(blocks, b, s));
                                crate::simplify::lemma_reaches_extend(
                                    blocks,
                                    stack1[q1].0,
                                    b,
                                    s,
                                );
                            }
                        } else {
                            assert(stack@[q1] == stack1[q1]);
                            assert(stack@[q2] == stack1[q2]);
                            assert(crate::simplify::reaches(blocks, stack1[q1].0, stack1[q2].0));
                        }
                    }
                }
            }
        } else {
            let _ = stack.pop();
            proof {
                assert(stack@ =~= stack0.drop_last());
                assert(entry_work(stack0.last(), blocks) == 0);
                assert(stack_work(stack@, blocks) == stack_work(stack0, blocks));
                assert(stack_blocks(stack@) =~= stack_blocks(stack0).drop_last());
                assert forall|q1: int, q2: int|
                    0 <= q1 <= q2 < stack@.len() implies crate::simplify::reaches(
                    blocks,
                    (#[trigger] stack@[q1]).0,
                    (#[trigger] stack@[q2]).0,
                ) by {
                    assert(stack@[q1] == stack0[q1]);
                    assert(stack@[q2] == stack0[q2]);
                }
                assert forall|y: usize| #[trigger] stack_blocks(stack0).contains(y) implies
                    stack_blocks(stack@).contains(y) || y == b by {
                    crate::simplify::lemma_contains_drop_last(stack_blocks(stack0), y);
                }
                assert forall|y: usize| #[trigger] stack_blocks(stack@).contains(y) implies
                    stack_blocks(stack0).contains(y) by {
                    crate::simplify::lemma_contains_drop_last(stack_blocks(stack0), y);
                }
                // The popped block is on the stack only at the top.
                assert(!stack_blocks(stack@).contains(b)) by {
                    if stack_blocks(stack@).contains(b) {
                        let e = choose|e: int|
                            0 <= e < stack_blocks(stack@).len() && stack_blocks(stack@)[e] == b;
                        assert(stack_blocks(stack0)[e] == b);
                        assert(stack_blocks(stack0)[stack0.len() - 1] == b);
                    }
                }
            }
            let ghost order0 = order@;
            order.push(b);
            proof {
                assert(order@.drop_last() =~= order0);
                assert(order@[order@.len() - 1] == b);
                assert forall|y: usize| #[trigger] order@.contains(y) implies order0.contains(y)
                    || y == b by {
                    crate::simplify::lemma_contains_push(order0, b, y);
                }
                assert forall|y: usize| order0.contains(y) || y == b implies
                    #[trigger] order@.contains(y) by {
                    crate::simplify::lemma_contains_push(order0, b, y);
                }
                assert(order@.no_duplicates()) by {
                    assert(!order0.contains(b));
                    assert forall|e1: int, e2: int| 0 <= e1 < e2 < order@.len() implies order@[e1]
                        != order@[e2] by {
                        if e2 == order@.len() - 1 {
                            assert(order@[e1] == order0[e1]);
                            assert(order0.contains(order0[e1]));
                        }
                    }
                }
            }
        }
    }
    proof {
        assert forall|b: usize| #[trigger] order@.contains(b) implies crate::simplify::reachable(
            blocks,
            b,
        ) by {
            let e = choose|e: int| 0 <= e < order@.len() && order@[e] == b;
            assert(visited@[b as int]);
        }
        assert forall|b: usize| crate::simplify::reachable(blocks, b) implies
            #[trigger] order@.contains(b) by {
            let k = choose|k: nat| #[trigger] crate::simplify::reachable_in(blocks, b, k);
            assert forall|j: usize, s2: usize|
                j < blocks.len() && visited@[j as int] && #[trigger] crate::simplify::edge(
                    blocks,
                    j,
                    s2,
                ) implies s2 < blocks.len() && visited@[s2 as int] by {
                assert(order@.contains(j));
                let e = choose|e: int| 0 <= e < order@.len() && order@[e] == j;
                let x = choose|x: int|
                    0 <= x < blocks[j as int].terminator.succs().len()
                        && blocks[j as int].terminator.succs()[x] == s2;
            }
            crate::simplify::lemma_closed_covers_reachable(blocks, visited@, b, k);
        }
        assert forall|e: int, x: int|
            0 <= e < order@.len() && 0 <= x < blocks[order@[e] as int].terminator.succs().len()
                implies exists|e2: int|
            0 <= e2 < order@.len() && order@[e2]
                == #[trigger] blocks[order@[e] as int].terminator.succs()[x] && (e2 < e
                || crate::simplify::reaches(
                blocks,
                blocks[order@[e] as int].terminator.succs()[x],
                order@[e],
            )) by {
            let s2 = blocks[order@[e] as int].terminator.succs()[x];
            assert(visited@[order@[e] as int]) by {
                assert(order@.contains(order@[e]));
            }
            assert(visited@[s2 as int]);
            assert(order@.contains(s2));
            let eany = choose|e2: int| 0 <= e2 < order@.len() && order@[e2] == s2;
            assert(order@[eany] == s2);
        }
    }
    order
}

} // verus!
