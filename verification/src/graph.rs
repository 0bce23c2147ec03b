use vstd::prelude::*;

verus! {

/// Every edge of `es` whose endpoints both occur in `ord` runs forward: the
/// source appears strictly before the target.
pub open spec fn edge_respects(ord: Seq<usize>, es: Seq<(usize, usize)>) -> bool {
    forall|k: int, i: int, j: int|
        0 <= k < es.len() && 0 <= i < ord.len() && 0 <= j < ord.len() && ord[i] == es[k].0
            && ord[j] == es[k].1 ==> i < j
}

/// `ord` is a topological order of the nodes `0 .. n` under the edges `es`:
/// it lists every node exactly once, and every edge runs forward in it.
pub open spec fn valid_order(ord: Seq<usize>, n: nat, es: Seq<(usize, usize)>) -> bool {
    &&& ord.len() == n
    &&& (forall|i: int| 0 <= i < ord.len() ==> (#[trigger] ord[i] as nat) < n)
    &&& ord.no_duplicates()
    &&& (forall|x: usize| (x as nat) < n ==> ord.contains(x))
    &&& edge_respects(ord, es)
}

/// The nodes `0 .. n` admit some topological order under the edges `es`; this
/// is exactly acyclicity of the edge set.
pub open spec fn schedulable(n: nat, es: Seq<(usize, usize)>) -> bool {
    exists|ord: Seq<usize>| valid_order(ord, n, es)
}

/// How many entries of `s` are true.
pub open spec fn count_true(s: Seq<bool>) -> nat
    decreases s.len(),
{
    if s.len() == 0 {
        0
    } else {
        count_true(s.drop_last()) + if s.last() {
            1nat
        } else {
            0nat
        }
    }
}

proof fn lemma_count_true_update(s: Seq<bool>, i: int)
    requires
        0 <= i < s.len(),
        !s[i],
    ensures
        count_true(s.update(i, true)) == count_true(s) + 1,
    decreases s.len(),
{
    let t = s.update(i, true);
    if i == s.len() - 1 {
        assert(t.drop_last() =~= s.drop_last());
    } else {
        assert(t.drop_last() =~= s.drop_last().update(i, true));
        lemma_count_true_update(s.drop_last(), i);
    }
}

proof fn lemma_count_true_full(s: Seq<bool>)
    requires
        count_true(s) == s.len(),
    ensures
        forall|i: int| 0 <= i < s.len() ==> s[i],
    decreases s.len(),
{
    if s.len() > 0 {
        lemma_count_true_bound(s.drop_last());
        lemma_count_true_full(s.drop_last());
        assert(forall|i: int| 0 <= i < s.len() - 1 ==> s[i] == s.drop_last()[i]);
    }
}

proof fn lemma_count_true_bound(s: Seq<bool>)
    ensures
        count_true(s) <= s.len(),
    decreases s.len(),
{
    if s.len() > 0 {
        lemma_count_true_bound(s.drop_last());
    }
}

/// The position of the first entry of `ord`, at or after `i`, that is not yet
/// placed; `ord.len()` if every entry from `i` on is placed.
spec fn first_unplaced(ord: Seq<usize>, placed: Seq<bool>, i: int) -> int
    decreases ord.len() - i when 0 <= i <= ord.len()
{
    if i >= ord.len() {
        ord.len() as int
    } else if (ord[i] as int) < placed.len() && !placed[ord[i] as int] {
        i
    } else {
        first_unplaced(ord, placed, i + 1)
    }
}

proof fn lemma_first_unplaced(ord: Seq<usize>, placed: Seq<bool>, i: int)
    requires
        0 <= i <= ord.len(),
    ensures
        i <= first_unplaced(ord, placed, i) <= ord.len(),
        first_unplaced(ord, placed, i) < ord.len() ==> {
            let r = first_unplaced(ord, placed, i);
            (ord[r] as int) < placed.len() && !placed[ord[r] as int]
        },
        forall|j: int|
            i <= j < first_unplaced(ord, placed, i) && (ord[j] as int) < placed.len()
                ==> placed[ord[j] as int],
    decreases ord.len() - i,
{
    if i < ord.len() {
        if (ord[i] as int) < placed.len() && !placed[ord[i] as int] {
        } else {
            lemma_first_unplaced(ord, placed, i + 1);
        }
    }
}

/// When every unplaced node still has an unplaced predecessor, no topological
/// order of all the nodes can exist: the first unplaced node of such an order
/// would have an unplaced predecessor even earlier in it.
proof fn lemma_stall_unschedulable(n: nat, es: Seq<(usize, usize)>, placed: Seq<bool>)
    requires
        placed.len() == n,
        exists|x: int| 0 <= x < n && !placed[x],
        forall|x: int|
            0 <= x < n && !placed[x] ==> exists|k: int|
                0 <= k < es.len() && (#[trigger] es[k].1 as int) == x && (es[k].0 as nat) < n
                    && !placed[es[k].0 as int],
    ensures
        !schedulable(n, es),
{
    assert forall|ord: Seq<usize>| !valid_order(ord, n, es) by {
        if valid_order(ord, n, es) {
            let x0 = choose|x: int| 0 <= x < n && !placed[x];
            assert(ord.contains(x0 as usize));
            let p0 = choose|p: int| 0 <= p < ord.len() && ord[p] == x0 as usize;
            lemma_first_unplaced(ord, placed, 0);
            let i0 = first_unplaced(ord, placed, 0);
            assert(i0 < ord.len()) by {
                assert((ord[p0] as int) < placed.len() && !placed[ord[p0] as int]);
            }
            let x = ord[i0];
            let k = choose|k: int|
                0 <= k < es.len() && (#[trigger] es[k].1 as int) == x as int && (es[k].0 as nat) < n
                    && !placed[es[k].0 as int];
            let y = es[k].0;
            assert(ord.contains(y));
            let q = choose|q: int| 0 <= q < ord.len() && ord[q] == y;
            assert(q < i0);
            assert(placed[ord[q] as int]);
            assert(false);
        }
    }
}

/// A topological order of `n` nodes is still one after a fresh node `n`, with
/// no edges, is appended to it.
pub proof fn lemma_order_extend(ord: Seq<usize>, n: nat, es: Seq<(usize, usize)>)
    requires
        valid_order(ord, n, es),
        n < usize::MAX,
        forall|k: int|
            0 <= k < es.len() ==> (#[trigger] es[k].0 as nat) < n && (es[k].1 as nat) < n,
    ensures
        valid_order(ord.push(n as usize), n + 1, es),
{
    let ord2 = ord.push(n as usize);
    assert(forall|i: int| 0 <= i < ord.len() ==> ord2[i] == ord[i]);
    assert(ord2.no_duplicates()) by {
        assert(forall|i: int| 0 <= i < ord.len() ==> (#[trigger] ord[i] as nat) < n);
    }
    assert forall|x: usize| (x as nat) < n + 1 implies ord2.contains(x) by {
        if (x as nat) < n {
            assert(ord.contains(x));
            let p = choose|p: int| 0 <= p < ord.len() && ord[p] == x;
            assert(ord2[p] == x);
        } else {
            assert(x == n as usize);
            assert(ord2[ord.len() as int] == x);
        }
    }
    assert forall|k: int, i: int, j: int|
        0 <= k < es.len() && 0 <= i < ord2.len() && 0 <= j < ord2.len() && ord2[i] == es[k].0
            && ord2[j] == es[k].1 implies i < j by {
        assert(i < ord.len());
        assert(j < ord.len());
    }
}

/// Look for a node that is not yet placed and whose every incoming edge comes
/// from a placed node.
fn find_source(n: usize, edges: &Vec<(usize, usize)>, placed: &Vec<bool>) -> (r: Option<usize>)
    requires
        placed@.len() == n,
        forall|k: int|
            0 <= k < edges@.len() ==> (#[trigger] edges@[k].0) < n && edges@[k].1 < n,
    ensures
        match r {
            Some(x) => (x as nat) < n && !placed@[x as int] && forall|k: int|
                0 <= k < edges@.len() && (#[trigger] edges@[k].1) == x
                    ==> placed@[edges@[k].0 as int],
            None => forall|x: int|
                0 <= x < n && !placed@[x] ==> exists|k: int|
                    0 <= k < edges@.len() && (#[trigger] edges@[k].1 as int) == x
                        && (edges@[k].0 as nat) < n && !placed@[edges@[k].0 as int],
        },
{
    let mut x: usize = 0;
    while x < n
        invariant
            x <= n,
            placed@.len() == n,
            forall|k: int|
                0 <= k < edges@.len() ==> (#[trigger] edges@[k].0) < n && edges@[k].1 < n,
            forall|y: int|
                0 <= y < x && !placed@[y] ==> exists|k: int|
                    0 <= k < edges@.len() && (#[trigger] edges@[k].1 as int) == y
                        && (edges@[k].0 as nat) < n && !placed@[edges@[k].0 as int],
        decreases n - x,
    {
        if !placed[x] {
            let mut blocked = false;
            let mut k: usize = 0;
            while k < edges.len()
                invariant
                    k <= edges@.len(),
                    placed@.len() == n,
                    forall|kk: int|
                        0 <= kk < edges@.len()
                            ==> (#[trigger] edges@[kk].0) < n && edges@[kk].1 < n,
                    blocked ==> exists|kk: int|
                        0 <= kk < edges@.len() && (#[trigger] edges@[kk].1) == x
                            && !placed@[edges@[kk].0 as int],
                    !blocked ==> forall|kk: int|
                        0 <= kk < k && (#[trigger] edges@[kk].1) == x
                            ==> placed@[edges@[kk].0 as int],
                decreases edges@.len() - k,
            {
                if !blocked {
                    let (src, dst) = edges[k];
                    if dst == x && !placed[src] {
                        blocked = true;
                    }
                }
                k = k + 1;
            }
            if !blocked {
                return Some(x);
            }
        }
        x = x + 1;
    }
    None
}

/// Compute a topological order of the nodes `0 .. n` under `edges`, or report
/// that none exists because the edges close a cycle.
pub fn compute_order(n: usize, edges: &Vec<(usize, usize)>) -> (r: Option<Vec<usize>>)
    requires
        forall|k: int|
            0 <= k < edges@.len() ==> (#[trigger] edges@[k].0) < n && edges@[k].1 < n,
    ensures
        match r {
            Some(ord) => valid_order(ord@, n as nat, edges@),
            None => !schedulable(n as nat, edges@),
        },
{
    let mut placed: Vec<bool> = Vec::new();
    let mut i: usize = 0;
    while i < n
        invariant
            i <= n,
            placed@.len() == i,
            forall|j: int| 0 <= j < i ==> !placed@[j],
        decreases n - i,
    {
        placed.push(false);
        i = i + 1;
    }
    let mut emitted: Vec<usize> = Vec::new();
    proof {
        assert(count_true(placed@) == 0) by {
            lemma_count_true_all_false(placed@);
        }
    }
    while emitted.len() < n
        invariant
            placed@.len() == n,
            emitted@.len() <= n,
            forall|k: int|
                0 <= k < edges@.len() ==> (#[trigger] edges@[k].0) < n && edges@[k].1 < n,
            forall|i: int| 0 <= i < emitted@.len() ==> (#[trigger] emitted@[i] as nat) < n as nat,
            emitted@.no_duplicates(),
            forall|x: int| 0 <= x < n ==> (placed@[x] <==> emitted@.contains(x as usize)),
            count_true(placed@) == emitted@.len(),
            edge_respects(emitted@, edges@),
            forall|k: int|
                0 <= k < edges@.len() && emitted@.contains(#[trigger] edges@[k].1)
                    ==> emitted@.contains(edges@[k].0),
        decreases n - emitted.len(),
    {
        match find_source(n, edges, &placed) {
            Some(x) => {
                let ghost old_emitted = emitted@;
                let ghost old_placed = placed@;
                emitted.push(x);
                let slot = &mut placed[x];
                *slot = true;
                proof {
                    lemma_count_true_update(old_placed, x as int);
                    assert(placed@ =~= old_placed.update(x as int, true));
                    // the new entry is fresh, so the order stays duplicate free
                    assert(!old_emitted.contains(x));
                    assert(emitted@ =~= old_emitted.push(x));
                    assert forall|y: int|
                        0 <= y < n implies (placed@[y] <==> emitted@.contains(y as usize)) by {
                        if y == x as int {
                            assert(emitted@[old_emitted.len() as int] == x);
                        } else {
                            assert(placed@[y] == old_placed[y]);
                            assert(emitted@.contains(y as usize) == old_emitted.contains(
                                y as usize,
                            )) by {
                                if old_emitted.contains(y as usize) {
                                    let p = choose|p: int|
                                        0 <= p < old_emitted.len() && old_emitted[p]
                                            == y as usize;
                                    assert(emitted@[p] == y as usize);
                                } else if emitted@.contains(y as usize) {
                                    let p = choose|p: int|
                                        0 <= p < emitted@.len() && emitted@[p] == y as usize;
                                    assert(p < old_emitted.len());
                                }
                            }
                        }
                    }
                    assert forall|k: int, i: int, j: int|
                        0 <= k < edges@.len() && 0 <= i < emitted@.len() && 0 <= j
                            < emitted@.len() && emitted@[i] == edges@[k].0 && emitted@[j]
                            == edges@[k].1 implies i < j by {
                        if j < old_emitted.len() && i == old_emitted.len() {
                            // the new node cannot feed an already emitted node: its
                            // target would have pulled it in through edge closure
                            assert(old_emitted.contains(edges@[k].1));
                            assert(old_emitted.contains(edges@[k].0));
                            assert(old_placed[x as int]);
                            assert(false);
                        } else if j == old_emitted.len() && i == old_emitted.len() {
                            // a self edge: its source x would have to be placed already
                            assert(old_placed[edges@[k].0 as int]);
                            assert(false);
                        }
                    }
                    assert forall|k: int|
                        0 <= k < edges@.len() && emitted@.contains(#[trigger] edges@[k].1)
                            implies emitted@.contains(edges@[k].0) by {
                        let p = choose|p: int|
                            0 <= p < emitted@.len() && emitted@[p] == edges@[k].1;
                        if p < old_emitted.len() {
                            assert(old_emitted.contains(edges@[k].1));
                            let q = choose|q: int|
                                0 <= q < old_emitted.len() && old_emitted[q] == edges@[k].0;
                            assert(emitted@[q] == edges@[k].0);
                        } else {
                            // the new node's predecessors were all placed before it
                            assert(old_placed[edges@[k].0 as int]);
                            assert(old_emitted.contains(edges@[k].0));
                            let q = choose|q: int|
                                0 <= q < old_emitted.len() && old_emitted[q] == edges@[k].0;
                            assert(emitted@[q] == edges@[k].0);
                        }
                    }
                }
            },
            None => {
                proof {
                    assert(exists|x: int| 0 <= x < n && !placed@[x]) by {
                        lemma_count_true_bound(placed@);
                        if forall|x: int| 0 <= x < n ==> placed@[x] {
                            lemma_count_true_all_true(placed@);
                            assert(count_true(placed@) == n as nat);
                        }
                    }
                    lemma_stall_unschedulable(n as nat, edges@, placed@);
                }
                return None;
            },
        }
    }
    proof {
        lemma_count_true_full(placed@);
        assert forall|x: usize| (x as nat) < n as nat implies emitted@.contains(x) by {
            assert(placed@[x as int]);
        }
    }
    Some(emitted)
}

proof fn lemma_count_true_all_false(s: Seq<bool>)
    requires
        forall|i: int| 0 <= i < s.len() ==> !s[i],
    ensures
        count_true(s) == 0,
    decreases s.len(),
{
    if s.len() > 0 {
        lemma_count_true_all_false(s.drop_last());
    }
}

proof fn lemma_count_true_all_true(s: Seq<bool>)
    requires
        forall|i: int| 0 <= i < s.len() ==> s[i],
    ensures
        count_true(s) == s.len(),
    decreases s.len(),
{
    if s.len() > 0 {
        lemma_count_true_all_true(s.drop_last());
    }
}

} // verus!
