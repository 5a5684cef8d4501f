//! What the two outcomes of ordering a hierarchy mean: a hierarchy that is
//! reported as cyclic has a cycle below a root, and one that can be drawn
//! has none.
use vstd::prelude::*;
use vstd::set_lib::{lemma_int_range, lemma_len_subset, set_int_range};
use crate::error::StructuralError;
use crate::renderable::traversal::{forest, is_child, is_root, subtree, subtrees, DrawStep};

verus! {

/// `path` leads down the hierarchy: every entry names a node, and every
/// entry after the first is a child of the entry before it.
pub open spec fn is_descent(graph: Seq<Seq<u16>>, path: Seq<int>) -> bool {
    &&& path.len() > 0
    &&& forall|i: int| 0 <= i < path.len() ==> 0 <= #[trigger] path[i] < graph.len()
    &&& forall|i: int| 0 < i < path.len() ==> is_child(graph, path[i - 1], #[trigger] path[i])
}

/// Where a list of subtrees fails with `CyclicGraph`, one of its subtrees
/// does.
pub proof fn lemma_cyclic_among(graph: Seq<Seq<u16>>, list: Seq<u16>, count: nat, depth: nat) -> (k:
    int)
    requires
        subtrees(graph, list, count, depth) == Err::<Seq<DrawStep>, StructuralError>(
            StructuralError::CyclicGraph,
        ),
    ensures
        0 <= k < count,
        subtree(graph, list[k] as int, depth) == Err::<Seq<DrawStep>, StructuralError>(
            StructuralError::CyclicGraph,
        ),
    decreases count,
{
    if subtrees(graph, list, (count - 1) as nat, depth) is Err {
        lemma_cyclic_among(graph, list, (count - 1) as nat, depth)
    } else {
        count - 1
    }
}

/// Where the subtree of `node` at `depth` fails with `CyclicGraph`, a
/// descent starts at `node` that is long enough to reach a depth equal to
/// the number of nodes.
pub proof fn lemma_cyclic_descent(graph: Seq<Seq<u16>>, node: int, depth: nat) -> (path: Seq<int>)
    requires
        depth <= graph.len(),
        subtree(graph, node, depth) == Err::<Seq<DrawStep>, StructuralError>(
            StructuralError::CyclicGraph,
        ),
    ensures
        is_descent(graph, path),
        path[0] == node,
        path.len() == graph.len() - depth + 1,
    decreases graph.len() - depth,
{
    if depth >= graph.len() {
        seq![node]
    } else {
        let k = lemma_cyclic_among(graph, graph[node], graph[node].len(), depth + 1);
        let child = graph[node][k] as int;
        let below = lemma_cyclic_descent(graph, child, depth + 1);
        let path = seq![node] + below;
        assert forall|i: int| 0 < i < path.len() implies is_child(
            graph,
            path[i - 1],
            #[trigger] path[i],
        ) by {
            if i == 1 {
                assert(graph[node][k] == path[1]);
            } else {
                assert(path[i] == below[i - 1]);
                assert(path[i - 1] == below[i - 2]);
            }
        }
        path
    }
}

/// Among more than `count` numbers below `count`, two are the same.
pub proof fn lemma_two_alike(count: nat, numbers: Seq<int>) -> (pair: (int, int))
    requires
        numbers.len() > count,
        forall|i: int| 0 <= i < numbers.len() ==> 0 <= #[trigger] numbers[i] < count,
    ensures
        0 <= pair.0 < pair.1 < numbers.len(),
        numbers[pair.0] == numbers[pair.1],
{
    if numbers.no_duplicates() {
        numbers.unique_seq_to_set();
        lemma_int_range(0, count as int);
        assert(numbers.to_set().subset_of(set_int_range(0, count as int))) by {
            assert forall|n: int| numbers.to_set().contains(n) implies set_int_range(
                0,
                count as int,
            ).contains(n) by {
                let i = choose|i: int| 0 <= i < numbers.len() && numbers[i] == n;
                assert(0 <= numbers[i] < count);
            }
        }
        lemma_len_subset(numbers.to_set(), set_int_range(0, count as int));
        (0, 0)
    } else {
        let (i, j) = choose|i: int, j: int|
            0 <= i < numbers.len() && 0 <= j < numbers.len() && i != j && numbers[i] == numbers[j];
        if i < j {
            (i, j)
        } else {
            (j, i)
        }
    }
}

/// `CyclicGraph` is reported only of a hierarchy with a cycle below a root:
/// a descent then starts at a root and comes to some node a second time.
pub proof fn lemma_cyclic_graph_has_cycle(graph: Seq<Seq<u16>>, count: nat) -> (found: (
    Seq<int>,
    int,
    int,
))
    requires
        count <= graph.len(),
        forest(graph, count) == Err::<Seq<DrawStep>, StructuralError>(StructuralError::CyclicGraph),
    ensures
        is_descent(graph, found.0),
        is_root(graph, found.0[0]),
        0 <= found.1 < found.2 < found.0.len(),
        found.0[found.1] == found.0[found.2],
    decreases count,
{
    if forest(graph, (count - 1) as nat) is Err {
        lemma_cyclic_graph_has_cycle(graph, (count - 1) as nat)
    } else {
        let path = lemma_cyclic_descent(graph, count - 1, 0);
        let pair = lemma_two_alike(graph.len(), path);
        (path, pair.0, pair.1)
    }
}

/// Where a list of subtrees can be drawn, each of them can.
pub proof fn lemma_drawn_among(
    graph: Seq<Seq<u16>>,
    list: Seq<u16>,
    count: nat,
    depth: nat,
    k: int,
)
    requires
        subtrees(graph, list, count, depth) is Ok,
        0 <= k < count,
    ensures
        subtree(graph, list[k] as int, depth) is Ok,
    decreases count,
{
    if k < count - 1 {
        lemma_drawn_among(graph, list, (count - 1) as nat, depth, k);
    }
}

/// Where the subtree of a node at `depth` can be drawn, no descent from the
/// node goes deeper than the number of nodes allows.
pub proof fn lemma_drawn_descent_is_short(
    graph: Seq<Seq<u16>>,
    node: int,
    depth: nat,
    path: Seq<int>,
)
    requires
        subtree(graph, node, depth) is Ok,
        is_descent(graph, path),
        path[0] == node,
    ensures
        path.len() + depth <= graph.len(),
    decreases path.len(),
{
    if path.len() > 1 {
        let child = path[1];
        assert(is_child(graph, path[0], path[1]));
        let k = choose|k: int| 0 <= k < graph[node].len() && #[trigger] graph[node][k] == child;
        lemma_drawn_among(graph, graph[node], graph[node].len(), depth + 1, k);
        let rest = path.subrange(1, path.len() as int);
        assert forall|i: int| 0 < i < rest.len() implies is_child(
            graph,
            rest[i - 1],
            #[trigger] rest[i],
        ) by {
            assert(rest[i] == path[i + 1]);
            assert(rest[i - 1] == path[i]);
            assert(is_child(graph, path[i + 1 - 1], path[i + 1]));
        }
        assert forall|i: int| 0 <= i < rest.len() implies 0 <= #[trigger] rest[i] < graph.len() by {
            assert(rest[i] == path[i + 1]);
        }
        lemma_drawn_descent_is_short(graph, child, depth + 1, rest);
    }
}

/// A descent that comes to some node a second time can be made longer by
/// going round once more: the way up to the second visit, and from there
/// the way that followed the first.
pub proof fn lemma_cycle_once_more(
    graph: Seq<Seq<u16>>,
    path: Seq<int>,
    first: int,
    second: int,
) -> (longer: Seq<int>)
    requires
        is_descent(graph, path),
        0 <= first < second < path.len(),
        path[first] == path[second],
    ensures
        is_descent(graph, longer),
        longer[0] == path[0],
        longer.len() > path.len(),
        longer[first] == longer[second],
{
    let again = path.subrange(0, second) + path.subrange(first, path.len() as int);
    assert(again.len() == path.len() + (second - first));
    assert forall|i: int| 0 <= i < again.len() implies 0 <= #[trigger] again[i] < graph.len() by {
        if i < second {
            assert(again[i] == path[i]);
        } else {
            assert(again[i] == path[i - second + first]);
        }
    }
    assert forall|i: int| 0 < i < again.len() implies is_child(
        graph,
        again[i - 1],
        #[trigger] again[i],
    ) by {
        if i < second {
            assert(again[i] == path[i]);
            assert(again[i - 1] == path[i - 1]);
        } else if i == second {
            assert(again[i] == path[first]);
            assert(again[i - 1] == path[second - 1]);
            assert(is_child(graph, path[second - 1], path[second]));
        } else {
            let j = i - second + first;
            assert(again[i] == path[j]);
            assert(again[i - 1] == path[j - 1]);
            assert(is_child(graph, path[j - 1], path[j]));
        }
    }
    assert(again[first] == path[first]);
    assert(again[second] == path[first]);
    assert(again[0] == path[0]);
    again
}

/// A descent that comes to some node a second time can be made as long as
/// one likes, by going round again and again.
pub proof fn lemma_cycle_goes_on(
    graph: Seq<Seq<u16>>,
    path: Seq<int>,
    first: int,
    second: int,
    length: nat,
) -> (longer: Seq<int>)
    requires
        is_descent(graph, path),
        0 <= first < second < path.len(),
        path[first] == path[second],
    ensures
        is_descent(graph, longer),
        longer[0] == path[0],
        longer.len() >= length,
        longer.len() >= path.len(),
        longer[first] == longer[second],
    decreases length,
{
    if length == 0 {
        path
    } else {
        let shorter = lemma_cycle_goes_on(graph, path, first, second, (length - 1) as nat);
        lemma_cycle_once_more(graph, shorter, first, second)
    }
}

/// Where a frame can be drawn, the subtree of every root can.
pub proof fn lemma_drawn_roots(graph: Seq<Seq<u16>>, count: nat, root: int)
    requires
        forest(graph, count) is Ok,
        0 <= root < count,
        is_root(graph, root),
    ensures
        subtree(graph, root, 0) is Ok,
    decreases count,
{
    if root < count - 1 {
        lemma_drawn_roots(graph, (count - 1) as nat, root);
    }
}

/// A hierarchy that can be drawn has no cycle below a root: no descent from
/// a root comes to a node a second time.
pub proof fn lemma_drawn_graph_has_no_cycle(
    graph: Seq<Seq<u16>>,
    path: Seq<int>,
    first: int,
    second: int,
)
    requires
        forest(graph, graph.len()) is Ok,
        is_descent(graph, path),
        is_root(graph, path[0]),
        0 <= first < second < path.len(),
    ensures
        path[first] != path[second],
{
    if path[first] == path[second] {
        let longer = lemma_cycle_goes_on(graph, path, first, second, graph.len() + 1);
        lemma_drawn_roots(graph, graph.len(), path[0]);
        lemma_drawn_descent_is_short(graph, path[0], 0, longer);
    }
}

} // verus!
