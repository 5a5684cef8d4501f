//! The order in which to draw a node hierarchy: every root, and below each
//! node its children, depth first.
use vstd::prelude::*;
use crate::error::{viewed, StructuralError};
use crate::renderable::flat_shaded::{RenderData, RenderableMeshData};

verus! {

/// One draw: node `node`, `depth` levels below its root.  The step's parent
/// is the nearest earlier step of depth `depth - 1`: the node's own
/// transform is to be combined with what was accumulated for that step.
#[derive(Debug, Clone, Copy, PartialEq, Eq, Structural)]
pub struct DrawStep {
    pub node: usize,
    pub depth: usize,
}

/// The child lists of the nodes, in node order.
pub open spec fn child_lists(nodes: Seq<RenderableMeshData>) -> Seq<Seq<u16>> {
    Seq::new(nodes.len(), |i: int| nodes[i].children@)
}

/// Node `node` is a root: no other node lists it as a child.
pub open spec fn is_root(graph: Seq<Seq<u16>>, node: int) -> bool {
    &&& 0 <= node < graph.len()
    &&& forall|j: int, k: int|
        0 <= j < graph.len() && j != node && 0 <= k < graph[j].len() ==> #[trigger] graph[j][k]
            != node
}

/// The draws for `node` at `depth` and for everything below it: the node
/// first, then the subtree of each child in the order of its child list.  A
/// child that names no node is `IndexOutOfRange`.  A node deeper than the
/// number of nodes is `CyclicGraph`: some node on the way down to it occurs
/// twice.
pub open spec fn subtree(graph: Seq<Seq<u16>>, node: int, depth: nat) -> Result<
    Seq<DrawStep>,
    StructuralError,
>
    decreases graph.len() - depth, 1nat, 0nat,
{
    if !(0 <= node < graph.len()) {
        Err(StructuralError::IndexOutOfRange)
    } else if depth >= graph.len() {
        Err(StructuralError::CyclicGraph)
    } else {
        match subtrees(graph, graph[node], graph[node].len(), depth + 1) {
            Err(e) => Err(e),
            Ok(below) => Ok(seq![DrawStep { node: node as usize, depth: depth as usize }] + below),
        }
    }
}

/// The draws for the first `count` nodes of `list`, each at `depth`, one
/// subtree after the other; the first failure among them otherwise.
pub open spec fn subtrees(graph: Seq<Seq<u16>>, list: Seq<u16>, count: nat, depth: nat) -> Result<
    Seq<DrawStep>,
    StructuralError,
>
    decreases graph.len() - depth, 2nat, count,
{
    if count == 0 {
        Ok(Seq::empty())
    } else {
        match subtrees(graph, list, (count - 1) as nat, depth) {
            Err(e) => Err(e),
            Ok(before) => match subtree(graph, list[count - 1] as int, depth) {
                Err(e) => Err(e),
                Ok(steps) => Ok(before + steps),
            },
        }
    }
}

/// The draws for the roots among the first `count` nodes, in node order.
pub open spec fn forest(graph: Seq<Seq<u16>>, count: nat) -> Result<Seq<DrawStep>, StructuralError>
    decreases count,
{
    if count == 0 {
        Ok(Seq::empty())
    } else {
        match forest(graph, (count - 1) as nat) {
            Err(e) => Err(e),
            Ok(before) => if is_root(graph, count - 1) {
                match subtree(graph, count - 1, 0) {
                    Err(e) => Err(e),
                    Ok(steps) => Ok(before + steps),
                }
            } else {
                Ok(before)
            },
        }
    }
}

/// A failure among the first `count` children is the failure of the whole
/// list.
pub proof fn lemma_subtrees_failure_persists(
    graph: Seq<Seq<u16>>,
    list: Seq<u16>,
    count: nat,
    longer: nat,
    depth: nat,
)
    requires
        count <= longer,
        subtrees(graph, list, count, depth) is Err,
    ensures
        subtrees(graph, list, longer, depth) == subtrees(graph, list, count, depth),
    decreases longer,
{
    if count < longer {
        lemma_subtrees_failure_persists(graph, list, count, (longer - 1) as nat, depth);
    }
}

/// A failure below one of the first `count` nodes is the failure of the
/// whole hierarchy.
pub proof fn lemma_forest_failure_persists(graph: Seq<Seq<u16>>, count: nat, longer: nat)
    requires
        count <= longer,
        forest(graph, count) is Err,
    ensures
        forest(graph, longer) == forest(graph, count),
    decreases longer,
{
    if count < longer {
        lemma_forest_failure_persists(graph, count, (longer - 1) as nat);
    }
}

/// `steps` can be drawn with a stack of accumulated transforms: every step
/// names a node, no step is above level `base`, the first step is at level
/// `base`, and a step is at most one level below the step before it, so
/// that its parent is still on the stack.
pub open spec fn well_nested(steps: Seq<DrawStep>, base: nat, node_count: nat) -> bool {
    &&& forall|i: int|
        0 <= i < steps.len() ==> (#[trigger] steps[i]).node < node_count && steps[i].depth >= base
    &&& steps.len() > 0 ==> steps[0].depth == base
    &&& forall|i: int| 0 < i < steps.len() ==> (#[trigger] steps[i]).depth <= steps[i - 1].depth + 1
}

/// Two runs of steps that are well nested from the same level are well
/// nested when one follows the other.
pub proof fn lemma_well_nested_append(
    before: Seq<DrawStep>,
    after: Seq<DrawStep>,
    base: nat,
    node_count: nat,
)
    requires
        well_nested(before, base, node_count),
        well_nested(after, base, node_count),
    ensures
        well_nested(before + after, base, node_count),
{
    let all = before + after;
    assert forall|i: int| 0 < i < all.len() implies (#[trigger] all[i]).depth <= all[i - 1].depth
        + 1 by {
        if i < before.len() {
            assert(all[i] == before[i]);
            assert(all[i - 1] == before[i - 1]);
        } else if i == before.len() {
            assert(all[i] == after[0]);
            assert(all[i - 1] == before[i - 1]);
        } else {
            assert(all[i] == after[i - before.len()]);
            assert(all[i - 1] == after[i - before.len() - 1]);
        }
    }
    assert forall|i: int| 0 <= i < all.len() implies (#[trigger] all[i]).node < node_count
        && all[i].depth >= base by {
        if i < before.len() {
            assert(all[i] == before[i]);
        } else {
            assert(all[i] == after[i - before.len()]);
        }
    }
    if all.len() > 0 {
        if before.len() > 0 {
            assert(all[0] == before[0]);
        } else {
            assert(all[0] == after[0]);
        }
    }
}

/// The draws of a subtree start with its own node at its own level and are
/// well nested from there.
pub proof fn lemma_subtree_well_nested(graph: Seq<Seq<u16>>, node: int, depth: nat)
    requires
        graph.len() <= usize::MAX,
    ensures
        subtree(graph, node, depth) matches Ok(steps) ==> steps.len() > 0 && steps[0] == (DrawStep {
            node: node as usize,
            depth: depth as usize,
        }) && well_nested(steps, depth, graph.len()),
    decreases graph.len() - depth, 1nat, 0nat,
{
    if subtree(graph, node, depth) is Ok {
        let below = subtrees(graph, graph[node], graph[node].len(), depth + 1)->Ok_0;
        lemma_subtrees_well_nested(graph, graph[node], graph[node].len(), depth + 1);
        let own = seq![DrawStep { node: node as usize, depth: depth as usize }];
        let steps = own + below;
        assert(steps[0] == own[0]);
        assert forall|i: int| 0 < i < steps.len() implies (#[trigger] steps[i]).depth <= steps[i
            - 1].depth + 1 by {
            assert(steps[i] == below[i - 1]);
            if i == 1 {
                assert(steps[0] == own[0]);
            } else {
                assert(steps[i - 1] == below[i - 2]);
            }
        }
        assert forall|i: int| 0 <= i < steps.len() implies (#[trigger] steps[i]).node < graph.len()
            && steps[i].depth >= depth by {
            if i > 0 {
                assert(steps[i] == below[i - 1]);
            }
        }
    }
}

/// The draws of a list of subtrees are well nested from the level of the
/// list.
pub proof fn lemma_subtrees_well_nested(
    graph: Seq<Seq<u16>>,
    list: Seq<u16>,
    count: nat,
    depth: nat,
)
    requires
        graph.len() <= usize::MAX,
    ensures
        subtrees(graph, list, count, depth) matches Ok(steps) ==> well_nested(
            steps,
            depth,
            graph.len(),
        ),
    decreases graph.len() - depth, 2nat, count,
{
    if count > 0 && subtrees(graph, list, count, depth) is Ok {
        lemma_subtrees_well_nested(graph, list, (count - 1) as nat, depth);
        lemma_subtree_well_nested(graph, list[count - 1] as int, depth);
        lemma_well_nested_append(
            subtrees(graph, list, (count - 1) as nat, depth)->Ok_0,
            subtree(graph, list[count - 1] as int, depth)->Ok_0,
            depth,
            graph.len(),
        );
    }
}

/// The draws of a frame are well nested from level 0: drawing them in order
/// with a stack of accumulated transforms finds every step's parent on top
/// of the stack once the stack is cut back to the step's level.
pub proof fn lemma_forest_well_nested(graph: Seq<Seq<u16>>, count: nat)
    requires
        graph.len() <= usize::MAX,
    ensures
        forest(graph, count) matches Ok(steps) ==> well_nested(steps, 0, graph.len()),
    decreases count,
{
    if count > 0 && forest(graph, count) is Ok {
        lemma_forest_well_nested(graph, (count - 1) as nat);
        if is_root(graph, count - 1) {
            lemma_subtree_well_nested(graph, count - 1, 0);
            lemma_well_nested_append(
                forest(graph, (count - 1) as nat)->Ok_0,
                subtree(graph, count - 1, 0)->Ok_0,
                0,
                graph.len(),
            );
        }
    }
}

/// Node `parent` lists node `child` among its children.
pub open spec fn is_child(graph: Seq<Seq<u16>>, parent: int, child: int) -> bool {
    exists|k: int| 0 <= k < graph[parent].len() && #[trigger] graph[parent][k] == child
}

/// The last of the first `before` steps that is at level `depth`, or -1 if
/// there is none.
pub open spec fn nearest_at(steps: Seq<DrawStep>, before: int, depth: int) -> int
    decreases before,
{
    if before <= 0 {
        -1
    } else if steps[before - 1].depth == depth {
        before - 1
    } else {
        nearest_at(steps, before - 1, depth)
    }
}

/// The parent of step `i`: the nearest earlier step one level up.
pub open spec fn parent_step(steps: Seq<DrawStep>, i: int) -> int {
    nearest_at(steps, i, steps[i].depth - 1)
}

/// Below level `base`, every step has a parent among the steps before it,
/// and the parent's node lists the step's node as a child.
pub open spec fn parents_list_children(graph: Seq<Seq<u16>>, steps: Seq<DrawStep>, base: nat) -> bool {
    forall|i: int|
        0 <= i < steps.len() && (#[trigger] steps[i]).depth > base ==> 0 <= parent_step(steps, i)
            < i && is_child(graph, steps[parent_step(steps, i)].node as int, steps[i].node as int)
}

/// Every step at level `depth` draws one of the first `count` nodes of
/// `list`.
pub open spec fn heads_are_listed(steps: Seq<DrawStep>, list: Seq<u16>, count: nat, depth: nat) -> bool {
    forall|i: int|
        0 <= i < steps.len() && (#[trigger] steps[i]).depth == depth ==> exists|k: int|
            0 <= k < count && #[trigger] list[k] == steps[i].node
}

/// Every step at level 0 draws a root.
pub open spec fn heads_are_roots(graph: Seq<Seq<u16>>, steps: Seq<DrawStep>) -> bool {
    forall|i: int|
        0 <= i < steps.len() && (#[trigger] steps[i]).depth == 0 ==> is_root(
            graph,
            steps[i].node as int,
        )
}

/// Looking back from within the first of two runs never sees the second.
pub proof fn lemma_nearest_in_prefix(
    before: Seq<DrawStep>,
    after: Seq<DrawStep>,
    i: int,
    depth: int,
)
    requires
        0 <= i <= before.len(),
    ensures
        nearest_at(before + after, i, depth) == nearest_at(before, i, depth),
    decreases i,
{
    if i > 0 {
        assert((before + after)[i - 1] == before[i - 1]);
        lemma_nearest_in_prefix(before, after, i - 1, depth);
    }
}

/// What is found by looking back within the second of two runs is found at
/// the same place when the first run stands before it.
pub proof fn lemma_nearest_in_suffix(
    before: Seq<DrawStep>,
    after: Seq<DrawStep>,
    i: int,
    depth: int,
)
    requires
        0 <= i <= after.len(),
        nearest_at(after, i, depth) >= 0,
    ensures
        nearest_at(before + after, before.len() + i, depth) == before.len() + nearest_at(
            after,
            i,
            depth,
        ),
    decreases i,
{
    if i > 0 {
        assert((before + after)[before.len() + i - 1] == after[i - 1]);
        if after[i - 1].depth != depth {
            lemma_nearest_in_suffix(before, after, i - 1, depth);
        }
    }
}

/// Looking back over steps that are all deeper than the first step finds
/// the first step.
pub proof fn lemma_nearest_is_first(steps: Seq<DrawStep>, i: int)
    requires
        0 < i <= steps.len(),
        forall|j: int| 0 < j < steps.len() ==> (#[trigger] steps[j]).depth > steps[0].depth,
    ensures
        nearest_at(steps, i, steps[0].depth as int) == 0,
    decreases i,
{
    if i > 1 {
        lemma_nearest_is_first(steps, i - 1);
    }
}

/// Two runs in which parents list their children keep that property when
/// one follows the other.
pub proof fn lemma_parents_append(
    graph: Seq<Seq<u16>>,
    before: Seq<DrawStep>,
    after: Seq<DrawStep>,
    base: nat,
)
    requires
        parents_list_children(graph, before, base),
        parents_list_children(graph, after, base),
    ensures
        parents_list_children(graph, before + after, base),
{
    let all = before + after;
    assert forall|i: int| 0 <= i < all.len() && (#[trigger] all[i]).depth > base implies 0
        <= parent_step(all, i) < i && is_child(
        graph,
        all[parent_step(all, i)].node as int,
        all[i].node as int,
    ) by {
        if i < before.len() {
            assert(all[i] == before[i]);
            lemma_nearest_in_prefix(before, after, i, before[i].depth - 1);
            assert(all[parent_step(before, i)] == before[parent_step(before, i)]);
        } else {
            let j = i - before.len();
            assert(all[i] == after[j]);
            lemma_nearest_in_suffix(before, after, j, after[j].depth - 1);
            assert(all[before.len() + parent_step(after, j)] == after[parent_step(after, j)]);
        }
    }
}

/// In the draws of a subtree, every step but the first has its parent
/// among the steps before it, and that parent's node lists the step's node
/// as a child.
pub proof fn lemma_subtree_parents(graph: Seq<Seq<u16>>, node: int, depth: nat)
    requires
        graph.len() <= usize::MAX,
    ensures
        subtree(graph, node, depth) matches Ok(steps) ==> parents_list_children(graph, steps, depth)
            && forall|i: int| 0 < i < steps.len() ==> (#[trigger] steps[i]).depth > depth,
    decreases graph.len() - depth, 1nat, 0nat,
{
    if subtree(graph, node, depth) is Ok {
        let list = graph[node];
        let below = subtrees(graph, list, list.len(), depth + 1)->Ok_0;
        lemma_subtrees_parents(graph, list, list.len(), depth + 1);
        lemma_subtrees_well_nested(graph, list, list.len(), depth + 1);
        let own = seq![DrawStep { node: node as usize, depth: depth as usize }];
        let steps = own + below;
        assert(steps[0] == own[0]);
        assert forall|i: int| 0 < i < steps.len() implies (#[trigger] steps[i]).depth > depth by {
            assert(steps[i] == below[i - 1]);
        }
        assert forall|i: int| 0 <= i < steps.len() && (#[trigger] steps[i]).depth > depth implies 0
            <= parent_step(steps, i) < i && is_child(
            graph,
            steps[parent_step(steps, i)].node as int,
            steps[i].node as int,
        ) by {
            let j = i - 1;
            assert(steps[i] == below[j]);
            if below[j].depth == depth + 1 {
                lemma_nearest_is_first(steps, i);
                let k = choose|k: int| 0 <= k < list.len() && #[trigger] list[k] == below[j].node;
                assert(graph[node][k] == steps[i].node);
            } else {
                lemma_nearest_in_suffix(own, below, j, below[j].depth - 1);
                assert(steps[1 + parent_step(below, j)] == below[parent_step(below, j)]);
            }
        }
    }
}

/// In the draws of a list of subtrees, the steps at the level of the list
/// draw nodes of the list, and every deeper step has its parent before it.
pub proof fn lemma_subtrees_parents(graph: Seq<Seq<u16>>, list: Seq<u16>, count: nat, depth: nat)
    requires
        graph.len() <= usize::MAX,
        count <= list.len(),
    ensures
        subtrees(graph, list, count, depth) matches Ok(steps) ==> parents_list_children(
            graph,
            steps,
            depth,
        ) && heads_are_listed(steps, list, count, depth),
    decreases graph.len() - depth, 2nat, count,
{
    if count > 0 && subtrees(graph, list, count, depth) is Ok {
        let before = subtrees(graph, list, (count - 1) as nat, depth)->Ok_0;
        let last = subtree(graph, list[count - 1] as int, depth)->Ok_0;
        lemma_subtrees_parents(graph, list, (count - 1) as nat, depth);
        lemma_subtree_parents(graph, list[count - 1] as int, depth);
        lemma_subtree_well_nested(graph, list[count - 1] as int, depth);
        lemma_parents_append(graph, before, last, depth);
        let steps = before + last;
        assert forall|i: int| 0 <= i < steps.len() && (#[trigger] steps[i]).depth
            == depth implies exists|k: int| 0 <= k < count && #[trigger] list[k] == steps[i].node by {
            if i < before.len() {
                assert(steps[i] == before[i]);
                let k = choose|k: int| 0 <= k < count - 1 && #[trigger] list[k] == before[i].node;
                assert(list[k] == steps[i].node);
            } else {
                assert(steps[i] == last[i - before.len()]);
                assert(i - before.len() == 0);
                assert(list[count - 1] == steps[i].node);
            }
        }
    }
}

/// In the draws of a frame, the steps at level 0 draw roots, and every
/// deeper step has its parent among the steps before it, with a node that
/// lists the step's node as a child.
pub proof fn lemma_forest_parents(graph: Seq<Seq<u16>>, count: nat)
    requires
        graph.len() <= usize::MAX,
        count <= graph.len(),
    ensures
        forest(graph, count) matches Ok(steps) ==> parents_list_children(graph, steps, 0)
            && heads_are_roots(graph, steps),
    decreases count,
{
    if count > 0 && forest(graph, count) is Ok {
        let before = forest(graph, (count - 1) as nat)->Ok_0;
        lemma_forest_parents(graph, (count - 1) as nat);
        if is_root(graph, count - 1) {
            let last = subtree(graph, count - 1, 0)->Ok_0;
            lemma_subtree_parents(graph, count - 1, 0);
            lemma_subtree_well_nested(graph, count - 1, 0);
            lemma_parents_append(graph, before, last, 0);
            let steps = before + last;
            assert forall|i: int| 0 <= i < steps.len() && (#[trigger] steps[i]).depth
                == 0 implies is_root(graph, steps[i].node as int) by {
                if i < before.len() {
                    assert(steps[i] == before[i]);
                } else {
                    assert(steps[i] == last[i - before.len()]);
                    assert(i - before.len() == 0);
                }
            }
        }
    }
}

/// What step `i` inherits: nothing at level 0, and below that what was made
/// for its parent.
pub open spec fn inherited<T>(steps: Seq<DrawStep>, made: Seq<T>, i: int) -> Option<T> {
    if steps[i].depth == 0 {
        None
    } else {
        Some(made[parent_step(steps, i)])
    }
}

/// `made` holds, for every step, what `combine` makes of the step's node and
/// of what the step inherits.
pub open spec fn is_accumulation<T, F: Fn(usize, Option<T>) -> T>(
    combine: F,
    steps: Seq<DrawStep>,
    made: Seq<T>,
) -> bool {
    &&& made.len() == steps.len()
    &&& is_accumulation_of_first(combine, steps, made, steps.len() as int)
}

/// Entry `d` of the stack of a traversal that has made the values of the
/// first `i` steps is the value of the last of those steps at level `d`.
pub open spec fn stack_entry_tracks<T>(
    steps: Seq<DrawStep>,
    made: Seq<T>,
    stack: Seq<T>,
    i: int,
    d: int,
) -> bool {
    0 <= nearest_at(steps, i, d) < i && stack[d] == made[nearest_at(steps, i, d)]
}

/// Every entry of the stack holds the value of the last step at its level.
pub open spec fn stack_tracks<T>(steps: Seq<DrawStep>, made: Seq<T>, stack: Seq<T>, i: int) -> bool {
    forall|d: int| 0 <= d < stack.len() ==> #[trigger] stack_entry_tracks(steps, made, stack, i, d)
}

/// `made[j]` is what `combine` makes of step `j`, which has its parent
/// before it if it is below level 0.
pub open spec fn is_made_by<T, F: Fn(usize, Option<T>) -> T>(
    combine: F,
    steps: Seq<DrawStep>,
    made: Seq<T>,
    j: int,
) -> bool {
    &&& steps[j].depth > 0 ==> 0 <= parent_step(steps, j) < j
    &&& call_ensures(combine, (steps[j].node, inherited(steps, made, j)), made[j])
}

/// The first `i` values of `made` are what `combine` makes of the first `i`
/// steps.
pub open spec fn is_accumulation_of_first<T, F: Fn(usize, Option<T>) -> T>(
    combine: F,
    steps: Seq<DrawStep>,
    made: Seq<T>,
    i: int,
) -> bool {
    forall|j: int| 0 <= j < i ==> #[trigger] is_made_by(combine, steps, made, j)
}

/// Making the value of step `i` keeps the stack in step: the stack is cut
/// back to the level of the step and the new value is put on top.
pub proof fn lemma_stack_after_step<T>(
    steps: Seq<DrawStep>,
    made: Seq<T>,
    stack: Seq<T>,
    i: int,
    value: T,
)
    requires
        0 <= i < steps.len(),
        made.len() == i,
        steps[i].depth <= stack.len(),
        stack_tracks(steps, made, stack, i),
    ensures
        stack_tracks(
            steps,
            made.push(value),
            stack.subrange(0, steps[i].depth as int).push(value),
            i + 1,
        ),
{
    let depth = steps[i].depth as int;
    let made_after = made.push(value);
    let stack_after = stack.subrange(0, depth).push(value);
    assert forall|d: int| 0 <= d < stack_after.len() implies #[trigger] stack_entry_tracks(
        steps,
        made_after,
        stack_after,
        i + 1,
        d,
    ) by {
        if d < depth {
            assert(stack_entry_tracks(steps, made, stack, i, d));
        }
    }
}

/// Making the value of step `i` from what the step inherits extends the
/// accumulation by that step.
pub proof fn lemma_accumulation_after_step<T, F: Fn(usize, Option<T>) -> T>(
    combine: F,
    steps: Seq<DrawStep>,
    made: Seq<T>,
    i: int,
    value: T,
)
    requires
        0 <= i < steps.len(),
        made.len() == i,
        is_accumulation_of_first(combine, steps, made, i),
        steps[i].depth > 0 ==> 0 <= parent_step(steps, i) < i,
        call_ensures(combine, (steps[i].node, inherited(steps, made, i)), value),
    ensures
        is_accumulation_of_first(combine, steps, made.push(value), i + 1),
{
    let made_after = made.push(value);
    assert forall|j: int| 0 <= j < i + 1 implies #[trigger] is_made_by(
        combine,
        steps,
        made_after,
        j,
    ) by {
        if j < i {
            assert(is_made_by(combine, steps, made, j));
        }
    }
}

impl RenderData {
    /// The child lists of the nodes, in node order.
    pub open spec fn graph(&self) -> Seq<Seq<u16>> {
        child_lists(self.renderable_mesh_data@)
    }

    /// Whether no other node lists `node` as a child.
    pub fn is_root_node(&self, node: usize) -> (root: bool)
        ensures
            root == is_root(self.graph(), node as int),
    {
        let nodes = &self.renderable_mesh_data;
        if node >= nodes.len() {
            return false;
        }
        let mut j: usize = 0;
        while j < nodes.len()
            invariant
                j <= nodes@.len(),
                node < nodes@.len(),
                nodes == &self.renderable_mesh_data,
                forall|a: int, b: int|
                    0 <= a < j && a != node && 0 <= b < self.graph()[a].len()
                        ==> #[trigger] self.graph()[a][b] != node,
            decreases nodes@.len() - j,
        {
            if j != node {
                let children = &nodes[j].children;
                assert(children@ == self.graph()[j as int]);
                let mut k: usize = 0;
                while k < children.len()
                    invariant
                        k <= children@.len(),
                        j < nodes@.len(),
                        j != node,
                        nodes == &self.renderable_mesh_data,
                        children@ == self.graph()[j as int],
                        forall|b: int| 0 <= b < k ==> #[trigger] children@[b] != node,
                    decreases children@.len() - k,
                {
                    if children[k] as usize == node {
                        assert(self.graph()[j as int][k as int] == node);
                        return false;
                    }
                    k = k + 1;
                }
            }
            j = j + 1;
        }
        true
    }

    /// The roots of the hierarchy, in increasing order.
    pub fn root_nodes(&self) -> (roots: Vec<usize>)
        ensures
            forall|i: int|
                is_root(self.graph(), i) <==> (0 <= i <= usize::MAX && roots@.contains(i as usize)),
            forall|a: int, b: int| 0 <= a < b < roots@.len() ==> roots@[a] < roots@[b],
    {
        let mut roots: Vec<usize> = Vec::new();
        let mut i: usize = 0;
        while i < self.renderable_mesh_data.len()
            invariant
                i <= self.renderable_mesh_data@.len(),
                self.graph().len() == self.renderable_mesh_data@.len(),
                forall|n: int|
                    0 <= n < i && is_root(self.graph(), n) ==> roots@.contains(n as usize),
                forall|a: int|
                    0 <= a < roots@.len() ==> (#[trigger] roots@[a]) < i && is_root(
                        self.graph(),
                        roots@[a] as int,
                    ),
                forall|a: int, b: int| 0 <= a < b < roots@.len() ==> roots@[a] < roots@[b],
            decreases self.renderable_mesh_data@.len() - i,
        {
            if self.is_root_node(i) {
                let ghost before = roots@;
                roots.push(i);
                proof {
                    assert(roots@[before.len() as int] == i);
                    assert forall|n: int|
                        0 <= n < i + 1 && is_root(self.graph(), n) implies roots@.contains(
                        n as usize,
                    ) by {
                        if n < i {
                            let a = choose|a: int| 0 <= a < before.len() && before[a] == n as usize;
                            assert(roots@[a] == n as usize);
                        }
                    }
                }
            }
            i = i + 1;
        }
        roots
    }

    /// Appends the draws for `node` at `depth` and for everything below it.
    fn visit(&self, node: usize, depth: usize, steps: &mut Vec<DrawStep>) -> (r: Result<
        (),
        StructuralError,
    >)
        ensures
            match r {
                Ok(_) => subtree(self.graph(), node as int, depth as nat) matches Ok(added)
                    && final(steps)@ == old(steps)@ + added,
                Err(e) => subtree(self.graph(), node as int, depth as nat) == Err::<
                    Seq<DrawStep>,
                    StructuralError,
                >(e),
            },
        decreases self.renderable_mesh_data@.len() - depth, 1nat, 0nat,
    {
        let nodes = &self.renderable_mesh_data;
        if node >= nodes.len() {
            return Err(StructuralError::IndexOutOfRange);
        }
        if depth >= nodes.len() {
            return Err(StructuralError::CyclicGraph);
        }
        let node_count = nodes.len();
        let ghost start = steps@;
        steps.push(DrawStep { node, depth });
        let children = &nodes[node].children;
        let ghost mut below: Seq<DrawStep> = Seq::empty();
        let mut k: usize = 0;
        assert(steps@ =~= start + seq![DrawStep { node, depth }] + below);
        while k < children.len()
            invariant
                k <= children@.len(),
                node_count == self.renderable_mesh_data@.len(),
                depth < node_count,
                node < node_count,
                children@ == self.graph()[node as int],
                subtrees(self.graph(), children@, k as nat, (depth + 1) as nat) == Ok::<
                    Seq<DrawStep>,
                    StructuralError,
                >(below),
                steps@ == start + seq![DrawStep { node, depth }] + below,
            decreases children@.len() - k,
        {
            let ghost steps_before = steps@;
            match self.visit(children[k] as usize, depth + 1, steps) {
                Ok(_) => {
                    proof {
                        let added = subtree(
                            self.graph(),
                            children@[k as int] as int,
                            (depth + 1) as nat,
                        )->Ok_0;
                        assert(steps@ =~= start + seq![DrawStep { node, depth }] + (below + added));
                        below = below + added;
                    }
                },
                Err(e) => {
                    proof {
                        lemma_subtrees_failure_persists(
                            self.graph(),
                            children@,
                            (k + 1) as nat,
                            children@.len(),
                            (depth + 1) as nat,
                        );
                    }
                    return Err(e);
                },
            }
            k = k + 1;
        }
        proof {
            assert(steps@ =~= start + (seq![DrawStep { node, depth }] + below));
        }
        Ok(())
    }

    /// The draws of one frame, in order: every root in node order, and below
    /// each node the subtree of each of its children in the order of its
    /// child list.  Fails with `CyclicGraph` where the hierarchy below a root
    /// is deeper than the number of nodes, and with `IndexOutOfRange` where
    /// a child names no node; no draw is to be made then.
    pub fn draw_order(&self) -> (r: Result<Vec<DrawStep>, StructuralError>)
        ensures
            r matches Ok(steps) ==> well_nested(steps@, 0, self.renderable_mesh_data@.len())
                && heads_are_roots(self.graph(), steps@) && parents_list_children(
                self.graph(),
                steps@,
                0,
            ),
            viewed(r) == forest(self.graph(), self.renderable_mesh_data@.len()),
    {
        let mut steps: Vec<DrawStep> = Vec::new();
        let mut i: usize = 0;
        assert(steps@ =~= Seq::empty());
        while i < self.renderable_mesh_data.len()
            invariant
                i <= self.renderable_mesh_data@.len(),
                forest(self.graph(), i as nat) == Ok::<Seq<DrawStep>, StructuralError>(steps@),
            decreases self.renderable_mesh_data@.len() - i,
        {
            if self.is_root_node(i) {
                match self.visit(i, 0, &mut steps) {
                    Ok(_) => {},
                    Err(e) => {
                        proof {
                            lemma_forest_failure_persists(
                                self.graph(),
                                (i + 1) as nat,
                                self.renderable_mesh_data@.len(),
                            );
                        }
                        return Err(e);
                    },
                }
            }
            i = i + 1;
        }
        proof {
            lemma_forest_well_nested(self.graph(), self.renderable_mesh_data@.len());
            lemma_forest_parents(self.graph(), self.renderable_mesh_data@.len());
        }
        Ok(steps)
    }

    /// Carries a value down the hierarchy along `steps`: for every step,
    /// `combine` is handed the step's node and the value made for the step's
    /// parent, or `None` for a root, and what it returns is the step's value.
    /// The values come back in the order of the steps.
    pub fn accumulate<T: Copy, F: Fn(usize, Option<T>) -> T>(
        &self,
        steps: &Vec<DrawStep>,
        combine: &F,
    ) -> (made: Vec<T>)
        requires
            well_nested(steps@, 0, self.renderable_mesh_data@.len()),
            forall|node: usize, above: Option<T>|
                node < self.renderable_mesh_data@.len() ==> call_requires(*combine, (node, above)),
        ensures
            is_accumulation(*combine, steps@, made@),
    {
        let mut made: Vec<T> = Vec::new();
        let mut stack: Vec<T> = Vec::new();
        let mut i: usize = 0;
        while i < steps.len()
            invariant
                i <= steps@.len(),
                well_nested(steps@, 0, self.renderable_mesh_data@.len()),
                forall|node: usize, above: Option<T>|
                    node < self.renderable_mesh_data@.len() ==> call_requires(
                        *combine,
                        (node, above),
                    ),
                made@.len() == i,
                i == 0 ==> stack@.len() == 0,
                i > 0 ==> stack@.len() == steps@[i - 1].depth + 1,
                stack_tracks(steps@, made@, stack@, i as int),
                is_accumulation_of_first(*combine, steps@, made@, i as int),
            decreases steps@.len() - i,
        {
            let step = steps[i];
            let ghost made_before = made@;
            let ghost stack_before = stack@;
            assert(step.depth <= stack@.len()) by {
                if i > 0 {
                    assert(steps@[i as int].depth <= steps@[i - 1].depth + 1);
                }
            }
            stack.truncate(step.depth);
            let above = if step.depth == 0 {
                None
            } else {
                assert(stack_entry_tracks(
                    steps@,
                    made_before,
                    stack_before,
                    i as int,
                    step.depth - 1,
                ));
                Some(stack[step.depth - 1])
            };
            let value = combine(step.node, above);
            made.push(value);
            stack.push(value);
            proof {
                lemma_stack_after_step(steps@, made_before, stack_before, i as int, value);
                lemma_accumulation_after_step(*combine, steps@, made_before, i as int, value);
            }
            i = i + 1;
        }
        made
    }

    /// Draws one frame: orders the nodes as `draw_order` does and carries
    /// a value down the hierarchy as `accumulate` does.  Each draw comes
    /// back with the value made for it.
    pub fn traverse<T: Copy, F: Fn(usize, Option<T>) -> T>(&self, combine: &F) -> (r: Result<
        (Vec<DrawStep>, Vec<T>),
        StructuralError,
    >)
        requires
            forall|node: usize, above: Option<T>|
                node < self.renderable_mesh_data@.len() ==> call_requires(*combine, (node, above)),
        ensures
            match r {
                Ok((steps, made)) => forest(self.graph(), self.renderable_mesh_data@.len()) == Ok::<
                    Seq<DrawStep>,
                    StructuralError,
                >(steps@) && is_accumulation(*combine, steps@, made@),
                Err(e) => forest(self.graph(), self.renderable_mesh_data@.len()) == Err::<
                    Seq<DrawStep>,
                    StructuralError,
                >(e),
            },
    {
        match self.draw_order() {
            Err(e) => Err(e),
            Ok(steps) => {
                let made = self.accumulate(&steps, combine);
                Ok((steps, made))
            },
        }
    }
}

} // verus!
