//! A production line: steps and the dependencies between them, kept as a
//! directed graph that `add_dependency` never lets close a cycle.

use vstd::prelude::*;

verus! {

/// A node in the production line graph.
#[derive(Debug, Clone)]
pub struct LineNode {
    /// The id of the node.
    pub id: String,
    /// The name of the node.
    pub name: String,
    /// The step ID.
    pub step_id: String,
    /// The steps that this step depends on (prerequisites).
    pub dependencies: Vec<String>,
    /// The steps that depend on this step.
    pub dependents: Vec<String>,
}

impl LineNode {
    /// A node with the given names and no link to any other.
    pub open spec fn is_unlinked(self, id: Seq<char>, name: Seq<char>, step_id: Seq<char>) -> bool {
        &&& self.id@ == id
        &&& self.name@ == name
        &&& self.step_id@ == step_id
        &&& self.dependencies@.len() == 0
        &&& self.dependents@.len() == 0
    }

    /// Whether `id` is listed among this node's dependents.
    pub open spec fn has_dependent(self, id: Seq<char>) -> bool {
        exists|k: int| 0 <= k < self.dependents@.len() && (#[trigger] self.dependents@[k])@ == id
    }

    /// A node that no dependency links to another yet.
    pub fn new(id: String, name: String, step_id: String) -> (node: Self)
        ensures
            node.is_unlinked(id@, name@, step_id@),
    {
        Self { id, name, step_id, dependencies: Vec::new(), dependents: Vec::new() }
    }

    /// The id of the step that the node stands for.
    pub fn step_id(&self) -> (r: &str)
        ensures
            r@ == self.step_id@,
    {
        self.step_id.as_str()
    }

    /// The ids of the steps that this step depends on.
    pub fn dependencies(&self) -> (r: &[String])
        ensures
            r@ == self.dependencies@,
    {
        self.dependencies.as_slice()
    }

    /// The ids of the steps that depend on this step.
    pub fn dependents(&self) -> (r: &[String])
        ensures
            r@ == self.dependents@,
    {
        self.dependents.as_slice()
    }
}

/// Whether the node at place `i` of `nodes` has the id `id`.
pub open spec fn is_step_at(nodes: Seq<LineNode>, i: int, id: Seq<char>) -> bool {
    0 <= i < nodes.len() && nodes[i].id@ == id
}

/// Whether some node of `nodes` has the id `id`.
pub open spec fn has_step(nodes: Seq<LineNode>, id: Seq<char>) -> bool {
    exists|i: int| #[trigger] is_step_at(nodes, i, id)
}

/// The place in `nodes` of the node with the id `id`, where there is one.
pub open spec fn step_index(nodes: Seq<LineNode>, id: Seq<char>) -> int {
    choose|i: int| #[trigger] is_step_at(nodes, i, id)
}

/// No two nodes share an id.
pub open spec fn distinct_ids(nodes: Seq<LineNode>) -> bool {
    forall|i: int, j: int|
        0 <= i < j < nodes.len() ==> (#[trigger] nodes[i]).id@ != (#[trigger] nodes[j]).id@
}

/// Every id listed as a dependent is the id of a node.
pub open spec fn dependents_exist(nodes: Seq<LineNode>) -> bool {
    forall|i: int, k: int|
        0 <= i < nodes.len() && 0 <= k < nodes[i].dependents@.len() ==> has_step(
            nodes,
            (#[trigger] nodes[i].dependents@[k])@,
        )
}

/// The graph has an edge from the node at `a` to the node at `b`: the second
/// is listed as a dependent of the first.
pub open spec fn has_edge(nodes: Seq<LineNode>, a: int, b: int) -> bool {
    &&& 0 <= a < nodes.len()
    &&& 0 <= b < nodes.len()
    &&& nodes[a].has_dependent(nodes[b].id@)
}

/// `path` walks through the graph along its edges.
pub open spec fn is_path(nodes: Seq<LineNode>, path: Seq<int>) -> bool {
    &&& path.len() >= 1
    &&& 0 <= path[0] < nodes.len()
    &&& forall|i: int| 0 <= i < path.len() - 1 ==> has_edge(nodes, #[trigger] path[i], path[i + 1])
}

/// The node at `b` can be reached from the node at `a` along edges; every
/// node reaches itself.
pub open spec fn reaches(nodes: Seq<LineNode>, a: int, b: int) -> bool {
    exists|path: Seq<int>| #[trigger]
        is_path(nodes, path) && path.first() == a && path.last() == b
}

/// With distinct ids, a node's id names its place.
pub proof fn lemma_step_index_is(nodes: Seq<LineNode>, i: int, id: Seq<char>)
    requires
        distinct_ids(nodes),
        is_step_at(nodes, i, id),
    ensures
        has_step(nodes, id),
        step_index(nodes, id) == i,
{
    let j = step_index(nodes, id);
    assert(is_step_at(nodes, j, id));
    if j < i {
        assert(nodes[j].id@ != nodes[i].id@);
    } else if i < j {
        assert(nodes[i].id@ != nodes[j].id@);
    }
}

/// Every node reaches itself.
pub proof fn lemma_reaches_itself(nodes: Seq<LineNode>, a: int)
    requires
        0 <= a < nodes.len(),
    ensures
        reaches(nodes, a, a),
{
    let path = seq![a];
    assert(is_path(nodes, path) && path.first() == a && path.last() == a);
}

/// What reaches a node reaches the node after it.
pub proof fn lemma_reaches_one_more(nodes: Seq<LineNode>, a: int, b: int, c: int)
    requires
        reaches(nodes, a, b),
        has_edge(nodes, b, c),
    ensures
        reaches(nodes, a, c),
{
    let path = choose|path: Seq<int>| #[trigger]
        is_path(nodes, path) && path.first() == a && path.last() == b;
    let longer = path.push(c);
    assert forall|i: int| 0 <= i < longer.len() - 1 implies has_edge(
        nodes,
        #[trigger] longer[i],
        longer[i + 1],
    ) by {
        if i < path.len() - 1 {
            assert(has_edge(nodes, path[i], path[i + 1]));
        }
    }
    assert(is_path(nodes, longer) && longer.first() == a && longer.last() == c);
}

/// A set of nodes that holds the start of a path, and with each node those
/// after it, holds the whole path.
proof fn lemma_closed_set_holds_path(nodes: Seq<LineNode>, marked: Seq<bool>, path: Seq<int>, i: int)
    requires
        marked.len() == nodes.len(),
        is_path(nodes, path),
        marked[path[0]],
        forall|a: int, b: int| 0 <= a < nodes.len() && marked[a] && #[trigger] has_edge(nodes, a, b) ==> marked[b],
        0 <= i < path.len(),
    ensures
        0 <= path[i] < nodes.len(),
        marked[path[i]],
    decreases i,
{
    if i > 0 {
        lemma_closed_set_holds_path(nodes, marked, path, i - 1);
        assert(has_edge(nodes, path[i - 1], path[i - 1 + 1]));
    }
}

/// A list of `n` marks, none of them set.
fn unmarked(n: usize) -> (marks: Vec<bool>)
    ensures
        marks@.len() == n,
        forall|i: int| 0 <= i < n ==> !marks@[i],
{
    let mut marks: Vec<bool> = Vec::new();
    let mut i: usize = 0;
    while i < n
        invariant
            i <= n,
            marks@.len() == i,
            forall|k: int| 0 <= k < i ==> !marks@[k],
        decreases n - i,
    {
        marks.push(false);
        i += 1;
    }
    marks
}

/// Whether a new edge from the step `from` to the step `to` would close a
/// cycle: the two are one step, or `from` can be reached from `to` already.
pub open spec fn closes_cycle(nodes: Seq<LineNode>, from: Seq<char>, to: Seq<char>) -> bool {
    from == to || (has_step(nodes, from) && has_step(nodes, to) && reaches(
        nodes,
        step_index(nodes, to),
        step_index(nodes, from),
    ))
}

/// The error text for a prerequisite that is no step of the line.
pub open spec fn missing_prerequisite_text(id: Seq<char>) -> Seq<char> {
    "Prerequisite step '"@ + id + "' does not exist"@
}

/// The error text for a dependent that is no step of the line.
pub open spec fn missing_dependent_text(id: Seq<char>) -> Seq<char> {
    "Dependent step '"@ + id + "' does not exist"@
}

/// The error text for a dependency that would close a cycle.
pub open spec fn cycle_text(prerequisite: Seq<char>, dependent: Seq<char>) -> Seq<char> {
    "Adding dependency from '"@ + prerequisite + "' to '"@ + dependent
        + "' would create a cycle"@
}

/// `after` is `before` with `id` added at the end of its dependents.
pub open spec fn gains_dependent(before: LineNode, after: LineNode, id: Seq<char>) -> bool {
    &&& after.id == before.id
    &&& after.name == before.name
    &&& after.step_id == before.step_id
    &&& after.dependencies == before.dependencies
    &&& after.dependents@.len() == before.dependents@.len() + 1
    &&& after.dependents@.drop_last() == before.dependents@
    &&& after.dependents@.last()@ == id
}

/// `after` is `before` with `id` added at the end of its prerequisites.
pub open spec fn gains_dependency(before: LineNode, after: LineNode, id: Seq<char>) -> bool {
    &&& after.id == before.id
    &&& after.name == before.name
    &&& after.step_id == before.step_id
    &&& after.dependents == before.dependents
    &&& after.dependencies@.len() == before.dependencies@.len() + 1
    &&& after.dependencies@.drop_last() == before.dependencies@
    &&& after.dependencies@.last()@ == id
}

/// `after` is `before` with one dependency added: the node at `p` gains the
/// dependent `dependent`, the node at `d` the prerequisite `prerequisite`,
/// and no other node changes.
pub open spec fn gains_link(
    before: Seq<LineNode>,
    after: Seq<LineNode>,
    p: int,
    d: int,
    prerequisite: Seq<char>,
    dependent: Seq<char>,
) -> bool {
    &&& after.len() == before.len()
    &&& 0 <= p < before.len()
    &&& 0 <= d < before.len()
    &&& p != d
    &&& gains_dependent(before[p], after[p], dependent)
    &&& gains_dependency(before[d], after[d], prerequisite)
    &&& forall|i: int| 0 <= i < before.len() && i != p && i != d ==> after[i] == before[i]
}

/// Whether `id` is among `ids`.
pub open spec fn lists(ids: Seq<String>, id: Seq<char>) -> bool {
    exists|k: int| 0 <= k < ids.len() && (#[trigger] ids[k])@ == id
}

/// A step is ready when it is not completed and all of its prerequisites
/// are.
pub open spec fn is_ready(node: LineNode, completed: Seq<String>) -> bool {
    &&& !lists(completed, node.id@)
    &&& forall|k: int|
        0 <= k < node.dependencies@.len() ==> lists(completed, (#[trigger] node.dependencies@[k])@)
}

/// The ids of the ready steps among `nodes`, in the order of the nodes.
pub open spec fn ready_ids(nodes: Seq<LineNode>, completed: Seq<String>) -> Seq<Seq<char>>
    decreases nodes.len(),
{
    if nodes.len() == 0 {
        Seq::empty()
    } else if is_ready(nodes.last(), completed) {
        ready_ids(nodes.drop_last(), completed).push(nodes.last().id@)
    } else {
        ready_ids(nodes.drop_last(), completed)
    }
}

/// The texts of a list of strings.
pub open spec fn texts(ids: Seq<String>) -> Seq<Seq<char>> {
    Seq::new(ids.len(), |k: int| ids[k]@)
}

/// Whether `id` is among `ids`.
fn contains_id(ids: &Vec<String>, id: &String) -> (r: bool)
    ensures
        r == lists(ids@, id@),
{
    let n = ids.len();
    let mut k: usize = 0;
    while k < n
        invariant
            n == ids@.len(),
            k <= n,
            forall|q: int| 0 <= q < k ==> (#[trigger] ids@[q])@ != id@,
        decreases n - k,
    {
        if ids[k] == *id {
            return true;
        }
        k += 1;
    }
    false
}

/// Whether `id` stands at place `p` of `order`.
pub open spec fn is_listed_at(order: Seq<Seq<char>>, p: int, id: Seq<char>) -> bool {
    0 <= p < order.len() && order[p] == id
}

/// Whether `id` stands somewhere in `order`.
pub open spec fn is_listed(order: Seq<Seq<char>>, id: Seq<char>) -> bool {
    exists|p: int| #[trigger] is_listed_at(order, p, id)
}

/// `order` lists every step of `nodes` exactly once, each of them after all
/// of its prerequisites.
pub open spec fn is_topological_order(nodes: Seq<LineNode>, order: Seq<Seq<char>>) -> bool {
    &&& order.len() == nodes.len()
    &&& forall|p: int, q: int, id: Seq<char>|
        #[trigger] is_listed_at(order, p, id) && #[trigger] is_listed_at(order, q, id) ==> p == q
    &&& forall|i: int| 0 <= i < nodes.len() ==> is_listed(order, (#[trigger] nodes[i]).id@)
    &&& forall|a: int, b: int, p: int, q: int|
        has_edge(nodes, a, b) && #[trigger] is_listed_at(order, p, nodes[a].id@)
            && #[trigger] is_listed_at(order, q, nodes[b].id@) ==> p < q
}

/// `rank` gives every node a number that is below the numbers of all of its
/// dependents.
pub open spec fn is_ranking(nodes: Seq<LineNode>, rank: Seq<nat>) -> bool {
    &&& rank.len() == nodes.len()
    &&& forall|a: int, b: int| #[trigger] has_edge(nodes, a, b) ==> rank[a] < rank[b]
}

/// The graph has no cycle: its nodes can be numbered so that every edge
/// leads from a lower number to a higher one.
pub open spec fn is_acyclic(nodes: Seq<LineNode>) -> bool {
    exists|rank: Seq<nat>| is_ranking(nodes, rank)
}

/// A number above all of `rank`.
spec fn above_all(rank: Seq<nat>) -> nat
    decreases rank.len(),
{
    if rank.len() == 0 {
        0
    } else if rank.last() < above_all(rank.drop_last()) {
        above_all(rank.drop_last())
    } else {
        rank.last() + 1
    }
}

proof fn lemma_above_all(rank: Seq<nat>, i: int)
    requires
        0 <= i < rank.len(),
    ensures
        rank[i] < above_all(rank),
    decreases rank.len(),
{
    if i < rank.len() - 1 {
        lemma_above_all(rank.drop_last(), i);
        assert(rank.drop_last()[i] == rank[i]);
    }
}

/// Along a path the numbers of a ranking never fall.
proof fn lemma_rank_along_path(nodes: Seq<LineNode>, rank: Seq<nat>, path: Seq<int>, i: int)
    requires
        is_ranking(nodes, rank),
        is_path(nodes, path),
        0 <= i < path.len(),
    ensures
        0 <= path[i] < nodes.len(),
        rank[path[0]] <= rank[path[i]],
    decreases i,
{
    if i > 0 {
        lemma_rank_along_path(nodes, rank, path, i - 1);
        assert(has_edge(nodes, path[i - 1], path[i - 1 + 1]));
    }
}

/// A graph with an edge whose start can be reached from its end has a
/// cycle.
pub proof fn lemma_cycle_has_no_ranking(nodes: Seq<LineNode>, a: int, b: int)
    requires
        has_edge(nodes, a, b),
        reaches(nodes, b, a),
    ensures
        !is_acyclic(nodes),
{
    if is_acyclic(nodes) {
        let rank = choose|rank: Seq<nat>| is_ranking(nodes, rank);
        let path = choose|path: Seq<int>| #[trigger]
            is_path(nodes, path) && path.first() == b && path.last() == a;
        lemma_rank_along_path(nodes, rank, path, path.len() - 1);
    }
}

/// A graph whose steps can be listed in topological order has no cycle.
pub proof fn lemma_order_gives_ranking(nodes: Seq<LineNode>, order: Seq<Seq<char>>)
    requires
        is_topological_order(nodes, order),
    ensures
        is_acyclic(nodes),
{
    let rank = Seq::new(
        nodes.len(),
        |i: int| (choose|p: int| #[trigger] is_listed_at(order, p, nodes[i].id@)) as nat,
    );
    assert forall|a: int, b: int| #[trigger] has_edge(nodes, a, b) implies rank[a] < rank[b] by {
        assert(is_listed(order, nodes[a].id@));
        assert(is_listed(order, nodes[b].id@));
        let pa = choose|p: int| #[trigger] is_listed_at(order, p, nodes[a].id@);
        let pb = choose|p: int| #[trigger] is_listed_at(order, p, nodes[b].id@);
        assert(is_listed_at(order, pa, nodes[a].id@) && is_listed_at(order, pb, nodes[b].id@));
    }
    assert(is_ranking(nodes, rank));
}

/// A graph without cycles stays without cycles when a step is added that
/// no step names, or when a step loses its dependents.
pub proof fn lemma_step_keeps_ranking(before: Seq<LineNode>, after: Seq<LineNode>, i: int)
    requires
        is_acyclic(before),
        dependents_exist(before),
        0 <= i <= before.len(),
        after.len() == if i == before.len() {
            before.len() + 1
        } else {
            before.len()
        },
        forall|a: int| 0 <= a < before.len() && a != i ==> #[trigger] after[a] == before[a],
        after[i].dependents@.len() == 0,
        i < before.len() ==> after[i].id@ == before[i].id@,
        i == before.len() ==> !has_step(before, after[i].id@),
    ensures
        is_acyclic(after),
{
    let rank = choose|rank: Seq<nat>| is_ranking(before, rank);
    let ranked = if i == before.len() {
        rank.push(0)
    } else {
        rank
    };
    assert forall|a: int, b: int| #[trigger] has_edge(after, a, b) implies ranked[a] < ranked[b] by {
        let k = choose|k: int|
            0 <= k < after[a].dependents@.len() && (#[trigger] after[a].dependents@[k])@
                == after[b].id@;
        assert(a != i);
        if b == before.len() {
            assert(has_step(before, (before[a].dependents@[k])@));
            assert(false);
        }
        assert(before[a].dependents@[k]@ == before[b].id@);
        assert(has_edge(before, a, b));
    }
    assert(is_ranking(after, ranked));
}

/// A graph that gains an edge whose start can be reached from its end has
/// a cycle afterwards: such a dependency has to be refused.
pub proof fn lemma_refused_link_would_close_cycle(
    before: Seq<LineNode>,
    after: Seq<LineNode>,
    p: int,
    d: int,
    prerequisite: Seq<char>,
    dependent: Seq<char>,
)
    requires
        gains_link(before, after, p, d, prerequisite, dependent),
        is_step_at(before, d, dependent),
        reaches(before, d, p),
    ensures
        !is_acyclic(after),
{
    assert forall|a: int, b: int| has_edge(before, a, b) implies #[trigger] has_edge(
        after,
        a,
        b,
    ) by {
        let k = choose|k: int|
            0 <= k < before[a].dependents@.len() && (#[trigger] before[a].dependents@[k])@
                == before[b].id@;
        assert(after[b].id == before[b].id);
        if a == p {
            assert(after[p].dependents@.drop_last()[k] == after[p].dependents@[k]);
        }
        assert(after[a].dependents@[k]@ == after[b].id@);
    }
    let path = choose|path: Seq<int>| #[trigger]
        is_path(before, path) && path.first() == d && path.last() == p;
    assert forall|i: int| 0 <= i < path.len() - 1 implies has_edge(
        after,
        #[trigger] path[i],
        path[i + 1],
    ) by {
        assert(has_edge(before, path[i], path[i + 1]));
    }
    assert(is_path(after, path) && path.first() == d && path.last() == p);
    let last = after[p].dependents@.len() - 1;
    assert(after[p].dependents@[last]@ == after[d].id@);
    assert(has_edge(after, p, d));
    lemma_cycle_has_no_ranking(after, p, d);
}

/// A graph without cycles stays without cycles when it gains an edge whose
/// start cannot be reached from its end.
pub proof fn lemma_link_keeps_ranking(
    before: Seq<LineNode>,
    after: Seq<LineNode>,
    p: int,
    d: int,
    prerequisite: Seq<char>,
    dependent: Seq<char>,
)
    requires
        is_acyclic(before),
        distinct_ids(before),
        gains_link(before, after, p, d, prerequisite, dependent),
        is_step_at(before, d, dependent),
        !reaches(before, d, p),
    ensures
        is_acyclic(after),
{
    let rank = choose|rank: Seq<nat>| is_ranking(before, rank);
    let lift = above_all(rank);
    let ranked = Seq::new(
        before.len(),
        |x: int|
            if reaches(before, d, x) {
                rank[x] + lift
            } else {
                rank[x]
            },
    );
    lemma_reaches_itself(before, d);
    lemma_above_all(rank, p);
    assert forall|a: int, b: int| #[trigger] has_edge(after, a, b) implies ranked[a] < ranked[b] by {
        let k = choose|k: int|
            0 <= k < after[a].dependents@.len() && (#[trigger] after[a].dependents@[k])@
                == after[b].id@;
        assert(after[b].id == before[b].id);
        if a == p && k == before[p].dependents@.len() {
            lemma_step_index_is(before, b, dependent);
            lemma_step_index_is(before, d, dependent);
            assert(b == d);
        } else {
            if a == p {
                assert(after[p].dependents@.drop_last()[k] == after[p].dependents@[k]);
            }
            assert(before[a].dependents@[k]@ == before[b].id@);
            assert(has_edge(before, a, b));
            if reaches(before, d, a) {
                lemma_reaches_one_more(before, d, a, b);
            }
        }
    }
    assert(is_ranking(after, ranked));
}

/// The `e.1`-th dependent of the node at `e.0` names the node at `b`.
spec fn targets(nodes: Seq<LineNode>, e: (int, int), b: int) -> bool {
    &&& 0 <= e.0 < nodes.len()
    &&& 0 <= e.1 < nodes[e.0].dependents@.len()
    &&& is_step_at(nodes, b, nodes[e.0].dependents@[e.1]@)
}

/// Whether `i` stands among the first `upto` entries of `order`.
spec fn placed_before(order: Seq<usize>, upto: int, i: int) -> bool {
    exists|p: int| 0 <= p < upto && p < order.len() && #[trigger] order[p] == i
}

/// An entry added at the end changes nothing among the entries before it.
proof fn lemma_placed_before_push(order: Seq<usize>, x: usize, upto: int, i: int)
    requires
        upto <= order.len(),
    ensures
        placed_before(order.push(x), upto, i) == placed_before(order, upto, i),
{
    let longer = order.push(x);
    if placed_before(order, upto, i) {
        let p = choose|p: int| 0 <= p < upto && p < order.len() && #[trigger] order[p] == i;
        assert(longer[p] == i);
    }
    if placed_before(longer, upto, i) {
        let p = choose|p: int| 0 <= p < upto && p < longer.len() && #[trigger] longer[p] == i;
        assert(order[p] == i);
    }
}

/// The node at `b` has a prerequisite that is not in `placed`.
spec fn waits_outside(nodes: Seq<LineNode>, placed: Set<int>, b: int) -> bool {
    exists|a: int| #[trigger] has_edge(nodes, a, b) && !placed.contains(a)
}

/// Where every node outside `placed` has a prerequisite outside `placed`,
/// no node of a graph without cycles is outside `placed`.
proof fn lemma_ranked_nodes_are_placed(
    nodes: Seq<LineNode>,
    placed: Set<int>,
    rank: Seq<nat>,
    i: int,
)
    requires
        is_ranking(nodes, rank),
        0 <= i < nodes.len(),
        forall|r: int|
            0 <= r < nodes.len() && !placed.contains(r) ==> #[trigger] waits_outside(
                nodes,
                placed,
                r,
            ),
    ensures
        placed.contains(i),
    decreases rank[i],
{
    if !placed.contains(i) {
        assert(waits_outside(nodes, placed, i));
        let a = choose|a: int| #[trigger] has_edge(nodes, a, i) && !placed.contains(a);
        lemma_ranked_nodes_are_placed(nodes, placed, rank, a);
    }
}

/// The error text for a line whose dependencies form a cycle.
pub open spec fn contains_cycles_text() -> Seq<char> {
    "The production line contains cycles"@
}

/// A production line that models dependencies between steps as a directed
/// graph.
#[derive(Debug, Clone)]
pub struct Line {
    /// The name of the line.
    name: String,
    /// The id of the line.
    id: String,
    /// The dependency graph nodes, in the order in which their ids were
    /// first added.
    nodes: Vec<LineNode>,
}

impl View for Line {
    type V = Seq<LineNode>;

    closed spec fn view(&self) -> Seq<LineNode> {
        self.nodes@
    }
}

impl Line {
    /// The name of the line, as text.
    pub closed spec fn name_text(self) -> Seq<char> {
        self.name@
    }

    /// The id of the line, as text.
    pub closed spec fn id_text(self) -> Seq<char> {
        self.id@
    }

    /// The nodes have distinct ids, and every listed dependent is a node.
    pub open spec fn well_linked(self) -> bool {
        distinct_ids(self@) && dependents_exist(self@)
    }

    /// The nodes have distinct ids, every listed dependent is a node, and
    /// the dependencies form no cycle.
    pub open spec fn wf(self) -> bool {
        self.well_linked() && is_acyclic(self@)
    }

    /// Creates a new production line.
    pub fn new(name: String, id: String) -> (line: Self)
        ensures
            line.wf(),
            line@.len() == 0,
            line.name_text() == name@,
            line.id_text() == id@,
    {
        let line = Self { name, id, nodes: Vec::new() };
        assert(is_ranking(line@, Seq::<nat>::empty()));
        line
    }

    /// The place of the node with the id `id`, if there is one.
    fn find_step(&self, id: &String) -> (r: Option<usize>)
        ensures
            match r {
                Some(i) => is_step_at(self@, i as int, id@),
                None => !has_step(self@, id@),
            },
    {
        let n = self.nodes.len();
        let mut i: usize = 0;
        while i < n
            invariant
                n == self.nodes@.len(),
                i <= n,
                forall|k: int| 0 <= k < i ==> !is_step_at(self@, k, id@),
            decreases n - i,
        {
            if self.nodes[i].id == *id {
                return Some(i);
            }
            i += 1;
        }
        None
    }

    /// Adds a step to the production line. Where a step with this id is
    /// there already, the new one takes its place, with no links of its own.
    pub fn add_step(&mut self, id: String, name: String, step_id: String)
        requires
            old(self).wf(),
        ensures
            final(self).wf(),
            final(self).name_text() == old(self).name_text(),
            final(self).id_text() == old(self).id_text(),
            has_step(old(self)@, id@) ==> final(self)@.len() == old(self)@.len() && final(self)@
                == old(self)@.update(
                step_index(old(self)@, id@),
                final(self)@[step_index(old(self)@, id@)],
            ) && final(self)@[step_index(old(self)@, id@)].is_unlinked(id@, name@, step_id@),
            !has_step(old(self)@, id@) ==> final(self)@.len() == old(self)@.len() + 1
                && final(self)@.drop_last() == old(self)@ && final(self)@.last().is_unlinked(
                id@,
                name@,
                step_id@,
            ),
    {
        let ghost before = self@;
        let node = LineNode::new(id, name, step_id);
        match self.find_step(&node.id) {
            Some(i) => {
                self.nodes.set(i, node);
                proof {
                    assert(is_step_at(before, i as int, node.id@));
                    assert(step_index(before, node.id@) == i) by {
                        let j = step_index(before, node.id@);
                        assert(is_step_at(before, j, node.id@));
                        if j != i {
                            if j < i {
                                assert(before[j].id@ != before[i as int].id@);
                            } else {
                                assert(before[i as int].id@ != before[j].id@);
                            }
                        }
                    }
                    assert(self@ =~= before.update(i as int, self@[i as int]));
                    lemma_step_keeps_ranking(before, self@, i as int);
                    assert forall|a: int| 0 <= a < self@.len() implies (#[trigger] self@[a]).id@
                        == before[a].id@ by {}
                    assert forall|a: int, k: int|
                        0 <= a < self@.len() && 0 <= k < self@[a].dependents@.len() implies has_step(
                        self@,
                        (#[trigger] self@[a].dependents@[k])@,
                    ) by {
                        let target = self@[a].dependents@[k]@;
                        assert(before[a].dependents@[k]@ == target);
                        assert(has_step(before, target));
                        let j = step_index(before, target);
                        assert(is_step_at(before, j, target));
                        assert(is_step_at(self@, j, target));
                    }
                }
            },
            None => {
                self.nodes.push(node);
                proof {
                    assert(self@.drop_last() =~= before);
                    lemma_step_keeps_ranking(before, self@, before.len() as int);
                    assert forall|a: int, b: int| 0 <= a < b < self@.len() implies (
                    #[trigger] self@[a]).id@ != (#[trigger] self@[b]).id@ by {
                        if b == before.len() {
                            assert(!is_step_at(before, a, node.id@));
                        }
                    }
                    assert forall|a: int, k: int|
                        0 <= a < self@.len() && 0 <= k < self@[a].dependents@.len() implies has_step(
                        self@,
                        (#[trigger] self@[a].dependents@[k])@,
                    ) by {
                        let target = self@[a].dependents@[k]@;
                        assert(before[a].dependents@[k]@ == target);
                        assert(has_step(before, target));
                        let j = step_index(before, target);
                        assert(is_step_at(before, j, target));
                        assert(is_step_at(self@, j, target));
                    }
                }
            },
        }
    }

    /// The place of the node that the `k`-th dependent of the node at `a`
    /// names.
    fn dependent_index(&self, a: usize, k: usize) -> (b: usize)
        requires
            self.well_linked(),
            a < self@.len(),
            k < self@[a as int].dependents@.len(),
        ensures
            is_step_at(self@, b as int, self@[a as int].dependents@[k as int]@),
            has_edge(self@, a as int, b as int),
    {
        let found = self.find_step(&self.nodes[a].dependents[k]);
        assert(has_step(self@, (self@[a as int].dependents@[k as int])@));
        found.unwrap()
    }

    /// Searches depth first, from the node at `start` along the edges, for
    /// the node at `target`.
    fn has_path_dfs(&self, start: usize, target: usize) -> (found: bool)
        requires
            self.well_linked(),
            start < self@.len(),
            target < self@.len(),
        ensures
            found == reaches(self@, start as int, target as int),
    {
        let n = self.nodes.len();
        let mut visited = unmarked(n);
        let mut stack: Vec<usize> = Vec::new();
        visited.set(start, true);
        stack.push(start);
        let ghost mut seen: Set<int> = Set::empty().insert(start as int);
        let ghost mut closed: Set<int> = Set::empty();
        proof {
            lemma_reaches_itself(self@, start as int);
            vstd::set_lib::lemma_int_range(0, n as int);
            vstd::set_lib::lemma_len_subset(seen, vstd::set_lib::set_int_range(0, n as int));
            assert(stack@[0] == start);
        }
        while stack.len() > 0
            invariant
                n == self@.len(),
                self.well_linked(),
                start < n,
                target < n,
                visited@.len() == n,
                seen.finite(),
                seen.len() <= n,
                forall|i: int| 0 <= i < n ==> (visited@[i] <==> seen.contains(i)),
                forall|i: int| seen.contains(i) ==> 0 <= i < n,
                forall|i: int| 0 <= i < n && visited@[i] ==> reaches(self@, start as int, i),
                forall|s: int|
                    0 <= s < stack@.len() ==> (#[trigger] stack@[s]) < n && visited@[stack@[s] as int],
                visited@[start as int],
                forall|i: int|
                    0 <= i < n && visited@[i] ==> closed.contains(i) || exists|s: int|
                        0 <= s < stack@.len() && #[trigger] stack@[s] == i,
                forall|i: int| closed.contains(i) ==> 0 <= i < n && i != target,
                forall|i: int, j: int|
                    closed.contains(i) && #[trigger] has_edge(self@, i, j) ==> visited@[j],
            decreases 2 * (n - seen.len()) + stack@.len(),
        {
            let ghost stack_before = stack@;
            let ghost measure = 2 * (n - seen.len()) + stack@.len();
            let current = stack.pop().unwrap();
            assert(current == stack_before[stack_before.len() - 1]);
            if current == target {
                return true;
            }
            proof {
                assert forall|i: int| 0 <= i < n && visited@[i] implies closed.contains(i) || i
                    == current || exists|s: int|
                    0 <= s < stack@.len() && #[trigger] stack@[s] == i by {
                    if !closed.contains(i) && i != current {
                        let s = choose|s: int|
                            0 <= s < stack_before.len() && #[trigger] stack_before[s] == i;
                        assert(stack@[s] == i);
                    }
                }
            }
            let m = self.nodes[current].dependents.len();
            let mut k: usize = 0;
            while k < m
                invariant
                    n == self@.len(),
                    self.well_linked(),
                    start < n,
                    target < n,
                    current < n,
                    current != target,
                    m == self@[current as int].dependents@.len(),
                    k <= m,
                    visited@.len() == n,
                    seen.finite(),
                    seen.len() <= n,
                    2 * (n - seen.len()) + stack@.len() < measure,
                    forall|i: int| 0 <= i < n ==> (visited@[i] <==> seen.contains(i)),
                    forall|i: int| seen.contains(i) ==> 0 <= i < n,
                    forall|i: int| 0 <= i < n && visited@[i] ==> reaches(self@, start as int, i),
                    forall|s: int|
                        0 <= s < stack@.len() ==> (#[trigger] stack@[s]) < n
                            && visited@[stack@[s] as int],
                    visited@[start as int],
                    visited@[current as int],
                    forall|i: int|
                        0 <= i < n && visited@[i] ==> closed.contains(i) || i == current
                            || exists|s: int| 0 <= s < stack@.len() && #[trigger] stack@[s] == i,
                    forall|i: int| closed.contains(i) ==> 0 <= i < n && i != target,
                    forall|i: int, j: int|
                        closed.contains(i) && #[trigger] has_edge(self@, i, j) ==> visited@[j],
                    forall|q: int, j: int|
                        0 <= q < k && #[trigger] is_step_at(
                            self@,
                            j,
                            (#[trigger] self@[current as int].dependents@[q])@,
                        ) ==> visited@[j],
                decreases m - k,
            {
                let next = self.dependent_index(current, k);
                let ghost stack_mid = stack@;
                if !visited[next] {
                    visited.set(next, true);
                    stack.push(next);
                    proof {
                        seen = seen.insert(next as int);
                        vstd::set_lib::lemma_int_range(0, n as int);
                        vstd::set_lib::lemma_len_subset(
                            seen,
                            vstd::set_lib::set_int_range(0, n as int),
                        );
                        lemma_reaches_one_more(
                            self@,
                            start as int,
                            current as int,
                            next as int,
                        );
                        assert(stack@[stack@.len() - 1] == next);
                        assert forall|i: int| 0 <= i < n && visited@[i] implies closed.contains(i)
                            || i == current || exists|s: int|
                            0 <= s < stack@.len() && #[trigger] stack@[s] == i by {
                            if !closed.contains(i) && i != current && i != next {
                                let s = choose|s: int|
                                    0 <= s < stack_mid.len() && #[trigger] stack_mid[s] == i;
                                assert(stack@[s] == i);
                            }
                        }
                    }
                }
                proof {
                    assert forall|j: int| #[trigger]
                        is_step_at(
                            self@,
                            j,
                            self@[current as int].dependents@[k as int]@,
                        ) implies visited@[j] by {
                        lemma_step_index_is(
                            self@,
                            j,
                            self@[current as int].dependents@[k as int]@,
                        );
                        lemma_step_index_is(
                            self@,
                            next as int,
                            self@[current as int].dependents@[k as int]@,
                        );
                    }
                }
                k += 1;
            }
            proof {
                assert forall|j: int| #[trigger]
                    has_edge(self@, current as int, j) implies visited@[j] by {
                    let q = choose|q: int|
                        0 <= q < self@[current as int].dependents@.len() && (
                        #[trigger] self@[current as int].dependents@[q])@ == self@[j].id@;
                    assert(is_step_at(self@, j, self@[current as int].dependents@[q]@));
                }
                closed = closed.insert(current as int);
            }
        }
        proof {
            if reaches(self@, start as int, target as int) {
                let path = choose|path: Seq<int>| #[trigger]
                    is_path(self@, path) && path.first() == start as int && path.last()
                        == target as int;
                assert forall|a: int, b: int|
                    0 <= a < n && visited@[a] && #[trigger] has_edge(
                        self@,
                        a,
                        b,
                    ) implies visited@[b] by {
                    assert(closed.contains(a));
                }
                lemma_closed_set_holds_path(self@, visited@, path, path.len() - 1);
                assert(closed.contains(target as int));
            }
        }
        false
    }

    /// Checks if adding a dependency would create a cycle in the graph.
    pub fn would_create_cycle(&self, from: &str, to: &str) -> (r: bool)
        requires
            self.wf(),
        ensures
            r == closes_cycle(self@, from@, to@),
    {
        let from_id = from.to_owned();
        let to_id = to.to_owned();
        if from_id == to_id {
            return true;
        }
        match self.find_step(&to_id) {
            None => false,
            Some(start) => match self.find_step(&from_id) {
                None => false,
                Some(target) => {
                    proof {
                        lemma_step_index_is(self@, start as int, to@);
                        lemma_step_index_is(self@, target as int, from@);
                    }
                    self.has_path_dfs(start, target)
                },
            },
        }
    }

    /// Adds a dependency between two steps: `dependent_id` can start only
    /// when `prerequisite_id` is done. Fails, and leaves the line as it
    /// was, if one of the steps does not exist or if the dependency would
    /// create a cycle.
    pub fn add_dependency(&mut self, prerequisite_id: String, dependent_id: String) -> (r: Result<
        (),
        String,
    >)
        requires
            old(self).wf(),
        ensures
            final(self).wf(),
            final(self).name_text() == old(self).name_text(),
            final(self).id_text() == old(self).id_text(),
            r is Err ==> final(self)@ == old(self)@,
            !has_step(old(self)@, prerequisite_id@) ==> r is Err && r->Err_0@
                == missing_prerequisite_text(prerequisite_id@),
            has_step(old(self)@, prerequisite_id@) && !has_step(old(self)@, dependent_id@) ==> r is Err
                && r->Err_0@ == missing_dependent_text(dependent_id@),
            has_step(old(self)@, prerequisite_id@) && has_step(old(self)@, dependent_id@)
                && closes_cycle(old(self)@, prerequisite_id@, dependent_id@) ==> r is Err
                && r->Err_0@ == cycle_text(prerequisite_id@, dependent_id@),
            has_step(old(self)@, prerequisite_id@) && has_step(old(self)@, dependent_id@)
                && !closes_cycle(old(self)@, prerequisite_id@, dependent_id@) ==> r is Ok
                && gains_link(
                old(self)@,
                final(self)@,
                step_index(old(self)@, prerequisite_id@),
                step_index(old(self)@, dependent_id@),
                prerequisite_id@,
                dependent_id@,
            ),
    {
        let ghost before = self@;
        let p = match self.find_step(&prerequisite_id) {
            Some(p) => p,
            None => {
                let mut text = "Prerequisite step '".to_owned();
                text.append(prerequisite_id.as_str());
                text.append("' does not exist");
                return Err(text);
            },
        };
        let d = match self.find_step(&dependent_id) {
            Some(d) => d,
            None => {
                let mut text = "Dependent step '".to_owned();
                text.append(dependent_id.as_str());
                text.append("' does not exist");
                return Err(text);
            },
        };
        proof {
            lemma_step_index_is(self@, p as int, prerequisite_id@);
            lemma_step_index_is(self@, d as int, dependent_id@);
        }
        if self.would_create_cycle(prerequisite_id.as_str(), dependent_id.as_str()) {
            let mut text = "Adding dependency from '".to_owned();
            text.append(prerequisite_id.as_str());
            text.append("' to '");
            text.append(dependent_id.as_str());
            text.append("' would create a cycle");
            return Err(text);
        }
        self.nodes[p].dependents.push(dependent_id.clone());
        self.nodes[d].dependencies.push(prerequisite_id);
        proof {
            assert(self@[p as int].dependents@.drop_last() =~= before[p as int].dependents@);
            assert(self@[d as int].dependencies@.drop_last() =~= before[d as int].dependencies@);
            lemma_link_keeps_ranking(
                before,
                self@,
                p as int,
                d as int,
                prerequisite_id@,
                dependent_id@,
            );
            assert forall|a: int| 0 <= a < self@.len() implies (#[trigger] self@[a]).id
                == before[a].id by {}
            assert forall|a: int, k: int|
                0 <= a < self@.len() && 0 <= k < self@[a].dependents@.len() implies has_step(
                self@,
                (#[trigger] self@[a].dependents@[k])@,
            ) by {
                let target = self@[a].dependents@[k]@;
                if a == p && k == before[p as int].dependents@.len() {
                    assert(is_step_at(self@, d as int, target));
                } else {
                    assert(before[a].dependents@[k]@ == target);
                    assert(has_step(before, target));
                    let j = step_index(before, target);
                    assert(is_step_at(before, j, target));
                    assert(is_step_at(self@, j, target));
                }
            }
        }
        Ok(())
    }

    /// Gets all immediate prerequisites for a given step.
    pub fn get_prerequisites(&self, step_id: &str) -> (r: Option<&[String]>)
        requires
            self.wf(),
        ensures
            r is Some == has_step(self@, step_id@),
            r is Some ==> r->Some_0@ == self@[step_index(self@, step_id@)].dependencies@,
    {
        let id = step_id.to_owned();
        match self.find_step(&id) {
            Some(i) => {
                proof {
                    lemma_step_index_is(self@, i as int, step_id@);
                }
                Some(self.nodes[i].dependencies())
            },
            None => None,
        }
    }

    /// Gets all immediate dependents for a given step.
    pub fn get_dependents(&self, step_id: &str) -> (r: Option<&[String]>)
        requires
            self.wf(),
        ensures
            r is Some == has_step(self@, step_id@),
            r is Some ==> r->Some_0@ == self@[step_index(self@, step_id@)].dependents@,
    {
        let id = step_id.to_owned();
        match self.find_step(&id) {
            Some(i) => {
                proof {
                    lemma_step_index_is(self@, i as int, step_id@);
                }
                Some(self.nodes[i].dependents())
            },
            None => None,
        }
    }

    /// Whether every prerequisite of the node at `i` is completed.
    fn prerequisites_completed(&self, i: usize, completed_steps: &Vec<String>) -> (r: bool)
        requires
            i < self@.len(),
        ensures
            r == forall|k: int|
                0 <= k < self@[i as int].dependencies@.len() ==> lists(
                    completed_steps@,
                    (#[trigger] self@[i as int].dependencies@[k])@,
                ),
    {
        let node = &self.nodes[i];
        let m = node.dependencies.len();
        let mut k: usize = 0;
        while k < m
            invariant
                *node == self@[i as int],
                m == node.dependencies@.len(),
                k <= m,
                forall|q: int|
                    0 <= q < k ==> lists(completed_steps@, (#[trigger] node.dependencies@[q])@),
            decreases m - k,
        {
            if !contains_id(completed_steps, &node.dependencies[k]) {
                return false;
            }
            k += 1;
        }
        true
    }

    /// Gets all steps that can be started: those that are not completed and
    /// have no unfinished prerequisites, in the order of the nodes.
    pub fn get_ready_steps(&self, completed_steps: &Vec<String>) -> (ready_steps: Vec<String>)
        ensures
            texts(ready_steps@) == ready_ids(self@, completed_steps@),
    {
        let mut ready_steps: Vec<String> = Vec::new();
        let n = self.nodes.len();
        let mut i: usize = 0;
        assert(texts(ready_steps@) =~= ready_ids(self@.take(0), completed_steps@));
        while i < n
            invariant
                n == self@.len(),
                i <= n,
                texts(ready_steps@) == ready_ids(self@.take(i as int), completed_steps@),
            decreases n - i,
        {
            assert(self@.take(i as int + 1).drop_last() =~= self@.take(i as int));
            assert(self@.take(i as int + 1).last() == self@[i as int]);
            let ghost ready_before = ready_steps@;
            if !contains_id(completed_steps, &self.nodes[i].id) && self.prerequisites_completed(
                i,
                completed_steps,
            ) {
                ready_steps.push(self.nodes[i].id.clone());
                assert(texts(ready_steps@) =~= texts(ready_before).push(self@[i as int].id@));
            }
            i += 1;
        }
        assert(self@.take(n as int) =~= self@);
        ready_steps
    }

    /// Counts, for every node, the dependencies that point at it.
    fn count_incoming(&self) -> (r: (Vec<u128>, Ghost<Seq<Set<(int, int)>>>))
        requires
            self.well_linked(),
        ensures
            r.0@.len() == self@.len(),
            r.1@.len() == self@.len(),
            forall|b: int|
                0 <= b < self@.len() ==> (#[trigger] r.1@[b]).finite() && r.0@[b] == r.1@[b].len(),
            forall|b: int, e: (int, int)|
                #![trigger r.1@[b].contains(e)]
                #![trigger targets(self@, e, b)]
                0 <= b < self@.len() ==> (r.1@[b].contains(e) <==> targets(self@, e, b)),
    {
        let n = self.nodes.len();
        let mut in_degree: Vec<u128> = Vec::new();
        let ghost mut incoming: Seq<Set<(int, int)>> = Seq::empty();
        let mut i: usize = 0;
        while i < n
            invariant
                i <= n,
                in_degree@.len() == i,
                incoming.len() == i,
                forall|b: int| 0 <= b < i ==> in_degree@[b] == 0,
                forall|b: int| 0 <= b < i ==> (#[trigger] incoming[b]) == Set::<(int, int)>::empty(),
            decreases n - i,
        {
            in_degree.push(0);
            proof {
                incoming = incoming.push(Set::empty());
            }
            i += 1;
        }
        let mut a: usize = 0;
        while a < n
            invariant
                n == self@.len(),
                self.well_linked(),
                a <= n,
                in_degree@.len() == n,
                incoming.len() == n,
                forall|b: int| 0 <= b < n ==> in_degree@[b] <= a * 0x1_0000_0000_0000_0000,
                forall|b: int|
                    0 <= b < n ==> (#[trigger] incoming[b]).finite() && in_degree@[b]
                        == incoming[b].len(),
                forall|b: int, e: (int, int)|
                    #![trigger incoming[b].contains(e)]
                    #![trigger targets(self@, e, b)]
                    0 <= b < n ==> (incoming[b].contains(e) <==> targets(self@, e, b) && e.0 < a),
            decreases n - a,
        {
            let m = self.nodes[a].dependents.len();
            let mut k: usize = 0;
            while k < m
                invariant
                    n == self@.len(),
                    self.well_linked(),
                    a < n,
                    m == self@[a as int].dependents@.len(),
                    k <= m,
                    in_degree@.len() == n,
                    incoming.len() == n,
                    forall|b: int| 0 <= b < n ==> in_degree@[b] <= a * 0x1_0000_0000_0000_0000 + k,
                    forall|b: int|
                        0 <= b < n ==> (#[trigger] incoming[b]).finite() && in_degree@[b]
                            == incoming[b].len(),
                    forall|b: int, e: (int, int)|
                        #![trigger incoming[b].contains(e)]
                        #![trigger targets(self@, e, b)]
                        0 <= b < n ==> (incoming[b].contains(e) <==> targets(self@, e, b) && (e.0
                            < a || (e.0 == a && e.1 < k))),
                decreases m - k,
            {
                let b = self.dependent_index(a, k);
                let ghost before = incoming;
                let count = in_degree[b];
                in_degree.set(b, count + 1);
                proof {
                    let e = (a as int, k as int);
                    incoming = incoming.update(b as int, incoming[b as int].insert(e));
                    assert(!before[b as int].contains(e));
                    assert(targets(self@, e, b as int));
                    assert forall|c: int, f: (int, int)| 0 <= c < n implies (incoming[c].contains(f)
                        <==> targets(self@, f, c) && (f.0 < a || (f.0 == a && f.1 < k + 1))) by {
                        assert(before[c].contains(f) <==> targets(self@, f, c) && (f.0 < a || (f.0
                            == a && f.1 < k)));
                        if f == e && targets(self@, f, c) {
                            lemma_step_index_is(self@, c, self@[a as int].dependents@[k as int]@);
                            lemma_step_index_is(
                                self@,
                                b as int,
                                self@[a as int].dependents@[k as int]@,
                            );
                        }
                        if c != b {
                            assert(incoming[c] == before[c]);
                        } else {
                            assert(incoming[c] == before[c].insert(e));
                        }
                    }
                    assert forall|c: int| 0 <= c < n implies (#[trigger] incoming[c]).finite()
                        && in_degree@[c] == incoming[c].len() by {
                        if c != b {
                            assert(incoming[c] == before[c]);
                        }
                    }
                }
                k += 1;
            }
            a += 1;
        }
        (in_degree, Ghost(incoming))
    }

    /// Puts the nodes in an order in which each stands after all of its
    /// prerequisites. The second part tells whether all nodes were placed.
    fn order_nodes(&self) -> (r: (Vec<usize>, Ghost<Set<int>>))
        requires
            self.well_linked(),
        ensures
            r.0@.len() <= self@.len(),
            forall|p: int| 0 <= p < r.0@.len() ==> (#[trigger] r.0@[p]) < self@.len(),
            forall|p: int, q: int|
                0 <= p < q < r.0@.len() ==> (#[trigger] r.0@[p]) != (#[trigger] r.0@[q]),
            forall|q: int, a: int|
                0 <= q < r.0@.len() && #[trigger] has_edge(self@, a, r.0@[q] as int)
                    ==> placed_before(r.0@, q, a),
            r.1@.finite(),
            r.1@.len() == r.0@.len(),
            forall|i: int| r.1@.contains(i) <==> 0 <= i < self@.len() && placed_before(
                r.0@,
                r.0@.len() as int,
                i,
            ),
            forall|b: int|
                0 <= b < self@.len() && !r.1@.contains(b) ==> #[trigger] waits_outside(
                    self@,
                    r.1@,
                    b,
                ),
    {
        let n = self.nodes.len();
        let (mut in_degree, Ghost(counted)) = self.count_incoming();
        let ghost mut incoming = counted;
        let ghost mut queued: Set<int> = Set::empty();
        let ghost mut done: Set<int> = Set::empty();
        let mut order: Vec<usize> = Vec::new();
        let mut i: usize = 0;
        proof {
            vstd::set_lib::lemma_int_range(0, n as int);
        }
        while i < n
            invariant
                n == self@.len(),
                self.well_linked(),
                i <= n,
                in_degree@.len() == n,
                incoming.len() == n,
                forall|b: int|
                    0 <= b < n ==> (#[trigger] incoming[b]).finite() && in_degree@[b]
                        == incoming[b].len(),
                forall|b: int, e: (int, int)|
                    #![trigger incoming[b].contains(e)]
                    #![trigger targets(self@, e, b)]
                    0 <= b < n ==> (incoming[b].contains(e) <==> targets(self@, e, b)),
                forall|p: int| 0 <= p < order@.len() ==> (#[trigger] order@[p]) < i,
                forall|p: int, q: int|
                    0 <= p < q < order@.len() ==> (#[trigger] order@[p]) != (#[trigger] order@[q]),
                forall|b: int|
                    0 <= b < i ==> (in_degree@[b] == 0 <==> #[trigger] queued.contains(b)),
                queued.finite(),
                queued.len() == order@.len(),
                forall|b: int|
                    #[trigger] queued.contains(b) <==> 0 <= b < n && placed_before(
                        order@,
                        order@.len() as int,
                        b,
                    ),
                forall|b: int| queued.contains(b) ==> 0 <= b < i,
            decreases n - i,
        {
            if in_degree[i] == 0 {
                let ghost before = order@;
                order.push(i);
                proof {
                    queued = queued.insert(i as int);
                    assert(order@[order@.len() - 1] == i);
                    assert forall|b: int| #[trigger]
                        queued.contains(b) <==> 0 <= b < n && placed_before(
                            order@,
                            order@.len() as int,
                            b,
                        ) by {
                        lemma_placed_before_push(before, i, before.len() as int, b);
                        if placed_before(order@, order@.len() as int, b) && b != i {
                            let p = choose|p: int|
                                0 <= p < order@.len() && #[trigger] order@[p] == b;
                            assert(before[p] == b);
                        }
                    }
                }
            }
            i += 1;
        }
        let mut head: usize = 0;
        proof {
            assert forall|q: int, a: int|
                0 <= q < order@.len() && #[trigger] has_edge(
                    self@,
                    a,
                    order@[q] as int,
                ) implies placed_before(order@, q, a) by {
                let b = order@[q] as int;
                assert(queued.contains(b)) by {
                    assert(placed_before(order@, order@.len() as int, b));
                }
                let k = choose|k: int|
                    0 <= k < self@[a].dependents@.len() && (#[trigger] self@[a].dependents@[k])@
                        == self@[b].id@;
                assert(targets(self@, (a, k), b));
                assert(incoming[b].contains((a, k)));
                incoming[b].lemma_len0_is_empty();
            }
            vstd::set_lib::lemma_len_subset(queued, vstd::set_lib::set_int_range(0, n as int));
        }
        while head < order.len()
            invariant
                n == self@.len(),
                self.well_linked(),
                in_degree@.len() == n,
                incoming.len() == n,
                head <= order@.len() <= n,
                forall|b: int|
                    0 <= b < n ==> (#[trigger] incoming[b]).finite() && in_degree@[b]
                        == incoming[b].len(),
                forall|b: int, e: (int, int)|
                    #![trigger incoming[b].contains(e)]
                    #![trigger targets(self@, e, b)]
                    0 <= b < n ==> (incoming[b].contains(e) <==> targets(self@, e, b)
                        && !done.contains(e.0)),
                forall|x: int| #[trigger] done.contains(x) <==> placed_before(order@, head as int, x),
                forall|p: int| 0 <= p < order@.len() ==> (#[trigger] order@[p]) < n,
                forall|p: int, q: int|
                    0 <= p < q < order@.len() ==> (#[trigger] order@[p]) != (#[trigger] order@[q]),
                forall|b: int|
                    0 <= b < n ==> (in_degree@[b] == 0 <==> #[trigger] queued.contains(b)),
                forall|q: int, a: int|
                    0 <= q < order@.len() && #[trigger] has_edge(self@, a, order@[q] as int)
                        ==> placed_before(order@, q, a),
                queued.finite(),
                queued.len() == order@.len(),
                forall|b: int|
                    #[trigger] queued.contains(b) <==> 0 <= b < n && placed_before(
                        order@,
                        order@.len() as int,
                        b,
                    ),
            decreases n - head,
        {
            let current = order[head];
            let ghost done_before = done;
            proof {
                assert(!done.contains(current as int)) by {
                    if placed_before(order@, head as int, current as int) {
                        let p = choose|p: int|
                            0 <= p < head && p < order@.len() && #[trigger] order@[p]
                                == current as int;
                        assert(order@[p] != order@[head as int]);
                    }
                }
            }
            head += 1;
            let m = self.nodes[current].dependents.len();
            let mut k: usize = 0;
            while k < m
                invariant
                    n == self@.len(),
                    self.well_linked(),
                    in_degree@.len() == n,
                    incoming.len() == n,
                    1 <= head <= order@.len() <= n,
                    current == order@[head - 1],
                    current < n,
                    m == self@[current as int].dependents@.len(),
                    k <= m,
                    !done.contains(current as int),
                    forall|b: int|
                        0 <= b < n ==> (#[trigger] incoming[b]).finite() && in_degree@[b]
                            == incoming[b].len(),
                    forall|b: int, e: (int, int)|
                        #![trigger incoming[b].contains(e)]
                        #![trigger targets(self@, e, b)]
                        0 <= b < n ==> (incoming[b].contains(e) <==> targets(self@, e, b)
                            && !done.contains(e.0) && !(e.0 == current && e.1 < k)),
                    forall|x: int| #[trigger]
                        done.contains(x) <==> placed_before(order@, head - 1, x),
                    forall|p: int| 0 <= p < order@.len() ==> (#[trigger] order@[p]) < n,
                    forall|p: int, q: int|
                        0 <= p < q < order@.len() ==> (#[trigger] order@[p]) != (
                        #[trigger] order@[q]),
                    forall|b: int|
                        0 <= b < n ==> (in_degree@[b] == 0 <==> #[trigger] queued.contains(b)),
                    forall|q: int, a: int|
                        0 <= q < order@.len() && #[trigger] has_edge(self@, a, order@[q] as int)
                            ==> placed_before(order@, q, a),
                    queued.finite(),
                    queued.len() == order@.len(),
                    forall|b: int|
                        #[trigger] queued.contains(b) <==> 0 <= b < n && placed_before(
                            order@,
                            order@.len() as int,
                            b,
                        ),
                decreases m - k,
            {
                let b = self.dependent_index(current, k);
                let ghost e = (current as int, k as int);
                let ghost incoming_before = incoming;
                let ghost order_before = order@;
                proof {
                    assert(targets(self@, e, b as int));
                    assert(incoming[b as int].contains(e));
                    incoming = incoming.update(b as int, incoming[b as int].remove(e));
                    assert(incoming_before[b as int].len() >= 1);
                }
                let count = in_degree[b] - 1;
                in_degree.set(b, count);
                proof {
                    assert forall|c: int, f: (int, int)| 0 <= c < n implies (incoming[c].contains(f)
                        <==> targets(self@, f, c) && !done.contains(f.0) && !(f.0 == current && f.1
                        < k + 1)) by {
                        assert(incoming_before[c].contains(f) <==> targets(self@, f, c)
                            && !done.contains(f.0) && !(f.0 == current && f.1 < k));
                        if f == e && targets(self@, f, c) {
                            lemma_step_index_is(
                                self@,
                                c,
                                self@[current as int].dependents@[k as int]@,
                            );
                            lemma_step_index_is(
                                self@,
                                b as int,
                                self@[current as int].dependents@[k as int]@,
                            );
                        }
                        if c != b {
                            assert(incoming[c] == incoming_before[c]);
                        } else {
                            assert(incoming[c] == incoming_before[c].remove(e));
                        }
                    }
                    assert forall|c: int| 0 <= c < n implies (#[trigger] incoming[c]).finite()
                        && in_degree@[c] == incoming[c].len() by {
                        if c != b {
                            assert(incoming[c] == incoming_before[c]);
                        }
                    }
                }
                if count == 0 {
                    order.push(b);
                    proof {
                        assert(!queued.contains(b as int));
                        queued = queued.insert(b as int);
                        vstd::set_lib::lemma_int_range(0, n as int);
                        vstd::set_lib::lemma_len_subset(
                            queued,
                            vstd::set_lib::set_int_range(0, n as int),
                        );
                        let last = order@.len() - 1;
                        assert(order@[last] == b);
                        assert forall|x: int| #[trigger]
                            queued.contains(x) <==> 0 <= x < n && placed_before(
                                order@,
                                order@.len() as int,
                                x,
                            ) by {
                            lemma_placed_before_push(order_before, b, order_before.len() as int, x);
                            if placed_before(order@, order@.len() as int, x) && x != b {
                                let p = choose|p: int|
                                    0 <= p < order@.len() && #[trigger] order@[p] == x;
                                assert(order_before[p] == x);
                            }
                        }
                        assert forall|x: int| #[trigger]
                            done.contains(x) <==> placed_before(order@, head - 1, x) by {
                            lemma_placed_before_push(order_before, b, head - 1, x);
                        }
                        assert forall|p: int, q: int| 0 <= p < q < order@.len() implies (
                        #[trigger] order@[p]) != (#[trigger] order@[q]) by {
                            if q == last {
                                assert(order_before[p] == order@[p]);
                                assert(placed_before(
                                    order_before,
                                    order_before.len() as int,
                                    order@[p] as int,
                                ));
                            }
                        }
                        assert forall|q: int, a: int|
                            0 <= q < order@.len() && #[trigger] has_edge(
                                self@,
                                a,
                                order@[q] as int,
                            ) implies placed_before(order@, q, a) by {
                            if q < last {
                                assert(order@[q] == order_before[q]);
                                assert(placed_before(order_before, q, a));
                                lemma_placed_before_push(order_before, b, q, a);
                            } else {
                                let j = choose|j: int|
                                    0 <= j < self@[a].dependents@.len() && (
                                    #[trigger] self@[a].dependents@[j])@ == self@[b as int].id@;
                                assert(targets(self@, (a, j), b as int));
                                incoming[b as int].lemma_len0_is_empty();
                                assert(!incoming[b as int].contains((a, j)));
                                if done.contains(a) {
                                    assert(placed_before(order@, head - 1, a));
                                    let p = choose|p: int|
                                        0 <= p < head - 1 && p < order@.len() && #[trigger] order@[p]
                                            == a;
                                    assert(p < q && order@[p] == a);
                                } else {
                                    assert(a == current);
                                    assert(order@[head - 1] == a);
                                }
                            }
                        }
                    }
                }
                k += 1;
            }
            proof {
                done = done.insert(current as int);
                assert forall|x: int| #[trigger]
                    done.contains(x) <==> placed_before(order@, head as int, x) by {
                    if placed_before(order@, head as int, x) && x != current {
                        let p = choose|p: int|
                            0 <= p < head && p < order@.len() && #[trigger] order@[p] == x;
                        assert(p < head - 1);
                        assert(placed_before(order@, head - 1, x));
                    }
                    if done_before.contains(x) {
                        let p = choose|p: int|
                            0 <= p < head - 1 && p < order@.len() && #[trigger] order@[p] == x;
                        assert(p < head);
                    }
                }
            }
        }
        proof {
            assert forall|b: int| 0 <= b < n && !queued.contains(b) implies #[trigger] waits_outside(
                self@,
                queued,
                b,
            ) by {
                assert(in_degree@[b] != 0);
                let e = incoming[b].choose();
                assert(incoming[b].contains(e));
                assert(targets(self@, e, b));
                assert(!done.contains(e.0));
                assert(self@[e.0].has_dependent(self@[b].id@));
                assert(has_edge(self@, e.0, b));
                assert(!placed_before(order@, order@.len() as int, e.0));
            }
        }
        (order, Ghost(queued))
    }

    /// Returns the steps in topological order (dependency order): every
    /// step once, each after all of its prerequisites.
    /// Returns None if the graph contains cycles, which that of a line
    /// that `wf` holds of never does.
    pub fn topological_sort(&self) -> (r: Option<Vec<String>>)
        requires
            self.well_linked(),
        ensures
            r is Some == is_acyclic(self@),
            r is Some ==> is_topological_order(self@, texts(r->Some_0@)),
    {
        let n = self.nodes.len();
        let (order, Ghost(placed)) = self.order_nodes();
        proof {
            vstd::set_lib::lemma_int_range(0, n as int);
        }
        if order.len() != n {
            proof {
                if is_acyclic(self@) {
                    let rank = choose|rank: Seq<nat>| is_ranking(self@, rank);
                    assert forall|i: int| 0 <= i < n implies placed.contains(i) by {
                        lemma_ranked_nodes_are_placed(self@, placed, rank, i);
                    }
                    vstd::set_lib::lemma_len_subset(
                        vstd::set_lib::set_int_range(0, n as int),
                        placed,
                    );
                }
            }
            return None;
        }
        let mut result: Vec<String> = Vec::new();
        let mut p: usize = 0;
        while p < n
            invariant
                n == self@.len(),
                order@.len() == n,
                p <= n,
                result@.len() == p,
                forall|q: int| 0 <= q < n ==> (#[trigger] order@[q]) < n,
                forall|q: int| 0 <= q < p ==> (#[trigger] result@[q])@ == self@[order@[q] as int].id@,
            decreases n - p,
        {
            result.push(self.nodes[order[p]].id.clone());
            p += 1;
        }
        proof {
            let listing = texts(result@);
            assert forall|q: int| 0 <= q < n implies #[trigger] listing[q] == self@[order@[q] as int].id@ by {}
            assert forall|a: int, b: int, id: Seq<char>|
                #[trigger] is_listed_at(listing, a, id) && #[trigger] is_listed_at(
                    listing,
                    b,
                    id,
                ) implies a == b by {
                if a != b {
                    let x = order@[a] as int;
                    let y = order@[b] as int;
                    if a < b {
                        assert(order@[a] != order@[b]);
                    } else {
                        assert(order@[b] != order@[a]);
                    }
                    if x < y {
                        assert(self@[x].id@ != self@[y].id@);
                    } else {
                        assert(self@[y].id@ != self@[x].id@);
                    }
                }
            }
            assert(placed =~= vstd::set_lib::set_int_range(0, n as int)) by {
                vstd::set_lib::lemma_subset_equality(
                    placed,
                    vstd::set_lib::set_int_range(0, n as int),
                );
            }
            assert forall|i: int| 0 <= i < n implies is_listed(
                listing,
                (#[trigger] self@[i]).id@,
            ) by {
                assert(placed.contains(i));
                assert(placed_before(order@, n as int, i));
                let q = choose|q: int| 0 <= q < n && q < order@.len() && #[trigger] order@[q] == i;
                assert(is_listed_at(listing, q, self@[i].id@));
            }
            assert forall|a: int, b: int, x: int, y: int|
                has_edge(self@, a, b) && #[trigger] is_listed_at(listing, x, self@[a].id@)
                    && #[trigger] is_listed_at(listing, y, self@[b].id@) implies x < y by {
                lemma_step_index_is(self@, a, self@[a].id@);
                lemma_step_index_is(self@, order@[x] as int, self@[a].id@);
                lemma_step_index_is(self@, b, self@[b].id@);
                lemma_step_index_is(self@, order@[y] as int, self@[b].id@);
                assert(has_edge(self@, a, order@[y] as int));
                assert(placed_before(order@, y, a));
                let z = choose|z: int| 0 <= z < y && z < order@.len() && #[trigger] order@[z] == a;
                if z < x {
                    assert(order@[z] != order@[x]);
                } else if x < z {
                    assert(order@[x] != order@[z]);
                }
            }
            assert(is_topological_order(self@, listing));
            lemma_order_gives_ranking(self@, listing);
        }
        Some(result)
    }

    /// Validates the production line graph: it is in order exactly if its
    /// dependencies form no cycle. For a graph with a cycle the one error
    /// says so.
    pub fn validate(&self) -> (r: Result<(), Vec<String>>)
        requires
            self.well_linked(),
        ensures
            r is Ok == is_acyclic(self@),
            r is Err ==> r->Err_0@.len() == 1 && r->Err_0@[0]@ == contains_cycles_text(),
    {
        let mut errors: Vec<String> = Vec::new();
        if self.topological_sort().is_none() {
            errors.push("The production line contains cycles".to_owned());
        }
        if errors.len() == 0 {
            Ok(())
        } else {
            Err(errors)
        }
    }

    /// Returns the line name.
    pub fn name(&self) -> (r: &str)
        ensures
            r@ == self.name_text(),
    {
        self.name.as_str()
    }

    /// Returns the line ID.
    pub fn id(&self) -> (r: &str)
        ensures
            r@ == self.id_text(),
    {
        self.id.as_str()
    }

    /// Returns a reference to all nodes.
    pub fn nodes(&self) -> (r: &Vec<LineNode>)
        ensures
            r@ == self@,
    {
        &self.nodes
    }
}

} // verus!
