//! The topology graph: known nodes keyed by (id, kind), with every edge
//! stored in both directions, built from flood traces.
use petgraph::graphmap::GraphMap;
use petgraph::Directed;
use rand::Rng;
use std::hash::BuildHasher;
use vstd::prelude::*;
use crate::error::NodeError;
use crate::packet::NodeType;

verus! {

#[verifier::external_type_specification]
#[verifier::external_body]
#[verifier::reject_recursive_types(N)]
#[verifier::reject_recursive_types(E)]
#[verifier::reject_recursive_types(Ty)]
#[verifier::reject_recursive_types(S)]
pub struct ExGraphMap<N, E, Ty, S: BuildHasher>(GraphMap<N, E, Ty, S>);

#[verifier::external_type_specification]
#[verifier::external_body]
pub struct ExDirected(Directed);

/// The nodes of a topology map, each an (id, kind code) pair.
pub uninterp spec fn map_nodes(g: GraphMap<(u8, u8), (), Directed>) -> Set<(u8, u8)>;

/// The directed edges of a topology map.
pub uninterp spec fn map_edges(g: GraphMap<(u8, u8), (), Directed>) -> Set<((u8, u8), (u8, u8))>;

/// Relies on petgraph's `GraphMap::new`: a map without nodes or edges.
#[verifier::external_body]
fn map_new() -> (r: GraphMap<(u8, u8), (), Directed>)
    ensures
        map_nodes(r) == Set::<(u8, u8)>::empty(),
        map_edges(r) == Set::<((u8, u8), (u8, u8))>::empty(),
{
    GraphMap::new()
}

/// Relies on petgraph's `GraphMap::add_node`: adds the node if absent.
#[verifier::external_body]
fn map_add_node(g: &mut GraphMap<(u8, u8), (), Directed>, n: (u8, u8))
    ensures
        map_nodes(*final(g)) == map_nodes(*old(g)).insert(n),
        map_edges(*final(g)) == map_edges(*old(g)),
{
    g.add_node(n);
}

/// Relies on petgraph's `GraphMap::contains_node`.
#[verifier::external_body]
fn map_contains_node(g: &GraphMap<(u8, u8), (), Directed>, n: (u8, u8)) -> (r: bool)
    ensures
        r == map_nodes(*g).contains(n),
{
    g.contains_node(n)
}

/// Relies on petgraph's `GraphMap::add_edge`: adds the edge from `a` to `b`
/// and both end nodes, where absent.
#[verifier::external_body]
fn map_add_edge(g: &mut GraphMap<(u8, u8), (), Directed>, a: (u8, u8), b: (u8, u8))
    ensures
        map_nodes(*final(g)) == map_nodes(*old(g)).insert(a).insert(b),
        map_edges(*final(g)) == map_edges(*old(g)).insert((a, b)),
{
    g.add_edge(a, b, ());
}

/// Relies on petgraph's `GraphMap::contains_edge` on a directed map.
#[verifier::external_body]
fn map_contains_edge(g: &GraphMap<(u8, u8), (), Directed>, a: (u8, u8), b: (u8, u8)) -> (r: bool)
    ensures
        r == map_edges(*g).contains((a, b)),
{
    g.contains_edge(a, b)
}

/// Relies on petgraph's `GraphMap::node_count`.
#[verifier::external_body]
fn map_node_count(g: &GraphMap<(u8, u8), (), Directed>) -> (r: usize)
    ensures
        r == map_nodes(*g).len(),
{
    g.node_count()
}

/// Relies on petgraph's `GraphMap::nodes`: each node once.
#[verifier::external_body]
fn map_node_list(g: &GraphMap<(u8, u8), (), Directed>) -> (r: Vec<(u8, u8)>)
    ensures
        r@.no_duplicates(),
        r@.to_set() == map_nodes(*g),
{
    g.nodes().collect()
}

/// Relies on petgraph's `GraphMap::neighbors` on a directed map: the targets
/// of the edges that start at `a`, each once.
#[verifier::external_body]
fn map_successors(g: &GraphMap<(u8, u8), (), Directed>, a: (u8, u8)) -> (r: Vec<(u8, u8)>)
    ensures
        r@.no_duplicates(),
        forall|b: (u8, u8)| r@.contains(b) <==> map_edges(*g).contains((a, b)),
{
    g.neighbors(a).collect()
}

/// Relies on petgraph's `GraphMap::clear`.
#[verifier::external_body]
fn map_clear(g: &mut GraphMap<(u8, u8), (), Directed>)
    ensures
        map_nodes(*final(g)) == Set::<(u8, u8)>::empty(),
        map_edges(*final(g)) == Set::<((u8, u8), (u8, u8))>::empty(),
{
    g.clear();
}

/// Whether `p` is a path without repeated nodes from `from` to `to` along
/// `edges`.
pub open spec fn is_simple_path<V>(edges: Set<(V, V)>, p: Seq<V>, from: V, to: V) -> bool {
    &&& p.len() >= 2
    &&& p[0] == from
    &&& p.last() == to
    &&& p.no_duplicates()
    &&& forall|i: int| 0 <= i < p.len() - 1 ==> #[trigger] edges.contains((p[i], p[i + 1]))
}

/// Relies on petgraph's `algo::all_simple_paths` (no bound on the number of
/// intermediate nodes): every path without repeated nodes from `from` to
/// `to`, each once. It panics on a map without nodes.
#[verifier::external_body]
fn map_simple_paths(g: &GraphMap<(u8, u8), (), Directed>, from: (u8, u8), to: (u8, u8)) -> (r: Vec<
    Vec<(u8, u8)>,
>)
    requires
        map_nodes(*g).len() > 0,
        from != to,
    ensures
        forall|i: int| 0 <= i < r@.len() ==> is_simple_path(map_edges(*g), #[trigger] r@[i]@, from, to),
        forall|p: Seq<(u8, u8)>|
            is_simple_path(map_edges(*g), p, from, to) ==> exists|i: int|
                0 <= i < r@.len() && #[trigger] r@[i]@ == p,
        forall|i: int, j: int| 0 <= i < j < r@.len() ==> r@[i]@ != r@[j]@,
{
    petgraph::algo::all_simple_paths::<Vec<(u8, u8)>, _>(g, from, to, 0, None).collect()
}

/// Relies on rand's `Rng::random_range` over the thread-local generator: a
/// number below `n`.
#[verifier::external_body]
fn random_below(n: usize) -> (r: usize)
    requires
        n > 0,
    ensures
        r < n,
{
    rand::rng().random_range(0..n)
}

/// The code under which a node kind is stored in the map.
pub open spec fn kind_code(t: NodeType) -> u8 {
    match t {
        NodeType::Client => 0,
        NodeType::Drone => 1,
        NodeType::Server => 2,
    }
}

/// The node kind stored under a code.
pub open spec fn kind_of_code(c: u8) -> NodeType {
    if c == 0 {
        NodeType::Client
    } else if c == 1 {
        NodeType::Drone
    } else {
        NodeType::Server
    }
}

/// The map key of a (node id, kind) pair.
pub open spec fn node_key(n: (u8, NodeType)) -> (u8, u8) {
    (n.0, kind_code(n.1))
}

fn code_of(t: NodeType) -> (r: u8)
    ensures
        r == kind_code(t),
{
    match t {
        NodeType::Client => 0,
        NodeType::Drone => 1,
        NodeType::Server => 2,
    }
}

fn kind_from_code(c: u8) -> (r: NodeType)
    ensures
        r == kind_of_code(c),
{
    if c == 0 {
        NodeType::Client
    } else if c == 1 {
        NodeType::Drone
    } else {
        NodeType::Server
    }
}

/// A node of the graph: its id and its kind.
#[derive(Clone, Copy, Debug, PartialEq, Eq, Hash, Structural)]
pub struct Vertice {
    pub node_id: u8,
    pub node_type: NodeType,
}

impl Vertice {
    /// The map key of this vertex.
    pub open spec fn key(self) -> (u8, u8) {
        (self.node_id, kind_code(self.node_type))
    }

    /// The id of this vertex.
    pub open spec fn id(self) -> u8 {
        self.node_id
    }

    /// The vertex for a (node id, kind) pair.
    pub fn new(node: (u8, NodeType)) -> (r: Vertice)
        ensures
            r.key() == node_key(node),
            r.id() == node.0,
            r.kind() == node.1,
    {
        Vertice { node_id: node.0, node_type: node.1 }
    }

    /// The kind of this vertex.
    pub open spec fn kind(self) -> NodeType {
        self.node_type
    }

    /// The kind of this vertex.
    pub fn get_node_type(self) -> (r: NodeType)
        ensures
            r == self.kind(),
    {
        self.node_type
    }

    fn map_key(self) -> (r: (u8, u8))
        ensures
            r == self.key(),
    {
        (self.node_id, code_of(self.node_type))
    }
}

/// One node of a topology report: its id, kind, and the ids of the nodes
/// its edges lead to.
#[derive(Clone, Debug, PartialEq, Eq)]
pub struct EventNetworkNode {
    pub node_id: u8,
    pub node_type: NodeType,
    pub neighbors: Vec<u8>,
}

/// A full topology report, as sent to the supervisor.
#[derive(Clone, Debug, PartialEq, Eq)]
pub struct EventNetworkGraph {
    pub source: u8,
    pub nodes: Vec<EventNetworkNode>,
}

/// Whether a node at position `j` of a flood trace stops the walk: it is a
/// client or server that is not the trace's last node.
pub open spec fn blocks(path: Seq<(u8, NodeType)>, j: int) -> bool {
    j != path.len() - 1 && path[j].1 != NodeType::Drone
}

/// Whether `add_route` takes in the pair (path[i], path[i + 1]): no node
/// from the second up to `path[i + 1]` stops the walk.
pub open spec fn pair_taken(path: Seq<(u8, NodeType)>, i: int) -> bool {
    &&& 0 <= i < path.len() - 1
    &&& forall|j: int| 1 <= j <= i + 1 ==> !#[trigger] blocks(path, j)
}

/// The vertices that `add_route` registers for `path`.
pub open spec fn route_vertices(path: Seq<(u8, NodeType)>) -> Set<(u8, u8)> {
    Set::new(
        |v: (u8, u8)|
            exists|i: int|
                #[trigger] pair_taken(path, i) && (v == node_key(path[i]) || v == node_key(
                    path[i + 1],
                )),
    )
}

/// The edges that `add_route` inserts for `path`, both directions.
pub open spec fn route_edges(path: Seq<(u8, NodeType)>) -> Set<((u8, u8), (u8, u8))> {
    Set::new(
        |e: ((u8, u8), (u8, u8))|
            exists|i: int|
                #[trigger] pair_taken(path, i) && (e == (node_key(path[i]), node_key(path[i + 1]))
                    || e == (node_key(path[i + 1]), node_key(path[i]))),
    )
}

/// Whether every edge of `edges` joins two of `nodes` and has its reverse.
pub open spec fn symmetric_over(nodes: Set<(u8, u8)>, edges: Set<((u8, u8), (u8, u8))>) -> bool {
    forall|a: (u8, u8), b: (u8, u8)|
        #[trigger] edges.contains((a, b)) ==> edges.contains((b, a)) && nodes.contains(a)
            && nodes.contains(b)
}

/// The network graph as known to the node `node_id`.
pub struct NetGraph {
    graph: GraphMap<(u8, u8), (), Directed>,
    node_id: u8,
}

impl NetGraph {
    /// The known vertices, as map keys.
    pub closed spec fn vertices(&self) -> Set<(u8, u8)> {
        map_nodes(self.graph)
    }

    /// The known directed edges.
    pub closed spec fn edges(&self) -> Set<((u8, u8), (u8, u8))> {
        map_edges(self.graph)
    }

    /// The id of the node that owns this graph.
    pub closed spec fn owner(&self) -> u8 {
        self.node_id
    }

    /// The graph's invariant: finitely many vertices, and every edge joins
    /// two vertices and is mirrored.
    pub open spec fn wf(&self) -> bool {
        &&& self.vertices().finite()
        &&& symmetric_over(self.vertices(), self.edges())
        &&& forall|v: (u8, u8)| #[trigger] self.vertices().contains(v) ==> v.1 <= 2
    }

    /// An empty graph owned by `node_id`.
    pub fn new(node_id: u8) -> (r: NetGraph)
        ensures
            r.wf(),
            r.owner() == node_id,
            r.vertices() == Set::<(u8, u8)>::empty(),
            r.edges() == Set::<((u8, u8), (u8, u8))>::empty(),
    {
        NetGraph { graph: map_new(), node_id }
    }

    /// Registers a vertex, if it is not known yet.
    pub fn save_vertices_to_graph(&mut self, vertice: Vertice)
        requires
            old(self).wf(),
        ensures
            final(self).wf(),
            final(self).owner() == old(self).owner(),
            final(self).vertices() == old(self).vertices().insert(vertice.key()),
            final(self).edges() == old(self).edges(),
    {
        let k = vertice.map_key();
        if !map_contains_node(&self.graph, k) {
            map_add_node(&mut self.graph, k);
        } else {
            assert(self.vertices() =~= self.vertices().insert(k));
        }
    }

    /// Inserts the edge between two nodes in both directions, registering
    /// both nodes.
    pub fn insert_edge_between_nodes(&mut self, before: (u8, NodeType), after: (u8, NodeType))
        requires
            old(self).wf(),
        ensures
            final(self).wf(),
            final(self).owner() == old(self).owner(),
            final(self).vertices() == old(self).vertices().insert(node_key(before)).insert(
                node_key(after),
            ),
            final(self).edges() == old(self).edges().insert((node_key(before), node_key(after))).insert(
                (node_key(after), node_key(before)),
            ),
    {
        let a = Vertice::new(before).map_key();
        let b = Vertice::new(after).map_key();
        let ghost v0 = self.vertices();
        let ghost e0 = self.edges();
        if !map_contains_edge(&self.graph, a, b) {
            map_add_edge(&mut self.graph, a, b);
        } else {
            assert(e0.contains((a, b)));
            assert(self.edges() =~= e0.insert((a, b)));
            assert(self.vertices() =~= v0.insert(a).insert(b));
        }
        let ghost v1 = self.vertices();
        let ghost e1 = self.edges();
        if !map_contains_edge(&self.graph, b, a) {
            map_add_edge(&mut self.graph, b, a);
            assert(self.vertices() =~= v1.insert(b).insert(a));
        } else {
            assert(self.edges() =~= e1.insert((b, a)));
        }
        assert(self.vertices() =~= v0.insert(a).insert(b));
        assert forall|x: (u8, u8), y: (u8, u8)| #[trigger]
            self.edges().contains((x, y)) implies self.edges().contains((y, x))
                && self.vertices().contains(x) && self.vertices().contains(y) by {
            if !e0.contains((x, y)) {
                assert((x, y) == (a, b) || (x, y) == (b, a));
            }
        }
    }

    /// Whether the vertex is known.
    pub fn contains_vertice(&self, vertice: Vertice) -> (r: bool)
        ensures
            r == self.vertices().contains(vertice.key()),
    {
        map_contains_node(&self.graph, vertice.map_key())
    }

    /// Whether the directed edge from `a` to `b` is known.
    pub fn contains_edge(&self, a: Vertice, b: Vertice) -> (r: bool)
        ensures
            r == self.edges().contains((a.key(), b.key())),
    {
        map_contains_edge(&self.graph, a.map_key(), b.map_key())
    }

    /// How many vertices are known.
    pub fn vertice_count(&self) -> (r: usize)
        ensures
            r == self.vertices().len(),
    {
        map_node_count(&self.graph)
    }

    /// Forgets all vertices and edges.
    pub fn reset(&mut self)
        ensures
            final(self).wf(),
            final(self).owner() == old(self).owner(),
            final(self).vertices() == Set::<(u8, u8)>::empty(),
            final(self).edges() == Set::<((u8, u8), (u8, u8))>::empty(),
    {
        map_clear(&mut self.graph);
    }

    /// A full report of the graph: each vertex once, with the ids of the
    /// vertices its edges lead to.
    pub fn known_topology(&self) -> (r: EventNetworkGraph)
        requires
            self.wf(),
        ensures
            reports_topology(r, self.owner(), self.vertices(), self.edges()),
    {
        let list = map_node_list(&self.graph);
        let mut nodes: Vec<EventNetworkNode> = Vec::new();
        let mut i: usize = 0;
        while i < list.len()
            invariant
                self.wf(),
                list@.no_duplicates(),
                list@.to_set() == self.vertices(),
                i <= list@.len(),
                report_keys(nodes@) == list@.subrange(0, i as int),
                forall|m: int| 0 <= m < nodes@.len() ==> reports_node(#[trigger] nodes@[m], self.edges()),
            decreases list@.len() - i,
        {
            let v = list[i];
            assert(list@.to_set().contains(v));
            let succ = map_successors(&self.graph, v);
            let mut ids: Vec<u8> = Vec::new();
            let mut j: usize = 0;
            while j < succ.len()
                invariant
                    j <= succ@.len(),
                    ids@ == succ@.subrange(0, j as int).map_values(|w: (u8, u8)| w.0),
                decreases succ@.len() - j,
            {
                ids.push(succ[j].0);
                j += 1;
                assert(ids@ =~= succ@.subrange(0, j as int).map_values(|w: (u8, u8)| w.0));
            }
            assert(succ@.subrange(0, j as int) == succ@);
            let node = EventNetworkNode { node_id: v.0, node_type: kind_from_code(v.1), neighbors: ids };
            assert(report_key(node) == v);
            assert(reports_node(node, self.edges())) by {
                assert forall|id: u8| node.neighbors@.contains(id) <==> exists|w: (u8, u8)|
                    #[trigger] self.edges().contains((v, w)) && w.0 == id by {
                    if node.neighbors@.contains(id) {
                        let m = choose|m: int| 0 <= m < node.neighbors@.len() && node.neighbors@[m] == id;
                        assert(succ@.contains(succ@[m]));
                        assert(self.edges().contains((v, succ@[m])));
                    }
                    if exists|w: (u8, u8)| #[trigger] self.edges().contains((v, w)) && w.0 == id {
                        let w = choose|w: (u8, u8)| #[trigger] self.edges().contains((v, w)) && w.0 == id;
                        assert(succ@.contains(w));
                        let m = choose|m: int| 0 <= m < succ@.len() && succ@[m] == w;
                        assert(node.neighbors@[m] == id);
                    }
                }
            }
            let ghost before = nodes@;
            nodes.push(node);
            assert(report_keys(nodes@) =~= report_keys(before).push(v));
            i += 1;
            assert(list@.subrange(0, i as int) =~= list@.subrange(0, i - 1 as int).push(v));
        }
        assert(list@.subrange(0, i as int) == list@);
        EventNetworkGraph { source: self.node_id, nodes }
    }

    /// Registers the pairs of a flood trace, walking it from the start:
    /// for each consecutive pair, both vertices and the edge between them
    /// in both directions, until a client or server that is not the last
    /// node stops the walk. Returns the report of the resulting graph.
    pub fn add_route(&mut self, route: &Vec<(u8, NodeType)>) -> (r: EventNetworkGraph)
        requires
            old(self).wf(),
        ensures
            final(self).wf(),
            final(self).owner() == old(self).owner(),
            final(self).vertices() == old(self).vertices() + route_vertices(route@),
            final(self).edges() == old(self).edges() + route_edges(route@),
            reports_topology(r, final(self).owner(), final(self).vertices(), final(self).edges()),
    {
        let ghost v0 = self.vertices();
        let ghost e0 = self.edges();
        let ghost p = route@;
        let n = route.len();
        let mut i: usize = 0;
        let mut stopped = false;
        while i + 1 < n && !stopped
            invariant
                self.wf(),
                self.owner() == old(self).owner(),
                p == route@,
                n == p.len(),
                i == 0 || i < n,
                forall|j: int| 1 <= j <= i ==> !#[trigger] blocks(p, j),
                stopped ==> i + 1 < n && blocks(p, i + 1),
                self.vertices() == v0 + prefix_vertices(p, i as int),
                self.edges() == e0 + prefix_edges(p, i as int),
            decreases n - i, if stopped { 0int } else { 1int },
        {
            let before = route[i];
            let after = route[i + 1];
            if i + 1 != n - 1 && !matches!(after.1, NodeType::Drone) {
                stopped = true;
            } else {
                assert(!blocks(p, i + 1));
                self.save_vertices_to_graph(Vertice::new(before));
                self.save_vertices_to_graph(Vertice::new(after));
                self.insert_edge_between_nodes(before, after);
                proof {
                    lemma_prefix_step(p, i as int);
                }
                i += 1;
            }
        }
        proof {
            lemma_prefix_is_route(p, i as int);
        }
        self.known_topology()
    }

    /// The known clients and servers; `None` when there is none.
    pub fn get_edge_nodes(&self) -> (r: Option<Vec<(u8, NodeType)>>)
        requires
            self.wf(),
        ensures
            match r {
                Some(v) => v@.len() > 0 && v@.no_duplicates() && forall|x: (u8, NodeType)|
                    v@.contains(x) <==> (self.vertices().contains(node_key(x)) && x.1
                        != NodeType::Drone),
                None => forall|x: (u8, NodeType)|
                    !(self.vertices().contains(node_key(x)) && x.1 != NodeType::Drone),
            },
    {
        let list = map_node_list(&self.graph);
        let mut nodes: Vec<(u8, NodeType)> = Vec::new();
        let mut i: usize = 0;
        while i < list.len()
            invariant
                self.wf(),
                list@.no_duplicates(),
                list@.to_set() == self.vertices(),
                i <= list@.len(),
                nodes@.no_duplicates(),
                forall|x: (u8, NodeType)|
                    nodes@.contains(x) <==> (list@.subrange(0, i as int).contains(node_key(x))
                        && x.1 != NodeType::Drone),
            decreases list@.len() - i,
        {
            let v = list[i];
            assert(list@.to_set().contains(v));
            assert(v.1 <= 2);
            let ghost before = nodes@;
            assert(list@.subrange(0, i + 1 as int) == list@.subrange(0, i as int).push(v));
            let ghost s0 = list@.subrange(0, i as int);
            let ghost s1 = list@.subrange(0, i + 1 as int);
            assert(s1 == s0.push(v));
            assert forall|w: (u8, u8)| #[trigger] s1.contains(w) <==> (s0.contains(w) || w == v) by {
                if s1.contains(w) && w != v {
                    let m = choose|m: int| 0 <= m < s1.len() && s1[m] == w;
                    assert(s0[m] == w);
                }
                if w == v {
                    assert(s1[s0.len() as int] == v);
                }
                if s0.contains(w) {
                    let m = choose|m: int| 0 <= m < s0.len() && s0[m] == w;
                    assert(s1[m] == w);
                }
            }
            if v.1 != 1 {
                let x = (v.0, kind_from_code(v.1));
                assert(node_key(x) == v);
                assert(!before.contains(x));
                nodes.push(x);
                assert(nodes@ == before.push(x));
                assert(x.1 != NodeType::Drone);
                assert forall|y: (u8, NodeType)|
                    nodes@.contains(y) <==> (s1.contains(node_key(y)) && y.1 != NodeType::Drone) by {
                    if y == x {
                        assert(nodes@[before.len() as int] == x);
                    } else {
                        if nodes@.contains(y) {
                            let m = choose|m: int| 0 <= m < nodes@.len() && nodes@[m] == y;
                            assert(m != before.len());
                            assert(before.contains(y));
                        }
                        if before.contains(y) {
                            let m = choose|m: int| 0 <= m < before.len() && before[m] == y;
                            assert(nodes@[m] == y);
                        }
                        if node_key(y) == v && y.1 != NodeType::Drone {
                            assert(y.0 == x.0);
                            assert(y.1 == x.1);
                        }
                    }
                }
            } else {
                assert forall|y: (u8, NodeType)|
                    nodes@.contains(y) <==> (list@.subrange(0, i + 1 as int).contains(node_key(y))
                        && y.1 != NodeType::Drone) by {
                    if node_key(y) == v {
                        assert(y.1 == NodeType::Drone);
                    } else {
                        assert(list@.subrange(0, i + 1 as int).contains(node_key(y))
                            <==> list@.subrange(0, i as int).contains(node_key(y)));
                    }
                }
            }
            i += 1;
        }
        assert(list@.subrange(0, i as int) == list@);
        assert forall|x: (u8, NodeType)| list@.contains(node_key(x)) <==> self.vertices().contains(node_key(x)) by {
            assert(list@.to_set().contains(node_key(x)) == list@.contains(node_key(x)));
        }
        if nodes.len() == 0 {
            assert forall|x: (u8, NodeType)|
                !(self.vertices().contains(node_key(x)) && x.1 != NodeType::Drone) by {
                if self.vertices().contains(node_key(x)) && x.1 != NodeType::Drone {
                    assert(nodes@.contains(x));
                }
            }
            None
        } else {
            Some(nodes)
        }
    }

    /// The kind of the first known vertex with id `from`.
    pub fn get_node_type(&self, from: u8) -> (r: Result<NodeType, NodeError>)
        requires
            self.wf(),
        ensures
            match r {
                Ok(t) => self.vertices().contains((from, kind_code(t))),
                Err(e) => e == NodeError::NotFound && forall|c: u8|
                    !self.vertices().contains((from, c)),
            },
    {
        let list = map_node_list(&self.graph);
        let mut i: usize = 0;
        while i < list.len()
            invariant
                self.wf(),
                list@.to_set() == self.vertices(),
                i <= list@.len(),
                forall|m: int| 0 <= m < i ==> (#[trigger] list@[m]).0 != from,
            decreases list@.len() - i,
        {
            let v = list[i];
            if v.0 == from {
                assert(list@.to_set().contains(v));
                assert(v.1 <= 2);
                return Ok(kind_from_code(v.1));
            }
            i += 1;
        }
        assert forall|c: u8| !self.vertices().contains((from, c)) by {
            if self.vertices().contains((from, c)) {
                assert(list@.to_set().contains((from, c)));
                let m = choose|m: int| 0 <= m < list@.len() && list@[m] == (from, c);
                assert(list@[m].0 != from);
            }
        }
        Err(NodeError::NotFound)
    }

    /// Every simple path between the two vertices, as the ids of its hops,
    /// one entry per path.
    pub fn compute_routes(&self, from: Vertice, to: Vertice) -> (r: Vec<Vec<u8>>)
        requires
            self.wf(),
        ensures
            exists|ps: Seq<Seq<(u8, u8)>>|
                #[trigger] lists_each_route(
                    self.edges(),
                    from.key(),
                    to.key(),
                    route_views(r@),
                    ps,
                ),
            forall|i: int|
                0 <= i < r@.len() ==> is_route(self.edges(), from.key(), to.key(), #[trigger] r@[i]@),
            forall|p: Seq<(u8, u8)>|
                is_simple_path(self.edges(), p, from.key(), to.key()) ==> exists|i: int|
                    0 <= i < r@.len() && #[trigger] r@[i]@ == path_ids(p),
    {
        let a = from.map_key();
        let b = to.map_key();
        let mut routes: Vec<Vec<u8>> = Vec::new();
        if a.0 == b.0 && a.1 == b.1 {
            assert forall|p: Seq<(u8, u8)>| !is_simple_path(self.edges(), p, a, b) by {
                if is_simple_path(self.edges(), p, a, b) {
                    assert(p[0] == p[p.len() - 1]);
                }
            }
            assert(lists_each_route(
                self.edges(),
                a,
                b,
                route_views(routes@),
                Seq::empty(),
            ));
            return routes;
        }
        if !map_contains_node(&self.graph, a) {
            assert forall|p: Seq<(u8, u8)>| !is_simple_path(self.edges(), p, a, b) by {
                if is_simple_path(self.edges(), p, a, b) {
                    let q: int = 0;
                    assert(self.edges().contains((p[q], p[q + 1])));
                    assert(self.vertices().contains(p[q]));
                }
            }
            assert(lists_each_route(
                self.edges(),
                a,
                b,
                route_views(routes@),
                Seq::empty(),
            ));
            return routes;
        }
        proof {
            assert(self.vertices().remove(a).len() + 1 == self.vertices().len());
        }
        let paths = map_simple_paths(&self.graph, a, b);
        let mut i: usize = 0;
        while i < paths.len()
            invariant
                i <= paths@.len(),
                routes@.len() == i,
                forall|m: int| 0 <= m < i ==> #[trigger] routes@[m]@ == path_ids(paths@[m]@),
            decreases paths@.len() - i,
        {
            let ids = path_ids_of(&paths[i]);
            routes.push(ids);
            i += 1;
        }
        assert forall|m: int| 0 <= m < routes@.len() implies is_route(
            self.edges(),
            from.key(),
            to.key(),
            #[trigger] routes@[m]@,
        ) by {
            assert(is_simple_path(self.edges(), paths@[m]@, a, b));
        }
        assert forall|p: Seq<(u8, u8)>|
            is_simple_path(self.edges(), p, from.key(), to.key()) implies exists|m: int|
            0 <= m < routes@.len() && #[trigger] routes@[m]@ == path_ids(p) by {
            let m = choose|m: int| 0 <= m < paths@.len() && #[trigger] paths@[m]@ == p;
            assert(routes@[m]@ == path_ids(p));
        }
        let ghost ps = paths@.map_values(|v: Vec<(u8, u8)>| v@);
        assert forall|p: Seq<(u8, u8)>|
            is_simple_path(self.edges(), p, a, b) implies exists|m: int|
            0 <= m < ps.len() && #[trigger] ps[m] == p by {
            let m = choose|m: int| 0 <= m < paths@.len() && #[trigger] paths@[m]@ == p;
            assert(ps[m] == p);
        }
        assert(lists_each_route(
            self.edges(),
            a,
            b,
            route_views(routes@),
            ps,
        ));
        routes
    }

    /// One of the simple paths between the two vertices, picked at random,
    /// as the ids of its hops; `None` when there is none.
    pub fn get_random_route(&self, from: Vertice, to: Vertice) -> (r: Option<Vec<u8>>)
        requires
            self.wf(),
        ensures
            match r {
                Some(v) => is_route(self.edges(), from.key(), to.key(), v@),
                None => forall|p: Seq<(u8, u8)>|
                    !is_simple_path(self.edges(), p, from.key(), to.key()),
            },
    {
        let routes = self.compute_routes(from, to);
        if routes.len() == 0 {
            return None;
        }
        let index = random_below(routes.len());
        let route = routes[index].clone();
        assert(route@ == routes@[index as int]@);
        Some(route)
    }
}

/// The map keys of the nodes of a report, in order.
pub open spec fn report_keys(nodes: Seq<EventNetworkNode>) -> Seq<(u8, u8)> {
    nodes.map_values(|n: EventNetworkNode| report_key(n))
}

/// The map key of a reported node.
pub open spec fn report_key(n: EventNetworkNode) -> (u8, u8) {
    (n.node_id, kind_code(n.node_type))
}

/// Whether a reported node lists exactly the ids of the vertices that its
/// edges lead to.
pub open spec fn reports_node(n: EventNetworkNode, edges: Set<((u8, u8), (u8, u8))>) -> bool {
    forall|id: u8|
        n.neighbors@.contains(id) <==> exists|w: (u8, u8)|
            #[trigger] edges.contains((report_key(n), w)) && w.0 == id
}

/// Whether `r` reports the graph of `owner` with these vertices and edges:
/// each vertex exactly once, each with its neighbours.
pub open spec fn reports_topology(
    r: EventNetworkGraph,
    owner: u8,
    vertices: Set<(u8, u8)>,
    edges: Set<((u8, u8), (u8, u8))>,
) -> bool {
    &&& r.source == owner
    &&& report_keys(r.nodes@).no_duplicates()
    &&& report_keys(r.nodes@).to_set() == vertices
    &&& forall|m: int| 0 <= m < r.nodes@.len() ==> reports_node(#[trigger] r.nodes@[m], edges)
}

/// The vertices of the first `i` pairs of `path`.
pub open spec fn prefix_vertices(path: Seq<(u8, NodeType)>, i: int) -> Set<(u8, u8)> {
    Set::new(
        |v: (u8, u8)|
            exists|k: int|
                0 <= k < i && #[trigger] path[k] == path[k] && (v == node_key(path[k]) || v
                    == node_key(path[k + 1])),
    )
}

/// The edges, both directions, of the first `i` pairs of `path`.
pub open spec fn prefix_edges(path: Seq<(u8, NodeType)>, i: int) -> Set<((u8, u8), (u8, u8))> {
    Set::new(
        |e: ((u8, u8), (u8, u8))|
            exists|k: int|
                0 <= k < i && #[trigger] path[k] == path[k] && (e == (node_key(path[k]), node_key(
                    path[k + 1],
                )) || e == (node_key(path[k + 1]), node_key(path[k]))),
    )
}

proof fn lemma_prefix_step(path: Seq<(u8, NodeType)>, i: int)
    requires
        0 <= i,
    ensures
        prefix_vertices(path, i + 1) == prefix_vertices(path, i).insert(node_key(path[i])).insert(
            node_key(path[i + 1]),
        ),
        prefix_edges(path, i + 1) == prefix_edges(path, i).insert(
            (node_key(path[i]), node_key(path[i + 1])),
        ).insert((node_key(path[i + 1]), node_key(path[i]))),
{
    assert(path[i] == path[i]);
    assert(prefix_vertices(path, i + 1) =~= prefix_vertices(path, i).insert(
        node_key(path[i]),
    ).insert(node_key(path[i + 1])));
    assert(prefix_edges(path, i + 1) =~= prefix_edges(path, i).insert(
        (node_key(path[i]), node_key(path[i + 1])),
    ).insert((node_key(path[i + 1]), node_key(path[i]))));
}

proof fn lemma_prefix_is_route(path: Seq<(u8, NodeType)>, i: int)
    requires
        i == 0 || i < path.len(),
        0 <= i,
        forall|j: int| 1 <= j <= i ==> !#[trigger] blocks(path, j),
        i + 1 < path.len() ==> blocks(path, i + 1),
    ensures
        prefix_vertices(path, i) == route_vertices(path),
        prefix_edges(path, i) == route_edges(path),
{
    assert forall|k: int| #[trigger] pair_taken(path, k) <==> 0 <= k < i by {
        if 0 <= k < i {
            assert forall|j: int| 1 <= j <= k + 1 implies !#[trigger] blocks(path, j) by {}
        }
        if pair_taken(path, k) && k >= i {
            assert(!blocks(path, i + 1));
        }
    }
    assert forall|v: (u8, u8)| prefix_vertices(path, i).contains(v) <==> route_vertices(path).contains(v) by {
        if prefix_vertices(path, i).contains(v) {
            let k = choose|k: int|
                0 <= k < i && #[trigger] path[k] == path[k] && (v == node_key(path[k]) || v
                    == node_key(path[k + 1]));
            assert(pair_taken(path, k));
        }
        if route_vertices(path).contains(v) {
            let k = choose|k: int|
                #[trigger] pair_taken(path, k) && (v == node_key(path[k]) || v == node_key(
                    path[k + 1],
                ));
            assert(path[k] == path[k]);
        }
    }
    assert forall|e: ((u8, u8), (u8, u8))| prefix_edges(path, i).contains(e) <==> route_edges(path).contains(e) by {
        if prefix_edges(path, i).contains(e) {
            let k = choose|k: int|
                0 <= k < i && #[trigger] path[k] == path[k] && (e == (node_key(path[k]), node_key(
                    path[k + 1],
                )) || e == (node_key(path[k + 1]), node_key(path[k])));
            assert(pair_taken(path, k));
        }
        if route_edges(path).contains(e) {
            let k = choose|k: int|
                #[trigger] pair_taken(path, k) && (e == (node_key(path[k]), node_key(path[k + 1]))
                    || e == (node_key(path[k + 1]), node_key(path[k])));
            assert(path[k] == path[k]);
        }
    }
    assert(prefix_vertices(path, i) =~= route_vertices(path));
    assert(prefix_edges(path, i) =~= route_edges(path));
}

/// The views of a list of routes.
pub open spec fn route_views(r: Seq<Vec<u8>>) -> Seq<Seq<u8>> {
    r.map_values(|v: Vec<u8>| v@)
}

/// Whether `r` lists the hop ids of the simple paths `ps` from `from` to
/// `to`, in the same order, each path once and every simple path present.
pub open spec fn lists_each_route(
    edges: Set<((u8, u8), (u8, u8))>,
    from: (u8, u8),
    to: (u8, u8),
    r: Seq<Seq<u8>>,
    ps: Seq<Seq<(u8, u8)>>,
) -> bool {
    &&& ps.len() == r.len()
    &&& forall|i: int|
        0 <= i < ps.len() ==> is_simple_path(edges, #[trigger] ps[i], from, to) && r[i]
            == path_ids(ps[i])
    &&& forall|i: int, j: int| 0 <= i < j < ps.len() ==> ps[i] != ps[j]
    &&& forall|p: Seq<(u8, u8)>|
        is_simple_path(edges, p, from, to) ==> exists|i: int| 0 <= i < ps.len() && #[trigger] ps[i] == p
}

/// Whether `ids` are the hop ids of a simple path from `from` to `to`.
pub open spec fn is_route(
    edges: Set<((u8, u8), (u8, u8))>,
    from: (u8, u8),
    to: (u8, u8),
    ids: Seq<u8>,
) -> bool {
    exists|p: Seq<(u8, u8)>| is_simple_path(edges, p, from, to) && ids == path_ids(p)
}

/// The ids of the hops of a path.
pub open spec fn path_ids(p: Seq<(u8, u8)>) -> Seq<u8> {
    p.map_values(|v: (u8, u8)| v.0)
}

fn path_ids_of(p: &Vec<(u8, u8)>) -> (r: Vec<u8>)
    ensures
        r@ == path_ids(p@),
{
    let mut r: Vec<u8> = Vec::new();
    let mut i: usize = 0;
    while i < p.len()
        invariant
            i <= p@.len(),
            r@ == path_ids(p@.subrange(0, i as int)),
        decreases p@.len() - i,
    {
        r.push(p[i].0);
        i += 1;
        assert(r@ =~= path_ids(p@.subrange(0, i as int)));
    }
    assert(p@.subrange(0, i as int) == p@);
    r
}

/// Every edge that a flood trace inserts is inserted in both directions.
pub proof fn lemma_route_edges_mirrored(path: Seq<(u8, NodeType)>)
    ensures
        forall|a: (u8, u8), b: (u8, u8)|
            #[trigger] route_edges(path).contains((a, b)) ==> route_edges(path).contains((b, a)),
{
    assert forall|a: (u8, u8), b: (u8, u8)|
        #[trigger] route_edges(path).contains((a, b)) implies route_edges(path).contains((b, a)) by {
        let i = choose|i: int|
            #[trigger] pair_taken(path, i) && ((a, b) == (node_key(path[i]), node_key(path[i + 1]))
                || (a, b) == (node_key(path[i + 1]), node_key(path[i])));
        assert(pair_taken(path, i));
    }
}

/// In a well-formed graph, which every operation keeps, the reverse of
/// every edge is an edge too.
pub proof fn lemma_graph_edges_mirrored(g: NetGraph)
    requires
        g.wf(),
    ensures
        forall|a: (u8, u8), b: (u8, u8)|
            #[trigger] g.edges().contains((a, b)) ==> g.edges().contains((b, a)),
{
}

/// Adding the same flood trace a second time changes neither the vertices
/// nor the edges.
pub proof fn lemma_add_route_idempotent(
    vertices: Set<(u8, u8)>,
    edges: Set<((u8, u8), (u8, u8))>,
    path: Seq<(u8, NodeType)>,
)
    ensures
        (vertices + route_vertices(path)) + route_vertices(path) == vertices + route_vertices(path),
        (edges + route_edges(path)) + route_edges(path) == edges + route_edges(path),
{
    assert((vertices + route_vertices(path)) + route_vertices(path) =~= vertices + route_vertices(
        path,
    ));
    assert((edges + route_edges(path)) + route_edges(path) =~= edges + route_edges(path));
}

} // verus!
