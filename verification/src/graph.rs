//! The audio processing graph: a store of uniquely named nodes and directed
//! connections, kept acyclic, with a topological execution order that every
//! mutation maintains and a processing sweep that mixes fan-in edges.

use vstd::prelude::*;
use vstd::seq_lib::*;
use vstd::string::{StringExecFns, StrSliceExecFns};
use crate::buffer::{mix_spec, AudioBuffer};
use crate::connection::Connection;
use crate::error::GraphError;
use crate::kind::{buf_view, silence_view, BufView, NodeKind};
use crate::text::str_eq;

verus! {

/// The ids of a node sequence, in storage order.
pub open spec fn seq_ids(nodes: Seq<NodeKind>) -> Seq<Seq<char>> {
    nodes.map_values(|n: NodeKind| n.id_spec())
}

/// Whether some node carries this id.
pub open spec fn has_id(nodes: Seq<NodeKind>, id: Seq<char>) -> bool {
    exists|j: int| 0 <= j < nodes.len() && (#[trigger] nodes[j].id_spec()) == id
}

/// The index of the node carrying this id (unique when ids are distinct).
pub open spec fn idx_of(nodes: Seq<NodeKind>, id: Seq<char>) -> int {
    choose|j: int| 0 <= j < nodes.len() && (#[trigger] nodes[j].id_spec()) == id
}

/// No two nodes share an id.
pub open spec fn distinct_ids(nodes: Seq<NodeKind>) -> bool {
    forall|i: int, j: int|
        0 <= i < j < nodes.len() ==> (#[trigger] nodes[i].id_spec()) != (
        #[trigger] nodes[j].id_spec())
}

/// Every connection endpoint names a present node.
pub open spec fn conns_valid(conns: Seq<Connection>, nodes: Seq<NodeKind>) -> bool {
    forall|k: int|
        0 <= k < conns.len() ==> has_id(nodes, (#[trigger] conns[k]).from_node@) && has_id(
            nodes,
            conns[k].to_node@,
        )
}

/// The execution order lists exactly the node ids, each once.
pub open spec fn order_matches(order: Seq<Seq<char>>, nodes: Seq<NodeKind>) -> bool {
    &&& order.len() == nodes.len()
    &&& forall|m: int| 0 <= m < order.len() ==> has_id(nodes, #[trigger] order[m])
    &&& forall|m1: int, m2: int|
        0 <= m1 < m2 < order.len() ==> (#[trigger] order[m1]) != (#[trigger] order[m2])
    &&& forall|j: int|
        0 <= j < nodes.len() ==> order.contains(#[trigger] nodes[j].id_spec())
}

/// Topology soundness: along every connection, the source node stands
/// before the destination node in the execution order.
pub open spec fn order_sound(order: Seq<Seq<char>>, conns: Seq<Connection>) -> bool {
    forall|k: int, m1: int, m2: int|
        #![trigger conns[k], order[m1], order[m2]]
        0 <= k < conns.len() && 0 <= m1 < order.len() && 0 <= m2 < order.len() && order[m1]
            == conns[k].from_node@ && order[m2] == conns[k].to_node@ ==> m1 < m2
}

/// The predicate keeping connections that do not touch `id` on either side.
pub open spec fn conn_keeps(id: Seq<char>) -> spec_fn(Connection) -> bool {
    |c: Connection| c.from_node@ != id && c.to_node@ != id
}

/// The predicate keeping order entries other than `id`.
pub open spec fn order_keeps(id: Seq<char>) -> spec_fn(Seq<char>) -> bool {
    |x: Seq<char>| x != id
}

/// A directed edge between two ids in the connection list.
pub open spec fn edge(conns: Seq<Connection>, a: Seq<char>, b: Seq<char>) -> bool {
    exists|k: int|
        0 <= k < conns.len() && (#[trigger] conns[k]).from_node@ == a && conns[k].to_node@ == b
}

/// `b` can be reached from `a` in at most `n` edge steps.
pub open spec fn reaches_n(conns: Seq<Connection>, a: Seq<char>, b: Seq<char>, n: nat) -> bool
    decreases n,
{
    a == b || (n > 0 && exists|m: Seq<char>|
        #[trigger] edge(conns, a, m) && reaches_n(conns, m, b, (n - 1) as nat))
}

/// `b` can be reached from `a` by following connections forward; every id
/// reaches itself.
pub open spec fn reaches(conns: Seq<Connection>, a: Seq<char>, b: Seq<char>) -> bool {
    exists|n: nat| reaches_n(conns, a, b, n)
}

/// Reachability extends across one more edge.
pub proof fn lemma_reaches_extend(conns: Seq<Connection>, a: Seq<char>, b: Seq<char>, c: Seq<char>, n: nat)
    requires
        reaches_n(conns, a, b, n),
        edge(conns, b, c),
    ensures
        reaches_n(conns, a, c, n + 1),
    decreases n,
{
    if a == b {
        assert(reaches_n(conns, c, c, n));
        assert(edge(conns, a, c) && reaches_n(conns, c, c, n));
    } else {
        let m = choose|m: Seq<char>|
            #[trigger] edge(conns, a, m) && reaches_n(conns, m, b, (n - 1) as nat);
        lemma_reaches_extend(conns, m, b, c, (n - 1) as nat);
        assert(reaches_n(conns, a, c, n + 1));
    }
}

/// Anything reachable from a member of a successor-closed set of ids is
/// itself a member.
pub proof fn lemma_reaches_closed(
    conns: Seq<Connection>,
    member: spec_fn(Seq<char>) -> bool,
    a: Seq<char>,
    b: Seq<char>,
    n: nat,
)
    requires
        member(a),
        forall|x: Seq<char>, y: Seq<char>| member(x) && #[trigger] edge(conns, x, y) ==> member(y),
        reaches_n(conns, a, b, n),
    ensures
        member(b),
    decreases n,
{
    if a != b {
        let m = choose|m: Seq<char>|
            #[trigger] edge(conns, a, m) && reaches_n(conns, m, b, (n - 1) as nat);
        lemma_reaches_closed(conns, member, m, b, (n - 1) as nat);
    }
}

/// Filtering keeps the relative order of any two surviving occurrences.
pub proof fn lemma_filter_keeps_order<A>(s: Seq<A>, pred: spec_fn(A) -> bool, i: int, j: int)
    requires
        0 <= i < j < s.len(),
        pred(s[i]),
        pred(s[j]),
    ensures
        exists|i2: int, j2: int|
            0 <= i2 < j2 < s.filter(pred).len() && (#[trigger] s.filter(pred)[i2]) == s[i] && (
            #[trigger] s.filter(pred)[j2]) == s[j],
    decreases s.len(),
{
    reveal(Seq::filter);
    let f = s.filter(pred);
    if j == s.len() - 1 {
        let pre = s.drop_last().filter(pred);
        assert(f == pre.push(s.last()));
        s.drop_last().lemma_filter_contains(pred, i);
        let i2 = choose|i2: int| 0 <= i2 < pre.len() && pre[i2] == s[i];
        assert(f[i2] == s[i]);
        assert(f[f.len() - 1] == s[j]);
        assert(i2 < f.len() - 1);
    } else {
        lemma_filter_keeps_order(s.drop_last(), pred, i, j);
        let pre = s.drop_last().filter(pred);
        let (i2, j2) = choose|i2: int, j2: int|
            0 <= i2 < j2 < pre.len() && (#[trigger] pre[i2]) == s[i] && (#[trigger] pre[j2])
                == s[j];
        if pred(s.last()) {
            assert(f == pre.push(s.last()));
        } else {
            assert(f == pre);
        }
        assert(f[i2] == s[i] && f[j2] == s[j]);
    }
}

/// Every filtered element occurs in the original sequence.
pub proof fn lemma_filter_member_src<A>(s: Seq<A>, pred: spec_fn(A) -> bool, m: int)
    requires
        0 <= m < s.filter(pred).len(),
    ensures
        exists|w: int| 0 <= w < s.len() && (#[trigger] s[w]) == s.filter(pred)[m],
    decreases s.len(),
{
    reveal(Seq::filter);
    let f = s.filter(pred);
    if s.len() > 0 {
        let pre = s.drop_last().filter(pred);
        if pred(s.last()) && m == f.len() - 1 {
            assert(s[s.len() - 1] == f[m]);
        } else {
            lemma_filter_member_src(s.drop_last(), pred, m);
            let w = choose|w: int|
                0 <= w < s.drop_last().len() && #[trigger] s.drop_last()[w] == pre[m];
            assert(s[w] == f[m]);
        }
    }
}

/// Filtering a duplicate-free sequence leaves it duplicate-free.
pub proof fn lemma_filter_distinct<A>(s: Seq<A>, pred: spec_fn(A) -> bool)
    requires
        forall|m1: int, m2: int| 0 <= m1 < m2 < s.len() ==> (#[trigger] s[m1]) != (#[trigger] s[m2]),
    ensures
        forall|m1: int, m2: int|
            0 <= m1 < m2 < s.filter(pred).len() ==> (#[trigger] s.filter(pred)[m1]) != (
            #[trigger] s.filter(pred)[m2]),
    decreases s.len(),
{
    reveal(Seq::filter);
    let f = s.filter(pred);
    if s.len() > 0 {
        assert(forall|m: int|
            0 <= m < s.drop_last().len() ==> (#[trigger] s.drop_last()[m]) == s[m]);
        lemma_filter_distinct(s.drop_last(), pred);
        let pre = s.drop_last().filter(pred);
        if pred(s.last()) {
            assert(f == pre.push(s.last()));
            assert forall|m1: int, m2: int| 0 <= m1 < m2 < f.len() implies (#[trigger] f[m1]) != (
            #[trigger] f[m2]) by {
                if m2 == f.len() - 1 {
                    lemma_filter_member_src(s.drop_last(), pred, m1);
                    let w = choose|w: int|
                        0 <= w < s.drop_last().len() && (#[trigger] s.drop_last()[w]) == pre[m1];
                    assert(s[w] == f[m1]);
                    assert(s[s.len() - 1] == f[m2]);
                    assert(w < s.len() - 1);
                } else {
                    assert(pre[m1] == f[m1] && pre[m2] == f[m2]);
                }
            }
        } else {
            assert(f == pre);
        }
    }
}

/// Filtering with an everywhere-true predicate changes nothing.
pub proof fn lemma_filter_all<A>(s: Seq<A>, pred: spec_fn(A) -> bool)
    requires
        forall|m: int| 0 <= m < s.len() ==> pred(#[trigger] s[m]),
    ensures
        s.filter(pred) == s,
    decreases s.len(),
{
    reveal(Seq::filter);
    if s.len() > 0 {
        assert(forall|m: int|
            0 <= m < s.drop_last().len() ==> (#[trigger] s.drop_last()[m]) == s[m]);
        lemma_filter_all(s.drop_last(), pred);
        assert(s.filter(pred) =~= s);
    }
}

/// Removing one value from a duplicate-free sequence by filtering drops
/// exactly one element.
pub proof fn lemma_filter_remove_one<A>(s: Seq<A>, x: A, pred: spec_fn(A) -> bool)
    requires
        forall|m1: int, m2: int| 0 <= m1 < m2 < s.len() ==> (#[trigger] s[m1]) != (#[trigger] s[m2]),
        s.contains(x),
        forall|v: A| #[trigger] pred(v) <==> v != x,
    ensures
        s.filter(pred).len() == s.len() - 1,
    decreases s.len(),
{
    reveal(Seq::filter);
    if s.last() == x {
        assert(forall|m: int|
            0 <= m < s.drop_last().len() ==> pred(#[trigger] s.drop_last()[m])) by {
            assert(forall|m: int|
                0 <= m < s.drop_last().len() ==> (#[trigger] s.drop_last()[m]) == s[m]);
        }
        lemma_filter_all(s.drop_last(), pred);
    } else {
        assert(s.drop_last().contains(x)) by {
            let w = choose|w: int| 0 <= w < s.len() && s[w] == x;
            assert(w < s.len() - 1);
            assert(s.drop_last()[w] == x);
        }
        assert(forall|m: int|
            0 <= m < s.drop_last().len() ==> (#[trigger] s.drop_last()[m]) == s[m]);
        lemma_filter_remove_one(s.drop_last(), x, pred);
    }
}

/// The audio graph: nodes keyed by unique string ids, an ordered list of
/// connections, and a cached topological execution order.
pub struct AudioGraph {
    /// The nodes, in insertion order.
    pub nodes: Vec<NodeKind>,
    /// The connections, in insertion order.
    pub connections: Vec<Connection>,
    /// A topological linearization of the node ids.
    pub execution_order: Vec<String>,
}

impl AudioGraph {
    /// The execution order as id sequences.
    pub open spec fn order_view(&self) -> Seq<Seq<char>> {
        self.execution_order@.map_values(|s: String| s@)
    }

    /// The graph invariant: distinct ids, endpoints present, the order a
    /// sound and complete linearization, and every node well-formed.
    pub open spec fn wf(&self) -> bool {
        &&& distinct_ids(self.nodes@)
        &&& conns_valid(self.connections@, self.nodes@)
        &&& order_matches(self.order_view(), self.nodes@)
        &&& order_sound(self.order_view(), self.connections@)
        &&& forall|j: int| 0 <= j < self.nodes@.len() ==> (#[trigger] self.nodes@[j]).wf()
    }

    /// An empty graph.
    pub fn new() -> (r: AudioGraph)
        ensures
            r.nodes@.len() == 0,
            r.connections@.len() == 0,
            r.order_view().len() == 0,
            r.wf(),
    {
        let r = AudioGraph { nodes: Vec::new(), connections: Vec::new(), execution_order: Vec::new() };
        proof {
            assert(r.order_view() =~= Seq::<Seq<char>>::empty());
        }
        r
    }

    /// The index of the node carrying `id`, if present.
    pub fn find_node(&self, id: &str) -> (r: Option<usize>)
        ensures
            r matches Some(j) ==> j < self.nodes@.len() && self.nodes@[j as int].id_spec() == id@,
            r is None ==> !has_id(self.nodes@, id@),
    {
        let n: usize = self.nodes.len();
        let mut j: usize = 0;
        while j < n
            invariant
                j <= n,
                n == self.nodes@.len(),
                forall|m: int| 0 <= m < j ==> (#[trigger] self.nodes@[m].id_spec()) != id@,
            decreases n - j,
        {
            if str_eq(self.nodes[j].id(), id) {
                return Some(j);
            }
            j = j + 1;
        }
        None
    }

    /// All node ids, in storage order.
    pub fn node_ids(&self) -> (r: Vec<String>)
        ensures
            r@.map_values(|s: String| s@) == seq_ids(self.nodes@),
    {
        let n: usize = self.nodes.len();
        let mut r: Vec<String> = Vec::new();
        let mut j: usize = 0;
        while j < n
            invariant
                j <= n,
                n == self.nodes@.len(),
                r@.len() == j,
                forall|m: int| 0 <= m < j ==> (#[trigger] r@[m])@ == self.nodes@[m].id_spec(),
            decreases n - j,
        {
            r.push(String::from_str(self.nodes[j].id()));
            j = j + 1;
        }
        proof {
            assert(r@.map_values(|s: String| s@) =~= seq_ids(self.nodes@));
        }
        r
    }

    /// The connections, in insertion order.
    pub fn connections(&self) -> (r: &Vec<Connection>)
        ensures
            r@ == self.connections@,
    {
        &self.connections
    }

    /// Add a node under its own id; an id already present is
    /// `NodeAlreadyExists` and leaves the graph unchanged.
    pub fn add_node(&mut self, node: NodeKind) -> (r: Result<(), GraphError>)
        requires
            old(self).wf(),
            node.wf(),
        ensures
            final(self).wf(),
            has_id(old(self).nodes@, node.id_spec()) ==> {
                &&& *final(self) == *old(self)
                &&& r matches Err(GraphError::NodeAlreadyExists(x)) && x@ == node.id_spec()
            },
            !has_id(old(self).nodes@, node.id_spec()) ==> {
                &&& r is Ok
                &&& final(self).nodes@ == old(self).nodes@.push(node)
                &&& final(self).connections@ == old(self).connections@
                &&& final(self).order_view() == old(self).order_view().push(node.id_spec())
            },
    {
        let id_string: String = String::from_str(node.id());
        match self.find_node(id_string.as_str()) {
            Some(_) => Err(GraphError::NodeAlreadyExists(id_string)),
            None => {
                self.nodes.push(node);
                self.execution_order.push(id_string);
                proof {
                    assert(self.order_view() =~= old(self).order_view().push(node.id_spec()));
                    let oldn = old(self).nodes@;
                    let oldo = old(self).order_view();
                    let newn = self.nodes@;
                    let newo = self.order_view();
                    assert(forall|i: int| 0 <= i < oldn.len() ==> #[trigger] newn[i] == oldn[i]);
                    assert(forall|m: int| 0 <= m < oldo.len() ==> #[trigger] newo[m] == oldo[m]);
                    assert(newn[newn.len() - 1] == node);
                    assert(newo[newo.len() - 1] == node.id_spec());
                    assert forall|m: int| 0 <= m < newo.len() implies has_id(
                        newn,
                        #[trigger] newo[m],
                    ) by {
                        if m < oldo.len() {
                            let w = choose|w: int|
                                0 <= w < oldn.len() && (#[trigger] oldn[w].id_spec()) == oldo[m];
                            assert(newn[w].id_spec() == newo[m]);
                        } else {
                            assert(newn[newn.len() - 1].id_spec() == newo[m]);
                        }
                    }
                    assert forall|m1: int, m2: int| 0 <= m1 < m2 < newo.len() implies (
                    #[trigger] newo[m1]) != (#[trigger] newo[m2]) by {
                        if m2 == newo.len() - 1 {
                            let w = choose|w: int|
                                0 <= w < oldn.len() && (#[trigger] oldn[w].id_spec()) == oldo[m1];
                            assert(newo[m2] == node.id_spec());
                            if newo[m1] == node.id_spec() {
                                assert(has_id(oldn, node.id_spec()));
                            }
                        }
                    }
                    assert forall|i1: int, i2: int| 0 <= i1 < i2 < newn.len() implies (
                    #[trigger] newn[i1].id_spec()) != (#[trigger] newn[i2].id_spec()) by {
                        if i2 == newn.len() - 1 {
                            if newn[i1].id_spec() == node.id_spec() {
                                assert(has_id(oldn, node.id_spec()));
                            }
                        }
                    }
                    assert forall|j: int| 0 <= j < newn.len() implies newo.contains(
                        #[trigger] newn[j].id_spec(),
                    ) by {
                        if j < oldn.len() {
                            let m = choose|m: int|
                                0 <= m < oldo.len() && (#[trigger] oldo[m]) == oldn[j].id_spec();
                            assert(newo[m] == newn[j].id_spec());
                        } else {
                            assert(newo[newo.len() - 1] == newn[j].id_spec());
                        }
                    }
                    assert(order_matches(newo, newn));
                    assert forall|k: int| 0 <= k < self.connections@.len() implies has_id(
                        newn,
                        (#[trigger] self.connections@[k]).from_node@,
                    ) && has_id(newn, self.connections@[k].to_node@) by {
                        let wa = choose|w: int|
                            0 <= w < oldn.len() && (#[trigger] oldn[w].id_spec())
                                == self.connections@[k].from_node@;
                        let wb = choose|w: int|
                            0 <= w < oldn.len() && (#[trigger] oldn[w].id_spec())
                                == self.connections@[k].to_node@;
                        assert(newn[wa].id_spec() == self.connections@[k].from_node@);
                        assert(newn[wb].id_spec() == self.connections@[k].to_node@);
                    }
                    assert(order_sound(self.order_view(), self.connections@)) by {
                        assert(forall|k: int|
                            0 <= k < self.connections@.len() ==> (
                            #[trigger] self.connections@[k]).from_node@ != node.id_spec()
                                && self.connections@[k].to_node@ != node.id_spec());
                    }
                }
                Ok(())
            },
        }
    }

    /// Remove all connections touching `id` on either side, keeping the
    /// rest in order.
    fn retain_conns_without(&mut self, id: &str)
        ensures
            final(self).nodes@ == old(self).nodes@,
            final(self).execution_order@ == old(self).execution_order@,
            final(self).connections@ == old(self).connections@.filter(conn_keeps(id@)),
    {
        let ghost pred = conn_keeps(id@);
        let n: usize = self.connections.len();
        let mut kept: Vec<Connection> = Vec::new();
        let mut k: usize = 0;
        proof {
            assert(self.connections@.take(0) =~= Seq::<Connection>::empty());
            assert(Seq::<Connection>::empty().filter(pred) =~= Seq::<Connection>::empty()) by {
                reveal(Seq::filter);
            }
        }
        while k < n
            invariant
                k <= n,
                n == self.connections@.len(),
                self.connections@ == old(self).connections@,
                self.nodes@ == old(self).nodes@,
                self.execution_order@ == old(self).execution_order@,
                kept@ == self.connections@.take(k as int).filter(pred),
                pred == conn_keeps(id@),
            decreases n - k,
        {
            let c: &Connection = &self.connections[k];
            let keep: bool = !(str_eq(c.from_node.as_str(), id) || str_eq(c.to_node.as_str(), id));
            proof {
                let taken = self.connections@.take(k as int);
                assert(self.connections@.take(k as int + 1) =~= taken.push(self.connections@[k as int]));
                Seq::lemma_filter_push(taken, self.connections@[k as int], pred);
            }
            if keep {
                kept.push(self.connections[k].clone_conn());
            }
            k = k + 1;
        }
        proof {
            assert(self.connections@.take(n as int) =~= self.connections@);
        }
        self.connections = kept;
    }

    /// Remove the node carrying `id`, every connection touching it, and its
    /// place in the execution order; an absent id is `NodeNotFound` and
    /// leaves the graph unchanged.
    pub fn remove_node(&mut self, id: &str) -> (r: Result<(), GraphError>)
        requires
            old(self).wf(),
        ensures
            final(self).wf(),
            !has_id(old(self).nodes@, id@) ==> {
                &&& *final(self) == *old(self)
                &&& r matches Err(GraphError::NodeNotFound(x)) && x@ == id@
            },
            has_id(old(self).nodes@, id@) ==> {
                &&& r is Ok
                &&& final(self).nodes@ == old(self).nodes@.remove(idx_of(old(self).nodes@, id@))
                &&& final(self).connections@ == old(self).connections@.filter(conn_keeps(id@))
                &&& final(self).order_view() == old(self).order_view().filter(order_keeps(id@))
            },
    {
        let found = self.find_node(id);
        match found {
            None => Err(GraphError::NodeNotFound(String::from_str(id))),
            Some(j) => {
                proof {
                    assert(0 <= j < old(self).nodes@.len() && old(self).nodes@[j as int].id_spec()
                        == id@);
                    assert(idx_of(old(self).nodes@, id@) == j) by {
                        let j2 = idx_of(old(self).nodes@, id@);
                        assert(0 <= j2 < old(self).nodes@.len() && old(self).nodes@[j2].id_spec()
                            == id@);
                    }
                }
                self.nodes.remove(j);
                self.retain_conns_without(id);
                self.retain_order_without(id);
                proof {
                    self.lemma_remove_wf(*old(self), id@, j as int);
                }
                Ok(())
            },
        }
    }

    /// Drop `id` from the execution order, keeping the rest in order.
    fn retain_order_without(&mut self, id: &str)
        ensures
            final(self).nodes@ == old(self).nodes@,
            final(self).connections@ == old(self).connections@,
            final(self).order_view() == old(self).order_view().filter(order_keeps(id@)),
    {
        let ghost pred = order_keeps(id@);
        let n: usize = self.execution_order.len();
        let mut kept: Vec<String> = Vec::new();
        let mut k: usize = 0;
        proof {
            assert(kept@.map_values(|s: String| s@) =~= Seq::<Seq<char>>::empty());
            assert(self.order_view().take(0) =~= Seq::<Seq<char>>::empty());
            assert(Seq::<Seq<char>>::empty().filter(pred) =~= Seq::<Seq<char>>::empty()) by {
                reveal(Seq::filter);
            }
        }
        while k < n
            invariant
                k <= n,
                n == self.execution_order@.len(),
                self.execution_order@ == old(self).execution_order@,
                self.nodes@ == old(self).nodes@,
                self.connections@ == old(self).connections@,
                kept@.map_values(|s: String| s@) == self.order_view().take(k as int).filter(pred),
                pred == order_keeps(id@),
            decreases n - k,
        {
            let keep: bool = !str_eq(self.execution_order[k].as_str(), id);
            proof {
                let taken = self.order_view().take(k as int);
                assert(self.order_view().take(k as int + 1) =~= taken.push(
                    self.order_view()[k as int],
                ));
                Seq::lemma_filter_push(taken, self.order_view()[k as int], pred);
            }
            if keep {
                let s: String = self.execution_order[k].clone();
                kept.push(s);
                proof {
                    assert(kept@.map_values(|s: String| s@) =~= self.order_view().take(
                        k as int + 1,
                    ).filter(pred));
                }
            } else {
                proof {
                    assert(kept@.map_values(|s: String| s@) =~= self.order_view().take(
                        k as int + 1,
                    ).filter(pred));
                }
            }
            k = k + 1;
        }
        proof {
            assert(self.order_view().take(n as int) =~= self.order_view());
        }
        self.execution_order = kept;
        proof {
            assert(final(self).order_view() == old(self).order_view().filter(pred));
        }
    }

    /// Re-establish the invariant after a node removal.
    proof fn lemma_remove_wf(&self, pre: AudioGraph, id: Seq<char>, j: int)
        requires
            pre.wf(),
            0 <= j < pre.nodes@.len(),
            pre.nodes@[j].id_spec() == id,
            self.nodes@ == pre.nodes@.remove(j),
            self.connections@ == pre.connections@.filter(conn_keeps(id)),
            self.order_view() == pre.order_view().filter(order_keeps(id)),
        ensures
            self.wf(),
    {
        let cpred = conn_keeps(id);
        let opred = order_keeps(id);
        let conns = self.connections@;
        let order = self.order_view();
        let pconns = pre.connections@;
        let porder = pre.order_view();

        assert(forall|i: int| 0 <= i < j ==> #[trigger] self.nodes@[i] == pre.nodes@[i]);
        assert(forall|i: int|
            j <= i < self.nodes@.len() ==> #[trigger] self.nodes@[i] == pre.nodes@[i + 1]);

        assert forall|i1: int, i2: int| 0 <= i1 < i2 < self.nodes@.len() implies (
        #[trigger] self.nodes@[i1].id_spec()) != (#[trigger] self.nodes@[i2].id_spec()) by {
            let p1: int = if i1 < j {
                i1
            } else {
                i1 + 1
            };
            let p2: int = if i2 < j {
                i2
            } else {
                i2 + 1
            };
            assert(self.nodes@[i1] == pre.nodes@[p1]);
            assert(self.nodes@[i2] == pre.nodes@[p2]);
        }

        assert forall|e: Seq<char>| has_id(pre.nodes@, e) && e != id implies has_id(
            self.nodes@,
            e,
        ) by {
            let w = choose|w: int|
                0 <= w < pre.nodes@.len() && (#[trigger] pre.nodes@[w].id_spec()) == e;
            if w < j {
                assert(self.nodes@[w].id_spec() == e);
            } else {
                assert(w != j);
                assert(self.nodes@[w - 1].id_spec() == e);
            }
        }

        assert forall|k: int| 0 <= k < conns.len() implies has_id(
            self.nodes@,
            (#[trigger] conns[k]).from_node@,
        ) && has_id(self.nodes@, conns[k].to_node@) by {
            pconns.lemma_filter_pred(cpred, k);
            lemma_filter_member_src(pconns, cpred, k);
        }
        assert(conns_valid(conns, self.nodes@));

        assert forall|m: int| 0 <= m < order.len() implies has_id(self.nodes@, #[trigger] order[m])
            by {
            porder.lemma_filter_pred(opred, m);
            lemma_filter_member_src(porder, opred, m);
        }
        lemma_filter_distinct(porder, opred);
        assert forall|j2: int| 0 <= j2 < self.nodes@.len() implies order.contains(
            #[trigger] self.nodes@[j2].id_spec(),
        ) by {
            let jp: int = if j2 < j {
                j2
            } else {
                j2 + 1
            };
            assert(self.nodes@[j2] == pre.nodes@[jp]);
            let e = pre.nodes@[jp].id_spec();
            assert(e != id) by {
                if jp < j {
                    assert(pre.nodes@[jp].id_spec() != pre.nodes@[j].id_spec());
                } else if jp > j {
                    assert(pre.nodes@[j].id_spec() != pre.nodes@[jp].id_spec());
                }
            }
            assert(porder.contains(e));
            let m = choose|m: int| 0 <= m < porder.len() && porder[m] == e;
            porder.lemma_filter_contains(opred, m);
        }
        assert(porder.contains(id)) by {
            assert(porder.contains(pre.nodes@[j].id_spec()));
        }
        assert(forall|m1: int, m2: int|
            0 <= m1 < m2 < porder.len() ==> (#[trigger] porder[m1]) != (#[trigger] porder[m2]));
        lemma_filter_remove_one(porder, id, opred);
        assert(order.len() == self.nodes@.len());
        assert(order_matches(order, self.nodes@));

        assert forall|k: int, m1: int, m2: int|
            #![trigger conns[k], order[m1], order[m2]]
            0 <= k < conns.len() && 0 <= m1 < order.len() && 0 <= m2 < order.len() && order[m1]
                == conns[k].from_node@ && order[m2] == conns[k].to_node@ implies m1 < m2 by {
            let fromv = conns[k].from_node@;
            let tov = conns[k].to_node@;
            pconns.lemma_filter_pred(cpred, k);
            lemma_filter_member_src(pconns, cpred, k);
            let kw = choose|kw: int| 0 <= kw < pconns.len() && (#[trigger] pconns[kw]) == conns[k];
            assert(has_id(pre.nodes@, fromv));
            assert(has_id(pre.nodes@, tov));
            let wa = choose|w: int|
                0 <= w < pre.nodes@.len() && (#[trigger] pre.nodes@[w].id_spec()) == fromv;
            let wb = choose|w: int|
                0 <= w < pre.nodes@.len() && (#[trigger] pre.nodes@[w].id_spec()) == tov;
            assert(porder.contains(pre.nodes@[wa].id_spec()));
            assert(porder.contains(pre.nodes@[wb].id_spec()));
            let ia = choose|m: int| 0 <= m < porder.len() && #[trigger] porder[m] == fromv;
            let ib = choose|m: int| 0 <= m < porder.len() && #[trigger] porder[m] == tov;
            assert(ia < ib);
            lemma_filter_keeps_order(porder, opred, ia, ib);
            let (i2, j2) = choose|i2: int, j2: int|
                0 <= i2 < j2 < porder.filter(opred).len() && (#[trigger] porder.filter(opred)[i2])
                    == porder[ia] && (#[trigger] porder.filter(opred)[j2]) == porder[ib];
            assert(order[i2] == fromv && order[j2] == tov);
            assert(m1 == i2) by {
                if m1 < i2 {
                    assert(order[m1] != order[i2]);
                } else if i2 < m1 {
                    assert(order[i2] != order[m1]);
                }
            }
            assert(m2 == j2) by {
                if m2 < j2 {
                    assert(order[m2] != order[j2]);
                } else if j2 < m2 {
                    assert(order[j2] != order[m2]);
                }
            }
        }
        assert(order_sound(order, conns));
    }
}

impl AudioGraph {
    /// Remove every connection from `from_node` to `to_node` (any ports);
    /// removing a non-existent edge is a no-op, not an error. The execution
    /// order is unchanged: fewer edges only loosen it.
    pub fn disconnect(&mut self, from_node: &str, to_node: &str) -> (r: Result<(), GraphError>)
        requires
            old(self).wf(),
        ensures
            final(self).wf(),
            r is Ok,
            final(self).nodes@ == old(self).nodes@,
            final(self).order_view() == old(self).order_view(),
            final(self).connections@ == old(self).connections@.filter(
                conn_drops(from_node@, to_node@),
            ),
    {
        let ghost pred = conn_drops(from_node@, to_node@);
        let n: usize = self.connections.len();
        let mut kept: Vec<Connection> = Vec::new();
        let mut k: usize = 0;
        proof {
            assert(self.connections@.take(0) =~= Seq::<Connection>::empty());
            assert(Seq::<Connection>::empty().filter(pred) =~= Seq::<Connection>::empty()) by {
                reveal(Seq::filter);
            }
        }
        while k < n
            invariant
                k <= n,
                n == self.connections@.len(),
                self.connections@ == old(self).connections@,
                self.nodes@ == old(self).nodes@,
                self.execution_order@ == old(self).execution_order@,
                kept@ == self.connections@.take(k as int).filter(pred),
                pred == conn_drops(from_node@, to_node@),
            decreases n - k,
        {
            let c: &Connection = &self.connections[k];
            let hit: bool = str_eq(c.from_node.as_str(), from_node) && str_eq(
                c.to_node.as_str(),
                to_node,
            );
            proof {
                let taken = self.connections@.take(k as int);
                assert(self.connections@.take(k as int + 1) =~= taken.push(
                    self.connections@[k as int],
                ));
                Seq::lemma_filter_push(taken, self.connections@[k as int], pred);
            }
            if !hit {
                kept.push(self.connections[k].clone_conn());
            }
            k = k + 1;
        }
        proof {
            assert(self.connections@.take(n as int) =~= self.connections@);
        }
        self.connections = kept;
        proof {
            let conns = self.connections@;
            let pconns = old(self).connections@;
            assert forall|k2: int| 0 <= k2 < conns.len() implies has_id(
                self.nodes@,
                (#[trigger] conns[k2]).from_node@,
            ) && has_id(self.nodes@, conns[k2].to_node@) by {
                lemma_filter_member_src(pconns, pred, k2);
            }
            assert forall|k2: int, m1: int, m2: int|
                #![trigger conns[k2], self.order_view()[m1], self.order_view()[m2]]
                0 <= k2 < conns.len() && 0 <= m1 < self.order_view().len() && 0 <= m2
                    < self.order_view().len() && self.order_view()[m1] == conns[k2].from_node@
                    && self.order_view()[m2] == conns[k2].to_node@ implies m1 < m2 by {
                lemma_filter_member_src(pconns, pred, k2);
                let w = choose|w: int| 0 <= w < pconns.len() && (#[trigger] pconns[w]) == conns[k2];
            }
        }
        Ok(())
    }

    /// Which nodes are reachable from the node at index `start` by
    /// following connections forward, as a bitmap over node indices. The
    /// set is grown by edge relaxation until a full pass changes nothing.
    fn reachable_from(&self, start: usize) -> (r: Vec<bool>)
        requires
            self.wf(),
            start < self.nodes@.len(),
        ensures
            r@.len() == self.nodes@.len(),
            forall|j: int|
                0 <= j < r@.len() ==> (#[trigger] r@[j]) == reaches(
                    self.connections@,
                    self.nodes@[start as int].id_spec(),
                    self.nodes@[j].id_spec(),
                ),
    {
        let n: usize = self.nodes.len();
        let ghost conns = self.connections@;
        let ghost startid = self.nodes@[start as int].id_spec();
        let mut visited: Vec<bool> = vec![false; n];
        visited.set(start, true);
        proof {
            assert(reaches_n(conns, startid, startid, 0));
        }
        loop
            invariant_except_break
                self.wf(),
                n == self.nodes@.len(),
                conns == self.connections@,
                start < n,
                startid == self.nodes@[start as int].id_spec(),
                visited@.len() == n,
                visited@[start as int],
                forall|j: int|
                    0 <= j < n && #[trigger] visited@[j] ==> reaches(
                        conns,
                        startid,
                        self.nodes@[j].id_spec(),
                    ),
            ensures
                n == self.nodes@.len(),
                conns == self.connections@,
                startid == self.nodes@[start as int].id_spec(),
                visited@.len() == n,
                visited@[start as int],
                forall|j: int|
                    0 <= j < n && #[trigger] visited@[j] ==> reaches(
                        conns,
                        startid,
                        self.nodes@[j].id_spec(),
                    ),
                forall|k: int|
                    0 <= k < conns.len() ==> !visited@[idx_of(
                        self.nodes@,
                        (#[trigger] conns[k]).from_node@,
                    )] || visited@[idx_of(self.nodes@, conns[k].to_node@)],
            decreases count_unvisited(visited@),
        {
            let ghost pass_start = visited@;
            let mut changed: bool = false;
            let nc: usize = self.connections.len();
            let mut k: usize = 0;
            while k < nc
                invariant
                    self.wf(),
                    n == self.nodes@.len(),
                    conns == self.connections@,
                    start < n,
                    startid == self.nodes@[start as int].id_spec(),
                    nc == conns.len(),
                    k <= nc,
                    visited@.len() == n,
                    visited@[start as int],
                    forall|j: int|
                        0 <= j < n && #[trigger] visited@[j] ==> reaches(
                            conns,
                            startid,
                            self.nodes@[j].id_spec(),
                        ),
                    forall|j: int| 0 <= j < n && #[trigger] pass_start[j] ==> visited@[j],
                    pass_start.len() == n,
                    !changed ==> visited@ == pass_start,
                    !changed ==> forall|k2: int|
                        0 <= k2 < k ==> !visited@[idx_of(
                            self.nodes@,
                            (#[trigger] conns[k2]).from_node@,
                        )] || visited@[idx_of(self.nodes@, conns[k2].to_node@)],
                    changed ==> count_unvisited(visited@) < count_unvisited(pass_start),
                decreases nc - k,
            {
                let c_from: String = self.connections[k].from_node.clone();
                let c_to: String = self.connections[k].to_node.clone();
                let fi: usize = match self.find_node(c_from.as_str()) {
                    Some(v) => v,
                    None => {
                        proof {
                            assert(has_id(self.nodes@, conns[k as int].from_node@));
                            assert(false);
                        }
                        0
                    },
                };
                let ti: usize = match self.find_node(c_to.as_str()) {
                    Some(v) => v,
                    None => {
                        proof {
                            assert(has_id(self.nodes@, conns[k as int].to_node@));
                            assert(false);
                        }
                        0
                    },
                };
                proof {
                    lemma_idx_of(self.nodes@, conns[k as int].from_node@, fi as int);
                    lemma_idx_of(self.nodes@, conns[k as int].to_node@, ti as int);
                }
                if visited[fi] && !visited[ti] {
                    proof {
                        let un = reach_depth(conns, startid, self.nodes@[fi as int].id_spec());
                        assert(reaches_n(conns, startid, self.nodes@[fi as int].id_spec(), un));
                        assert(edge(
                            conns,
                            self.nodes@[fi as int].id_spec(),
                            self.nodes@[ti as int].id_spec(),
                        ));
                        lemma_reaches_extend(
                            conns,
                            startid,
                            self.nodes@[fi as int].id_spec(),
                            self.nodes@[ti as int].id_spec(),
                            un,
                        );
                        if !changed {
                            assert(visited@ == pass_start);
                        }
                        lemma_count_unvisited_set(visited@, ti as int);
                        lemma_count_unvisited_le_mono(pass_start, visited@);
                    }
                    visited.set(ti, true);
                    changed = true;
                }
                k = k + 1;
            }
            if !changed {
                break;
            }
        }
        proof {
            assert forall|j: int|
                0 <= j < n && reaches(conns, startid, self.nodes@[j].id_spec())
                implies visited@[j] by {
                let nn = choose|nn: nat| reaches_n(conns, startid, self.nodes@[j].id_spec(), nn);
                let member = |x: Seq<char>|
                    exists|j2: int|
                        0 <= j2 < n && (#[trigger] self.nodes@[j2].id_spec()) == x && visited@[j2];
                assert(member(startid)) by {
                    assert(self.nodes@[start as int].id_spec() == startid && visited@[start as int]);
                }
                assert forall|x: Seq<char>, y: Seq<char>|
                    member(x) && #[trigger] edge(conns, x, y) implies member(y) by {
                    let jx = choose|j2: int|
                        0 <= j2 < n && (#[trigger] self.nodes@[j2].id_spec()) == x && visited@[j2];
                    let ke = choose|k: int|
                        0 <= k < conns.len() && (#[trigger] conns[k]).from_node@ == x
                            && conns[k].to_node@ == y;
                    let fi2 = idx_of(self.nodes@, x);
                    let ti2 = idx_of(self.nodes@, y);
                    assert(has_id(self.nodes@, x));
                    assert(has_id(self.nodes@, y));
                    assert(0 <= fi2 < n && self.nodes@[fi2].id_spec() == x);
                    assert(0 <= ti2 < n && self.nodes@[ti2].id_spec() == y);
                    assert(fi2 == jx);
                    assert(visited@[fi2]);
                    assert(visited@[ti2]);
                }
                lemma_reaches_closed(conns, member, startid, self.nodes@[j].id_spec(), nn);
                let j2 = choose|j2: int|
                    0 <= j2 < n && (#[trigger] self.nodes@[j2].id_spec())
                        == self.nodes@[j].id_spec() && visited@[j2];
                assert(j2 == j);
            }
        }
        visited
    }
}

/// The order entries that the destination of a new edge reaches.
pub open spec fn order_reached(conns: Seq<Connection>, toid: Seq<char>) -> spec_fn(Seq<char>) -> bool {
    |x: Seq<char>| reaches(conns, toid, x)
}

/// The order entries that the destination of a new edge does not reach.
pub open spec fn order_unreached(conns: Seq<Connection>, toid: Seq<char>) -> spec_fn(
    Seq<char>,
) -> bool {
    |x: Seq<char>| !reaches(conns, toid, x)
}

/// Two complementary predicates split a sequence into two filters whose
/// lengths add up.
pub proof fn lemma_filter_split_len<A>(s: Seq<A>, p1: spec_fn(A) -> bool, p2: spec_fn(A) -> bool)
    requires
        forall|v: A| #[trigger] p2(v) <==> !p1(v),
    ensures
        s.filter(p1).len() + s.filter(p2).len() == s.len(),
    decreases s.len(),
{
    reveal(Seq::filter);
    if s.len() > 0 {
        lemma_filter_split_len(s.drop_last(), p1, p2);
    }
}

impl AudioGraph {
    /// Connect two nodes. Unknown endpoints are `NodeNotFound`; an edge
    /// whose destination already reaches its source closes a cycle and is
    /// `CycleDetected`, with no change to the graph. Otherwise the edge is
    /// appended and the execution order repaired by moving everything the
    /// destination reaches behind everything it does not.
    pub fn connect(&mut self, connection: Connection) -> (r: Result<(), GraphError>)
        requires
            old(self).wf(),
        ensures
            final(self).wf(),
            !has_id(old(self).nodes@, connection.from_node@) ==> {
                &&& *final(self) == *old(self)
                &&& r matches Err(GraphError::NodeNotFound(x)) && x@ == connection.from_node@
            },
            has_id(old(self).nodes@, connection.from_node@) && !has_id(
                old(self).nodes@,
                connection.to_node@,
            ) ==> {
                &&& *final(self) == *old(self)
                &&& r matches Err(GraphError::NodeNotFound(x)) && x@ == connection.to_node@
            },
            has_id(old(self).nodes@, connection.from_node@) && has_id(
                old(self).nodes@,
                connection.to_node@,
            ) && reaches(old(self).connections@, connection.to_node@, connection.from_node@) ==> {
                &&& *final(self) == *old(self)
                &&& r == Err::<(), GraphError>(GraphError::CycleDetected)
            },
            has_id(old(self).nodes@, connection.from_node@) && has_id(
                old(self).nodes@,
                connection.to_node@,
            ) && !reaches(old(self).connections@, connection.to_node@, connection.from_node@) ==> {
                &&& r is Ok
                &&& final(self).nodes@ == old(self).nodes@
                &&& final(self).connections@ == old(self).connections@.push(connection)
            },
    {
        let fi: usize = match self.find_node(connection.from_node.as_str()) {
            None => {
                return Err(GraphError::NodeNotFound(connection.from_node.clone()));
            },
            Some(v) => v,
        };
        let ti: usize = match self.find_node(connection.to_node.as_str()) {
            None => {
                return Err(GraphError::NodeNotFound(connection.to_node.clone()));
            },
            Some(v) => v,
        };
        let reach: Vec<bool> = self.reachable_from(ti);
        let ghost toid = connection.to_node@;
        let ghost conns0 = self.connections@;
        proof {
            assert(self.nodes@[ti as int].id_spec() == toid);
        }
        if reach[fi] {
            return Err(GraphError::CycleDetected);
        }
        proof {
            assert(!reaches(conns0, toid, connection.from_node@));
        }
        let ghost pkeep = order_unreached(conns0, toid);
        let ghost pmove = order_reached(conns0, toid);
        let n: usize = self.execution_order.len();
        let mut early: Vec<String> = Vec::new();
        let mut late: Vec<String> = Vec::new();
        let mut m: usize = 0;
        proof {
            assert(self.order_view().take(0) =~= Seq::<Seq<char>>::empty());
            assert(Seq::<Seq<char>>::empty().filter(pkeep) =~= Seq::<Seq<char>>::empty()) by {
                reveal(Seq::filter);
            }
            assert(Seq::<Seq<char>>::empty().filter(pmove) =~= Seq::<Seq<char>>::empty()) by {
                reveal(Seq::filter);
            }
            assert(early@.map_values(|s: String| s@) =~= Seq::<Seq<char>>::empty());
            assert(late@.map_values(|s: String| s@) =~= Seq::<Seq<char>>::empty());
        }
        while m < n
            invariant
                self.wf(),
                m <= n,
                n == self.execution_order@.len(),
                self == old(self),
                ti < self.nodes@.len(),
                toid == self.nodes@[ti as int].id_spec(),
                conns0 == self.connections@,
                reach@.len() == self.nodes@.len(),
                forall|j: int|
                    0 <= j < reach@.len() ==> (#[trigger] reach@[j]) == reaches(
                        conns0,
                        toid,
                        self.nodes@[j].id_spec(),
                    ),
                pkeep == order_unreached(conns0, toid),
                pmove == order_reached(conns0, toid),
                early@.map_values(|s: String| s@) == self.order_view().take(m as int).filter(pkeep),
                late@.map_values(|s: String| s@) == self.order_view().take(m as int).filter(pmove),
            decreases n - m,
        {
            let oid: String = self.execution_order[m].clone();
            let oi: usize = match self.find_node(oid.as_str()) {
                Some(v) => v,
                None => {
                    proof {
                        assert(has_id(self.nodes@, self.order_view()[m as int]));
                        assert(false);
                    }
                    0
                },
            };
            proof {
                let taken = self.order_view().take(m as int);
                assert(self.order_view().take(m as int + 1) =~= taken.push(
                    self.order_view()[m as int],
                ));
                Seq::lemma_filter_push(taken, self.order_view()[m as int], pkeep);
                Seq::lemma_filter_push(taken, self.order_view()[m as int], pmove);
                assert(self.nodes@[oi as int].id_spec() == oid@);
                assert(oid@ == self.order_view()[m as int]);
            }
            if reach[oi] {
                late.push(oid);
                proof {
                    assert(late@.map_values(|s: String| s@) =~= self.order_view().take(
                        m as int + 1,
                    ).filter(pmove));
                    assert(early@.map_values(|s: String| s@) =~= self.order_view().take(
                        m as int + 1,
                    ).filter(pkeep));
                }
            } else {
                early.push(oid);
                proof {
                    assert(early@.map_values(|s: String| s@) =~= self.order_view().take(
                        m as int + 1,
                    ).filter(pkeep));
                    assert(late@.map_values(|s: String| s@) =~= self.order_view().take(
                        m as int + 1,
                    ).filter(pmove));
                }
            }
            m = m + 1;
        }
        proof {
            assert(self.order_view().take(n as int) =~= self.order_view());
        }
        let mut neworder: Vec<String> = early;
        neworder.append(&mut late);
        proof {
            assert(neworder@.map_values(|s: String| s@) =~= self.order_view().filter(pkeep)
                + self.order_view().filter(pmove));
        }
        self.execution_order = neworder;
        self.connections.push(connection);
        proof {
            self.lemma_connect_wf(*old(self), connection, toid);
        }
        Ok(())
    }

    /// Re-establish the invariant after appending an acyclic edge and
    /// repairing the order by the reached/unreached split.
    proof fn lemma_connect_wf(&self, pre: AudioGraph, c: Connection, toid: Seq<char>)
        requires
            pre.wf(),
            has_id(pre.nodes@, c.from_node@),
            has_id(pre.nodes@, c.to_node@),
            toid == c.to_node@,
            !reaches(pre.connections@, toid, c.from_node@),
            self.nodes@ == pre.nodes@,
            self.connections@ == pre.connections@.push(c),
            self.order_view() == pre.order_view().filter(order_unreached(pre.connections@, toid))
                + pre.order_view().filter(order_reached(pre.connections@, toid)),
        ensures
            self.wf(),
    {
        let pkeep = order_unreached(pre.connections@, toid);
        let pmove = order_reached(pre.connections@, toid);
        let porder = pre.order_view();
        let pconns = pre.connections@;
        let order = self.order_view();
        let conns = self.connections@;
        let b1 = porder.filter(pkeep);
        let b2 = porder.filter(pmove);

        assert(forall|v: Seq<char>| #[trigger] pmove(v) <==> !pkeep(v));
        lemma_filter_split_len(porder, pkeep, pmove);
        assert(order.len() == porder.len());

        assert forall|m: int| 0 <= m < order.len() implies has_id(self.nodes@, #[trigger] order[m])
            by {
            if m < b1.len() {
                porder.lemma_filter_pred(pkeep, m);
                lemma_filter_member_src(porder, pkeep, m);
            } else {
                porder.lemma_filter_pred(pmove, m - b1.len());
                lemma_filter_member_src(porder, pmove, m - b1.len());
            }
        }
        lemma_filter_distinct(porder, pkeep);
        lemma_filter_distinct(porder, pmove);
        assert forall|m1: int, m2: int| 0 <= m1 < m2 < order.len() implies (#[trigger] order[m1])
            != (#[trigger] order[m2]) by {
            if m1 < b1.len() && m2 >= b1.len() {
                porder.lemma_filter_pred(pkeep, m1);
                porder.lemma_filter_pred(pmove, m2 - b1.len());
            }
        }
        assert forall|j: int| 0 <= j < self.nodes@.len() implies order.contains(
            #[trigger] self.nodes@[j].id_spec(),
        ) by {
            let e = self.nodes@[j].id_spec();
            assert(porder.contains(e));
            let mp = choose|mp: int| 0 <= mp < porder.len() && #[trigger] porder[mp] == e;
            if pkeep(e) {
                porder.lemma_filter_contains(pkeep, mp);
                let mb = choose|mb: int| 0 <= mb < b1.len() && #[trigger] b1[mb] == e;
                assert(order[mb] == e);
            } else {
                porder.lemma_filter_contains(pmove, mp);
                let mb = choose|mb: int| 0 <= mb < b2.len() && #[trigger] b2[mb] == e;
                assert(order[b1.len() + mb] == e);
            }
        }
        assert(order_matches(order, self.nodes@));

        assert forall|k: int| 0 <= k < conns.len() implies has_id(
            self.nodes@,
            (#[trigger] conns[k]).from_node@,
        ) && has_id(self.nodes@, conns[k].to_node@) by {
            if k < pconns.len() {
                assert(conns[k] == pconns[k]);
            } else {
                assert(conns[k] == c);
            }
        }

        assert forall|k: int, m1: int, m2: int|
            #![trigger conns[k], order[m1], order[m2]]
            0 <= k < conns.len() && 0 <= m1 < order.len() && 0 <= m2 < order.len() && order[m1]
                == conns[k].from_node@ && order[m2] == conns[k].to_node@ implies m1 < m2 by {
            let fromv = conns[k].from_node@;
            let tov = conns[k].to_node@;
            let keep_from = pkeep(fromv);
            let keep_to = pkeep(tov);
            if k < pconns.len() {
                assert(conns[k] == pconns[k]);
                assert(edge(pconns, fromv, tov)) by {
                    assert(pconns[k].from_node@ == fromv && pconns[k].to_node@ == tov);
                }
                if !keep_from && keep_to {
                    let dn = reach_depth(pconns, toid, fromv);
                    assert(reaches_n(pconns, toid, fromv, dn));
                    lemma_reaches_extend(pconns, toid, fromv, tov, dn);
                    assert(false);
                }
                assert(has_id(pre.nodes@, fromv));
                assert(has_id(pre.nodes@, tov));
                let wa = choose|w: int|
                    0 <= w < pre.nodes@.len() && (#[trigger] pre.nodes@[w].id_spec()) == fromv;
                let wb = choose|w: int|
                    0 <= w < pre.nodes@.len() && (#[trigger] pre.nodes@[w].id_spec()) == tov;
                assert(porder.contains(pre.nodes@[wa].id_spec()));
                assert(porder.contains(pre.nodes@[wb].id_spec()));
                let ia = choose|mm: int| 0 <= mm < porder.len() && #[trigger] porder[mm] == fromv;
                let ib = choose|mm: int| 0 <= mm < porder.len() && #[trigger] porder[mm] == tov;
                assert(ia < ib);
                if keep_from && keep_to {
                    lemma_filter_keeps_order(porder, pkeep, ia, ib);
                    let (i2, j2) = choose|i2: int, j2: int|
                        0 <= i2 < j2 < b1.len() && (#[trigger] b1[i2]) == porder[ia] && (
                        #[trigger] b1[j2]) == porder[ib];
                    assert(order[i2] == fromv && order[j2] == tov);
                    lemma_unique_position(order, m1, i2);
                    lemma_unique_position(order, m2, j2);
                } else if !keep_from && !keep_to {
                    lemma_filter_keeps_order(porder, pmove, ia, ib);
                    let (i2, j2) = choose|i2: int, j2: int|
                        0 <= i2 < j2 < b2.len() && (#[trigger] b2[i2]) == porder[ia] && (
                        #[trigger] b2[j2]) == porder[ib];
                    assert(order[b1.len() + i2] == fromv && order[b1.len() + j2] == tov);
                    lemma_unique_position(order, m1, b1.len() + i2);
                    lemma_unique_position(order, m2, b1.len() + j2);
                } else {
                    assert(keep_from && !keep_to);
                    porder.lemma_filter_contains(pkeep, ia);
                    porder.lemma_filter_contains(pmove, ib);
                    let i2 = choose|i2: int| 0 <= i2 < b1.len() && #[trigger] b1[i2] == fromv;
                    let j2 = choose|j2: int| 0 <= j2 < b2.len() && #[trigger] b2[j2] == tov;
                    assert(order[i2] == fromv && order[b1.len() + j2] == tov);
                    lemma_unique_position(order, m1, i2);
                    lemma_unique_position(order, m2, b1.len() + j2);
                }
            } else {
                assert(conns[k] == c);
                assert(pkeep(fromv));
                assert(pmove(tov)) by {
                    assert(reaches_n(pconns, toid, toid, 0));
                }
                assert(has_id(pre.nodes@, fromv));
                assert(has_id(pre.nodes@, tov));
                let wa = choose|w: int|
                    0 <= w < pre.nodes@.len() && (#[trigger] pre.nodes@[w].id_spec()) == fromv;
                let wb = choose|w: int|
                    0 <= w < pre.nodes@.len() && (#[trigger] pre.nodes@[w].id_spec()) == tov;
                assert(porder.contains(pre.nodes@[wa].id_spec()));
                assert(porder.contains(pre.nodes@[wb].id_spec()));
                let ia = choose|mm: int| 0 <= mm < porder.len() && #[trigger] porder[mm] == fromv;
                let ib = choose|mm: int| 0 <= mm < porder.len() && #[trigger] porder[mm] == tov;
                porder.lemma_filter_contains(pkeep, ia);
                porder.lemma_filter_contains(pmove, ib);
                let i2 = choose|i2: int| 0 <= i2 < b1.len() && #[trigger] b1[i2] == fromv;
                let j2 = choose|j2: int| 0 <= j2 < b2.len() && #[trigger] b2[j2] == tov;
                assert(order[i2] == fromv && order[b1.len() + j2] == tov);
                lemma_unique_position(order, m1, i2);
                lemma_unique_position(order, m2, b1.len() + j2);
            }
        }
        assert(order_sound(order, conns));
    }
}

/// In a duplicate-free sequence, equal values sit at equal positions.
pub proof fn lemma_unique_position(s: Seq<Seq<char>>, m1: int, m2: int)
    requires
        forall|a: int, b: int| 0 <= a < b < s.len() ==> (#[trigger] s[a]) != (#[trigger] s[b]),
        0 <= m1 < s.len(),
        0 <= m2 < s.len(),
        s[m1] == s[m2],
    ensures
        m1 == m2,
{
    if m1 < m2 {
        assert(s[m1] != s[m2]);
    } else if m2 < m1 {
        assert(s[m2] != s[m1]);
    }
}

/// `idx_of` returns the one index carrying a present id.
pub proof fn lemma_idx_of(nodes: Seq<NodeKind>, id: Seq<char>, w: int)
    requires
        distinct_ids(nodes),
        0 <= w < nodes.len(),
        nodes[w].id_spec() == id,
    ensures
        idx_of(nodes, id) == w,
{
    assert(has_id(nodes, id));
    let j = idx_of(nodes, id);
    assert(0 <= j < nodes.len() && nodes[j].id_spec() == id);
    if j < w {
        assert(nodes[j].id_spec() != nodes[w].id_spec());
    } else if w < j {
        assert(nodes[w].id_spec() != nodes[j].id_spec());
    }
}

/// A pointwise-larger bitmap has at most as many unvisited entries.
pub proof fn lemma_count_unvisited_le_mono(a: Seq<bool>, b: Seq<bool>)
    requires
        a.len() == b.len(),
        forall|j: int| 0 <= j < a.len() && #[trigger] a[j] ==> b[j],
    ensures
        count_unvisited(b) <= count_unvisited(a),
    decreases a.len(),
{
    if a.len() > 0 {
        assert(forall|j: int|
            0 <= j < a.len() - 1 && #[trigger] a.drop_last()[j] ==> b.drop_last()[j]);
        lemma_count_unvisited_le_mono(a.drop_last(), b.drop_last());
    }
}

/// The chosen number of steps witnessing a reachability fact.
pub open spec fn reach_depth(conns: Seq<Connection>, a: Seq<char>, b: Seq<char>) -> nat {
    choose|n: nat| reaches_n(conns, a, b, n)
}

/// The predicate keeping connections other than those from `a` to `b`.
pub open spec fn conn_drops(a: Seq<char>, b: Seq<char>) -> spec_fn(Connection) -> bool {
    |c: Connection| !(c.from_node@ == a && c.to_node@ == b)
}

/// How many entries of a visited bitmap are still false.
pub open spec fn count_unvisited(v: Seq<bool>) -> nat
    decreases v.len(),
{
    if v.len() == 0 {
        0
    } else {
        count_unvisited(v.drop_last()) + if v.last() {
            0nat
        } else {
            1nat
        }
    }
}

/// Setting one entry true lowers the unvisited count by one.
pub proof fn lemma_count_unvisited_set(v: Seq<bool>, i: int)
    requires
        0 <= i < v.len(),
        !v[i],
    ensures
        count_unvisited(v.update(i, true)) == count_unvisited(v) - 1,
    decreases v.len(),
{
    if i == v.len() - 1 {
        assert(v.update(i, true).drop_last() =~= v.drop_last());
    } else {
        assert(v.update(i, true).drop_last() =~= v.drop_last().update(i, true));
        lemma_count_unvisited_set(v.drop_last(), i);
    }
}

/// The predicate keeping connections that point into `id`.
pub open spec fn conn_into(id: Seq<char>) -> spec_fn(Connection) -> bool {
    |c: Connection| c.to_node@ == id
}

/// The shapes of the cached buffers.
pub open spec fn cache_view(cache: Seq<Option<AudioBuffer>>) -> Seq<Option<BufView>> {
    cache.map_values(
        |o: Option<AudioBuffer>|
            match o {
                Some(b) => Some(buf_view(b)),
                None => None::<BufView>,
            },
    )
}

/// The cached shape under a node id; a missing entry reads as an empty
/// placeholder (the scheduler proves entries present before reading).
pub open spec fn cache_at(
    nodes: Seq<NodeKind>,
    cache: Seq<Option<BufView>>,
    id: Seq<char>,
) -> BufView {
    match cache[idx_of(nodes, id)] {
        Some(v) => v,
        None => silence_view(0, 0, 0),
    }
}

/// Mix the cached outputs of a non-empty list of incoming connections:
/// the first upstream buffer, then each further one mixed in.
pub open spec fn mix_fold(
    nodes: Seq<NodeKind>,
    cache: Seq<Option<BufView>>,
    inc: Seq<Connection>,
) -> BufView
    decreases inc.len(),
{
    if inc.len() <= 1 {
        cache_at(nodes, cache, inc[0].from_node@)
    } else {
        let prev = mix_fold(nodes, cache, inc.drop_last());
        BufView {
            samples: mix_spec(prev.samples, cache_at(nodes, cache, inc.last().from_node@).samples),
            ..prev
        }
    }
}

/// What a node receives: all incoming edges mixed in insertion order, or a
/// silent stereo buffer of 512 frames at 48 kHz when it has none.
pub open spec fn gather_spec(
    conns: Seq<Connection>,
    nodes: Seq<NodeKind>,
    cache: Seq<Option<BufView>>,
    id: Seq<char>,
) -> BufView {
    let inc = conns.filter(conn_into(id));
    if inc.len() == 0 {
        silence_view(2, 48000, 512)
    } else {
        mix_fold(nodes, cache, inc)
    }
}

/// The cache after the first `t` steps of a sweep: the first node in the
/// order is seeded with the input, and each processed node's slot holds
/// what it emitted for its gathered input.
pub open spec fn sweep_cache(
    conns: Seq<Connection>,
    nodes: Seq<NodeKind>,
    order: Seq<Seq<char>>,
    input: BufView,
    t: int,
) -> Seq<Option<BufView>>
    decreases t,
{
    if t <= 0 {
        if order.len() > 0 {
            Seq::new(
                nodes.len(),
                |j: int|
                    if j == idx_of(nodes, order[0]) {
                        Some(input)
                    } else {
                        None::<BufView>
                    },
            )
        } else {
            Seq::new(nodes.len(), |j: int| None::<BufView>)
        }
    } else {
        let prev = sweep_cache(conns, nodes, order, input, t - 1);
        let id = order[t - 1];
        let j = idx_of(nodes, id);
        prev.update(j, Some(nodes[j].out_view(gather_spec(conns, nodes, prev, id))))
    }
}

/// Whether the node at index `j` has no outgoing connection.
pub open spec fn is_sink(nodes: Seq<NodeKind>, conns: Seq<Connection>, j: int) -> bool {
    forall|k: int|
        0 <= k < conns.len() ==> (#[trigger] conns[k]).from_node@ != nodes[j].id_spec()
}

/// Whether any node is a sink.
pub open spec fn has_sink(nodes: Seq<NodeKind>, conns: Seq<Connection>) -> bool {
    exists|j: int| 0 <= j < nodes.len() && is_sink(nodes, conns, j)
}

/// The first sink index at or after `t`; `nodes.len()` when there is none.
pub open spec fn first_sink_from(nodes: Seq<NodeKind>, conns: Seq<Connection>, t: int) -> int
    decreases nodes.len() - t,
{
    if t < 0 || t >= nodes.len() {
        nodes.len() as int
    } else if is_sink(nodes, conns, t) {
        t
    } else {
        first_sink_from(nodes, conns, t + 1)
    }
}

/// `first_sink_from(0)` finds exactly the first sink.
pub proof fn lemma_first_sink(nodes: Seq<NodeKind>, conns: Seq<Connection>, t: int, j: int)
    requires
        0 <= t <= j <= nodes.len(),
        forall|m: int| t <= m < j ==> !is_sink(nodes, conns, m),
        j < nodes.len() ==> is_sink(nodes, conns, j),
    ensures
        j < nodes.len() ==> first_sink_from(nodes, conns, t) == j,
        j == nodes.len() ==> first_sink_from(nodes, conns, t) == nodes.len(),
    decreases j - t,
{
    if t < j {
        lemma_first_sink(nodes, conns, t + 1, j);
    }
}

/// `mix_fold` reads the node sequence only through its ids, so two node
/// sequences with the same ids gather identically.
pub proof fn lemma_mix_fold_same_ids(
    nodes1: Seq<NodeKind>,
    nodes2: Seq<NodeKind>,
    cache: Seq<Option<BufView>>,
    inc: Seq<Connection>,
)
    requires
        distinct_ids(nodes1),
        nodes1.len() == nodes2.len(),
        forall|j: int|
            0 <= j < nodes1.len() ==> (#[trigger] nodes1[j].id_spec()) == nodes2[j].id_spec(),
        forall|k: int| 0 <= k < inc.len() ==> has_id(nodes1, (#[trigger] inc[k]).from_node@),
        inc.len() >= 1,
    ensures
        mix_fold(nodes1, cache, inc) == mix_fold(nodes2, cache, inc),
    decreases inc.len(),
{
    if inc.len() >= 1 {
        lemma_idx_of_same_ids(nodes1, nodes2, inc[0].from_node@);
        lemma_idx_of_same_ids(nodes1, nodes2, inc.last().from_node@);
    }
    if inc.len() > 1 {
        assert(forall|k: int|
            0 <= k < inc.len() - 1 ==> (#[trigger] inc.drop_last()[k]) == inc[k]);
        lemma_mix_fold_same_ids(nodes1, nodes2, cache, inc.drop_last());
    }
}

/// `idx_of` depends only on the ids.
pub proof fn lemma_idx_of_same_ids(nodes1: Seq<NodeKind>, nodes2: Seq<NodeKind>, id: Seq<char>)
    requires
        distinct_ids(nodes1),
        nodes1.len() == nodes2.len(),
        forall|j: int|
            0 <= j < nodes1.len() ==> (#[trigger] nodes1[j].id_spec()) == nodes2[j].id_spec(),
    ensures
        has_id(nodes1, id) ==> idx_of(nodes1, id) == idx_of(nodes2, id),
        has_id(nodes1, id) <==> has_id(nodes2, id),
{
    if has_id(nodes1, id) {
        let j1 = idx_of(nodes1, id);
        let w = choose|w: int| 0 <= w < nodes1.len() && (#[trigger] nodes1[w].id_spec()) == id;
        assert(nodes2[w].id_spec() == id);
        assert(0 <= j1 < nodes1.len() && nodes1[j1].id_spec() == id);
        assert(nodes2[j1].id_spec() == id);
        let j2 = idx_of(nodes2, id);
        assert(0 <= j2 < nodes2.len() && nodes2[j2].id_spec() == id);
        assert(nodes1[j2].id_spec() == id);
        if j1 < j2 {
            assert(nodes1[j1].id_spec() != nodes1[j2].id_spec());
        } else if j2 < j1 {
            assert(nodes1[j2].id_spec() != nodes1[j1].id_spec());
        }
    } else {
        if has_id(nodes2, id) {
            let w = choose|w: int| 0 <= w < nodes2.len() && (#[trigger] nodes2[w].id_spec()) == id;
            assert(nodes1[w].id_spec() == id);
        }
        lemma_idx_of_none(nodes1, id);
        lemma_idx_of_none(nodes2, id);
    }
}

/// Without the id present, `idx_of` is the same unconstrained choice on
/// both sides only when forced; pin it by showing no witness exists.
pub proof fn lemma_idx_of_none(nodes: Seq<NodeKind>, id: Seq<char>)
    requires
        !has_id(nodes, id),
    ensures
        !(0 <= idx_of(nodes, id) < nodes.len() && nodes[idx_of(nodes, id)].id_spec() == id),
{
}

impl AudioGraph {
    /// Gather what the node carrying `id` receives: the cached outputs of
    /// all its incoming connections mixed in insertion order, or silence
    /// when it has none. A missing upstream entry is `NodeNotFound`.
    fn gather_inputs(&self, cache: &Vec<Option<AudioBuffer>>, id: &str) -> (r: Result<
        AudioBuffer,
        GraphError,
    >)
        requires
            self.wf(),
            cache@.len() == self.nodes@.len(),
        ensures
            (forall|k: int|
                0 <= k < self.connections@.len() && (#[trigger] self.connections@[k]).to_node@
                    == id@ ==> cache@[idx_of(self.nodes@, self.connections@[k].from_node@)]
                    is Some) ==> ({
                &&& r matches Ok(b) && buf_view(b) == gather_spec(
                    self.connections@,
                    self.nodes@,
                    cache_view(cache@),
                    id@,
                )
            }),
    {
        let ghost pred = conn_into(id@);
        let ghost conns = self.connections@;
        let nc: usize = self.connections.len();
        let mut acc: Option<AudioBuffer> = None;
        let mut k: usize = 0;
        proof {
            assert(conns.take(0) =~= Seq::<Connection>::empty());
            assert(Seq::<Connection>::empty().filter(pred) =~= Seq::<Connection>::empty()) by {
                reveal(Seq::filter);
            }
        }
        while k < nc
            invariant
                self.wf(),
                k <= nc,
                nc == conns.len(),
                conns == self.connections@,
                cache@.len() == self.nodes@.len(),
                pred == conn_into(id@),
                acc is None <==> conns.take(k as int).filter(pred).len() == 0,
                acc matches Some(b) ==> conns.take(k as int).filter(pred).len() > 0 && buf_view(b)
                    == mix_fold(self.nodes@, cache_view(cache@), conns.take(k as int).filter(pred)),
            decreases nc - k,
        {
            let ghost taken = conns.take(k as int);
            proof {
                assert(conns.take(k as int + 1) =~= taken.push(conns[k as int]));
                Seq::lemma_filter_push(taken, conns[k as int], pred);
            }
            if str_eq(self.connections[k].to_node.as_str(), id) {
                let from_s: String = self.connections[k].from_node.clone();
                let fidx: usize = match self.find_node(from_s.as_str()) {
                    Some(v) => v,
                    None => {
                        proof {
                            assert(has_id(self.nodes@, conns[k as int].from_node@));
                            assert(false);
                        }
                        0
                    },
                };
                proof {
                    lemma_idx_of(self.nodes@, conns[k as int].from_node@, fidx as int);
                }
                match &cache[fidx] {
                    None => {
                        return Err(GraphError::NodeNotFound(from_s));
                    },
                    Some(b) => {
                        proof {
                            assert(cache_view(cache@)[fidx as int] == Some(buf_view(*b)));
                            assert(cache_at(
                                self.nodes@,
                                cache_view(cache@),
                                conns[k as int].from_node@,
                            ) == buf_view(*b));
                        }
                        match acc {
                            None => {
                                let fresh = b.clone();
                                proof {
                                    let inc2 = conns.take(k as int + 1).filter(pred);
                                    assert(inc2.len() == 1);
                                    assert(inc2[0] == conns[k as int]);
                                    assert(buf_view(fresh) == mix_fold(
                                        self.nodes@,
                                        cache_view(cache@),
                                        inc2,
                                    ));
                                }
                                acc = Some(fresh);
                            },
                            Some(mut a) => {
                                a.mix(b);
                                proof {
                                    let inc2 = conns.take(k as int + 1).filter(pred);
                                    assert(inc2.drop_last() =~= taken.filter(pred));
                                    assert(inc2.last() == conns[k as int]);
                                    assert(inc2.len() > 1);
                                    assert(buf_view(a) =~= mix_fold(
                                        self.nodes@,
                                        cache_view(cache@),
                                        inc2,
                                    ));
                                }
                                acc = Some(a);
                            },
                        }
                    },
                }
            }
            k = k + 1;
        }
        proof {
            assert(conns.take(nc as int) =~= conns);
        }
        match acc {
            None => {
                let b = AudioBuffer::silence(2, 48000, 512);
                proof {
                    assert(buf_view(b) =~= silence_view(2, 48000, 512));
                }
                Ok(b)
            },
            Some(b) => Ok(b),
        }
    }

    /// One step of a sweep: gather the inputs of the node at position `t`
    /// of the execution order, run it, and cache its output.
    fn sweep_step(
        &mut self,
        cache: &mut Vec<Option<AudioBuffer>>,
        t: usize,
        Ghost(nodes0): Ghost<Seq<NodeKind>>,
        Ghost(conns0): Ghost<Seq<Connection>>,
        Ghost(order0): Ghost<Seq<Seq<char>>>,
        Ghost(inview): Ghost<BufView>,
    )
        requires
            old(self).wf(),
            t < order0.len(),
            old(self).connections@ == conns0,
            old(self).order_view() == order0,
            old(self).nodes@.len() == nodes0.len(),
            distinct_ids(nodes0),
            conns_valid(conns0, nodes0),
            order_matches(order0, nodes0),
            order_sound(order0, conns0),
            forall|j: int|
                0 <= j < nodes0.len() ==> (#[trigger] old(self).nodes@[j].id_spec())
                    == nodes0[j].id_spec(),
            old(cache)@.len() == nodes0.len(),
            cache_view(old(cache)@) == sweep_cache(conns0, nodes0, order0, inview, t as int),
            forall|j: int|
                0 <= j < nodes0.len() ==> ((#[trigger] old(cache)@[j]) is Some <==> (order0.take(
                    t as int,
                ).contains(nodes0[j].id_spec()) || (order0.len() > 0 && j == idx_of(
                    nodes0,
                    order0[0],
                )))),
            forall|j: int|
                0 <= j < nodes0.len() && !order0.take(t as int).contains(nodes0[j].id_spec())
                    ==> (#[trigger] old(self).nodes@[j]) == nodes0[j],
        ensures
            final(self).wf(),
            final(self).connections@ == conns0,
            final(self).order_view() == order0,
            final(self).nodes@.len() == nodes0.len(),
            forall|j: int|
                0 <= j < nodes0.len() ==> (#[trigger] final(self).nodes@[j].id_spec())
                    == nodes0[j].id_spec(),
            final(cache)@.len() == nodes0.len(),
            cache_view(final(cache)@) == sweep_cache(conns0, nodes0, order0, inview, t + 1),
            forall|j: int|
                0 <= j < nodes0.len() ==> ((#[trigger] final(cache)@[j]) is Some <==> (order0.take(
                    t + 1,
                ).contains(nodes0[j].id_spec()) || (order0.len() > 0 && j == idx_of(
                    nodes0,
                    order0[0],
                )))),
            forall|j: int|
                0 <= j < nodes0.len() && !order0.take(t + 1).contains(nodes0[j].id_spec()) ==> (
                #[trigger] final(self).nodes@[j]) == nodes0[j],
            forall|j: int|
                0 <= j < nodes0.len() && order0.take(t as int).contains(nodes0[j].id_spec()) ==> (
                #[trigger] final(self).nodes@[j]) == old(self).nodes@[j],
            nodes0[idx_of(nodes0, order0[t as int])].post_rel(
                gather_spec(
                    conns0,
                    nodes0,
                    sweep_cache(conns0, nodes0, order0, inview, t as int),
                    order0[t as int],
                ),
                final(self).nodes@[idx_of(nodes0, order0[t as int])],
            ),
    {
        let id_s: String = self.execution_order[t].clone();
        proof {
            assert(id_s@ == order0[t as int]);
        }
        proof {
            assert forall|k: int|
                0 <= k < conns0.len() && (#[trigger] conns0[k]).to_node@ == id_s@
                implies cache@[idx_of(nodes0, conns0[k].from_node@)] is Some by {
                let fromid = conns0[k].from_node@;
                assert(has_id(nodes0, fromid));
                let wj = choose|w: int|
                    0 <= w < nodes0.len() && (#[trigger] nodes0[w].id_spec()) == fromid;
                assert(order0.contains(nodes0[wj].id_spec()));
                let tf = choose|m: int| 0 <= m < order0.len() && #[trigger] order0[m] == fromid;
                assert(tf < t);
                assert(order0.take(t as int)[tf] == fromid);
                assert(order0.take(t as int).contains(fromid));
                lemma_idx_of(nodes0, fromid, wj);
            }
            assert(distinct_ids(self.nodes@)) by {
                assert forall|i1: int, i2: int|
                    0 <= i1 < i2 < self.nodes@.len() implies (
                #[trigger] self.nodes@[i1].id_spec()) != (#[trigger] self.nodes@[i2].id_spec())
                    by {
                    assert(self.nodes@[i1].id_spec() == nodes0[i1].id_spec());
                    assert(self.nodes@[i2].id_spec() == nodes0[i2].id_spec());
                }
            }
            assert forall|k: int|
                0 <= k < self.connections@.len() && (#[trigger] self.connections@[k]).to_node@
                    == id_s@ implies cache@[idx_of(self.nodes@, self.connections@[k].from_node@)]
                is Some by {
                lemma_idx_of_same_ids(self.nodes@, nodes0, self.connections@[k].from_node@);
                assert(has_id(nodes0, conns0[k].from_node@));
                let wj = choose|w: int|
                    0 <= w < nodes0.len() && (#[trigger] nodes0[w].id_spec())
                        == conns0[k].from_node@;
                assert(self.nodes@[wj].id_spec() == conns0[k].from_node@);
            }
        }
        let gathered: AudioBuffer = match self.gather_inputs(&*cache, id_s.as_str()) {
            Ok(b) => b,
            Err(_) => {
                proof {
                    assert(false);
                }
                AudioBuffer::silence(0, 0, 0)
            },
        };
        proof {
            assert(buf_view(gathered) == gather_spec(
                self.connections@,
                self.nodes@,
                cache_view(cache@),
                id_s@,
            ));
        }
        let ni: usize = match self.find_node(id_s.as_str()) {
            Some(v) => v,
            None => {
                proof {
                    assert(has_id(nodes0, order0[t as int]));
                    let wj = choose|w: int|
                        0 <= w < nodes0.len() && (#[trigger] nodes0[w].id_spec()) == id_s@;
                    assert(self.nodes@[wj].id_spec() == id_s@);
                    assert(has_id(self.nodes@, id_s@));
                    assert(false);
                }
                0
            },
        };
        proof {
            assert(nodes0[ni as int].id_spec() == id_s@);
            lemma_idx_of(nodes0, id_s@, ni as int);
            assert(!order0.take(t as int).contains(nodes0[ni as int].id_spec())) by {
                if order0.take(t as int).contains(nodes0[ni as int].id_spec()) {
                    let tm = choose|m: int|
                        0 <= m < t && #[trigger] order0.take(t as int)[m] == order0[t as int];
                    assert(order0[tm] == order0[t as int]);
                }
            }
        }
        let ghost nodes_at_gather = self.nodes@;
        let mut node: NodeKind = self.nodes.remove(ni);
        proof {
            assert(node == nodes0[ni as int]);
        }
        let out: AudioBuffer = node.process(&gathered);
        self.nodes.insert(ni, node);
        cache.set(ni, Some(out));
        proof {
            assert(self.nodes@ =~= nodes_at_gather.update(ni as int, node));
            let prev = sweep_cache(conns0, nodes0, order0, inview, t as int);
            let inc = conns0.filter(conn_into(id_s@));
            assert forall|k2: int| 0 <= k2 < inc.len() implies has_id(
                nodes_at_gather,
                (#[trigger] inc[k2]).from_node@,
            ) by {
                lemma_filter_member_src(conns0, conn_into(id_s@), k2);
                let w = choose|w: int| 0 <= w < conns0.len() && (#[trigger] conns0[w]) == inc[k2];
                assert(has_id(nodes0, conns0[w].from_node@));
                let wj = choose|wj: int|
                    0 <= wj < nodes0.len() && (#[trigger] nodes0[wj].id_spec())
                        == inc[k2].from_node@;
                assert(nodes_at_gather[wj].id_spec() == inc[k2].from_node@);
            }
            assert(distinct_ids(nodes_at_gather)) by {
                assert forall|i1: int, i2: int|
                    0 <= i1 < i2 < nodes_at_gather.len() implies (
                #[trigger] nodes_at_gather[i1].id_spec()) != (
                #[trigger] nodes_at_gather[i2].id_spec()) by {
                    assert(nodes_at_gather[i1].id_spec() == nodes0[i1].id_spec());
                    assert(nodes_at_gather[i2].id_spec() == nodes0[i2].id_spec());
                }
            }
            if inc.len() > 0 {
                lemma_mix_fold_same_ids(nodes_at_gather, nodes0, prev, inc);
            }
            assert(gather_spec(conns0, nodes_at_gather, prev, id_s@) == gather_spec(
                conns0,
                nodes0,
                prev,
                id_s@,
            ));
            assert(buf_view(gathered) == gather_spec(conns0, nodes0, prev, id_s@));
            assert(buf_view(out) == nodes0[ni as int].out_view(
                gather_spec(conns0, nodes0, prev, id_s@),
            ));
            assert(cache_view(cache@) =~= sweep_cache(conns0, nodes0, order0, inview, t + 1));
            assert(order0.take(t + 1) =~= order0.take(t as int).push(order0[t as int]));
            assert forall|j: int|
                0 <= j < nodes0.len() && !order0.take(t + 1).contains(nodes0[j].id_spec())
                implies (#[trigger] self.nodes@[j]) == nodes0[j] by {
                assert(!order0.take(t as int).contains(nodes0[j].id_spec())) by {
                    if order0.take(t as int).contains(nodes0[j].id_spec()) {
                        let tm = choose|m: int|
                            0 <= m < t && #[trigger] order0.take(t as int)[m]
                                == nodes0[j].id_spec();
                        assert(order0.take(t + 1)[tm] == nodes0[j].id_spec());
                    }
                }
                if j == ni as int {
                    assert(order0.take(t + 1)[t as int] == nodes0[j].id_spec());
                }
                assert(j != ni as int);
            }
            assert forall|j: int|
                0 <= j < nodes0.len() implies ((#[trigger] cache@[j]) is Some <==> (order0.take(
                    t + 1,
                ).contains(nodes0[j].id_spec()) || (order0.len() > 0 && j == idx_of(
                    nodes0,
                    order0[0],
                )))) by {
                if j == ni as int {
                    assert(order0.take(t + 1)[t as int] == nodes0[j].id_spec());
                } else {
                    if order0.take(t + 1).contains(nodes0[j].id_spec()) {
                        let tm = choose|m: int|
                            0 <= m <= t && #[trigger] order0.take(t + 1)[m]
                                == nodes0[j].id_spec();
                        if tm == t {
                            assert(false);
                        }
                        assert(order0.take(t as int)[tm] == nodes0[j].id_spec());
                    }
                    if order0.take(t as int).contains(nodes0[j].id_spec()) {
                        let tm = choose|m: int|
                            0 <= m < t && #[trigger] order0.take(t as int)[m]
                                == nodes0[j].id_spec();
                        assert(order0.take(t + 1)[tm] == nodes0[j].id_spec());
                    }
                }
            }
            assert(order_matches(self.order_view(), self.nodes@)) by {
                assert forall|m: int|
                    0 <= m < order0.len() implies has_id(self.nodes@, #[trigger] order0[m]) by {
                    let wj = choose|w: int|
                        0 <= w < nodes0.len() && (#[trigger] nodes0[w].id_spec()) == order0[m];
                    assert(self.nodes@[wj].id_spec() == order0[m]);
                }
                assert forall|j: int| 0 <= j < self.nodes@.len() implies self.order_view()
                    .contains(#[trigger] self.nodes@[j].id_spec()) by {
                    assert(self.nodes@[j].id_spec() == nodes0[j].id_spec());
                }
            }
            assert(conns_valid(self.connections@, self.nodes@)) by {
                assert forall|k: int| 0 <= k < conns0.len() implies has_id(
                    self.nodes@,
                    (#[trigger] conns0[k]).from_node@,
                ) && has_id(self.nodes@, conns0[k].to_node@) by {
                    let wa = choose|w: int|
                        0 <= w < nodes0.len() && (#[trigger] nodes0[w].id_spec())
                            == conns0[k].from_node@;
                    let wb = choose|w: int|
                        0 <= w < nodes0.len() && (#[trigger] nodes0[w].id_spec())
                            == conns0[k].to_node@;
                    assert(self.nodes@[wa].id_spec() == conns0[k].from_node@);
                    assert(self.nodes@[wb].id_spec() == conns0[k].to_node@);
                }
            }
            assert(distinct_ids(self.nodes@)) by {
                assert forall|i1: int, i2: int|
                    0 <= i1 < i2 < self.nodes@.len() implies (
                #[trigger] self.nodes@[i1].id_spec()) != (#[trigger] self.nodes@[i2].id_spec())
                    by {
                    assert(self.nodes@[i1].id_spec() == nodes0[i1].id_spec());
                    assert(self.nodes@[i2].id_spec() == nodes0[i2].id_spec());
                }
            }
        }
    }

    /// The first node without an outgoing connection, in storage order.
    fn find_first_sink(&self) -> (r: Option<usize>)
        requires
            self.wf(),
        ensures
            r matches Some(j) ==> j < self.nodes@.len() && is_sink(
                self.nodes@,
                self.connections@,
                j as int,
            ) && forall|m: int| 0 <= m < j ==> !is_sink(self.nodes@, self.connections@, m),
            r is None ==> !has_sink(self.nodes@, self.connections@),
    {
        let n: usize = self.nodes.len();
        let nc: usize = self.connections.len();
        let mut js: usize = 0;
        while js < n
            invariant
                self.wf(),
                js <= n,
                n == self.nodes@.len(),
                nc == self.connections@.len(),
                forall|m: int| 0 <= m < js ==> !is_sink(self.nodes@, self.connections@, m),
            decreases n - js,
        {
            let sid: String = String::from_str(self.nodes[js].id());
            let mut found_out: bool = false;
            let mut k: usize = 0;
            while k < nc
                invariant
                    k <= nc,
                    js < n,
                    n == self.nodes@.len(),
                    nc == self.connections@.len(),
                    sid@ == self.nodes@[js as int].id_spec(),
                    found_out == exists|k2: int|
                        0 <= k2 < k && (#[trigger] self.connections@[k2]).from_node@
                            == self.nodes@[js as int].id_spec(),
                decreases nc - k,
            {
                if str_eq(self.connections[k].from_node.as_str(), sid.as_str()) {
                    found_out = true;
                }
                k = k + 1;
            }
            if !found_out {
                proof {
                    assert(is_sink(self.nodes@, self.connections@, js as int));
                }
                return Some(js);
            }
            js = js + 1;
        }
        None
    }

    /// Locate the first sink and hand back its cached output; without a
    /// sink the sweep is a `ProcessingError`.
    fn sink_output(
        &self,
        cache: &Vec<Option<AudioBuffer>>,
        Ghost(nodes0): Ghost<Seq<NodeKind>>,
        Ghost(conns0): Ghost<Seq<Connection>>,
        Ghost(order0): Ghost<Seq<Seq<char>>>,
        Ghost(inview): Ghost<BufView>,
    ) -> (r: Result<AudioBuffer, GraphError>)
        requires
            self.wf(),
            self.connections@ == conns0,
            self.order_view() == order0,
            self.nodes@.len() == nodes0.len(),
            distinct_ids(nodes0),
            order_matches(order0, nodes0),
            forall|j: int|
                0 <= j < nodes0.len() ==> (#[trigger] self.nodes@[j].id_spec())
                    == nodes0[j].id_spec(),
            cache@.len() == nodes0.len(),
            cache_view(cache@) == sweep_cache(conns0, nodes0, order0, inview, order0.len() as int),
            forall|j: int|
                0 <= j < nodes0.len() ==> ((#[trigger] cache@[j]) is Some <==> (order0.take(
                    order0.len() as int,
                ).contains(nodes0[j].id_spec()) || (order0.len() > 0 && j == idx_of(
                    nodes0,
                    order0[0],
                )))),
        ensures
            has_sink(nodes0, conns0) ==> ({
                &&& r matches Ok(b) && sweep_cache(
                    conns0,
                    nodes0,
                    order0,
                    inview,
                    order0.len() as int,
                )[first_sink_from(nodes0, conns0, 0)] matches Some(v) && buf_view(b) == v
            }),
            !has_sink(nodes0, conns0) ==> ({
                &&& r matches Err(GraphError::ProcessingError(m)) && m@ == "No sink nodes found"@
            }),
    {
        let ghost n = nodes0.len();
        match self.find_first_sink() {
            Some(js) => {
                proof {
                    assert(is_sink(self.nodes@, self.connections@, js as int));
                    assert forall|m: int| 0 <= m <= js as int implies (is_sink(
                        nodes0,
                        conns0,
                        m,
                    ) <==> is_sink(self.nodes@, self.connections@, m)) by {
                        assert(self.nodes@[m].id_spec() == nodes0[m].id_spec());
                    }
                    assert(is_sink(nodes0, conns0, js as int));
                    assert(has_sink(nodes0, conns0));
                    lemma_first_sink(nodes0, conns0, 0, js as int);
                    assert(order0.contains(nodes0[js as int].id_spec()));
                    let tm = choose|m: int|
                        0 <= m < order0.len() && #[trigger] order0[m] == nodes0[js as int].id_spec();
                    assert(order0.take(order0.len() as int)[tm] == nodes0[js as int].id_spec());
                    assert(order0.take(order0.len() as int).contains(nodes0[js as int].id_spec()));
                    assert(cache@[js as int] is Some);
                }
                let b: AudioBuffer = match &cache[js] {
                    Some(bb) => bb.clone(),
                    None => {
                        proof {
                            assert(false);
                        }
                        AudioBuffer::silence(0, 0, 0)
                    },
                };
                proof {
                    assert(cache_view(cache@)[js as int] matches Some(v) && buf_view(b) == v);
                }
                Ok(b)
            },
            None => {
                proof {
                    assert forall|j: int| 0 <= j < n implies !is_sink(nodes0, conns0, j) by {
                        assert(!is_sink(self.nodes@, self.connections@, j));
                        assert(self.nodes@[j].id_spec() == nodes0[j].id_spec());
                        let kx = choose|k: int|
                            0 <= k < self.connections@.len() && (
                            #[trigger] self.connections@[k]).from_node@
                                == self.nodes@[j].id_spec();
                        assert(conns0[kx].from_node@ == nodes0[j].id_spec());
                    }
                    assert(!has_sink(nodes0, conns0));
                }
                Err(GraphError::ProcessingError(String::from_str("No sink nodes found")))
            },
        }
    }

    /// Run one processing sweep: seed the first node in the execution
    /// order with the input, process every node in topological order on
    /// its gathered (fan-in mixed) input, and return the cached output of
    /// the first sink; a graph without sinks is `ProcessingError`.
    #[verifier::rlimit(100)]
    #[verifier::spinoff_prover]
    pub fn process(&mut self, input: AudioBuffer) -> (r: Result<AudioBuffer, GraphError>)
        requires
            old(self).wf(),
        ensures
            final(self).wf(),
            final(self).connections@ == old(self).connections@,
            final(self).order_view() == old(self).order_view(),
            final(self).nodes@.len() == old(self).nodes@.len(),
            forall|j: int|
                0 <= j < final(self).nodes@.len() ==> (#[trigger] final(self).nodes@[j].id_spec())
                    == old(self).nodes@[j].id_spec(),
            forall|t: int|
                0 <= t < old(self).order_view().len() ==> {
                    let id = #[trigger] old(self).order_view()[t];
                    let j = idx_of(old(self).nodes@, id);
                    old(self).nodes@[j].post_rel(
                        gather_spec(
                            old(self).connections@,
                            old(self).nodes@,
                            sweep_cache(
                                old(self).connections@,
                                old(self).nodes@,
                                old(self).order_view(),
                                buf_view(input),
                                t,
                            ),
                            id,
                        ),
                        final(self).nodes@[j],
                    )
                },
            has_sink(old(self).nodes@, old(self).connections@) ==> ({
                &&& r matches Ok(b) && sweep_cache(
                    old(self).connections@,
                    old(self).nodes@,
                    old(self).order_view(),
                    buf_view(input),
                    old(self).order_view().len() as int,
                )[first_sink_from(old(self).nodes@, old(self).connections@, 0)] matches Some(v)
                    && buf_view(b) == v
            }),
            !has_sink(old(self).nodes@, old(self).connections@) ==> ({
                &&& r matches Err(GraphError::ProcessingError(m)) && m@ == "No sink nodes found"@
            }),
    {
        let ghost nodes0 = self.nodes@;
        let ghost conns0 = self.connections@;
        let ghost order0 = self.order_view();
        let ghost inview = buf_view(input);
        let n: usize = self.nodes.len();
        let no: usize = self.execution_order.len();
        let mut cache: Vec<Option<AudioBuffer>> = Vec::new();
        let mut ci: usize = 0;
        while ci < n
            invariant
                ci <= n,
                cache@.len() == ci,
                forall|j: int| 0 <= j < ci ==> (#[trigger] cache@[j]) is None,
            decreases n - ci,
        {
            cache.push(None);
            ci = ci + 1;
        }
        if no > 0 {
            let first_id: String = self.execution_order[0].clone();
            let i0: usize = match self.find_node(first_id.as_str()) {
                Some(v) => v,
                None => {
                    proof {
                        assert(has_id(nodes0, order0[0]));
                        assert(false);
                    }
                    0
                },
            };
            proof {
                lemma_idx_of(nodes0, order0[0], i0 as int);
            }
            cache.set(i0, Some(input));
            proof {
                assert(cache_view(cache@) =~= sweep_cache(conns0, nodes0, order0, inview, 0));
                assert(order0.take(0) =~= Seq::<Seq<char>>::empty());
            }
        } else {
            proof {
                assert(cache_view(cache@) =~= sweep_cache(conns0, nodes0, order0, inview, 0));
                assert(order0.take(0) =~= Seq::<Seq<char>>::empty());
            }
        }
        let mut t: usize = 0;
        while t < no
            invariant
                self.wf(),
                t <= no,
                n == nodes0.len(),
                no == order0.len(),
                self.connections@ == conns0,
                self.order_view() == order0,
                self.nodes@.len() == n,
                distinct_ids(nodes0),
                conns_valid(conns0, nodes0),
                order_matches(order0, nodes0),
                order_sound(order0, conns0),
                forall|j: int|
                    0 <= j < n ==> (#[trigger] self.nodes@[j].id_spec()) == nodes0[j].id_spec(),
                cache@.len() == n,
                cache_view(cache@) == sweep_cache(conns0, nodes0, order0, inview, t as int),
                forall|j: int|
                    0 <= j < n ==> ((#[trigger] cache@[j]) is Some <==> (order0.take(
                        t as int,
                    ).contains(nodes0[j].id_spec()) || (no > 0 && j == idx_of(nodes0, order0[0])))),
                forall|t2: int|
                    0 <= t2 < t ==> {
                        let id = #[trigger] order0[t2];
                        let j = idx_of(nodes0, id);
                        nodes0[j].post_rel(
                            gather_spec(
                                conns0,
                                nodes0,
                                sweep_cache(conns0, nodes0, order0, inview, t2),
                                id,
                            ),
                            self.nodes@[j],
                        )
                    },
                forall|j: int|
                    0 <= j < n && !order0.take(t as int).contains(nodes0[j].id_spec()) ==> (
                    #[trigger] self.nodes@[j]) == nodes0[j],
            decreases no - t,
        {
            let ghost self_before = self.nodes@;
            self.sweep_step(&mut cache, t, Ghost(nodes0), Ghost(conns0), Ghost(order0), Ghost(inview));
            proof {
                assert forall|t2: int| 0 <= t2 < t + 1 implies {
                    let id = #[trigger] order0[t2];
                    let j = idx_of(nodes0, id);
                    nodes0[j].post_rel(
                        gather_spec(
                            conns0,
                            nodes0,
                            sweep_cache(conns0, nodes0, order0, inview, t2),
                            id,
                        ),
                        self.nodes@[j],
                    )
                } by {
                    let id = order0[t2];
                    let j = idx_of(nodes0, id);
                    if t2 < t {
                        assert(has_id(nodes0, id));
                        let wj = choose|w: int|
                            0 <= w < nodes0.len() && (#[trigger] nodes0[w].id_spec()) == id;
                        lemma_idx_of(nodes0, id, wj);
                        assert(order0.take(t as int)[t2] == id);
                        assert(order0.take(t as int).contains(nodes0[j].id_spec()));
                        assert(self.nodes@[j] == self_before[j]);
                    }
                }
            }
            t = t + 1;
        }
        proof {
            assert(order0.take(no as int) =~= order0);
        }
        self.sink_output(&cache, Ghost(nodes0), Ghost(conns0), Ghost(order0), Ghost(inview))
    }

    /// Forward a parameter write to the node carrying `node_id`: the named
    /// node changes exactly as `set_param_rel` describes and nothing else
    /// moves. An unknown id is `NodeNotFound`; a name the node does not
    /// accept is its `ParameterNotFound`, with no change.
    pub fn set_parameter(&mut self, node_id: &str, parameter: &str, value: i64) -> (r: Result<
        (),
        GraphError,
    >)
        requires
            old(self).wf(),
        ensures
            final(self).wf(),
            !has_id(old(self).nodes@, node_id@) ==> {
                &&& *final(self) == *old(self)
                &&& r matches Err(GraphError::NodeNotFound(x)) && x@ == node_id@
            },
            has_id(old(self).nodes@, node_id@) ==> {
                &&& final(self).connections@ == old(self).connections@
                &&& final(self).order_view() == old(self).order_view()
                &&& final(self).nodes@.len() == old(self).nodes@.len()
                &&& forall|j: int|
                    0 <= j < final(self).nodes@.len() && j != idx_of(old(self).nodes@, node_id@)
                        ==> (#[trigger] final(self).nodes@[j]) == old(self).nodes@[j]
                &&& final(self).nodes@[idx_of(old(self).nodes@, node_id@)].id_spec() == node_id@
                &&& (crate::kind::set_param_ok(
                    old(self).nodes@[idx_of(old(self).nodes@, node_id@)],
                    parameter@,
                ) ==> r is Ok && crate::kind::set_param_rel(
                    old(self).nodes@[idx_of(old(self).nodes@, node_id@)],
                    parameter@,
                    value,
                    final(self).nodes@[idx_of(old(self).nodes@, node_id@)],
                ))
                &&& (!crate::kind::set_param_ok(
                    old(self).nodes@[idx_of(old(self).nodes@, node_id@)],
                    parameter@,
                ) ==> ({
                    &&& r matches Err(GraphError::ParameterNotFound(x)) && x@ == parameter@
                    &&& final(self).nodes@[idx_of(old(self).nodes@, node_id@)] == old(
                        self,
                    ).nodes@[idx_of(old(self).nodes@, node_id@)]
                }))
            },
    {
        match self.find_node(node_id) {
            None => Err(GraphError::NodeNotFound(String::from_str(node_id))),
            Some(i) => {
                proof {
                    lemma_idx_of(self.nodes@, node_id@, i as int);
                }
                let ghost pre_nodes = self.nodes@;
                let mut node: NodeKind = self.nodes.remove(i);
                let r = node.set_parameter(parameter, value);
                self.nodes.insert(i, node);
                proof {
                    assert(self.nodes@ =~= pre_nodes.update(i as int, node));
                    assert forall|i1: int, i2: int| 0 <= i1 < i2 < self.nodes@.len() implies (
                    #[trigger] self.nodes@[i1].id_spec()) != (#[trigger] self.nodes@[i2].id_spec())
                        by {
                        assert(self.nodes@[i1].id_spec() == pre_nodes[i1].id_spec());
                        assert(self.nodes@[i2].id_spec() == pre_nodes[i2].id_spec());
                    }
                    assert forall|e: Seq<char>| has_id(pre_nodes, e) implies has_id(
                        self.nodes@,
                        e,
                    ) by {
                        let w = choose|w: int|
                            0 <= w < pre_nodes.len() && (#[trigger] pre_nodes[w].id_spec()) == e;
                        assert(self.nodes@[w].id_spec() == e);
                    }
                    assert(order_matches(self.order_view(), self.nodes@)) by {
                        assert forall|j: int| 0 <= j < self.nodes@.len() implies self.order_view()
                            .contains(#[trigger] self.nodes@[j].id_spec()) by {
                            assert(self.nodes@[j].id_spec() == pre_nodes[j].id_spec());
                        }
                    }
                }
                r
            },
        }
    }

    /// Read a parameter of the node carrying `node_id`: exactly what the
    /// node itself reports, per `get_param_spec`. An unknown id is
    /// `NodeNotFound`, an unknown name `Ok(None)`.
    pub fn get_parameter(&self, node_id: &str, parameter: &str) -> (r: Result<
        Option<i64>,
        GraphError,
    >)
        requires
            self.wf(),
        ensures
            !has_id(self.nodes@, node_id@) ==> ({
                &&& r matches Err(GraphError::NodeNotFound(x)) && x@ == node_id@
            }),
            has_id(self.nodes@, node_id@) ==> r == Ok::<Option<i64>, GraphError>(
                crate::kind::get_param_spec(
                    self.nodes@[idx_of(self.nodes@, node_id@)],
                    parameter@,
                ),
            ),
    {
        match self.find_node(node_id) {
            None => Err(GraphError::NodeNotFound(String::from_str(node_id))),
            Some(i) => {
                proof {
                    lemma_idx_of(self.nodes@, node_id@, i as int);
                }
                Ok(self.nodes[i].get_parameter(parameter))
            },
        }
    }
}

/// Topology soundness: in a well-formed graph, every connection's source
/// stands before its destination in the cached execution order.
pub proof fn lemma_topology_soundness(g: AudioGraph)
    requires
        g.wf(),
    ensures
        order_sound(g.order_view(), g.connections@),
{
}

/// Completeness: in a well-formed graph — that is, after any sequence of
/// completed mutations — the execution order lists exactly as many ids as
/// there are nodes.
pub proof fn lemma_order_completeness(g: AudioGraph)
    requires
        g.wf(),
    ensures
        g.order_view().len() == g.nodes@.len(),
{
}

/// Acyclicity: a well-formed graph has no directed cycle through distinct
/// nodes: no edge runs from a node back to an id that reaches it.
pub proof fn lemma_acyclic(g: AudioGraph, a: Seq<char>, b: Seq<char>, n: nat)
    requires
        g.wf(),
        edge(g.connections@, b, a),
        reaches_n(g.connections@, a, b, n),
    ensures
        a == b,
    decreases n,
{
    if a != b {
        let conns = g.connections@;
        let order = g.order_view();
        let ke = choose|k: int|
            0 <= k < conns.len() && (#[trigger] conns[k]).from_node@ == b && conns[k].to_node@
                == a;
        assert(has_id(g.nodes@, a));
        assert(has_id(g.nodes@, b));
        assert(n > 0);
        lemma_reaches_position(g, a, b, n);
        lemma_position_in(g, a);
        lemma_position_in(g, b);
        let pa = position_in(order, a);
        let pb = position_in(order, b);
        assert(order[pb] == conns[ke].from_node@ && order[pa] == conns[ke].to_node@);
        assert(pb < pa);
    }
}

/// Along a non-trivial reachability chain, order positions strictly grow;
/// hence an id cannot strictly reach itself.
proof fn lemma_reaches_position(g: AudioGraph, a: Seq<char>, b: Seq<char>, n: nat)
    requires
        g.wf(),
        reaches_n(g.connections@, a, b, n),
        n > 0,
        has_id(g.nodes@, a),
    ensures
        a == b || position_in(g.order_view(), a) < position_in(g.order_view(), b),
    decreases n,
{
    let conns = g.connections@;
    let order = g.order_view();
    if a != b {
        let m = choose|m: Seq<char>|
            #[trigger] edge(conns, a, m) && reaches_n(conns, m, b, (n - 1) as nat);
        let ke = choose|k: int|
            0 <= k < conns.len() && (#[trigger] conns[k]).from_node@ == a && conns[k].to_node@
                == m;
        assert(has_id(g.nodes@, m));
        lemma_position_in(g, a);
        lemma_position_in(g, m);
        assert(position_in(order, a) < position_in(order, m)) by {
            assert(order[position_in(order, a)] == a);
            assert(order[position_in(order, m)] == m);
        }
        if (n - 1) as nat > 0 && m != b {
            lemma_reaches_position(g, m, b, (n - 1) as nat);
        } else {
            assert(m == b);
        }
    }
}

/// The position of an id in the execution order.
pub open spec fn position_in(order: Seq<Seq<char>>, id: Seq<char>) -> int {
    choose|m: int| 0 <= m < order.len() && order[m] == id
}

/// A present id occupies a real position in the order.
proof fn lemma_position_in(g: AudioGraph, id: Seq<char>)
    requires
        g.wf(),
        has_id(g.nodes@, id),
    ensures
        0 <= position_in(g.order_view(), id) < g.order_view().len(),
        g.order_view()[position_in(g.order_view(), id)] == id,
{
    let w = choose|w: int|
        0 <= w < g.nodes@.len() && (#[trigger] g.nodes@[w].id_spec()) == id;
    assert(g.order_view().contains(g.nodes@[w].id_spec()));
    let m = choose|m: int| 0 <= m < g.order_view().len() && #[trigger] g.order_view()[m] == id;
    assert(g.order_view()[position_in(g.order_view(), id)] == id);
}

/// Fan-in mixing: when exactly two connections feed a node and both
/// upstream caches hold the same buffer, the node receives that buffer
/// mixed with itself — every sample doubled, saturating.
pub proof fn lemma_fan_in_two(
    conns: Seq<Connection>,
    nodes: Seq<NodeKind>,
    cache: Seq<Option<BufView>>,
    cid: Seq<char>,
    b: BufView,
)
    requires
        conns.filter(conn_into(cid)).len() == 2,
        cache_at(nodes, cache, conns.filter(conn_into(cid))[0].from_node@) == b,
        cache_at(nodes, cache, conns.filter(conn_into(cid))[1].from_node@) == b,
    ensures
        gather_spec(conns, nodes, cache, cid).samples == mix_spec(b.samples, b.samples),
        forall|i: int|
            0 <= i < b.samples.len() ==> gather_spec(conns, nodes, cache, cid).samples[i] as int
                == crate::fixed::add_sat_spec(b.samples[i] as int, b.samples[i] as int),
{
    let inc = conns.filter(conn_into(cid));
    assert(inc.drop_last().len() == 1);
    assert(inc.drop_last()[0] == inc[0]);
    assert(inc.last() == inc[1]);
    assert(mix_fold(nodes, cache, inc.drop_last()) == b);
    assert(gather_spec(conns, nodes, cache, cid).samples == mix_spec(b.samples, b.samples));
}

} // verus!
