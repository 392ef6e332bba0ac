use vstd::prelude::*;

use crate::types::Type;

verus! {

/// The kind of a graph node: the control nodes `Start` and `Ret`, the
/// canonical constant node `Con`, and the binary integer arithmetic nodes.
#[derive(Debug, Copy, Clone, PartialEq, Eq, Structural)]
pub enum OpCode {
    Start,
    Ret,
    Con,
    Add,
    Sub,
    Mul,
    Div,
}

/// True of the binary arithmetic opcodes, which take exactly two operands.
pub open spec fn is_binary_arith(op: OpCode) -> bool {
    op is Add || op is Sub || op is Mul || op is Div
}

/// The sole authority for fresh node ids: a monotonic counter whose values
/// are never reused.
#[derive(Debug, Copy, Clone, PartialEq, Eq, Structural)]
pub struct NodeIdCounter {
    pub next_id: u64,
}

impl NodeIdCounter {
    pub fn new(start: u64) -> (r: Self)
        ensures
            r.next_id == start,
    {
        NodeIdCounter { next_id: start }
    }

    /// Mints one fresh id.
    pub fn next(&mut self) -> (r: u64)
        requires
            old(self).next_id < u64::MAX,
        ensures
            r == old(self).next_id,
            final(self).next_id == old(self).next_id + 1,
    {
        let id = self.next_id;
        self.next_id = self.next_id + 1;
        id
    }
}

/// A graph vertex: an id minted once and never reused, an opcode fixed at
/// construction, a mutable inferred type, an ordered operand list (`defs`),
/// and an unordered set of consumer back-references (`users`). A node that
/// has been discarded by the optimizer stays in the arena with `live` false
/// and no edges.
#[derive(Debug)]
pub struct Node {
    pub id: u64,
    pub opcode: OpCode,
    pub typ: Type,
    pub defs: Vec<usize>,
    pub users: Vec<usize>,
    pub live: bool,
}

/// A sequence with no repeated elements.
pub open spec fn no_dup(s: Seq<usize>) -> bool {
    forall|p: int, q: int| 0 <= p < q < s.len() ==> s[p] != s[q]
}

/// Two nodes agree on every field, edge lists compared as sequences.
pub open spec fn node_eq(a: Node, b: Node) -> bool {
    a.id == b.id && a.opcode == b.opcode && a.typ == b.typ && a.live == b.live && a.defs@
        == b.defs@ && a.users@ == b.users@
}

/// Two graphs agree node for node.
pub open spec fn graph_eq(a: Graph, b: Graph) -> bool {
    a.nodes@.len() == b.nodes@.len() && (forall|j: int|
        0 <= j < a.nodes@.len() ==> node_eq(#[trigger] a.nodes@[j], b.nodes@[j]))
}

/// The node graph, held as an arena addressed by stable indices: edges are
/// arena indices, so shared consumers need no aliased references.
#[derive(Debug)]
pub struct Graph {
    pub nodes: Vec<Node>,
}

impl Graph {
    /// Every element of `s` is a valid arena index.
    pub open spec fn in_range(self, s: Seq<usize>) -> bool {
        forall|k: int| 0 <= k < s.len() ==> (#[trigger] s[k]) < self.nodes@.len()
    }

    pub open spec fn edges_in_range(self) -> bool {
        forall|i: int|
            0 <= i < self.nodes@.len() ==> self.in_range(#[trigger] self.nodes@[i].defs@)
                && self.in_range(self.nodes@[i].users@)
    }

    /// `defs` and `users` are mutual inverses: `j` lists `i` as an operand
    /// exactly when `i` lists `j` as a user.
    pub open spec fn duality(self) -> bool {
        forall|i: usize, j: usize|
            #![trigger self.nodes@[i as int].users@.contains(j)]
            #![trigger self.nodes@[j as int].defs@.contains(i)]
            i < self.nodes@.len() && j < self.nodes@.len() ==> (self.nodes@[i as int].users@.contains(
                j,
            ) <==> self.nodes@[j as int].defs@.contains(i))
    }

    /// A user set holds each consumer at most once, however many operand
    /// slots of that consumer refer here.
    pub open spec fn users_no_dup(self) -> bool {
        forall|i: int| 0 <= i < self.nodes@.len() ==> no_dup(#[trigger] self.nodes@[i].users@)
    }

    /// A discarded node keeps no edges: it was fully detached first.
    pub open spec fn dead_detached(self) -> bool {
        forall|i: int|
            0 <= i < self.nodes@.len() && !(#[trigger] self.nodes@[i]).live
                ==> self.nodes@[i].defs@.len() == 0 && self.nodes@[i].users@.len() == 0
    }

    /// Ids are unique across the arena.
    pub open spec fn ids_unique(self) -> bool {
        forall|i: int, j: int|
            0 <= i < j < self.nodes@.len() ==> (#[trigger] self.nodes@[i].id) != (
            #[trigger] self.nodes@[j].id)
    }

    /// The graph's structural invariant.
    pub open spec fn wf(self) -> bool {
        self.edges_in_range() && self.duality() && self.users_no_dup() && self.dead_detached()
            && self.ids_unique()
    }

    /// Every id already minted is below the counter's next value, so a fresh
    /// id can never collide.
    pub open spec fn ids_below(self, c: NodeIdCounter) -> bool {
        forall|i: int| 0 <= i < self.nodes@.len() ==> (#[trigger] self.nodes@[i].id) < c.next_id
    }

    pub fn new() -> (g: Graph)
        ensures
            g.nodes@.len() == 0,
            g.wf(),
    {
        Graph { nodes: Vec::new() }
    }

    /// Creates a fresh live node with no edges, its id minted by `counter`.
    pub fn new_node(&mut self, counter: &mut NodeIdCounter, opcode: OpCode, typ: Type) -> (idx:
        usize)
        requires
            old(self).wf(),
            old(self).ids_below(*old(counter)),
            old(counter).next_id < u64::MAX,
        ensures
            idx == old(self).nodes@.len(),
            final(self).nodes@.len() == old(self).nodes@.len() + 1,
            forall|j: int|
                0 <= j < old(self).nodes@.len() ==> node_eq(
                    #[trigger] final(self).nodes@[j],
                    old(self).nodes@[j],
                ),
            final(self).nodes@[idx as int].id == old(counter).next_id,
            final(self).nodes@[idx as int].opcode == opcode,
            final(self).nodes@[idx as int].typ == typ,
            final(self).nodes@[idx as int].live,
            final(self).nodes@[idx as int].defs@.len() == 0,
            final(self).nodes@[idx as int].users@.len() == 0,
            final(self).wf(),
            final(self).ids_below(*final(counter)),
            final(counter).next_id == old(counter).next_id + 1,
    {
        let id = counter.next();
        let idx = self.nodes.len();
        let node = Node {
            id,
            opcode,
            typ,
            defs: Vec::new(),
            users: Vec::new(),
            live: true,
        };
        let ghost gnode: Node = node;
        self.nodes.push(node);
        proof {
            assert forall|j: int| 0 <= j < old(self).nodes@.len() implies node_eq(
                #[trigger] self.nodes@[j],
                old(self).nodes@[j],
            ) by {
                assert(self.nodes@[j] == old(self).nodes@[j]);
            }
            assert forall|i: int| 0 <= i < old(self).nodes@.len() implies (
            #[trigger] old(self).nodes@[i].id) != gnode.id by {
                assert(old(self).nodes@[i].id < old(counter).next_id);
            }
            lemma_wf_push_isolated(*old(self), *self, gnode);
        }
        idx
    }

    /// Creates a fresh constant (`Con`) node carrying `typ`.
    pub fn new_constant(&mut self, counter: &mut NodeIdCounter, typ: Type) -> (idx: usize)
        requires
            old(self).wf(),
            old(self).ids_below(*old(counter)),
            old(counter).next_id < u64::MAX,
        ensures
            idx == old(self).nodes@.len(),
            final(self).nodes@.len() == old(self).nodes@.len() + 1,
            forall|j: int|
                0 <= j < old(self).nodes@.len() ==> node_eq(
                    #[trigger] final(self).nodes@[j],
                    old(self).nodes@[j],
                ),
            final(self).nodes@[idx as int].id == old(counter).next_id,
            final(self).nodes@[idx as int].opcode is Con,
            final(self).nodes@[idx as int].typ == typ,
            final(self).nodes@[idx as int].live,
            final(self).nodes@[idx as int].defs@.len() == 0,
            final(self).nodes@[idx as int].users@.len() == 0,
            final(self).wf(),
            final(self).ids_below(*final(counter)),
            final(counter).next_id == old(counter).next_id + 1,
    {
        self.new_node(counter, OpCode::Con, typ)
    }

    /// Attaches `d` as the next operand of `n`, keeping the duality: `d` is
    /// appended to `n`'s operand list and `n` joins `d`'s user set (once,
    /// however many operand slots of `n` refer to `d`).
    pub fn add_def(&mut self, n: usize, d: usize)
        requires
            old(self).wf(),
            n < old(self).nodes@.len(),
            d < old(self).nodes@.len(),
            old(self).nodes@[n as int].live,
            old(self).nodes@[d as int].live,
        ensures
            final(self).nodes@.len() == old(self).nodes@.len(),
            final(self).nodes@[n as int].defs@ == old(self).nodes@[n as int].defs@.push(d),
            forall|j: int|
                0 <= j < old(self).nodes@.len() ==> (#[trigger] final(self).nodes@[j]).id
                    == old(self).nodes@[j].id
                    && final(self).nodes@[j].opcode == old(self).nodes@[j].opcode
                    && final(self).nodes@[j].typ == old(self).nodes@[j].typ
                    && final(self).nodes@[j].live == old(self).nodes@[j].live,
            forall|j: int|
                0 <= j < old(self).nodes@.len() && j != n
                    ==> (#[trigger] final(self).nodes@[j]).defs@ == old(self).nodes@[j].defs@,
            forall|j: int|
                0 <= j < old(self).nodes@.len() && j != d
                    ==> (#[trigger] final(self).nodes@[j]).users@ == old(self).nodes@[j].users@,
            forall|y: usize|
                #[trigger] final(self).nodes@[d as int].users@.contains(y)
                    <==> (old(self).nodes@[d as int].users@.contains(y) || y == n),
            !old(self).nodes@[d as int].users@.contains(n) ==> final(self).nodes@[d as int].users@
                == old(self).nodes@[d as int].users@.push(n),
            final(self).wf(),
    {
        let ghost a: Graph = *self;
        self.nodes[n].defs.push(d);
        let already = vec_has(&self.nodes[d].users, n);
        if !already {
            self.nodes[d].users.push(n);
        }
        proof {
            lemma_push_contains(a.nodes@[n as int].defs@, d);
            lemma_push_contains(a.nodes@[d as int].users@, n);
            if !already {
                lemma_push_no_dup(a.nodes@[d as int].users@, n);
            }
            let b = *self;
            // users of d: the contains-level description, in both branches
            assert forall|y: usize| #[trigger] b.nodes@[d as int].users@.contains(y) <==> (
            a.nodes@[d as int].users@.contains(y) || y == n) by {}
            assert(b.wf()) by {
                assert forall|i: int|
                    0 <= i < b.nodes@.len() implies b.in_range(#[trigger] b.nodes@[i].defs@)
                    && b.in_range(b.nodes@[i].users@) by {
                    assert(a.in_range(a.nodes@[i].defs@));
                    assert(a.in_range(a.nodes@[i].users@));
                    assert forall|k: int| 0 <= k < b.nodes@[i].defs@.len() implies (
                    #[trigger] b.nodes@[i].defs@[k]) < b.nodes@.len() by {
                        if i == n && k == a.nodes@[i].defs@.len() {
                        } else {
                            assert(b.nodes@[i].defs@[k] == a.nodes@[i].defs@[k]);
                        }
                    }
                    assert forall|k: int| 0 <= k < b.nodes@[i].users@.len() implies (
                    #[trigger] b.nodes@[i].users@[k]) < b.nodes@.len() by {
                        if i == d && k == a.nodes@[i].users@.len() {
                        } else {
                            assert(b.nodes@[i].users@[k] == a.nodes@[i].users@[k]);
                        }
                    }
                }
                assert forall|i: usize, j: usize|
                    i < b.nodes@.len() && j < b.nodes@.len() implies (
                #[trigger] b.nodes@[i as int].users@.contains(j)
                    <==> #[trigger] b.nodes@[j as int].defs@.contains(i)) by {
                    assert(a.nodes@[i as int].users@.contains(j) <==> a.nodes@[j as int].defs@.contains(
                        i,
                    ));
                    if j as int == n as int {
                        assert(b.nodes@[j as int].defs@.contains(i) <==> (
                        a.nodes@[j as int].defs@.contains(i) || i == d));
                    }
                    if i as int == d as int {
                        assert(b.nodes@[i as int].users@.contains(j) <==> (
                        a.nodes@[i as int].users@.contains(j) || j == n));
                    }
                }
                assert forall|i: int| 0 <= i < b.nodes@.len() implies no_dup(
                    #[trigger] b.nodes@[i].users@,
                ) by {
                    assert(no_dup(a.nodes@[i].users@));
                }
                assert forall|i: int|
                    0 <= i < b.nodes@.len() && !(#[trigger] b.nodes@[i]).live implies b.nodes@[i].defs@.len()
                    == 0 && b.nodes@[i].users@.len() == 0 by {
                    assert(a.nodes@[i].defs@.len() == 0 && a.nodes@[i].users@.len() == 0);
                }
            }
        }
    }
}

/// An `in_range` sequence cannot hold an index at or past the arena's end.
proof fn lemma_in_range_not_contains(g: Graph, s: Seq<usize>, x: usize)
    requires
        g.in_range(s),
        x >= g.nodes@.len(),
    ensures
        !s.contains(x),
{
    if s.contains(x) {
        let k = choose|k: int| 0 <= k < s.len() && s[k] == x;
        assert(s[k] < g.nodes@.len());
    }
}

/// Membership in a `Seq` survives a push, and the pushed element joins.
proof fn lemma_push_contains(s: Seq<usize>, x: usize)
    ensures
        forall|y: usize| #[trigger] s.push(x).contains(y) <==> (s.contains(y) || y == x),
{
    assert forall|y: usize| #[trigger] s.push(x).contains(y) implies (s.contains(y) || y == x) by {
        let k = choose|k: int| 0 <= k < s.push(x).len() && s.push(x)[k] == y;
        if k < s.len() {
            assert(s[k] == y);
        }
    }
    assert forall|y: usize| (s.contains(y) || y == x) implies s.push(x).contains(y) by {
        if s.contains(y) {
            let k = choose|k: int| 0 <= k < s.len() && s[k] == y;
            assert(s.push(x)[k] == y);
        } else {
            assert(s.push(x)[s.len() as int] == y);
        }
    }
}

/// Pushing an element that is not yet present keeps a sequence free of
/// repeats.
proof fn lemma_push_no_dup(s: Seq<usize>, x: usize)
    requires
        no_dup(s),
        !s.contains(x),
    ensures
        no_dup(s.push(x)),
{
    assert forall|p: int, q: int| 0 <= p < q < s.push(x).len() implies s.push(x)[p] != s.push(
        x,
    )[q] by {
        if q == s.len() {
            assert(s[p] == s.push(x)[p]);
            assert(s.contains(s[p]));
        } else {
            assert(s[p] != s[q]);
        }
    }
}

/// Appending a fresh, fully detached live node with an unused id preserves
/// the structural invariant.
proof fn lemma_wf_push_isolated(a: Graph, b: Graph, node: Node)
    requires
        a.wf(),
        b.nodes@ == a.nodes@.push(node),
        node.defs@.len() == 0,
        node.users@.len() == 0,
        node.live,
        forall|i: int| 0 <= i < a.nodes@.len() ==> (#[trigger] a.nodes@[i].id) != node.id,
    ensures
        b.wf(),
{
    let oldlen = a.nodes@.len() as int;
    assert forall|i: int|
        0 <= i < b.nodes@.len() implies b.in_range(#[trigger] b.nodes@[i].defs@) && b.in_range(
        b.nodes@[i].users@,
    ) by {
        if i < oldlen {
            assert(a.in_range(a.nodes@[i].defs@));
            assert(a.in_range(a.nodes@[i].users@));
            assert forall|k: int| 0 <= k < b.nodes@[i].defs@.len() implies (
            #[trigger] b.nodes@[i].defs@[k]) < b.nodes@.len() by {
                assert(a.nodes@[i].defs@[k] < a.nodes@.len());
            }
            assert forall|k: int| 0 <= k < b.nodes@[i].users@.len() implies (
            #[trigger] b.nodes@[i].users@[k]) < b.nodes@.len() by {
                assert(a.nodes@[i].users@[k] < a.nodes@.len());
            }
        }
    }
    assert(b.duality()) by {
        assert forall|i: usize, j: usize|
            i < b.nodes@.len() && j < b.nodes@.len() implies (
        #[trigger] b.nodes@[i as int].users@.contains(j)
            <==> #[trigger] b.nodes@[j as int].defs@.contains(i)) by {
            if (i as int) < oldlen && (j as int) < oldlen {
                assert(a.nodes@[i as int].users@.contains(j) <==> a.nodes@[j as int].defs@.contains(
                    i,
                ));
            } else if (i as int) == oldlen {
                assert(!b.nodes@[i as int].users@.contains(j));
                if (j as int) < oldlen {
                    assert(a.in_range(a.nodes@[j as int].defs@));
                    lemma_in_range_not_contains(a, a.nodes@[j as int].defs@, i);
                }
            } else {
                assert(!b.nodes@[j as int].defs@.contains(i));
                assert(a.in_range(a.nodes@[i as int].defs@));
                assert(a.in_range(a.nodes@[i as int].users@));
                lemma_in_range_not_contains(a, a.nodes@[i as int].users@, j);
            }
        }
    }
    assert forall|i: int| 0 <= i < b.nodes@.len() implies no_dup(#[trigger] b.nodes@[i].users@) by {
        if i < oldlen {
            assert(no_dup(a.nodes@[i].users@));
        }
    }
    assert forall|i: int|
        0 <= i < b.nodes@.len() && !(#[trigger] b.nodes@[i]).live implies b.nodes@[i].defs@.len()
        == 0 && b.nodes@[i].users@.len() == 0 by {
        if i < oldlen {
            assert(b.nodes@[i] == a.nodes@[i]);
            assert(!a.nodes@[i].live);
        }
    }
    assert forall|i: int, j: int| 0 <= i < j < b.nodes@.len() implies (#[trigger] b.nodes@[i].id)
        != (#[trigger] b.nodes@[j].id) by {
        if j < oldlen {
            assert(a.nodes@[i].id != a.nodes@[j].id);
        } else {
            assert(a.nodes@[i].id != node.id);
        }
    }
}

impl Graph {
    /// Drops `n` from `d`'s user set; a no-op when `n` is not among the
    /// users. Touches nothing else, so it may run while the duality is
    /// temporarily suspended mid-detach.
    pub(crate) fn remove_user(&mut self, d: usize, n: usize)
        requires
            d < old(self).nodes@.len(),
        ensures
            final(self).nodes@.len() == old(self).nodes@.len(),
            forall|j: int|
                0 <= j < old(self).nodes@.len() && j != d ==> node_eq(
                    #[trigger] final(self).nodes@[j],
                    old(self).nodes@[j],
                ),
            final(self).nodes@[d as int].id == old(self).nodes@[d as int].id,
            final(self).nodes@[d as int].opcode == old(self).nodes@[d as int].opcode,
            final(self).nodes@[d as int].typ == old(self).nodes@[d as int].typ,
            final(self).nodes@[d as int].live == old(self).nodes@[d as int].live,
            final(self).nodes@[d as int].defs@ == old(self).nodes@[d as int].defs@,
            forall|y: usize|
                #[trigger] final(self).nodes@[d as int].users@.contains(y)
                    <==> (old(self).nodes@[d as int].users@.contains(y) && y != n),
            no_dup(old(self).nodes@[d as int].users@) ==> no_dup(
                final(self).nodes@[d as int].users@,
            ),
    {
        let trimmed = without(&self.nodes[d].users, n);
        self.nodes[d].users = trimmed;
        proof {
            assert forall|j: int|
                0 <= j < old(self).nodes@.len() && j != d implies node_eq(
                #[trigger] self.nodes@[j],
                old(self).nodes@[j],
            ) by {
                assert(self.nodes@[j] == old(self).nodes@[j]);
            }
        }
    }
}

/// Returns `v` with every occurrence of `x` dropped; the order of the rest
/// is kept.
fn without(v: &Vec<usize>, x: usize) -> (r: Vec<usize>)
    ensures
        forall|y: usize| #[trigger] r@.contains(y) <==> (v@.contains(y) && y != x),
        no_dup(v@) ==> no_dup(r@),
{
    let mut r: Vec<usize> = Vec::new();
    let mut i: usize = 0;
    while i < v.len()
        invariant
            i <= v@.len(),
            forall|y: usize|
                #[trigger] r@.contains(y) <==> (exists|k: int|
                    0 <= k < i && v@[k] == y && y != x),
            no_dup(v@) ==> no_dup(r@),
        decreases v@.len() - i,
    {
        let e = v[i];
        if e != x {
            proof {
                lemma_push_contains(r@, e);
                if no_dup(v@) {
                    if r@.contains(e) {
                        let k = choose|k: int| 0 <= k < i && v@[k] == e && e != x;
                        assert(v@[k] == v@[i as int]);
                        assert(false);
                    }
                    lemma_push_no_dup(r@, e);
                }
            }
            r.push(e);
            proof {
                assert forall|y: usize| #[trigger] r@.contains(y) implies (exists|k: int|
                    0 <= k < i + 1 && v@[k] == y && y != x) by {
                    if y == e {
                        assert(v@[i as int] == y && y != x);
                    } else {
                        let k = choose|k: int| 0 <= k < i && v@[k] == y && y != x;
                        assert(0 <= k < i + 1 && v@[k] == y && y != x);
                    }
                }
                assert forall|y: usize|
                    (exists|k: int| 0 <= k < i + 1 && v@[k] == y && y != x) implies
                    #[trigger] r@.contains(y) by {
                    let k = choose|k: int| 0 <= k < i + 1 && v@[k] == y && y != x;
                    if k == i {
                        assert(y == e);
                    }
                }
            }
        } else {
            proof {
                assert forall|y: usize| #[trigger] r@.contains(y) implies (exists|k: int|
                    0 <= k < i + 1 && v@[k] == y && y != x) by {
                    let k = choose|k: int| 0 <= k < i && v@[k] == y && y != x;
                    assert(0 <= k < i + 1 && v@[k] == y && y != x);
                }
                assert forall|y: usize|
                    (exists|k: int| 0 <= k < i + 1 && v@[k] == y && y != x) implies
                    #[trigger] r@.contains(y) by {
                    let k = choose|k: int| 0 <= k < i + 1 && v@[k] == y && y != x;
                    if k == i {
                        assert(false);
                    }
                }
            }
        }
        i += 1;
    }
    proof {
        assert forall|y: usize| #[trigger] r@.contains(y) <==> (v@.contains(y) && y != x) by {
            if v@.contains(y) && y != x {
                let k = choose|k: int| 0 <= k < v@.len() && v@[k] == y;
                assert(0 <= k < i && v@[k] == y && y != x);
            }
            if r@.contains(y) {
                let k = choose|k: int| 0 <= k < i && v@[k] == y && y != x;
                assert(v@.contains(y));
            }
        }
    }
    r
}

/// A change that touches only node types (never edges, liveness or ids)
/// preserves the structural invariant.
pub proof fn lemma_wf_same_structure(a: Graph, b: Graph)
    requires
        a.wf(),
        b.nodes@.len() == a.nodes@.len(),
        forall|j: int|
            0 <= j < a.nodes@.len() ==> (#[trigger] b.nodes@[j]).defs@ == a.nodes@[j].defs@
                && b.nodes@[j].users@ == a.nodes@[j].users@ && b.nodes@[j].live
                == a.nodes@[j].live && b.nodes@[j].id == a.nodes@[j].id,
    ensures
        b.wf(),
{
    assert forall|i: int|
        0 <= i < b.nodes@.len() implies b.in_range(#[trigger] b.nodes@[i].defs@) && b.in_range(
        b.nodes@[i].users@,
    ) by {
        assert(a.in_range(a.nodes@[i].defs@));
        assert(a.in_range(a.nodes@[i].users@));
    }
    assert(b.duality()) by {
        assert forall|i: usize, j: usize|
            i < b.nodes@.len() && j < b.nodes@.len() implies (
        #[trigger] b.nodes@[i as int].users@.contains(j)
            <==> #[trigger] b.nodes@[j as int].defs@.contains(i)) by {
            assert(a.nodes@[i as int].users@.contains(j) <==> a.nodes@[j as int].defs@.contains(i));
        }
    }
}

/// Linear membership test over an index list.
fn vec_has(v: &Vec<usize>, x: usize) -> (r: bool)
    ensures
        r == v@.contains(x),
{
    let mut i: usize = 0;
    while i < v.len()
        invariant
            i <= v@.len(),
            forall|k: int| 0 <= k < i ==> v@[k] != x,
        decreases v@.len() - i,
    {
        if v[i] == x {
            return true;
        }
        i += 1;
    }
    false
}

} // verus!
