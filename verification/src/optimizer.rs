use vstd::prelude::*;

use vstd::arithmetic::div_mod::lemma_div_basics;
use vstd::arithmetic::div_mod::lemma_div_is_ordered;
use vstd::arithmetic::div_mod::lemma_div_is_ordered_by_denominator;
use vstd::arithmetic::div_mod::lemma_div_nonincreasing;
use vstd::arithmetic::div_mod::lemma_div_pos_is_pos;

use crate::graph::Graph;
use crate::graph::NodeIdCounter;
use crate::graph::OpCode;
use crate::graph::graph_eq;
use crate::graph::is_binary_arith;
use crate::graph::lemma_wf_same_structure;
use crate::graph::no_dup;
use crate::graph::node_eq;
use crate::types::ErrorKind;
use crate::types::Type;
use crate::types::spec_is_constant;

verus! {

/// Truncating (toward-zero) signed division: the semantics of `/` on `i128`.
pub open spec fn tdiv(x: int, d: int) -> int
    recommends
        d != 0,
{
    if x == 0 {
        0
    } else if x > 0 && d > 0 {
        x / d
    } else if x < 0 && d < 0 {
        (x * -1) / (d * -1)
    } else if x < 0 {
        ((x * -1) / d) * -1
    } else {
        (x / (d * -1)) * -1
    }
}

/// The result of folding one binary arithmetic opcode over two literal
/// integers under 128-bit two's-complement semantics: the exact value when
/// it fits, `Overflow` when it does not, `DivideByZero` on division by zero.
pub open spec fn arith_result(op: OpCode, x: i128, y: i128) -> Result<Type, ErrorKind>
    recommends
        is_binary_arith(op),
{
    match op {
        OpCode::Add => if x + y > i128::MAX || x + y < i128::MIN {
            Err(ErrorKind::Overflow)
        } else {
            Ok(Type::Int((x + y) as i128))
        },
        OpCode::Sub => if x - y > i128::MAX || x - y < i128::MIN {
            Err(ErrorKind::Overflow)
        } else {
            Ok(Type::Int((x - y) as i128))
        },
        OpCode::Mul => if x * y > i128::MAX || x * y < i128::MIN {
            Err(ErrorKind::Overflow)
        } else {
            Ok(Type::Int((x * y) as i128))
        },
        OpCode::Div => if y == 0 {
            Err(ErrorKind::DivideByZero)
        } else if tdiv(x as int, y as int) > i128::MAX || tdiv(x as int, y as int) < i128::MIN {
            Err(ErrorKind::Overflow)
        } else {
            Ok(Type::Int(tdiv(x as int, y as int) as i128))
        },
        // not a binary arithmetic opcode: outside this function's domain
        _ => Ok(Type::Bot),
    }
}

/// The transfer function over a whole node: control nodes are never
/// constants, a constant node keeps the type fixed at its construction, and
/// a binary arithmetic node folds exactly when both operands' current types
/// are literal integers, and is conservatively `Bot` otherwise.
pub open spec fn eval_type_spec(g: Graph, n: int) -> Result<Type, ErrorKind>
    recommends
        0 <= n < g.nodes@.len(),
        is_binary_arith(g.nodes@[n].opcode) ==> g.nodes@[n].defs@.len() == 2,
{
    let node = g.nodes@[n];
    match node.opcode {
        OpCode::Start => Ok(Type::Bot),
        OpCode::Ret => Ok(Type::Bot),
        OpCode::Con => Ok(node.typ),
        _ => {
            let xt = g.nodes@[node.defs@[0] as int].typ;
            let yt = g.nodes@[node.defs@[1] as int].typ;
            match (xt, yt) {
                (Type::Int(x), Type::Int(y)) => arith_result(node.opcode, x, y),
                _ => Ok(Type::Bot),
            }
        },
    }
}

/// Whether `peephole` will replace node `n`: its evaluated type is a known
/// constant and the node is not already a canonical constant node.
pub open spec fn peephole_folds(g: Graph, n: int) -> bool {
    &&& eval_type_spec(g, n) is Ok
    &&& spec_is_constant(eval_type_spec(g, n).unwrap())
    &&& !(g.nodes@[n].opcode is Con)
}

/// Folds one binary arithmetic opcode over two literal integers, reporting
/// overflow and division by zero to the caller instead of aborting.
pub fn fold_arith(op: OpCode, x: i128, y: i128) -> (r: Result<Type, ErrorKind>)
    requires
        is_binary_arith(op),
    ensures
        r == arith_result(op, x, y),
{
    match op {
        OpCode::Add => match x.checked_add(y) {
            Some(v) => Ok(Type::Int(v)),
            None => Err(ErrorKind::Overflow),
        },
        OpCode::Sub => match x.checked_sub(y) {
            Some(v) => Ok(Type::Int(v)),
            None => Err(ErrorKind::Overflow),
        },
        OpCode::Mul => match x.checked_mul(y) {
            Some(v) => Ok(Type::Int(v)),
            None => Err(ErrorKind::Overflow),
        },
        OpCode::Div => {
            if y == 0 {
                Err(ErrorKind::DivideByZero)
            } else {
                match x.checked_div(y) {
                    Some(v) => Ok(Type::Int(v)),
                    None => Err(ErrorKind::Overflow),
                }
            }
        },
        OpCode::Start | OpCode::Ret | OpCode::Con => unreached(),
    }
}

impl Graph {
    /// Recomputes node `n`'s most precise statically-known type from its
    /// operands' current types.
    pub fn eval_type(&self, n: usize) -> (r: Result<Type, ErrorKind>)
        requires
            self.wf(),
            n < self.nodes@.len(),
            is_binary_arith(self.nodes@[n as int].opcode) ==> self.nodes@[n as int].defs@.len()
                == 2,
        ensures
            r == eval_type_spec(*self, n as int),
    {
        match self.nodes[n].opcode {
            OpCode::Start | OpCode::Ret => Ok(Type::Bot),
            OpCode::Con => Ok(self.nodes[n].typ),
            OpCode::Add | OpCode::Sub | OpCode::Mul | OpCode::Div => {
                proof {
                    assert(self.in_range(self.nodes@[n as int].defs@));
                    assert(self.nodes@[n as int].defs@[0] < self.nodes@.len());
                    assert(self.nodes@[n as int].defs@[1] < self.nodes@.len());
                }
                let xi = self.nodes[n].defs[0];
                let yi = self.nodes[n].defs[1];
                let xt = self.nodes[xi].typ;
                let yt = self.nodes[yi].typ;
                match (xt, yt) {
                    (Type::Int(x), Type::Int(y)) => fold_arith(self.nodes[n].opcode, x, y),
                    _ => Ok(Type::Bot),
                }
            },
        }
    }

    /// One peephole rewrite step on node `n`: re-evaluates the node's type
    /// in place, and when the node is not already a canonical constant but
    /// its type has become a known constant, allocates a fresh `Con` node
    /// carrying that type, attaches it as an operand of the `start` anchor
    /// (so it stays reachable), then detaches and discards the old node.
    /// Returns the index that now stands for the computation — `n` itself
    /// when nothing was replaced, the new constant's index after a fold —
    /// or the arithmetic fault met while folding, with the graph untouched.
    ///
    /// A node may be discarded only once nothing consumes it, so a fold is
    /// asked for only on a node with no users (the builder calls this right
    /// after constructing `n`, before anything consumes it).
    pub fn peephole(&mut self, n: usize, counter: &mut NodeIdCounter, start: usize) -> (r: Result<
        usize,
        ErrorKind,
    >)
        requires
            old(self).wf(),
            old(self).ids_below(*old(counter)),
            n < old(self).nodes@.len(),
            start < old(self).nodes@.len(),
            old(self).nodes@[n as int].live,
            old(self).nodes@[start as int].live,
            old(self).nodes@[start as int].opcode is Start,
            is_binary_arith(old(self).nodes@[n as int].opcode) ==> old(self).nodes@[n as int].defs@.len() == 2,
            old(self).nodes@[n as int].opcode is Con ==> !(old(self).nodes@[n as int].typ
                is Simple),
            peephole_folds(*old(self), n as int) ==> old(self).nodes@[n as int].users@.len() == 0,
            peephole_folds(*old(self), n as int) ==> old(counter).next_id < u64::MAX,
        ensures
            final(self).wf(),
            final(self).ids_below(*final(counter)),
            // an arithmetic fault is reported and nothing is changed
            eval_type_spec(*old(self), n as int) matches Err(k) ==> r == Err::<usize, ErrorKind>(k)
                && graph_eq(*final(self), *old(self)) && *final(counter) == *old(counter),
            // no fold: the same node is handed back, its type refreshed in place
            eval_type_spec(*old(self), n as int) is Ok && !peephole_folds(*old(self), n as int)
                ==> r == Ok::<usize, ErrorKind>(n) && *final(counter) == *old(counter)
                    && final(self).nodes@.len() == old(self).nodes@.len()
                    && final(self).nodes@[n as int].typ == eval_type_spec(*old(self), n as int).unwrap()
                    && final(self).nodes@[n as int].id == old(self).nodes@[n as int].id
                    && final(self).nodes@[n as int].opcode == old(self).nodes@[n as int].opcode
                    && final(self).nodes@[n as int].live == old(self).nodes@[n as int].live
                    && final(self).nodes@[n as int].defs@ == old(self).nodes@[n as int].defs@
                    && final(self).nodes@[n as int].users@ == old(self).nodes@[n as int].users@
                    && (forall|j: int|
                        0 <= j < old(self).nodes@.len() && j != n ==> node_eq(
                            #[trigger] final(self).nodes@[j],
                            old(self).nodes@[j],
                        )),
            // a canonical constant is idempotent: the whole graph is untouched
            old(self).nodes@[n as int].opcode is Con ==> r == Ok::<usize, ErrorKind>(n)
                && graph_eq(*final(self), *old(self)) && *final(counter) == *old(counter),
            // fold: the result is the fresh constant node's index
            peephole_folds(*old(self), n as int) ==> r == Ok::<usize, ErrorKind>(
                old(self).nodes@.len() as usize,
            ) && final(self).nodes@.len() == old(self).nodes@.len() + 1
                && final(counter).next_id == old(counter).next_id + 1,
            // fold: the new canonical constant carries the evaluated type and
            // hangs off the start anchor, so it stays reachable
            peephole_folds(*old(self), n as int)
                ==> final(self).nodes@[old(self).nodes@.len() as int].opcode is Con
                    && final(self).nodes@[old(self).nodes@.len() as int].typ == eval_type_spec(
                        *old(self),
                        n as int,
                    ).unwrap()
                    && final(self).nodes@[old(self).nodes@.len() as int].id == old(counter).next_id
                    && final(self).nodes@[old(self).nodes@.len() as int].live
                    && final(self).nodes@[old(self).nodes@.len() as int].defs@.len() == 0
                    && final(self).nodes@[old(self).nodes@.len() as int].users@ == seq![start]
                    && final(self).nodes@[start as int].defs@
                        == old(self).nodes@[start as int].defs@.push(old(self).nodes@.len() as usize),
            // fold: the folded node is discarded — dead, fully detached, and
            // dangling from nobody's operand list
            peephole_folds(*old(self), n as int) ==> !final(self).nodes@[n as int].live
                && final(self).nodes@[n as int].defs@.len() == 0
                && final(self).nodes@[n as int].users@.len() == 0
                && final(self).nodes@[n as int].typ == eval_type_spec(*old(self), n as int).unwrap()
                && (forall|j: int|
                    0 <= j < final(self).nodes@.len() ==> !(#[trigger] final(self).nodes@[j]).defs@.contains(n)),
            // fold: everything else is untouched — user sets at most lose the
            // discarded node
            peephole_folds(*old(self), n as int) ==> (forall|j: int|
                0 <= j < old(self).nodes@.len() ==> (#[trigger] final(self).nodes@[j]).id == old(self).nodes@[j].id && final(self).nodes@[j].opcode == old(self).nodes@[j].opcode && (j
                    != n ==> final(self).nodes@[j].typ == old(self).nodes@[j].typ && final(self).nodes@[j].live == old(self).nodes@[j].live)),
            peephole_folds(*old(self), n as int) ==> (forall|j: int|
                0 <= j < old(self).nodes@.len() && j != n && j != start ==> (#[trigger] final(self).nodes@[j]).defs@ == old(self).nodes@[j].defs@),
            peephole_folds(*old(self), n as int) ==> (forall|j: int, y: usize|
                0 <= j < old(self).nodes@.len() && j != n ==> ((#[trigger] final(self).nodes@[j].users@.contains(y)) <==> (old(self).nodes@[j].users@.contains(y) && y
                    != n))),
    {
        let t = match self.eval_type(n) {
            Ok(t) => t,
            Err(k) => {
                return Err(k);
            },
        };
        self.nodes[n].typ = t;
        proof {
            assert forall|j: int| 0 <= j < old(self).nodes@.len() && j != n implies node_eq(
                #[trigger] self.nodes@[j],
                old(self).nodes@[j],
            ) by {
                assert(self.nodes@[j] == old(self).nodes@[j]);
            }
            lemma_wf_same_structure(*old(self), *self);
            assert(!(t is Simple)) by {
                if !(old(self).nodes@[n as int].opcode is Con) {
                    assert(eval_type_spec(*old(self), n as int) is Ok);
                }
            }
        }
        let opc = self.nodes[n].opcode;
        let constant = t.is_constant();
        if opc == OpCode::Con || !constant {
            proof {
                if opc == OpCode::Con {
                    assert(graph_eq(*self, *old(self)));
                }
            }
            return Ok(n);
        }
        proof {
            assert(peephole_folds(*old(self), n as int));
        }
        let ghost g0: Graph = *old(self);
        let ghost g1: Graph = *self;
        let c = self.new_constant(counter, t);
        self.add_def(start, c);
        let ghost g2: Graph = *self;
        proof {
            // the fold cannot be folding the anchor itself
            assert(n != start);
            assert((c as int) == g0.nodes@.len());
            assert(g2.wf());
            assert(node_eq(g2.nodes@[n as int], g1.nodes@[n as int]));
            assert(g2.nodes@[n as int].users@.len() == 0);
            assert(g2.nodes@[n as int].defs@ == g0.nodes@[n as int].defs@);
            assert(g2.nodes@[c as int].users@ == Seq::<usize>::empty().push(start));
            assert(g2.nodes@[c as int].users@ =~= seq![start]);
        }
        let deg = self.nodes[n].defs.len();
        let mut k: usize = 0;
        while k < deg
            invariant
                g2.wf(),
                n < g2.nodes@.len(),
                deg == g2.nodes@[n as int].defs@.len(),
                k <= deg,
                self.nodes@.len() == g2.nodes@.len(),
                forall|j: int|
                    0 <= j < g2.nodes@.len() ==> (#[trigger] self.nodes@[j]).id
                        == g2.nodes@[j].id && self.nodes@[j].opcode == g2.nodes@[j].opcode
                        && self.nodes@[j].typ == g2.nodes@[j].typ && self.nodes@[j].live
                        == g2.nodes@[j].live && self.nodes@[j].defs@ == g2.nodes@[j].defs@,
                forall|j: int, y: usize|
                    0 <= j < g2.nodes@.len() ==> ((#[trigger] self.nodes@[j].users@.contains(y))
                        ==> g2.nodes@[j].users@.contains(y)),
                forall|j: int, y: usize|
                    0 <= j < g2.nodes@.len() && y != n ==> ((
                    #[trigger] self.nodes@[j].users@.contains(y))
                        <==> g2.nodes@[j].users@.contains(y)),
                forall|j: int|
                    0 <= j < g2.nodes@.len() && !g2.nodes@[n as int].defs@.contains(j as usize)
                        ==> (#[trigger] self.nodes@[j]).users@ == g2.nodes@[j].users@,
                forall|kk: int|
                    0 <= kk < k ==> !self.nodes@[g2.nodes@[n as int].defs@[kk] as int].users@.contains(
                        n,
                    ),
                forall|j: int| 0 <= j < g2.nodes@.len() ==> no_dup(#[trigger] self.nodes@[j].users@),
            decreases deg - k,
        {
            let d = self.nodes[n].defs[k];
            proof {
                assert(d == g2.nodes@[n as int].defs@[k as int]);
                assert(g2.in_range(g2.nodes@[n as int].defs@));
                assert(d < g2.nodes@.len());
                assert(g2.nodes@[n as int].defs@.contains(d));
            }
            self.remove_user(d, n);
            k += 1;
        }
        let ghost g3: Graph = *self;
        self.nodes[n].defs = Vec::new();
        self.nodes[n].users = Vec::new();
        self.nodes[n].live = false;
        proof {
            let b = *self;
            let oldlen = g0.nodes@.len() as int;
            // nothing in the final graph consumes a node past its own defs
            assert forall|j: int, y: usize|
                0 <= j < b.nodes@.len() && j != n implies ((
            #[trigger] b.nodes@[j].users@.contains(y)) <==> (g2.nodes@[j].users@.contains(y) && y
                != n)) by {
                if y == n {
                    if g3.nodes@[j].users@.contains(n) {
                        if !g2.nodes@[n as int].defs@.contains(j as usize) {
                            assert(g2.nodes@[j as int].users@.contains(n)
                                <==> g2.nodes@[n as int].defs@.contains(j as usize));
                        } else {
                            let kk = choose|kk: int|
                                0 <= kk < g2.nodes@[n as int].defs@.len()
                                    && g2.nodes@[n as int].defs@[kk] == (j as usize);
                            assert(!g3.nodes@[g2.nodes@[n as int].defs@[kk] as int].users@.contains(
                                n,
                            ));
                        }
                        assert(false);
                    }
                }
            }
            assert(b.wf()) by {
                assert forall|i: int|
                    0 <= i < b.nodes@.len() implies b.in_range(#[trigger] b.nodes@[i].defs@)
                    && b.in_range(b.nodes@[i].users@) by {
                    assert(g2.in_range(g2.nodes@[i].defs@));
                    assert(g2.in_range(g2.nodes@[i].users@));
                    assert forall|kk: int| 0 <= kk < b.nodes@[i].defs@.len() implies (
                    #[trigger] b.nodes@[i].defs@[kk]) < b.nodes@.len() by {
                        assert(i != n);
                        assert(b.nodes@[i].defs@ == g2.nodes@[i].defs@);
                    }
                    assert forall|kk: int| 0 <= kk < b.nodes@[i].users@.len() implies (
                    #[trigger] b.nodes@[i].users@[kk]) < b.nodes@.len() by {
                        assert(i != n);
                        let y = b.nodes@[i].users@[kk];
                        assert(b.nodes@[i].users@.contains(y));
                        assert(g2.nodes@[i].users@.contains(y));
                        let w = choose|w: int|
                            0 <= w < g2.nodes@[i].users@.len() && g2.nodes@[i].users@[w] == y;
                        assert(g2.nodes@[i].users@[w] < g2.nodes@.len());
                    }
                }
                assert forall|i: usize, j: usize|
                    i < b.nodes@.len() && j < b.nodes@.len() implies (
                #[trigger] b.nodes@[i as int].users@.contains(j)
                    <==> #[trigger] b.nodes@[j as int].defs@.contains(i)) by {
                    assert(g2.nodes@[i as int].users@.contains(j)
                        <==> g2.nodes@[j as int].defs@.contains(i));
                    if (i as int) == n as int {
                        // n's users were empty already, and its defs are now gone
                        assert(b.nodes@[i as int].users@.len() == 0);
                        assert(!g2.nodes@[j as int].defs@.contains(i) || j as int == n as int);
                    } else if (j as int) == n as int {
                        assert(b.nodes@[j as int].defs@.len() == 0);
                        assert(!b.nodes@[i as int].users@.contains(j));
                    } else {
                        assert(b.nodes@[j as int].defs@ == g2.nodes@[j as int].defs@);
                        assert(b.nodes@[i as int].users@.contains(j)
                            <==> (g2.nodes@[i as int].users@.contains(j) && j != n));
                    }
                }
                assert forall|i: int| 0 <= i < b.nodes@.len() implies no_dup(
                    #[trigger] b.nodes@[i].users@,
                ) by {
                    if i != n {
                        assert(no_dup(g3.nodes@[i].users@));
                    }
                }
                assert forall|i: int|
                    0 <= i < b.nodes@.len() && !(#[trigger] b.nodes@[i]).live implies b.nodes@[i].defs@.len()
                    == 0 && b.nodes@[i].users@.len() == 0 by {
                    if i != n {
                        assert(!g2.nodes@[i].live);
                        assert(g2.nodes@[i].defs@.len() == 0 && g2.nodes@[i].users@.len() == 0);
                        assert(b.nodes@[i].defs@ == g2.nodes@[i].defs@);
                        if b.nodes@[i].users@.len() > 0 {
                            let y = b.nodes@[i].users@[0];
                            assert(b.nodes@[i].users@.contains(y));
                            assert(g2.nodes@[i].users@.contains(y));
                            assert(false);
                        }
                    }
                }
                assert forall|i: int, j: int| 0 <= i < j < b.nodes@.len() implies (
                #[trigger] b.nodes@[i].id) != (#[trigger] b.nodes@[j].id) by {
                    assert(g2.nodes@[i].id != g2.nodes@[j].id);
                }
            }
            // the fold-case postconditions, stated against the pre-call graph
            assert(b.nodes@[c as int].users@ == g2.nodes@[c as int].users@) by {
                assert(g0.in_range(g0.nodes@[n as int].defs@));
                if g2.nodes@[n as int].defs@.contains(c as usize) {
                    let w = choose|w: int|
                        0 <= w < g0.nodes@[n as int].defs@.len() && g0.nodes@[n as int].defs@[w]
                            == (c as usize);
                    assert(g0.nodes@[n as int].defs@[w] < g0.nodes@.len());
                    assert(false);
                }
            }
            assert forall|j: int|
                0 <= j < b.nodes@.len() implies !(#[trigger] b.nodes@[j]).defs@.contains(n) by {
                if j != n {
                    assert(b.nodes@[j].defs@ == g2.nodes@[j].defs@);
                    assert(g2.nodes@[n as int].users@.contains(j as usize)
                        <==> g2.nodes@[j].defs@.contains(n));
                    assert(g2.nodes@[n as int].users@.len() == 0);
                }
            }
            assert forall|j: int, y: usize|
                0 <= j < oldlen && j != n implies ((#[trigger] b.nodes@[j].users@.contains(y))
                <==> (g0.nodes@[j].users@.contains(y) && y != n)) by {
                assert(b.nodes@[j].users@.contains(y) <==> (g2.nodes@[j].users@.contains(y) && y
                    != n));
                if j != start && j != c {
                    assert(node_eq(g2.nodes@[j], g1.nodes@[j]) || g2.nodes@[j].users@
                        == g1.nodes@[j].users@);
                }
            }
        }
        Ok(c)
    }
}

/// For a nonzero divisor, truncating division stays within the 128-bit
/// range except in the one two's-complement corner, `i128::MIN / -1`.
pub proof fn lemma_tdiv_in_range(x: i128, y: i128)
    requires
        y != 0,
        !(x == i128::MIN && y == -1),
    ensures
        i128::MIN <= tdiv(x as int, y as int) <= i128::MAX,
{
    let xi = x as int;
    let d = y as int;
    if xi == 0 {
    } else if xi > 0 && d > 0 {
        lemma_div_pos_is_pos(xi, d);
        lemma_div_nonincreasing(xi, d);
    } else if xi < 0 && d < 0 {
        lemma_div_pos_is_pos(xi * -1, d * -1);
        if d == -1 {
            lemma_div_basics(xi * -1);
            assert(xi * -1 <= i128::MAX);
        } else {
            lemma_div_is_ordered_by_denominator(xi * -1, 2, d * -1);
            lemma_div_is_ordered(xi * -1, 170141183460469231731687303715884105728int, 2);
            assert(170141183460469231731687303715884105728int / 2
                == 85070591730234615865843651857942052864int);
        }
    } else if xi < 0 {
        lemma_div_pos_is_pos(xi * -1, d);
        lemma_div_nonincreasing(xi * -1, d);
    } else {
        lemma_div_pos_is_pos(xi, d * -1);
        lemma_div_nonincreasing(xi, d * -1);
    }
}

/// Soundness of arithmetic folding: a binary arithmetic node whose two
/// operands' current types are the literal integers `x` and `y` evaluates to
/// exactly the arithmetic result — sum, difference, product, or truncating
/// quotient — whenever that result is representable, and `peephole` then
/// folds the node to a constant of that value.
pub proof fn lemma_arith_fold_sound(g: Graph, n: usize, x: i128, y: i128)
    requires
        n < g.nodes@.len(),
        is_binary_arith(g.nodes@[n as int].opcode),
        g.nodes@[n as int].defs@.len() == 2,
        g.nodes@[g.nodes@[n as int].defs@[0] as int].typ == Type::Int(x),
        g.nodes@[g.nodes@[n as int].defs@[1] as int].typ == Type::Int(y),
        g.nodes@[n as int].opcode is Add ==> i128::MIN <= x + y <= i128::MAX,
        g.nodes@[n as int].opcode is Sub ==> i128::MIN <= x - y <= i128::MAX,
        g.nodes@[n as int].opcode is Mul ==> i128::MIN <= x * y <= i128::MAX,
        g.nodes@[n as int].opcode is Div ==> y != 0 && !(x == i128::MIN && y == -1),
    ensures
        g.nodes@[n as int].opcode is Add ==> eval_type_spec(g, n as int) == Ok::<Type, ErrorKind>(
            Type::Int((x + y) as i128),
        ),
        g.nodes@[n as int].opcode is Sub ==> eval_type_spec(g, n as int) == Ok::<Type, ErrorKind>(
            Type::Int((x - y) as i128),
        ),
        g.nodes@[n as int].opcode is Mul ==> eval_type_spec(g, n as int) == Ok::<Type, ErrorKind>(
            Type::Int((x * y) as i128),
        ),
        g.nodes@[n as int].opcode is Div ==> eval_type_spec(g, n as int) == Ok::<Type, ErrorKind>(
            Type::Int(tdiv(x as int, y as int) as i128),
        ),
        peephole_folds(g, n as int),
{
    if g.nodes@[n as int].opcode is Div {
        lemma_tdiv_in_range(x, y);
    }
}

/// Conservativeness: when either operand of a binary arithmetic node is not
/// a literal integer constant, the node's inferred type is `Bot` and no fold
/// happens — there is no partial or symbolic folding.
pub proof fn lemma_arith_conservative(g: Graph, n: usize)
    requires
        n < g.nodes@.len(),
        is_binary_arith(g.nodes@[n as int].opcode),
        g.nodes@[n as int].defs@.len() == 2,
        !(g.nodes@[g.nodes@[n as int].defs@[0] as int].typ is Int) || !(g.nodes@[g.nodes@[n as int].defs@[1] as int].typ is Int),
    ensures
        eval_type_spec(g, n as int) == Ok::<Type, ErrorKind>(Type::Bot),
        !peephole_folds(g, n as int),
{
}

/// Determinism of repeated evaluation: once a no-fold `peephole` has
/// refreshed node `n`'s type — leaving every other node, and all of `n`'s
/// edges, exactly as they were — evaluating `n` again gives the same result,
/// so a repeated invocation neither changes the type nor starts to fold.
/// The one degenerate shape left out is an arithmetic node listed among its
/// own operands, where the first rewrite feeds its result back into the next
/// evaluation.
pub proof fn lemma_peephole_deterministic(g1: Graph, g2: Graph, n: usize)
    requires
        n < g1.nodes@.len(),
        is_binary_arith(g1.nodes@[n as int].opcode) ==> g1.nodes@[n as int].defs@.len() == 2
            && g1.in_range(g1.nodes@[n as int].defs@) && !g1.nodes@[n as int].defs@.contains(n),
        eval_type_spec(g1, n as int) is Ok,
        g2.nodes@.len() == g1.nodes@.len(),
        g2.nodes@[n as int].id == g1.nodes@[n as int].id,
        g2.nodes@[n as int].opcode == g1.nodes@[n as int].opcode,
        g2.nodes@[n as int].live == g1.nodes@[n as int].live,
        g2.nodes@[n as int].defs@ == g1.nodes@[n as int].defs@,
        g2.nodes@[n as int].users@ == g1.nodes@[n as int].users@,
        g2.nodes@[n as int].typ == eval_type_spec(g1, n as int).unwrap(),
        forall|j: int|
            0 <= j < g1.nodes@.len() && j != n ==> node_eq(#[trigger] g2.nodes@[j], g1.nodes@[j]),
    ensures
        eval_type_spec(g2, n as int) == eval_type_spec(g1, n as int),
        peephole_folds(g2, n as int) == peephole_folds(g1, n as int),
{
    let op = g1.nodes@[n as int].opcode;
    if is_binary_arith(op) {
        let d0 = g1.nodes@[n as int].defs@[0];
        let d1 = g1.nodes@[n as int].defs@[1];
        assert(g1.nodes@[n as int].defs@.contains(d0));
        assert(g1.nodes@[n as int].defs@.contains(d1));
        assert(d0 < g1.nodes@.len() && d1 < g1.nodes@.len());
        assert(d0 != n && d1 != n);
        assert(node_eq(g2.nodes@[d0 as int], g1.nodes@[d0 as int]));
        assert(node_eq(g2.nodes@[d1 as int], g1.nodes@[d1 as int]));
    }
}

} // verus!
