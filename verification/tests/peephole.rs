use son::ErrorKind;
use son::Graph;
use son::NodeIdCounter;
use son::OpCode;
use son::Type;

/// Builds the smallest graph the optimizer works in: a `Start` anchor.
/// Returns the graph, the counter, and the anchor's index.
fn graph_with_start() -> (Graph, NodeIdCounter, usize) {
    let mut g = Graph::new();
    let mut c = NodeIdCounter::new(0);
    let start = g.new_node(&mut c, OpCode::Start, Type::Bot);
    (g, c, start)
}

/// Builds a binary arithmetic node over two constants and returns its index.
fn arith_over_constants(
    g: &mut Graph,
    c: &mut NodeIdCounter,
    op: OpCode,
    x: i128,
    y: i128,
) -> usize {
    let a = g.new_constant(c, Type::Int(x));
    let b = g.new_constant(c, Type::Int(y));
    let n = g.new_node(c, op, Type::Bot);
    g.add_def(n, a);
    g.add_def(n, b);
    n
}

#[test]
fn fold_add() {
    let (mut g, mut c, start) = graph_with_start();
    let a = g.new_constant(&mut c, Type::Int(3));
    let b = g.new_constant(&mut c, Type::Int(4));
    let n = g.new_node(&mut c, OpCode::Add, Type::Bot);
    g.add_def(n, a);
    g.add_def(n, b);
    let r = g.peephole(n, &mut c, start).unwrap();
    assert_ne!(r, n);
    assert!(matches!(g.nodes[r].opcode, OpCode::Con));
    assert_eq!(g.nodes[r].typ, Type::Int(7));
    // reachability: the new constant hangs off the start anchor
    assert!(g.nodes[start].defs.contains(&r));
    assert!(g.nodes[r].users.contains(&start));
}

#[test]
fn fold_sub() {
    let (mut g, mut c, start) = graph_with_start();
    let n = arith_over_constants(&mut g, &mut c, OpCode::Sub, 3, 4);
    let r = g.peephole(n, &mut c, start).unwrap();
    assert!(matches!(g.nodes[r].opcode, OpCode::Con));
    assert_eq!(g.nodes[r].typ, Type::Int(-1));
}

#[test]
fn fold_mul() {
    let (mut g, mut c, start) = graph_with_start();
    let n = arith_over_constants(&mut g, &mut c, OpCode::Mul, 3, 4);
    let r = g.peephole(n, &mut c, start).unwrap();
    assert!(matches!(g.nodes[r].opcode, OpCode::Con));
    assert_eq!(g.nodes[r].typ, Type::Int(12));
}

#[test]
fn fold_div() {
    let (mut g, mut c, start) = graph_with_start();
    let n = arith_over_constants(&mut g, &mut c, OpCode::Div, 4, 3);
    let r = g.peephole(n, &mut c, start).unwrap();
    assert!(matches!(g.nodes[r].opcode, OpCode::Con));
    assert_eq!(g.nodes[r].typ, Type::Int(1));
}

#[test]
fn fold_div_truncates_toward_zero() {
    let (mut g, mut c, start) = graph_with_start();
    let n = arith_over_constants(&mut g, &mut c, OpCode::Div, -7, 2);
    let r = g.peephole(n, &mut c, start).unwrap();
    assert_eq!(g.nodes[r].typ, Type::Int(-3));
}

#[test]
fn fold_detaches_and_discards_the_old_node() {
    let (mut g, mut c, start) = graph_with_start();
    let a = g.new_constant(&mut c, Type::Int(3));
    let b = g.new_constant(&mut c, Type::Int(4));
    let n = g.new_node(&mut c, OpCode::Add, Type::Bot);
    g.add_def(n, a);
    g.add_def(n, b);
    let r = g.peephole(n, &mut c, start).unwrap();
    // the discarded node is dead and edge-free
    assert!(!g.nodes[n].live);
    assert!(g.nodes[n].defs.is_empty());
    assert!(g.nodes[n].users.is_empty());
    // no dangling edges: nothing still points at it
    for node in &g.nodes {
        assert!(!node.defs.contains(&n));
        assert!(!node.users.contains(&n));
    }
    // its former operands survive untouched but for the lost user
    assert!(g.nodes[a].live && g.nodes[b].live);
    assert!(!g.nodes[a].users.contains(&n));
    assert!(!g.nodes[b].users.contains(&n));
    assert!(g.nodes[r].live);
}

#[test]
fn fold_mints_a_fresh_id() {
    let (mut g, mut c, start) = graph_with_start();
    let n = arith_over_constants(&mut g, &mut c, OpCode::Add, 1, 2);
    let before = c.next_id;
    let r = g.peephole(n, &mut c, start).unwrap();
    assert_eq!(g.nodes[r].id, before);
    assert_eq!(c.next_id, before + 1);
}

#[test]
fn add_with_non_constant_operand_stays() {
    let (mut g, mut c, start) = graph_with_start();
    let a = g.new_constant(&mut c, Type::Int(3));
    let n = g.new_node(&mut c, OpCode::Add, Type::Bot);
    g.add_def(n, a);
    g.add_def(n, start);
    let r = g.peephole(n, &mut c, start).unwrap();
    // conservativeness: Start is never a constant, so nothing folds
    assert_eq!(r, n);
    assert!(g.nodes[n].live);
    assert_eq!(g.nodes[n].typ, Type::Bot);
    assert!(matches!(g.nodes[n].opcode, OpCode::Add));
    assert_eq!(g.nodes[n].defs, vec![a, start]);
}

#[test]
fn repeated_peephole_is_deterministic() {
    let (mut g, mut c, start) = graph_with_start();
    let a = g.new_constant(&mut c, Type::Int(3));
    let n = g.new_node(&mut c, OpCode::Add, Type::Bot);
    g.add_def(n, a);
    g.add_def(n, start);
    let r1 = g.peephole(n, &mut c, start).unwrap();
    let t1 = g.nodes[r1].typ;
    let r2 = g.peephole(n, &mut c, start).unwrap();
    let t2 = g.nodes[r2].typ;
    assert_eq!(r1, r2);
    assert_eq!(t1, t2);
}

#[test]
fn peephole_on_constant_is_idempotent() {
    let (mut g, mut c, start) = graph_with_start();
    let a = g.new_constant(&mut c, Type::Int(5));
    let nodes_before = g.nodes.len();
    let r = g.peephole(a, &mut c, start).unwrap();
    assert_eq!(r, a);
    assert_eq!(g.nodes.len(), nodes_before);
    assert_eq!(g.nodes[a].typ, Type::Int(5));
    assert!(g.nodes[a].live);
    assert!(g.nodes[a].defs.is_empty());
}

#[test]
fn peephole_on_ret_keeps_it() {
    let (mut g, mut c, start) = graph_with_start();
    let ret = g.new_node(&mut c, OpCode::Ret, Type::Bot);
    g.add_def(ret, start);
    let r = g.peephole(ret, &mut c, start).unwrap();
    assert_eq!(r, ret);
    assert_eq!(g.nodes[ret].typ, Type::Bot);
    assert!(g.nodes[ret].live);
}

#[test]
fn overflowing_add_reports_overflow() {
    let (mut g, mut c, start) = graph_with_start();
    let n = arith_over_constants(&mut g, &mut c, OpCode::Add, i128::MAX, 1);
    assert_eq!(g.peephole(n, &mut c, start), Err(ErrorKind::Overflow));
    // the graph is left untouched
    assert!(g.nodes[n].live);
    assert_eq!(g.nodes[n].typ, Type::Bot);
}

#[test]
fn overflowing_mul_reports_overflow() {
    let (mut g, mut c, start) = graph_with_start();
    let n = arith_over_constants(&mut g, &mut c, OpCode::Mul, i128::MAX, 2);
    assert_eq!(g.peephole(n, &mut c, start), Err(ErrorKind::Overflow));
}

#[test]
fn division_by_zero_is_reported() {
    let (mut g, mut c, start) = graph_with_start();
    let n = arith_over_constants(&mut g, &mut c, OpCode::Div, 17, 0);
    assert_eq!(g.peephole(n, &mut c, start), Err(ErrorKind::DivideByZero));
}

#[test]
fn dividing_min_by_minus_one_overflows() {
    let (mut g, mut c, start) = graph_with_start();
    let n = arith_over_constants(&mut g, &mut c, OpCode::Div, i128::MIN, -1);
    assert_eq!(g.peephole(n, &mut c, start), Err(ErrorKind::Overflow));
}

#[test]
fn compound_folding() {
    // (1 + 2) + 3 folds in two peephole steps to 6
    let (mut g, mut c, start) = graph_with_start();
    let first = arith_over_constants(&mut g, &mut c, OpCode::Add, 1, 2);
    let c1 = g.peephole(first, &mut c, start).unwrap();
    assert_eq!(g.nodes[c1].typ, Type::Int(3));
    let d = g.new_constant(&mut c, Type::Int(3));
    let second = g.new_node(&mut c, OpCode::Add, Type::Bot);
    g.add_def(second, c1);
    g.add_def(second, d);
    let c2 = g.peephole(second, &mut c, start).unwrap();
    assert!(matches!(g.nodes[c2].opcode, OpCode::Con));
    assert_eq!(g.nodes[c2].typ, Type::Int(6));
    assert!(!g.nodes[second].live);
    assert!(!g.nodes[c1].users.contains(&second));
}

#[test]
fn is_constant_polarity() {
    assert!(!Type::Bot.is_constant());
    assert!(Type::Top.is_constant());
    assert!(Type::Int(0).is_constant());
    assert!(Type::Int(-9).is_constant());
}

#[test]
fn top_typed_constant_node_stays() {
    // a Con node carrying Top is already canonical: nothing is replaced
    let (mut g, mut c, start) = graph_with_start();
    let a = g.new_constant(&mut c, Type::Top);
    let r = g.peephole(a, &mut c, start).unwrap();
    assert_eq!(r, a);
    assert_eq!(g.nodes[a].typ, Type::Top);
}

#[test]
fn eval_type_reads_current_operand_types() {
    let (mut g, mut c, _start) = graph_with_start();
    let n = arith_over_constants(&mut g, &mut c, OpCode::Sub, 10, 4);
    assert_eq!(g.eval_type(n), Ok(Type::Int(6)));
    // evaluation alone mutates nothing
    assert_eq!(g.nodes[n].typ, Type::Bot);
}

#[test]
fn fold_with_duplicate_operand() {
    // Add(a, a): the same constant in both operand slots
    let (mut g, mut c, start) = graph_with_start();
    let a = g.new_constant(&mut c, Type::Int(5));
    let n = g.new_node(&mut c, OpCode::Add, Type::Bot);
    g.add_def(n, a);
    g.add_def(n, a);
    // the user set records the consumer once
    assert_eq!(g.nodes[a].users, vec![n]);
    let r = g.peephole(n, &mut c, start).unwrap();
    assert_eq!(g.nodes[r].typ, Type::Int(10));
    assert!(!g.nodes[n].live);
    assert!(g.nodes[a].users.is_empty());
}

#[test]
fn overflowing_sub_reports_overflow() {
    let (mut g, mut c, start) = graph_with_start();
    let n = arith_over_constants(&mut g, &mut c, OpCode::Sub, i128::MIN, 1);
    assert_eq!(g.peephole(n, &mut c, start), Err(ErrorKind::Overflow));
}
