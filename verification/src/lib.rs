//! Peephole optimizer for a sea-of-nodes intermediate representation.
//!
//! Programs are held as a graph of nodes linked by operand ("def") edges and
//! consumer ("user") back-edges. The optimizer works one node at a time: it
//! infers the most precise statically-known type of the node from its
//! operands' types over a small lattice, and when that type turns out to be a
//! known integer constant it replaces the node with a canonical constant
//! node, keeping the graph's edge invariants intact.

pub mod graph;
pub mod optimizer;
pub mod types;

pub use graph::Graph;
pub use graph::Node;
pub use graph::NodeIdCounter;
pub use graph::OpCode;
pub use types::ErrorKind;
pub use types::Type;
