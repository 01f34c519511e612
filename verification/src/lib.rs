//! Import-graph analysis and force-directed layout for a source tree.
//!
//! The crate discovers which source files of a workspace import which
//! others, assembles an undirected multigraph from those imports, computes
//! a deterministic 2D layout for the graph by iterative force simulation,
//! and maintains the pan/zoom/selection state of a viewport over the
//! rendered layout.
//!
//! All geometry is fixed-point: world coordinates are kept in
//! milli-units (one thousandth of a logical canvas unit) and screen
//! coordinates in micro-units, so every computation is exact integer
//! arithmetic with a stated contract.

pub mod builder;
pub mod canva_state;
pub mod resolve;
pub mod scan;
pub mod selection_state;
pub mod syntax;
pub mod view_state;
pub mod workspace_layout;
pub mod file;
pub mod graph;
pub mod layout;
pub mod mathx;

use vstd::prelude::*;

verus! {

} // verus!
