//! An unbounded, procedurally generated grid of tiles with local edits.
//!
//! Every cell of the grid has a generated value that is derived from a noise
//! level. Edits override generated values and are stored per chunk, sparsely at
//! first and densely once a chunk has collected enough of them. Objects that
//! cover several cells are stored as one anchor cell plus back-references.

pub mod tile_world;
