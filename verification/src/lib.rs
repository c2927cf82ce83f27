//! A bounded Conway's-Game-of-Life grid: a fixed-size two-dimensional field of
//! binary cell states with bounded coordinate access and a synchronous
//! generational step. Edges do not wrap: a neighbour outside the grid counts
//! as dead.

pub mod cells;
