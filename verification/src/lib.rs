//! Decision-making core for a turn-based territory-control game on a
//! toroidal (wrap-around) rectangular grid.
//!
//! The library provides the toroidal coordinate and distance system, a
//! multi-source wavefront flood fill, a uniform-cost (Dijkstra) scan with a
//! pluggable cost function, exact fixed-point economic discounting, and the
//! per-cell utility models that score the five possible actions of a cell
//! (stay, or move into one of the four cardinal neighbours).

pub mod action;
pub mod coord;
pub mod dir;
pub mod gridmap;
pub mod io;
pub mod lone;
pub mod math;
pub mod modular;
pub mod mybot;
pub mod onion;
pub mod simple;
pub mod space;
pub mod teddy;
pub mod ua;
pub mod world;

pub use action::{Action, Choice};
pub use coord::Coord;
pub use dir::Dir;
pub use gridmap::{GridMap, MutMap, RefMap};
pub use onion::Onion;
pub use space::dijkstra::DijsktraScan;
pub use space::mask::Mask;
pub use space::point::Point;
pub use space::wave::Wave;
pub use space::{Frame, Space};
pub use world::{Environment, Occupation, Production, State, Strength, Tag};

use vstd::prelude::*;

verus! {

} // verus!
