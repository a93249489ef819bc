//! Smallest enclosing circles of integer points, computed with exact
//! rational arithmetic by Welzl's recursive algorithm.
mod errors;
mod geometry;
mod shapes;
mod welzl;

pub use errors::EnclosingError;
pub use geometry::{Circle, Point};
pub use shapes::{EnclosingCircle, Line, PointSet, Square, Triangle};
pub use welzl::WelzlResolver2D;
