//! A 2D convex-polygon collision kernel built on the separating axis theorem.
//!
//! Shapes live on an integer coordinate grid, so every projection, overlap
//! test and penetration measure is computed exactly and carries a proved
//! contract. Penetration data is reported along the unnormalized edge axis
//! together with that axis's squared length, from which a caller working in
//! real coordinates recovers the normalized distance and separation vector.

pub mod engine;
pub mod geom;
pub mod project;
pub mod shape;

pub use engine::check_range;
pub use engine::sat;
pub use geom::Vec2i;
pub use geom::Vec3i;
pub use project::project_shape;
pub use shape::move_shape;
pub use shape::rotate;
pub use shape::CollisionInfo;
pub use shape::Rotor2;
pub use shape::Shape;
pub use shape::ROT_ONE;
