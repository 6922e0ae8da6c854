//! Geometry: three-component vectors of dimensioned quantities.

pub mod vec3d;

pub use self::vec3d::Vec3D;
pub use self::vec3d::VecIdx;
