//! Readers for sparse scene reconstructions: cameras, posed images and 3D
//! point tracks, in their line-oriented text form and their little-endian
//! binary form.
//!
//! Each reader takes the whole input as bytes and returns a map from id to
//! entity, or the first error met. Its contract is a spec function that
//! states the format directly (`cameras_text`, `images_binary`, ...).
//! Floating-point fields are kept as they are written, as [`Scalar`]s: the
//! bits of a binary64 value, or a decimal literal checked against Rust's
//! float grammar; converting them to machine floats is left to the caller.
//! `laws` and `parity` state what holds of every read, among which that the
//! text and binary forms of one reconstruction read as the same entities.
pub mod bytes;
pub mod cameras;
pub mod encode;
pub mod fields;
pub mod images;
pub mod laws;
pub mod model;
pub mod parity;
pub mod points;
pub mod text;
pub mod types;

pub use cameras::{read_cameras, read_cameras_binary, read_cameras_text};
pub use images::{read_images, read_images_binary, read_images_text};
pub use model::{CameraModel, ParamLayout};
pub use points::{read_points3d, read_points3d_binary, read_points3d_text};
pub use types::{Camera, ColmapError, Image, Point3D, Quaternion, Scalar, Vector2, Vector3};
