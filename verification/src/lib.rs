//! A path tracer for scenes of spheres and cylinders, in fixed-point
//! arithmetic, verified with Verus.
//!
//! For every pixel the camera casts jittered rays into the scene; each ray
//! bounces off the surfaces it meets, tinted by their materials, until it
//! escapes to the sky or its bounces are used up; the mean of the samples,
//! gamma corrected, is the colour of the pixel.
//!
//! Three decisions shape the library.
//!
//! * Numbers are decimal fixed-point scalars ([`fixed::Fixed`]): five
//!   fractional digits, magnitudes up to `10_000`. Every operation is exact
//!   in wide integers and rounded once, so each function has an exact
//!   contract over integers, and whether a ray meets a primitive is decided
//!   without rounding at all. Counts stay whole numbers: the size of an
//!   image, the index of a pixel and the number of samples are limited by
//!   their integer types alone, the mean of a pixel is an exact sum divided
//!   once, and a sample point is computed from the whole edge of the
//!   viewport. The library has no trigonometry: a camera is given the
//!   tangents of its half angles.
//! * Randomness is explicit state ([`sampler::Sampler`]): every function
//!   that samples takes the generator and says which seed it leaves. A
//!   render is a function of the camera, the scene, the tile and the seed.
//! * Sampling by rejection gives up after [`vec3::MAX_ATTEMPTS`] candidates
//!   and returns a fixed value, so every loop terminates.
//!
//! Each type has a model of integers (`V3` for `Vec3`, `RayModel` for `Ray`,
//! and so on), which `@` gives; contracts are stated over the models.
pub mod camera;
pub mod color3;
pub mod fixed;
pub mod ray;
pub mod sampler;
pub mod tiles;
pub mod utils;
pub mod vec3;
pub mod world;
