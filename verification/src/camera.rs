//! The camera: the viewport derived from a configuration, the rays through
//! its pixels, the colour that a ray gathers, and the rendering of a tile.
use crate::color3::Color3;
use crate::fixed::{
    clamp, fx_add, fx_mul, fx_sqrt, fx_sub, isqrt, lemma_fx_mul_one, lemma_isqrt_monotonic,
    lemma_isqrt_unique, lemma_mul_bounds, lemma_rdiv_monotonic, lemma_rdiv_multiple, magnitude,
    rdiv, wide_mul, wide_rdiv, Fixed, LIMIT, SCALE,
};
use crate::ray::{Ray, RayModel};
use crate::sampler::{next_seed, Sampler};
use crate::tiles::{joined, lemma_joined_is_the_image, tile_end, tile_start, tiled};
use crate::utils::constants::infinity;
use crate::utils::helpers::{random_f32, unit_draw};
use crate::utils::interval::Interval;
use crate::vec3::{
    dot_exact, lemma_unit_bounded, lemma_unit_length, lemma_unit_of_nonzero, unit_disk_draw,
    v3_add, v3_cross, v3_div, v3_mul, v3_over, v3_scale, v3_stepped, v3_sub, v3_unit, Point3, Vec3,
    MAX_ATTEMPTS, V3,
};
use crate::world::material::scatter_model;
use crate::world::scene_object::ObjectModel;
use crate::world::scene_object_list::{closest_hit, scene_wf, SceneObjectList};
use vstd::prelude::*;

verus! {

/// Raw count of the nearest parameter at which a bounce may hit: `0.001`.
pub const T_MIN_RAW: i32 = 100;

/// Why a camera configuration was refused.
#[derive(Debug, Clone, Copy, PartialEq, Eq, Structural)]
pub enum ConfigError {
    /// The image width is zero.
    ImageWidth,
    /// The aspect ratio is not positive.
    AspectRatio,
    /// The number of samples for a pixel is zero.
    SamplesPerPixel,
    /// The field of view is not between 0 and 180 degrees.
    FieldOfView,
    /// The defocus angle is negative.
    DefocusAngle,
    /// The focus distance is not positive.
    FocusDistance,
    /// The eye and the point looked at coincide, or the up vector is
    /// parallel to the line between them.
    ViewDirection,
}

impl ConfigError {
    /// What is wrong with the configuration, in words.
    pub fn message(self) -> (r: &'static str)
        ensures
            r@ == message_of(self),
    {
        match self {
            ConfigError::ImageWidth => "the image width must not be zero",
            ConfigError::AspectRatio => "the aspect ratio must be positive",
            ConfigError::SamplesPerPixel => "the samples per pixel must not be zero",
            ConfigError::FieldOfView => "the field of view must lie between 0 and 180 degrees",
            ConfigError::DefocusAngle => "the defocus angle must not be negative",
            ConfigError::FocusDistance => "the focus distance must be positive",
            ConfigError::ViewDirection => "the view must not be along the up vector nor have no direction",
        }
    }
}

/// The words for a fault.
pub open spec fn message_of(e: ConfigError) -> Seq<char> {
    match e {
        ConfigError::ImageWidth => "the image width must not be zero"@,
        ConfigError::AspectRatio => "the aspect ratio must be positive"@,
        ConfigError::SamplesPerPixel => "the samples per pixel must not be zero"@,
        ConfigError::FieldOfView => "the field of view must lie between 0 and 180 degrees"@,
        ConfigError::DefocusAngle => "the defocus angle must not be negative"@,
        ConfigError::FocusDistance => "the focus distance must be positive"@,
        ConfigError::ViewDirection => "the view must not be along the up vector nor have no direction"@,
    }
}

/// Model of a camera configuration.
pub struct CameraConfig {
    pub image_width: int,
    pub aspect_ratio: int,
    pub samples_per_pixel: int,
    pub vfov: int,
    pub max_depth: int,
    pub camera_position: V3,
    pub lookat: V3,
    pub upvector: V3,
    pub defocus_angle: int,
    pub focus_dist: int,
    pub half_vfov_tan: int,
    pub half_defocus_tan: int,
}

/// Model of a camera: its configuration and what is derived from it.
pub struct CameraModel {
    pub config: CameraConfig,
    pub image_height: int,
    pub viewport_u: V3,
    pub viewport_v: V3,
    pub pixel_delta_u: V3,
    pub pixel_delta_v: V3,
    pub pixel00_origin: V3,
    pub center: V3,
    pub pixel_sample_scale: int,
    pub u: V3,
    pub v: V3,
    pub w: V3,
    pub defocus_disk_u: V3,
    pub defocus_disk_v: V3,
}

/// The sum of two vectors, exact; its components need not be scalars.
pub open spec fn v3_plus(a: V3, b: V3) -> V3 {
    V3 { x: a.x + b.x, y: a.y + b.y, z: a.z + b.z }
}

/// The zero vector, and black.
pub open spec fn zero3() -> V3 {
    V3 { x: 0, y: 0, z: 0 }
}

/// White: full weight in every channel.
pub open spec fn white() -> V3 {
    V3 { x: SCALE as int, y: SCALE as int, z: SCALE as int }
}

/// The colour of the sky at the zenith: `(0.5, 0.7, 1.0)`.
pub open spec fn zenith_blue() -> V3 {
    V3 { x: 50_000, y: 70_000, z: SCALE as int }
}

/// The height of the image: the width divided by the aspect ratio, rounded
/// down, at least one and at most the largest count.
pub open spec fn image_height_of(image_width: int, aspect_ratio: int) -> int
    recommends
        aspect_ratio > 0,
{
    let h = (image_width * SCALE) / aspect_ratio;
    if h < 1 {
        1
    } else if h > u32::MAX {
        u32::MAX as int
    } else {
        h
    }
}

/// The unit vector from the point looked at to the eye.
pub open spec fn basis_w(c: CameraConfig) -> V3 {
    v3_unit(v3_sub(c.camera_position, c.lookat))
}

/// The unit vector to the right of the camera.
pub open spec fn basis_u(c: CameraConfig) -> V3 {
    v3_unit(v3_cross(c.upvector, basis_w(c)))
}

/// The unit vector upward of the camera.
pub open spec fn basis_v(c: CameraConfig) -> V3 {
    v3_cross(basis_w(c), basis_u(c))
}

/// The first reason to refuse a configuration, if there is one.
pub open spec fn config_error(c: CameraConfig) -> Option<ConfigError> {
    if c.image_width < 1 {
        Some(ConfigError::ImageWidth)
    } else if c.aspect_ratio <= 0 {
        Some(ConfigError::AspectRatio)
    } else if c.samples_per_pixel < 1 {
        Some(ConfigError::SamplesPerPixel)
    } else if !(0 < c.vfov < 180 * SCALE) {
        Some(ConfigError::FieldOfView)
    } else if c.defocus_angle < 0 {
        Some(ConfigError::DefocusAngle)
    } else if c.focus_dist <= 0 {
        Some(ConfigError::FocusDistance)
    } else if basis_w(c) == zero3() || basis_u(c) == zero3() {
        Some(ConfigError::ViewDirection)
    } else {
        None
    }
}

/// Height of the viewport in the plane of focus.
pub open spec fn viewport_height(c: CameraConfig) -> int {
    fx_mul(fx_mul(2 * SCALE, c.half_vfov_tan), c.focus_dist)
}

/// Width of the viewport: its height times the ratio of the image's width
/// to its height, rounded once.
pub open spec fn viewport_width(c: CameraConfig) -> int {
    clamp(
        rdiv(
            viewport_height(c) * c.image_width,
            image_height_of(c.image_width, c.aspect_ratio),
        ),
    )
}

/// The vector along the top edge of the viewport, left to right.
pub open spec fn viewport_u(c: CameraConfig) -> V3 {
    v3_scale(basis_u(c), viewport_width(c))
}

/// The vector along the left edge of the viewport, top to bottom.
pub open spec fn viewport_v(c: CameraConfig) -> V3 {
    v3_scale(basis_v(c), fx_mul(viewport_height(c), -SCALE))
}

/// The step from a pixel to its right neighbour, rounded to a vector of
/// scalars. The sample points are not computed from it, so its rounding
/// does not add up across the image.
pub open spec fn delta_u(c: CameraConfig) -> V3 {
    v3_over(viewport_u(c), c.image_width)
}

/// The step from a pixel to the one below it, rounded likewise.
pub open spec fn delta_v(c: CameraConfig) -> V3 {
    v3_over(viewport_v(c), image_height_of(c.image_width, c.aspect_ratio))
}

/// The upper left corner of the viewport.
pub open spec fn viewport_origin(c: CameraConfig) -> V3 {
    v3_sub(
        v3_sub(
            v3_sub(c.camera_position, v3_scale(basis_w(c), c.focus_dist)),
            v3_div(viewport_u(c), 2 * SCALE),
        ),
        v3_div(viewport_v(c), 2 * SCALE),
    )
}

/// The centre of the pixel in the upper left corner: half a step right and
/// half a step down from the corner of the viewport.
pub open spec fn pixel00(c: CameraConfig) -> V3 {
    v3_add(
        v3_add(viewport_origin(c), v3_over(viewport_u(c), 2 * c.image_width)),
        v3_over(viewport_v(c), 2 * image_height_of(c.image_width, c.aspect_ratio)),
    )
}

/// The weight of one sample in the mean of a pixel: one over the number of
/// samples, as a scalar.
pub open spec fn sample_scale(c: CameraConfig) -> int {
    clamp(rdiv(SCALE as int, c.samples_per_pixel))
}

/// Radius of the disk from which the rays start.
pub open spec fn defocus_radius(c: CameraConfig) -> int {
    fx_mul(c.focus_dist, c.half_defocus_tan)
}

/// The camera that a configuration determines.
pub open spec fn camera_of(c: CameraConfig) -> CameraModel {
    CameraModel {
        config: c,
        image_height: image_height_of(c.image_width, c.aspect_ratio),
        viewport_u: viewport_u(c),
        viewport_v: viewport_v(c),
        pixel_delta_u: delta_u(c),
        pixel_delta_v: delta_v(c),
        pixel00_origin: pixel00(c),
        center: c.camera_position,
        pixel_sample_scale: sample_scale(c),
        u: basis_u(c),
        v: basis_v(c),
        w: basis_w(c),
        defocus_disk_u: v3_scale(basis_u(c), defocus_radius(c)),
        defocus_disk_v: v3_scale(basis_v(c), defocus_radius(c)),
    }
}

/// The point of the defocus disk drawn at `seed`, and the seed left.
pub open spec fn defocus_sample(cam: CameraModel, seed: u64) -> (V3, u64) {
    let (p, after) = unit_disk_draw(seed, MAX_ATTEMPTS as nat);
    (
        v3_add(
            v3_add(cam.center, v3_scale(cam.defocus_disk_u, p.x)),
            v3_scale(cam.defocus_disk_v, p.y),
        ),
        after,
    )
}

/// The point of the viewport that a sample of pixel `(i, j)` drawn at
/// `seed` passes through: the centre of the pixel, moved by offsets drawn
/// from `[-0.5, 0.5)`. It lies `i` steps and the offset to the right of the
/// first pixel and `j` steps and the offset below it; each way is computed
/// from the whole edge of the viewport and rounded once.
pub open spec fn pixel_sample(cam: CameraModel, i: int, j: int, seed: u64) -> V3 {
    let dx = unit_draw(seed) - SCALE / 2;
    let dy = unit_draw(next_seed(seed)) - SCALE / 2;
    v3_add(
        v3_add(
            cam.pixel00_origin,
            v3_stepped(cam.viewport_u, i * SCALE + dx, cam.config.image_width),
        ),
        v3_stepped(cam.viewport_v, j * SCALE + dy, cam.image_height),
    )
}

/// The ray for a sample of pixel `(i, j)` drawn at `seed`, and the seed
/// left. It starts at the eye, or on the defocus disk if the defocus angle
/// is positive.
#[verifier::opaque]
pub open spec fn sample_ray(cam: CameraModel, i: int, j: int, seed: u64) -> (RayModel, u64) {
    let target = pixel_sample(cam, i, j, seed);
    let after = next_seed(next_seed(seed));
    if cam.config.defocus_angle > 0 {
        let (origin, last) = defocus_sample(cam, after);
        (RayModel { origin, direction: v3_sub(target, origin) }, last)
    } else {
        (RayModel { origin: cam.center, direction: v3_sub(target, cam.center) }, after)
    }
}

/// The colour of the sky where the unit direction has height `y`: white at
/// the horizon below, blue at the zenith, linear in between.
pub open spec fn sky_gradient(y: int) -> V3 {
    let a = fx_mul(SCALE / 2, fx_add(y, SCALE as int));
    v3_add(v3_scale(white(), fx_sub(SCALE as int, a)), v3_scale(zenith_blue(), a))
}

/// The colour of the sky in a direction.
pub open spec fn sky_color(direction: V3) -> V3 {
    sky_gradient(v3_unit(direction).y)
}

/// The light that arrives along `ray` after at most `depth` bounces,
/// weighted by `color`, and the seed left. A ray that escapes takes the
/// colour of the sky; one that is still bouncing when the bounces are used
/// up brings nothing.
#[verifier::opaque]
pub open spec fn gathered(
    world: Seq<ObjectModel>,
    ray: RayModel,
    depth: nat,
    color: V3,
    seed: u64,
) -> (V3, u64)
    decreases depth,
{
    if depth == 0 {
        (zero3(), seed)
    } else {
        match closest_hit(world, ray, T_MIN_RAW as int, LIMIT as int) {
            Some(hit) => {
                let (scattering, after) = scatter_model(hit.material, ray, hit, seed);
                gathered(
                    world,
                    scattering.ray,
                    (depth - 1) as nat,
                    v3_mul(color, scattering.attenuation),
                    after,
                )
            },
            None => (v3_mul(color, sky_color(ray.direction)), seed),
        }
    }
}

/// The colour of a ray: what it gathers with full weight.
pub open spec fn ray_color_of(world: Seq<ObjectModel>, ray: RayModel, depth: nat, seed: u64) -> (
    V3,
    u64,
) {
    gathered(world, ray, depth, white(), seed)
}

/// The sum of the colours of the first `n` samples of pixel `(x, y)`,
/// drawn from `seed` on, and the seed left. The sum is exact.
pub open spec fn sample_sum(
    cam: CameraModel,
    world: Seq<ObjectModel>,
    x: int,
    y: int,
    n: nat,
    seed: u64,
) -> (V3, u64)
    decreases n,
{
    if n == 0 {
        (zero3(), seed)
    } else {
        let (sum, s1) = sample_sum(cam, world, x, y, (n - 1) as nat, seed);
        let (ray, s2) = sample_ray(cam, x, y, s1);
        let (color, s3) = ray_color_of(world, ray, cam.config.max_depth as nat, s2);
        (v3_plus(sum, color), s3)
    }
}

/// Gamma correction: the square root of each channel.
pub open spec fn gamma(c: V3) -> V3 {
    V3 { x: fx_sqrt(c.x), y: fx_sqrt(c.y), z: fx_sqrt(c.z) }
}

/// The colour of pixel `(x, y)` rendered from `seed` on: the mean of its
/// samples, which is their exact sum divided by their number and rounded
/// once, gamma corrected; and the seed left.
#[verifier::opaque]
pub open spec fn pixel_color(
    cam: CameraModel,
    world: Seq<ObjectModel>,
    x: int,
    y: int,
    seed: u64,
) -> (V3, u64) {
    let (sum, after) = sample_sum(cam, world, x, y, cam.config.samples_per_pixel as nat, seed);
    (gamma(v3_over(sum, cam.config.samples_per_pixel)), after)
}

/// The seed before pixel `(x0 + col, y0 + row)` of a tile with columns
/// `x0..x1` is rendered, when the tile is rendered row by row from `seed`
/// on.
pub open spec fn seed_at(
    cam: CameraModel,
    world: Seq<ObjectModel>,
    x0: int,
    x1: int,
    y0: int,
    row: nat,
    col: nat,
    seed: u64,
) -> u64
    decreases row, col,
{
    if col > 0 {
        pixel_color(
            cam,
            world,
            x0 + col - 1,
            y0 + row,
            seed_at(cam, world, x0, x1, y0, row, (col - 1) as nat, seed),
        ).1
    } else if row > 0 && x1 >= x0 {
        seed_at(cam, world, x0, x1, y0, (row - 1) as nat, (x1 - x0) as nat, seed)
    } else {
        seed
    }
}

/// The colour of the pixel in row `row` and column `col` of a tile.
pub open spec fn tile_pixel(
    cam: CameraModel,
    world: Seq<ObjectModel>,
    x0: int,
    x1: int,
    y0: int,
    row: nat,
    col: nat,
    seed: u64,
) -> V3 {
    pixel_color(cam, world, x0 + col, y0 + row, seed_at(cam, world, x0, x1, y0, row, col, seed)).0
}

/// Whether entry `k` of a buffer with rows of `width` entries belongs to
/// the part of a tile that ends before column `col` of row `row`.
pub open spec fn written(k: int, width: int, x0: int, x1: int, row: int, col: int) -> bool {
    ||| k / width < row && x0 <= k % width < x1
    ||| k / width == row && x0 <= k % width < x0 + col
}

/// Whether `now` is `before` with the part of a tile rendered into it that
/// ends before column `col` of row `row`: a pixel `(x, y)` of that part
/// stands at `(y - y0) * width + x`, and every other entry is as it was.
#[verifier::opaque]
pub open spec fn partly_rendered(
    cam: CameraModel,
    world: Seq<ObjectModel>,
    x0: int,
    x1: int,
    y0: int,
    row: int,
    col: int,
    seed: u64,
    before: Seq<Vec3>,
    now: Seq<Vec3>,
) -> bool {
    &&& now.len() == before.len()
    &&& forall|k: int|
        0 <= k < now.len() ==> if written(k, cam.config.image_width, x0, x1, row, col) {
            (#[trigger] now[k])@ == tile_pixel(
                cam,
                world,
                x0,
                x1,
                y0,
                (k / cam.config.image_width) as nat,
                (k % cam.config.image_width - x0) as nat,
                seed,
            )
        } else {
            now[k] == before[k]
        }
}

/// Whether `after` is `before` with the tile of columns `x0..x1` and rows
/// `y0..y1` rendered into it from `seed` on.
pub open spec fn rendered(
    cam: CameraModel,
    world: Seq<ObjectModel>,
    x0: int,
    x1: int,
    y0: int,
    y1: int,
    seed: u64,
    before: Seq<Vec3>,
    after: Seq<Vec3>,
) -> bool {
    partly_rendered(cam, world, x0, x1, y0, y1 - y0, 0, seed, before, after)
}

/// Writing the next pixel of a tile extends the rendered part by that
/// pixel.
pub proof fn lemma_render_step(
    cam: CameraModel,
    world: Seq<ObjectModel>,
    x0: int,
    x1: int,
    y0: int,
    row: int,
    col: int,
    seed: u64,
    before: Seq<Vec3>,
    now: Seq<Vec3>,
    color: Vec3,
)
    requires
        partly_rendered(cam, world, x0, x1, y0, row, col, seed, before, now),
        0 <= row,
        0 <= x0,
        0 <= col < x1 - x0,
        x1 <= cam.config.image_width,
        row * cam.config.image_width + x0 + col < now.len(),
        color@ == tile_pixel(cam, world, x0, x1, y0, row as nat, col as nat, seed),
    ensures
        partly_rendered(
            cam,
            world,
            x0,
            x1,
            y0,
            row,
            col + 1,
            seed,
            before,
            now.update(row * cam.config.image_width + x0 + col, color),
        ),
{
    reveal(partly_rendered);
    let w = cam.config.image_width;
    let index = row * w + x0 + col;
    let next = now.update(index, color);
    vstd::arithmetic::div_mod::lemma_fundamental_div_mod_converse(index, w, row, x0 + col);
    assert forall|k: int| 0 <= k < next.len() implies if written(k, w, x0, x1, row, col + 1) {
        (#[trigger] next[k])@ == tile_pixel(
            cam,
            world,
            x0,
            x1,
            y0,
            (k / w) as nat,
            (k % w - x0) as nat,
            seed,
        )
    } else {
        next[k] == before[k]
    } by {
        if k != index {
            assert(next[k] == now[k]);
            if k / w == row && k % w == x0 + col {
                vstd::arithmetic::div_mod::lemma_fundamental_div_mod(k, w);
                assert(w * (k / w) == (k / w) * w) by (nonlinear_arith);
            }
        }
    }
}

/// A part that ends after the last column of a row ends before the first
/// column of the next row.
pub proof fn lemma_render_row(
    cam: CameraModel,
    world: Seq<ObjectModel>,
    x0: int,
    x1: int,
    y0: int,
    row: int,
    seed: u64,
    before: Seq<Vec3>,
    now: Seq<Vec3>,
)
    requires
        partly_rendered(cam, world, x0, x1, y0, row, x1 - x0, seed, before, now),
    ensures
        partly_rendered(cam, world, x0, x1, y0, row + 1, 0, seed, before, now),
{
    reveal(partly_rendered);
    let w = cam.config.image_width;
    assert forall|k: int| 0 <= k < now.len() implies #[trigger] written(k, w, x0, x1, row, x1 - x0)
        == written(k, w, x0, x1, row + 1, 0) by {}
}

/// The position in a tile's buffer of the pixel in row `row` and column
/// `x` lies in that row, before the end of the buffer.
pub proof fn lemma_pixel_index(row: int, x: int, width: int, rows: int)
    requires
        0 <= row < rows,
        0 <= x < width,
    ensures
        0 <= row * width + x < rows * width,
        (row * width + x) / width == row,
        (row * width + x) % width == x,
{
    assert(row * width >= 0 && (row + 1) * width <= rows * width && (row + 1) * width == row
        * width + width) by (nonlinear_arith)
        requires
            0 <= row < rows,
            0 < width,
    ;
    vstd::arithmetic::div_mod::lemma_fundamental_div_mod_converse(row * width + x, width, row, x);
}

/// A camera: the configuration it was made from, and the viewport derived
/// from it. A camera does not change once it is made: the type keeps the
/// derived fields equal to what the configuration determines.
#[derive(Debug, Clone, Copy)]
pub struct Camera {
    image_width: u32,
    aspect_ratio: Fixed,
    samples_per_pixel: u32,
    /// Vertical field of view, in degrees.
    vfov: Fixed,
    max_depth: u32,
    camera_position: Point3,
    lookat: Point3,
    upvector: Vec3,
    /// Angle of the cone of rays through a point in focus, in degrees.
    defocus_angle: Fixed,
    focus_dist: Fixed,
    /// Tangent of half the field of view.
    half_vfov_tan: Fixed,
    /// Tangent of half the defocus angle.
    half_defocus_tan: Fixed,
    image_height: u32,
    viewport_u: Vec3,
    viewport_v: Vec3,
    pixel_delta_u: Vec3,
    pixel_delta_v: Vec3,
    pixel00_origin: Point3,
    center: Point3,
    pixel_sample_scale: Fixed,
    u: Vec3,
    v: Vec3,
    w: Vec3,
    defocus_disk_u: Vec3,
    defocus_disk_v: Vec3,
}

impl View for Camera {
    type V = CameraModel;

    closed spec fn view(&self) -> CameraModel {
        CameraModel {
            config: CameraConfig {
                image_width: self.image_width as int,
                aspect_ratio: self.aspect_ratio@,
                samples_per_pixel: self.samples_per_pixel as int,
                vfov: self.vfov@,
                max_depth: self.max_depth as int,
                camera_position: self.camera_position@,
                lookat: self.lookat@,
                upvector: self.upvector@,
                defocus_angle: self.defocus_angle@,
                focus_dist: self.focus_dist@,
                half_vfov_tan: self.half_vfov_tan@,
                half_defocus_tan: self.half_defocus_tan@,
            },
            image_height: self.image_height as int,
            viewport_u: self.viewport_u@,
            viewport_v: self.viewport_v@,
            pixel_delta_u: self.pixel_delta_u@,
            pixel_delta_v: self.pixel_delta_v@,
            pixel00_origin: self.pixel00_origin@,
            center: self.center@,
            pixel_sample_scale: self.pixel_sample_scale@,
            u: self.u@,
            v: self.v@,
            w: self.w@,
            defocus_disk_u: self.defocus_disk_u@,
            defocus_disk_v: self.defocus_disk_v@,
        }
    }
}

/// Whether a camera is what its configuration determines, and the
/// configuration is one that is accepted.
pub open spec fn camera_wf(cam: CameraModel) -> bool {
    config_error(cam.config) is None && cam == camera_of(cam.config)
}

/// Whether a vector is the zero vector.
fn is_zero(v: Vec3) -> (r: bool)
    ensures
        r == (v@ == zero3()),
{
    v.x.raw() == 0 && v.y.raw() == 0 && v.z.raw() == 0
}

impl Camera {
    #[verifier::type_invariant]
    spec fn well_formed(self) -> bool {
        camera_wf(self@)
    }

    /// A camera for the given configuration, or the first reason to refuse
    /// it. The field of view and the defocus angle are given in degrees
    /// together with the tangents of their halves, which are taken as they
    /// are given. Every configuration
    /// with a positive width, aspect ratio, number of samples and focus
    /// distance, a field of view between 0 and 180 degrees, a defocus angle
    /// that is not negative, and a view that is not along the up vector is
    /// accepted.
    pub fn new(
        image_width: u32,
        aspect_ratio: Fixed,
        samples_per_pixel: u32,
        vfov: Fixed,
        max_depth: u32,
        camera_position: Point3,
        lookat: Point3,
        upvector: Vec3,
        defocus_angle: Fixed,
        focus_dist: Fixed,
        half_vfov_tan: Fixed,
        half_defocus_tan: Fixed,
    ) -> (r: Result<Camera, ConfigError>)
        ensures
            ({
                let c = CameraConfig {
                    image_width: image_width as int,
                    aspect_ratio: aspect_ratio@,
                    samples_per_pixel: samples_per_pixel as int,
                    vfov: vfov@,
                    max_depth: max_depth as int,
                    camera_position: camera_position@,
                    lookat: lookat@,
                    upvector: upvector@,
                    defocus_angle: defocus_angle@,
                    focus_dist: focus_dist@,
                    half_vfov_tan: half_vfov_tan@,
                    half_defocus_tan: half_defocus_tan@,
                };
                match r {
                    Ok(cam) => config_error(c) is None && cam@ == camera_of(c),
                    Err(e) => config_error(c) == Some(e),
                }
            }),
    {
        if image_width < 1 {
            return Err(ConfigError::ImageWidth);
        }
        if aspect_ratio.raw() <= 0 {
            return Err(ConfigError::AspectRatio);
        }
        let mut rows: u64 = (image_width as u64 * 100_000) / (aspect_ratio.raw() as u64);
        if rows < 1 {
            rows = 1;
        }
        if rows > u32::MAX as u64 {
            rows = u32::MAX as u64;
        }
        let image_height = rows as u32;
        if samples_per_pixel < 1 {
            return Err(ConfigError::SamplesPerPixel);
        }
        if vfov.raw() <= 0 || vfov.raw() >= 18_000_000 {
            return Err(ConfigError::FieldOfView);
        }
        if defocus_angle.raw() < 0 {
            return Err(ConfigError::DefocusAngle);
        }
        if focus_dist.raw() <= 0 {
            return Err(ConfigError::FocusDistance);
        }
        let pixel_sample_scale = Fixed::saturating(wide_rdiv(100_000, samples_per_pixel as i128));

        let center = camera_position;

        // viewport
        let viewport_height = Fixed::from_int(2) * half_vfov_tan * focus_dist;
        let across = wide_mul(viewport_height.raw() as i64, image_width as i64);
        proof {
            lemma_mul_bounds(
                viewport_height@,
                image_width as int,
                LIMIT as int,
                0x1_0000_0000,
            );
        }
        let viewport_width = Fixed::saturating(wide_rdiv(across, image_height as i128));

        // camera coordinate system
        let w = Vec3::unit(camera_position - lookat);
        let u = Vec3::unit(Vec3::cross_product(upvector, w));
        if is_zero(w) || is_zero(u) {
            return Err(ConfigError::ViewDirection);
        }
        let v = Vec3::cross_product(w, u);

        let viewport_u = u * viewport_width;
        let viewport_v = v * (viewport_height * Fixed::one().negated());

        let pixel_delta_u = viewport_u.over_count(image_width as u64);
        let pixel_delta_v = viewport_v.over_count(image_height as u64);

        let two = Fixed::from_int(2);
        let viewport_origin = center - w * focus_dist - viewport_u / two - viewport_v / two;

        let pixel00_origin = viewport_origin + viewport_u.over_count(2 * (image_width as u64))
            + viewport_v.over_count(2 * (image_height as u64));

        let defocus_radius = focus_dist * half_defocus_tan;
        let defocus_disk_u = u * defocus_radius;
        let defocus_disk_v = v * defocus_radius;

        Ok(
            Camera {
                image_width,
                aspect_ratio,
                samples_per_pixel,
                vfov,
                max_depth,
                camera_position,
                lookat,
                upvector,
                defocus_angle,
                focus_dist,
                half_vfov_tan,
                half_defocus_tan,
                image_height,
                viewport_u,
                viewport_v,
                pixel_delta_u,
                pixel_delta_v,
                pixel00_origin,
                center,
                pixel_sample_scale,
                u,
                v,
                w,
                defocus_disk_u,
                defocus_disk_v,
            },
        )
    }

    /// The width of the image, in pixels.
    pub fn image_width(&self) -> (r: u32)
        ensures
            r == self@.config.image_width,
            r >= 1,
            camera_wf(self@),
    {
        proof {
            use_type_invariant(self);
        }
        self.image_width
    }

    /// The height of the image, in pixels.
    pub fn image_height(&self) -> (r: u32)
        ensures
            r == self@.image_height,
            r >= 1,
            camera_wf(self@),
    {
        proof {
            use_type_invariant(self);
        }
        self.image_height
    }

    /// The number of samples for a pixel.
    pub fn samples_per_pixel(&self) -> (r: u32)
        ensures
            r == self@.config.samples_per_pixel,
            r >= 1,
    {
        proof {
            use_type_invariant(self);
        }
        self.samples_per_pixel
    }

    /// The largest number of bounces of a ray.
    pub fn max_depth(&self) -> (r: u32)
        ensures
            r == self@.config.max_depth,
    {
        self.max_depth
    }

    /// The ratio of the width of the image to its height.
    pub fn aspect_ratio(&self) -> (r: Fixed)
        ensures
            r@ == self@.config.aspect_ratio,
    {
        self.aspect_ratio
    }

    /// The vertical field of view, in degrees.
    pub fn vfov(&self) -> (r: Fixed)
        ensures
            r@ == self@.config.vfov,
    {
        self.vfov
    }

    /// The eye.
    pub fn camera_position(&self) -> (r: Point3)
        ensures
            r@ == self@.config.camera_position,
    {
        self.camera_position
    }

    /// The point looked at.
    pub fn lookat(&self) -> (r: Point3)
        ensures
            r@ == self@.config.lookat,
    {
        self.lookat
    }

    /// The direction that is up in the image.
    pub fn upvector(&self) -> (r: Vec3)
        ensures
            r@ == self@.config.upvector,
    {
        self.upvector
    }

    /// The angle of the cone of rays through a point in focus, in degrees.
    pub fn defocus_angle(&self) -> (r: Fixed)
        ensures
            r@ == self@.config.defocus_angle,
    {
        self.defocus_angle
    }

    /// The distance from the eye to the plane in focus.
    pub fn focus_dist(&self) -> (r: Fixed)
        ensures
            r@ == self@.config.focus_dist,
    {
        self.focus_dist
    }

    /// The vector along the top edge of the viewport, left to right.
    pub fn viewport_u(&self) -> (r: Vec3)
        ensures
            r@ == self@.viewport_u,
    {
        self.viewport_u
    }

    /// The vector along the left edge of the viewport, top to bottom.
    pub fn viewport_v(&self) -> (r: Vec3)
        ensures
            r@ == self@.viewport_v,
    {
        self.viewport_v
    }

    /// The step from a pixel to its right neighbour.
    pub fn pixel_delta_u(&self) -> (r: Vec3)
        ensures
            r@ == self@.pixel_delta_u,
    {
        self.pixel_delta_u
    }

    /// The step from a pixel to the one below it.
    pub fn pixel_delta_v(&self) -> (r: Vec3)
        ensures
            r@ == self@.pixel_delta_v,
    {
        self.pixel_delta_v
    }

    /// The centre of the pixel in the upper left corner.
    pub fn pixel00_origin(&self) -> (r: Point3)
        ensures
            r@ == self@.pixel00_origin,
    {
        self.pixel00_origin
    }

    /// The point from which the rays start when there is no defocus.
    pub fn center(&self) -> (r: Point3)
        ensures
            r@ == self@.center,
    {
        self.center
    }

    /// One over the number of samples for a pixel.
    pub fn pixel_sample_scale(&self) -> (r: Fixed)
        ensures
            r@ == self@.pixel_sample_scale,
    {
        self.pixel_sample_scale
    }

    /// The basis of the camera: right, up, and from the point looked at to
    /// the eye.
    pub fn basis(&self) -> (r: (Vec3, Vec3, Vec3))
        ensures
            r.0@ == self@.u,
            r.1@ == self@.v,
            r.2@ == self@.w,
    {
        (self.u, self.v, self.w)
    }

    /// The two vectors that span the defocus disk.
    pub fn defocus_disk(&self) -> (r: (Vec3, Vec3))
        ensures
            r.0@ == self@.defocus_disk_u,
            r.1@ == self@.defocus_disk_v,
    {
        (self.defocus_disk_u, self.defocus_disk_v)
    }

    /// A black buffer for the tile of rows `y_range`: one entry for every
    /// pixel of those rows.
    pub fn tile_buffer(&self, y_range: (usize, usize)) -> (r: Vec<Color3>)
        requires
            y_range.0 <= y_range.1,
        ensures
            r.len() == (y_range.1 - y_range.0) * self@.config.image_width,
            forall|k: int| 0 <= k < r.len() ==> (#[trigger] r[k])@ == zero3(),
    {
        let mut buffer: Vec<Color3> = Vec::new();
        let mut y = y_range.0;
        while y < y_range.1
            invariant
                y_range.0 <= y <= y_range.1,
                buffer.len() == (y - y_range.0) * self.image_width,
                forall|k: int| 0 <= k < buffer.len() ==> (#[trigger] buffer[k])@ == zero3(),
            decreases y_range.1 - y,
        {
            let mut x: u32 = 0;
            while x < self.image_width
                invariant
                    x <= self.image_width,
                    buffer.len() == (y - y_range.0) * self.image_width + x,
                    forall|k: int| 0 <= k < buffer.len() ==> (#[trigger] buffer[k])@ == zero3(),
                decreases self.image_width - x,
            {
                buffer.push(Color3::new(Fixed::zero(), Fixed::zero(), Fixed::zero()));
                x += 1;
            }
            assert((y - y_range.0) * self.image_width + self.image_width == (y + 1 - y_range.0)
                * self.image_width) by (nonlinear_arith);
            y += 1;
        }
        buffer
    }

    /// Renders the tile of columns `x_range` and rows `y_range` into
    /// `pixels`, a buffer of whole rows that starts at the first row of the
    /// tile. Each pixel is the mean of its samples, gamma corrected.
    pub fn render(
        &self,
        world: &SceneObjectList,
        x_range: (usize, usize),
        y_range: (usize, usize),
        pixels: &mut Vec<Color3>,
        rng: &mut Sampler,
    )
        requires
            scene_wf(world@),
            x_range.0 <= x_range.1 <= self@.config.image_width,
            y_range.0 <= y_range.1 <= u32::MAX,
            (y_range.1 - y_range.0) * self@.config.image_width <= old(pixels).len(),
        ensures
            final(pixels).len() == old(pixels).len(),
            rendered(
                self@,
                world@,
                x_range.0 as int,
                x_range.1 as int,
                y_range.0 as int,
                y_range.1 as int,
                old(rng)@,
                old(pixels)@,
                final(pixels)@,
            ),
            final(rng)@ == seed_at(
                self@,
                world@,
                x_range.0 as int,
                x_range.1 as int,
                y_range.0 as int,
                (y_range.1 - y_range.0) as nat,
                0,
                old(rng)@,
            ),
    {
        proof {
            reveal(partly_rendered);
        }
        let width = self.image_width as usize;
        let ghost x0 = x_range.0 as int;
        let ghost x1 = x_range.1 as int;
        let ghost y0 = y_range.0 as int;
        let ghost rows = y_range.1 - y_range.0;
        let mut y = y_range.0;
        while y < y_range.1
            invariant
                scene_wf(world@),
                x_range.0 <= x_range.1 <= self.image_width,
                y_range.0 <= y <= y_range.1 <= u32::MAX,
                width == self.image_width,
                x0 == x_range.0,
                x1 == x_range.1,
                y0 == y_range.0,
                rows == y_range.1 - y_range.0,
                rows * width <= pixels.len(),
                pixels.len() == old(pixels).len(),
                rng@ == seed_at(self@, world@, x0, x1, y0, (y - y0) as nat, 0, old(rng)@),
                partly_rendered(
                    self@,
                    world@,
                    x0,
                    x1,
                    y0,
                    y - y0,
                    0,
                    old(rng)@,
                    old(pixels)@,
                    pixels@,
                ),
            decreases y_range.1 - y,
        {
            let mut x = x_range.0;
            while x < x_range.1
                invariant
                    scene_wf(world@),
                    x_range.0 <= x <= x_range.1 <= self.image_width,
                    y_range.0 <= y < y_range.1 <= u32::MAX,
                    width == self.image_width,
                    x0 == x_range.0,
                    x1 == x_range.1,
                    y0 == y_range.0,
                    rows == y_range.1 - y_range.0,
                    rows * width <= pixels.len(),
                    pixels.len() == old(pixels).len(),
                    rng@ == seed_at(
                        self@,
                        world@,
                        x0,
                        x1,
                        y0,
                        (y - y0) as nat,
                        (x - x0) as nat,
                        old(rng)@,
                    ),
                    partly_rendered(
                        self@,
                        world@,
                        x0,
                        x1,
                        y0,
                        y - y0,
                        x - x0,
                        old(rng)@,
                        old(pixels)@,
                        pixels@,
                    ),
                decreases x_range.1 - x,
            {
                let ghost earlier = pixels@;
                let color = self.render_pixel(world, x as u32, y as u32, rng);
                let local_y = y - y_range.0;
                proof {
                    lemma_pixel_index(local_y as int, x as int, width as int, rows);
                    lemma_render_step(
                        self@,
                        world@,
                        x0,
                        x1,
                        y0,
                        y - y0,
                        x - x0,
                        old(rng)@,
                        old(pixels)@,
                        earlier,
                        color,
                    );
                }
                let index = local_y * width + x;
                pixels.set(index, color);
                x += 1;
            }
            proof {
                lemma_render_row(
                    self@,
                    world@,
                    x0,
                    x1,
                    y0,
                    y - y0,
                    old(rng)@,
                    old(pixels)@,
                    pixels@,
                );
            }
            y += 1;
        }
    }

    /// The colour of pixel `(x, y)`: the mean of its samples, gamma
    /// corrected.
    pub fn render_pixel(&self, world: &SceneObjectList, x: u32, y: u32, rng: &mut Sampler) -> (r:
        Color3)
        requires
            scene_wf(world@),
        ensures
            r@ == pixel_color(self@, world@, x as int, y as int, old(rng)@).0,
            final(rng)@ == pixel_color(self@, world@, x as int, y as int, old(rng)@).1,
    {
        proof {
            reveal(pixel_color);
            use_type_invariant(self);
        }
        let mut sum: (i64, i64, i64) = (0, 0, 0);
        let mut sample: u32 = 0;
        while sample < self.samples_per_pixel
            invariant
                scene_wf(world@),
                sample <= self.samples_per_pixel,
                (V3 { x: sum.0 as int, y: sum.1 as int, z: sum.2 as int }, rng@) == sample_sum(
                    self@,
                    world@,
                    x as int,
                    y as int,
                    sample as nat,
                    old(rng)@,
                ),
                -1_000_000_000 * sample <= sum.0 <= 1_000_000_000 * sample,
                -1_000_000_000 * sample <= sum.1 <= 1_000_000_000 * sample,
                -1_000_000_000 * sample <= sum.2 <= 1_000_000_000 * sample,
            decreases self.samples_per_pixel - sample,
        {
            let ray = self.get_ray(x, y, rng);
            let color = self.ray_color(&ray, self.max_depth, world, rng);
            sum = (
                sum.0 + color.x.raw() as i64,
                sum.1 + color.y.raw() as i64,
                sum.2 + color.z.raw() as i64,
            );
            sample += 1;
        }

        let n = self.samples_per_pixel as i128;
        let mean = Color3::new(
            Fixed::saturating(wide_rdiv(sum.0 as i128, n)),
            Fixed::saturating(wide_rdiv(sum.1 as i128, n)),
            Fixed::saturating(wide_rdiv(sum.2 as i128, n)),
        );
        Color3::new(mean.x.sqrt(), mean.y.sqrt(), mean.z.sqrt())
    }

    /// The ray for one sample of pixel `(i, j)`.
    #[inline]
    pub fn get_ray(&self, i: u32, j: u32, rng: &mut Sampler) -> (r: Ray)
        ensures
            r@ == sample_ray(self@, i as int, j as int, old(rng)@).0,
            final(rng)@ == sample_ray(self@, i as int, j as int, old(rng)@).1,
    {
        proof {
            use_type_invariant(self);
            reveal(sample_ray);
        }
        let dx = random_f32(rng).raw() as i64 - 50_000;
        let dy = random_f32(rng).raw() as i64 - 50_000;
        let right = self.viewport_u.stepped(i as i64 * 100_000 + dx, self.image_width);
        let down = self.viewport_v.stepped(j as i64 * 100_000 + dy, self.image_height);
        let pixel_sample = self.pixel00_origin + right + down;
        let origin = if self.defocus_angle.raw() > 0 {
            self.defocus_disk_sample(rng)
        } else {
            self.center
        };
        let direction = pixel_sample - origin;

        Ray::new(origin, direction)
    }

    /// A point of the defocus disk.
    #[inline]
    pub fn defocus_disk_sample(&self, rng: &mut Sampler) -> (r: Point3)
        ensures
            r@ == defocus_sample(self@, old(rng)@).0,
            final(rng)@ == defocus_sample(self@, old(rng)@).1,
    {
        let p = Vec3::random_in_unit_disk(rng);
        self.center + (self.defocus_disk_u * p.x) + (self.defocus_disk_v * p.y)
    }

    /// The colour of the sky in a direction.
    pub fn sky_color(direction: Vec3) -> (r: Color3)
        ensures
            r@ == sky_color(direction@),
            50_000 <= r@.x <= 100_000,
            70_000 <= r@.y <= 100_000,
            r@.z == 100_000,
    {
        proof {
            lemma_sky_on_gradient(direction@);
        }
        let unit_vector = Vec3::unit(direction);
        let half = Fixed::half();
        let a = half * (unit_vector.y + Fixed::one());
        let white = Color3::new(Fixed::one(), Fixed::one(), Fixed::one());
        let blue = Color3::new(
            Fixed::saturating(50_000),
            Fixed::saturating(70_000),
            Fixed::one(),
        );
        white * (Fixed::one() - a) + blue * a
    }

    /// The colour that `initial_ray` brings to the camera, following it
    /// for at most `depth` bounces.
    pub fn ray_color(
        &self,
        initial_ray: &Ray,
        depth: u32,
        world: &SceneObjectList,
        rng: &mut Sampler,
    ) -> (r: Color3)
        requires
            scene_wf(world@),
        ensures
            r@ == ray_color_of(world@, initial_ray@, depth as nat, old(rng)@).0,
            final(rng)@ == ray_color_of(world@, initial_ray@, depth as nat, old(rng)@).1,
    {
        proof {
            reveal(gathered);
        }
        let mut current_ray = *initial_ray;
        let mut color = Color3::new(Fixed::one(), Fixed::one(), Fixed::one());
        let mut bounce: u32 = 0;
        while bounce < depth
            invariant
                bounce <= depth,
                scene_wf(world@),
                ray_color_of(world@, initial_ray@, depth as nat, old(rng)@) == gathered(
                    world@,
                    current_ray@,
                    (depth - bounce) as nat,
                    color@,
                    rng@,
                ),
            decreases depth - bounce,
        {
            proof {
                reveal(gathered);
            }
            let search = Interval::new(Fixed::saturating(T_MIN_RAW as i128), infinity());
            match world.hit(&current_ray, search) {
                Some(hit_rec) => {
                    proof {
                        lemma_hit_material_wf(world@, current_ray@, T_MIN_RAW as int, LIMIT as int);
                    }
                    match hit_rec.material.scatter(&current_ray, &hit_rec, rng) {
                        Some((attenuation, scattered)) => {
                            color = color * attenuation;
                            current_ray = scattered;
                        },
                        None => {
                            return Color3::new(Fixed::zero(), Fixed::zero(), Fixed::zero());
                        },
                    }
                },
                None => {
                    return color * Camera::sky_color(current_ray.direction());
                },
            }
            bounce += 1;
        }

        Color3::new(Fixed::zero(), Fixed::zero(), Fixed::zero())
    }
}

/// The basis vectors `w` and `u` of an accepted configuration have unit
/// length up to rounding: their squared lengths are at least `1 - 0.00003`
/// and exceed `1 + 0.00003` by at most twice the reciprocal of the length,
/// in raw units, of the vector that was normalised.
pub proof fn lemma_basis_unit(c: CameraConfig)
    requires
        config_error(c) is None,
    ensures
        dot_exact(basis_w(c), basis_w(c)) >= 9_999_700_000,
        dot_exact(basis_u(c), basis_u(c)) >= 9_999_700_000,
        isqrt(
            dot_exact(v3_sub(c.camera_position, c.lookat), v3_sub(c.camera_position, c.lookat)),
        ) * (dot_exact(basis_w(c), basis_w(c)) - 10_000_300_001) <= 20_000_000_000,
        isqrt(
            dot_exact(v3_cross(c.upvector, basis_w(c)), v3_cross(c.upvector, basis_w(c))),
        ) * (dot_exact(basis_u(c), basis_u(c)) - 10_000_300_001) <= 20_000_000_000,
{
    let toward = v3_sub(c.camera_position, c.lookat);
    let right = v3_cross(c.upvector, basis_w(c));
    lemma_unit_of_nonzero(toward);
    lemma_unit_of_nonzero(right);
    lemma_unit_length(toward);
    lemma_unit_length(right);
}

/// The colour of the sky lies on the gradient from white to the blue of
/// the zenith, whatever the direction.
pub proof fn lemma_sky_on_gradient(direction: V3)
    ensures
        50_000 <= sky_color(direction).x <= 100_000,
        70_000 <= sky_color(direction).y <= 100_000,
        sky_color(direction).z == 100_000,
{
    lemma_unit_bounded(direction);
    let y = v3_unit(direction).y;
    let m = y + 100_000;
    assert(magnitude(SCALE as int) / 2 == 50_000);
    assert((SCALE / 2) * fx_add(y, SCALE as int) == 50_000 * m);
    let a = fx_mul(SCALE / 2, fx_add(y, SCALE as int));
    assert(a == (50_000 * m + 50_000) / 100_000);
    assert(0 <= a <= 100_000);
    lemma_fx_mul_one(100_000 - a);
    lemma_fx_mul_one(a);
    assert(50_000 * a >= 0 && 70_000 * a >= 0);
    assert(fx_mul(50_000, a) == (50_000 * a + 50_000) / 100_000);
    assert(fx_mul(70_000, a) == (70_000 * a + 50_000) / 100_000);
}

/// A ray that hits nothing takes the colour of the sky, which depends on
/// the height of its unit direction alone: not on its origin, nor on the
/// seed, which it leaves as it was.
pub proof fn lemma_escaping_ray(world: Seq<ObjectModel>, ray: RayModel, depth: nat, seed: u64)
    requires
        depth >= 1,
        closest_hit(world, ray, T_MIN_RAW as int, LIMIT as int) is None,
    ensures
        ray_color_of(world, ray, depth, seed) == (sky_gradient(v3_unit(ray.direction).y), seed),
{
    reveal(gathered);
    let sky = sky_color(ray.direction);
    lemma_sky_on_gradient(ray.direction);
    lemma_fx_mul_one(sky.x);
    lemma_fx_mul_one(sky.y);
    lemma_fx_mul_one(sky.z);
}

/// In an empty scene every ray escapes: its colour is that of the sky.
pub proof fn lemma_empty_scene_ray(ray: RayModel, depth: nat, seed: u64)
    requires
        depth >= 1,
    ensures
        ray_color_of(Seq::<ObjectModel>::empty(), ray, depth, seed) == (
            sky_color(ray.direction),
            seed,
        ),
{
    lemma_escaping_ray(Seq::<ObjectModel>::empty(), ray, depth, seed);
}

/// In an empty scene the sum of `n` samples of a pixel lies between `n`
/// times the blue of the zenith and `n` times white.
pub proof fn lemma_empty_scene_sum(cam: CameraModel, x: int, y: int, n: nat, seed: u64)
    requires
        cam.config.max_depth >= 1,
    ensures
        ({
            let sum = sample_sum(cam, Seq::<ObjectModel>::empty(), x, y, n, seed).0;
            &&& 50_000 * n <= sum.x <= 100_000 * n
            &&& 70_000 * n <= sum.y <= 100_000 * n
            &&& sum.z == 100_000 * n
        }),
    decreases n,
{
    if n > 0 {
        let world = Seq::<ObjectModel>::empty();
        lemma_empty_scene_sum(cam, x, y, (n - 1) as nat, seed);
        let before = sample_sum(cam, world, x, y, (n - 1) as nat, seed);
        let (ray, after) = sample_ray(cam, x, y, before.1);
        lemma_empty_scene_ray(ray, cam.config.max_depth as nat, after);
        lemma_sky_on_gradient(ray.direction);
    }
}

/// Over an empty scene every pixel shows the sky, whatever the number of
/// samples: its blue channel is one, its red and green channels lie
/// between the gamma-corrected blue of the zenith and one.
pub proof fn lemma_empty_scene_pixel(cam: CameraModel, x: int, y: int, seed: u64)
    requires
        cam.config.max_depth >= 1,
        cam.config.samples_per_pixel >= 1,
    ensures
        ({
            let pixel = pixel_color(cam, Seq::<ObjectModel>::empty(), x, y, seed).0;
            &&& 70_710 <= pixel.x <= 100_000
            &&& 83_666 <= pixel.y <= 100_000
            &&& pixel.z == 100_000
        }),
{
    reveal(pixel_color);
    let n = cam.config.samples_per_pixel;
    let sum = sample_sum(cam, Seq::<ObjectModel>::empty(), x, y, n as nat, seed).0;
    lemma_empty_scene_sum(cam, x, y, n as nat, seed);
    lemma_rdiv_multiple(50_000, n);
    lemma_rdiv_multiple(70_000, n);
    lemma_rdiv_multiple(100_000, n);
    assert(n * 50_000 == 50_000 * n && n * 70_000 == 70_000 * n && n * 100_000 == 100_000 * n);
    lemma_rdiv_monotonic(n * 50_000, sum.x, n);
    lemma_rdiv_monotonic(sum.x, n * 100_000, n);
    lemma_rdiv_monotonic(n * 70_000, sum.y, n);
    lemma_rdiv_monotonic(sum.y, n * 100_000, n);
    let mean = v3_over(sum, n);
    assert(50_000 <= mean.x <= 100_000 && 70_000 <= mean.y <= 100_000 && mean.z == 100_000);
    assert(70_710int * 70_710 <= 5_000_000_000 < 70_711int * 70_711);
    assert(83_666int * 83_666 <= 7_000_000_000 < 83_667int * 83_667);
    assert(100_000int * 100_000 == 10_000_000_000 < 100_001int * 100_001);
    lemma_isqrt_unique(5_000_000_000, 70_710);
    lemma_isqrt_unique(7_000_000_000, 83_666);
    lemma_isqrt_unique(10_000_000_000, 100_000);
    lemma_isqrt_monotonic(5_000_000_000, mean.x * 100_000);
    lemma_isqrt_monotonic(mean.x * 100_000, 10_000_000_000);
    lemma_isqrt_monotonic(7_000_000_000, mean.y * 100_000);
    lemma_isqrt_monotonic(mean.y * 100_000, 10_000_000_000);
}

/// With no bounce allowed, a ray brings nothing.
pub proof fn lemma_no_bounce(world: Seq<ObjectModel>, ray: RayModel, seed: u64)
    ensures
        ray_color_of(world, ray, 0, seed) == (zero3(), seed),
{
    reveal(gathered);
}

/// Rendering is a function of the camera, the scene, the tile, the seed
/// and the buffer: two renders of the same tile from the same seed into
/// equal buffers give equal buffers.
pub proof fn lemma_render_deterministic(
    cam: CameraModel,
    world: Seq<ObjectModel>,
    x0: int,
    x1: int,
    y0: int,
    y1: int,
    seed: u64,
    before: Seq<Vec3>,
    first: Seq<Vec3>,
    second: Seq<Vec3>,
)
    requires
        rendered(cam, world, x0, x1, y0, y1, seed, before, first),
        rendered(cam, world, x0, x1, y0, y1, seed, before, second),
    ensures
        first == second,
{
    reveal(partly_rendered);
    assert forall|k: int| 0 <= k < first.len() implies first[k] == second[k] by {
        if written(k, cam.config.image_width, x0, x1, y1 - y0, 0) {
            Vec3::lemma_view_injective(first[k], second[k]);
        }
    }
    assert(first =~= second);
}

/// After a render, the pixel in row `row` and column `x0 + col` of the tile
/// stands at `row * width + x0 + col`.
pub proof fn lemma_rendered_pixel(
    cam: CameraModel,
    world: Seq<ObjectModel>,
    x0: int,
    x1: int,
    y0: int,
    y1: int,
    seed: u64,
    before: Seq<Vec3>,
    after: Seq<Vec3>,
    row: int,
    col: int,
)
    requires
        rendered(cam, world, x0, x1, y0, y1, seed, before, after),
        0 <= x0,
        x1 <= cam.config.image_width,
        (y1 - y0) * cam.config.image_width <= after.len(),
        0 <= row < y1 - y0,
        0 <= col < x1 - x0,
    ensures
        0 <= row * cam.config.image_width + x0 + col < after.len(),
        after[row * cam.config.image_width + x0 + col]@ == tile_pixel(
            cam,
            world,
            x0,
            x1,
            y0,
            row as nat,
            col as nat,
            seed,
        ),
{
    reveal(partly_rendered);
    lemma_pixel_index(row, x0 + col, cam.config.image_width, y1 - y0);
}

/// When every tile of an image is rendered over the full width into a
/// buffer of its own, each from a seed of its own, the buffers laid end to
/// end are the image, top row first and left to right: the pixel in column
/// `x` of row `row` of tile `i` stands at `(tile_start + row) * width + x`.
pub proof fn lemma_image_of_tiles(
    cam: CameraModel,
    world: Seq<ObjectModel>,
    seeds: Seq<u64>,
    blanks: Seq<Seq<Vec3>>,
    buffers: Seq<Vec<Vec3>>,
    i: int,
    row: int,
    x: int,
)
    requires
        cam.image_height >= 0,
        seeds.len() == buffers.len(),
        blanks.len() == buffers.len(),
        tiled(buffers, cam.image_height, cam.config.image_width),
        forall|j: int|
            0 <= j < buffers.len() ==> rendered(
                cam,
                world,
                0,
                cam.config.image_width,
                tile_start(cam.image_height, buffers.len() as int, j),
                tile_end(cam.image_height, buffers.len() as int, j),
                seeds[j],
                blanks[j],
                #[trigger] buffers[j]@,
            ),
        0 <= i < buffers.len(),
        0 <= row < tile_end(cam.image_height, buffers.len() as int, i) - tile_start(
            cam.image_height,
            buffers.len() as int,
            i,
        ),
        0 <= x < cam.config.image_width,
    ensures
        joined(buffers).len() == cam.image_height * cam.config.image_width,
        joined(buffers)[(tile_start(cam.image_height, buffers.len() as int, i) + row)
            * cam.config.image_width + x]@ == tile_pixel(
            cam,
            world,
            0,
            cam.config.image_width,
            tile_start(cam.image_height, buffers.len() as int, i),
            row as nat,
            x as nat,
            seeds[i],
        ),
{
    let tiles = buffers.len() as int;
    let start = tile_start(cam.image_height, tiles, i);
    let end = tile_end(cam.image_height, tiles, i);
    lemma_joined_is_the_image(buffers, cam.image_height, cam.config.image_width, i, row, x);
    assert(buffers[i]@.len() == (end - start) * cam.config.image_width);
    lemma_rendered_pixel(
        cam,
        world,
        0,
        cam.config.image_width,
        start,
        end,
        seeds[i],
        blanks[i],
        buffers[i]@,
        row,
        x,
    );
}

/// The material of a hit is that of a primitive of the scene, so it is well
/// formed if the scene is.
pub proof fn lemma_hit_material_wf(world: Seq<ObjectModel>, ray: RayModel, lo: int, hi: int)
    requires
        scene_wf(world),
    ensures
        closest_hit(world, ray, lo, hi) matches Some(h) ==> crate::world::material::material_wf(
            h.material,
        ),
    decreases world.len(),
{
    if world.len() > 0 {
        lemma_hit_material_wf(world.drop_last(), ray, lo, hi);
        assert(crate::world::scene_object::object_wf(world[world.len() - 1]));
    }
}

} // verus!
