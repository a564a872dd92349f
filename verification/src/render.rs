//! Rendering: from a camera and a scene to the bytes of an image.
use crate::camera::{Camera, CameraModel};
use crate::color::{pixel_bytes, write_color};
use crate::fixed::{ONE, div_trunc, lemma_tdiv, tdiv};
use crate::hittable::Hittable;
use crate::hittable_list::HittableList;
use crate::integrator::{lemma_ray_color_bounded, ray_color, ray_color_spec};
use crate::material::is_albedo;
use crate::random::{MAX_TRIES, RandomStream, disk_sample, fraction, step};
use crate::vec3::{Color, V3, Vec3};
use vstd::prelude::*;

verus! {

/// The size of an image and the effort spent on each of its pixels.
#[derive(Clone, Copy, Debug, PartialEq, Eq, Structural)]
pub struct Film {
    pub image_width: i32,
    pub image_height: i32,
    pub samples_per_pixel: i32,
    pub max_depth: i32,
}

/// The place on the screen, from 0 to `ONE`, of the pixel `index` of
/// `extent` pixels, moved by `jitter` of a pixel. A screen of a single
/// pixel has only the place 0.
pub open spec fn screen_coordinate(index: int, jitter: int, extent: int) -> int {
    if extent > 1 {
        tdiv(index * ONE + jitter, extent - 1)
    } else {
        0
    }
}

/// One sample of the pixel in column `i` and row `j`, rows counted from
/// the bottom: the colour along the camera ray through a random place of
/// the pixel, from a random point of the lens; black if the camera has no
/// valid ray there. Paired with the state the stream is left in.
#[verifier::opaque]
pub open spec fn sample_spec(
    cam: CameraModel,
    world: Seq<Hittable>,
    film: Film,
    i: int,
    j: int,
    state: u64,
) -> (V3, u64) {
    let s1 = step(state);
    let s2 = step(s1);
    let (lens, s3) = disk_sample(s2, MAX_TRIES as nat);
    let r = cam.ray(
        screen_coordinate(i, fraction(s1), film.image_width as int),
        screen_coordinate(j, fraction(s2), film.image_height as int),
        lens,
    );
    if r.valid() {
        ray_color_spec(r, world, film.max_depth as int, s3)
    } else {
        (V3::zero(), s3)
    }
}

/// The sum of the first `n` samples of a pixel.
pub open spec fn pixel_spec(
    cam: CameraModel,
    world: Seq<Hittable>,
    film: Film,
    i: int,
    j: int,
    n: int,
    state: u64,
) -> (V3, u64)
    decreases n,
{
    if n <= 0 {
        (V3::zero(), state)
    } else {
        let (sum, s1) = pixel_spec(cam, world, film, i, j, n - 1, state);
        let (c, s2) = sample_spec(cam, world, film, i, j, s1);
        (sum.plus(c), s2)
    }
}

/// The bytes of the first `n` pixels of row `j`, from the left.
pub open spec fn row_spec(
    cam: CameraModel,
    world: Seq<Hittable>,
    film: Film,
    j: int,
    n: int,
    state: u64,
) -> (Seq<u8>, u64)
    decreases n,
{
    if n <= 0 {
        (Seq::empty(), state)
    } else {
        let (bytes, s1) = row_spec(cam, world, film, j, n - 1, state);
        let (sum, s2) = pixel_spec(cam, world, film, n - 1, j, film.samples_per_pixel as int, s1);
        (bytes + pixel_bytes(sum, film.samples_per_pixel as int), s2)
    }
}

/// The bytes of the first `m` rows of the image, the top row first.
pub open spec fn rows_spec(
    cam: CameraModel,
    world: Seq<Hittable>,
    film: Film,
    m: int,
    state: u64,
) -> (Seq<u8>, u64)
    decreases m,
{
    if m <= 0 {
        (Seq::empty(), state)
    } else {
        let (bytes, s1) = rows_spec(cam, world, film, m - 1, state);
        let (row, s2) = row_spec(cam, world, film, film.image_height - m, film.image_width as int, s1);
        (bytes + row, s2)
    }
}

/// The bytes of the whole image.
pub open spec fn picture(cam: CameraModel, world: Seq<Hittable>, film: Film, seed: u64) -> Seq<u8> {
    rows_spec(cam, world, film, film.image_height as int, seed).0
}

/// A row of `n` pixels takes three bytes a pixel.
pub proof fn lemma_row_len(
    cam: CameraModel,
    world: Seq<Hittable>,
    film: Film,
    j: int,
    n: int,
    state: u64,
)
    ensures
        row_spec(cam, world, film, j, n, state).0.len() == if n > 0 {
            3 * n
        } else {
            0
        },
    decreases n,
{
    if n > 0 {
        lemma_row_len(cam, world, film, j, n - 1, state);
    }
}

/// A picture takes three bytes a pixel: three times its width times its
/// height, and nothing if either is not positive.
pub proof fn lemma_rows_len(
    cam: CameraModel,
    world: Seq<Hittable>,
    film: Film,
    m: int,
    state: u64,
)
    ensures
        rows_spec(cam, world, film, m, state).0.len() == if m > 0 && film.image_width > 0 {
            3 * film.image_width * m
        } else {
            0
        },
    decreases m,
{
    if m > 0 {
        lemma_rows_len(cam, world, film, m - 1, state);
        let s1 = rows_spec(cam, world, film, m - 1, state).1;
        lemma_row_len(cam, world, film, film.image_height - m, film.image_width as int, s1);
        let w = film.image_width as int;
        assert(3 * w * (m - 1) + 3 * w == 3 * w * m) by (nonlinear_arith);
    }
}

/// The sum of the samples of a pixel is at most their number in every
/// channel.
pub proof fn lemma_pixel_bounded(
    cam: CameraModel,
    world: Seq<Hittable>,
    film: Film,
    i: int,
    j: int,
    n: int,
    state: u64,
)
    requires
        n >= 0,
    ensures
        ({
            let sum = pixel_spec(cam, world, film, i, j, n, state).0;
            &&& 0 <= sum.x <= n * ONE
            &&& 0 <= sum.y <= n * ONE
            &&& 0 <= sum.z <= n * ONE
        }),
    decreases n,
{
    if n > 0 {
        lemma_pixel_bounded(cam, world, film, i, j, n - 1, state);
        let s1 = pixel_spec(cam, world, film, i, j, n - 1, state).1;
        lemma_sample_bounded(cam, world, film, i, j, s1);
    }
}

/// A sample is a reflectance.
pub proof fn lemma_sample_bounded(
    cam: CameraModel,
    world: Seq<Hittable>,
    film: Film,
    i: int,
    j: int,
    state: u64,
)
    ensures
        is_albedo(sample_spec(cam, world, film, i, j, state).0),
{
    reveal(sample_spec);
    let s1 = step(state);
    let s2 = step(s1);
    let (lens, s3) = disk_sample(s2, MAX_TRIES as nat);
    let r = cam.ray(
        screen_coordinate(i, fraction(s1), film.image_width as int),
        screen_coordinate(j, fraction(s2), film.image_height as int),
        lens,
    );
    lemma_ray_color_bounded(r, world, film.max_depth as int, s3);
}

/// Computes [`screen_coordinate`].
pub fn coordinate(index: i32, jitter: i64, extent: i32) -> (c: i64)
    requires
        0 <= jitter < ONE,
    ensures
        c == screen_coordinate(index as int, jitter as int, extent as int),
{
    if extent > 1 {
        proof {
            lemma_tdiv(index * ONE + jitter, extent - 1);
        }
        div_trunc((index as i128) * (ONE as i128) + (jitter as i128), (extent - 1) as i128) as i64
    } else {
        0
    }
}

/// One sample of the pixel in column `i` and row `j`.
pub fn sample(
    cam: &Camera,
    world: &HittableList,
    film: &Film,
    i: i32,
    j: i32,
    rng: &mut RandomStream,
) -> (c: Color)
    ensures
        (c@, final(rng).state) == sample_spec(
            cam@,
            world.objects@,
            *film,
            i as int,
            j as int,
            old(rng).state,
        ),
        is_albedo(c@),
{
    proof {
        reveal(sample_spec);
    }
    let ju = rng.next_fraction();
    let jv = rng.next_fraction();
    let s = coordinate(i, ju, film.image_width);
    let t = coordinate(j, jv, film.image_height);
    match cam.get_ray(s, t, rng) {
        Some(r) => ray_color(&r, world, film.max_depth, rng),
        None => Vec3 { x: 0, y: 0, z: 0 },
    }
}

/// The sum of all samples of the pixel in column `i` and row `j`.
pub fn pixel(
    cam: &Camera,
    world: &HittableList,
    film: &Film,
    i: i32,
    j: i32,
    rng: &mut RandomStream,
) -> (sum: Color)
    ensures
        (sum@, final(rng).state) == pixel_spec(
            cam@,
            world.objects@,
            *film,
            i as int,
            j as int,
            film.samples_per_pixel as int,
            old(rng).state,
        ),
{
    let mut sum = Vec3 { x: 0, y: 0, z: 0 };
    let mut n: i32 = 0;
    while n < film.samples_per_pixel
        invariant
            0 <= n,
            n == 0 || n <= film.samples_per_pixel,
            (sum@, rng.state) == pixel_spec(
                cam@,
                world.objects@,
                *film,
                i as int,
                j as int,
                n as int,
                old(rng).state,
            ),
        decreases film.samples_per_pixel - n,
    {
        proof {
            lemma_pixel_bounded(cam@, world.objects@, *film, i as int, j as int, n as int, old(rng).state);
        }
        let c = sample(cam, world, film, i, j, rng);
        sum = Vec3 { x: sum.x + c.x, y: sum.y + c.y, z: sum.z + c.z };
        n += 1;
    }
    sum
}

/// Renders the image: three bytes a pixel, red, green and blue, the rows
/// from the top down and each row from the left. The random numbers come
/// from one stream that starts from `seed`, so that equal seeds give equal
/// images.
pub fn render(cam: &Camera, world: &HittableList, film: &Film, seed: u64) -> (image: Vec<u8>)
    ensures
        image@ == picture(cam@, world.objects@, *film, seed),
        image@.len() == if film.image_width > 0 && film.image_height > 0 {
            3 * film.image_width * film.image_height
        } else {
            0
        },
{
    proof {
        lemma_rows_len(cam@, world.objects@, *film, film.image_height as int, seed);
    }
    let mut image: Vec<u8> = Vec::new();
    let mut rng = RandomStream::new(seed);
    let mut m: i32 = 0;
    while m < film.image_height
        invariant
            0 <= m,
            m == 0 || m <= film.image_height,
            (image@, rng.state) == rows_spec(cam@, world.objects@, *film, m as int, seed),
        decreases film.image_height - m,
    {
        let j: i32 = film.image_height - 1 - m;
        let ghost before = image@;
        let ghost start = rng.state;
        let mut i: i32 = 0;
        while i < film.image_width
            invariant
                0 <= i,
                i == 0 || i <= film.image_width,
                image@ == before + row_spec(cam@, world.objects@, *film, j as int, i as int, start).0,
                rng.state == row_spec(cam@, world.objects@, *film, j as int, i as int, start).1,
            decreases film.image_width - i,
        {
            let sum = pixel(cam, world, film, i, j, &mut rng);
            write_color(&mut image, sum, film.samples_per_pixel);
            proof {
                let (bytes, s1) = row_spec(cam@, world.objects@, *film, j as int, i as int, start);
                let added = pixel_bytes(sum@, film.samples_per_pixel as int);
                assert((before + bytes) + added =~= before + (bytes + added));
            }
            i += 1;
        }
        proof {
            assert(before + Seq::<u8>::empty() =~= before);
        }
        m += 1;
    }
    image
}

} // verus!
