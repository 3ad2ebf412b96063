//! The canvas and the per-pixel rendering.
//!
//! The canvas enforces a write-once discipline: a cell can only be put when
//! it has not been filled, so any sequence of writes that completes the
//! canvas has written every cell exactly once, and `is_complete` tells a
//! caller that nothing was left at its zero default. `pixel_coords` is the
//! work queue: it enumerates every pixel coordinate exactly once, whatever
//! number of workers ends up draining it. `render` drains it sequentially
//! and fills the whole canvas.

use vstd::prelude::*;
use crate::fx::{SCALE, tdiv, sdiv, fdiv, fsqrt, tdiv128, lemma_tdiv_nonneg};
use crate::ray::{Ray, ray_within};
use crate::util::in_unit_sphere;
use crate::vec3::{Vec3, Color};
use crate::texture::color_ok;
use crate::camera::{Camera, cam_within, camera_ray_spec};
use crate::trace::{Scene, scene_wf, ray_color, radiance_rel, black};
use crate::rng::rand_unit;

verus! {

/// Largest image side and sample count the pixel arithmetic accepts.
pub const RENDER_MAX: usize = 0x1_0000;

pub struct Canvas {
    pub width: usize,
    pub height: usize,
    pub cells: Vec<Color>,
    pub filled: Vec<bool>,
}

pub open spec fn canvas_wf(c: Canvas) -> bool {
    &&& c.width * c.height <= usize::MAX
    &&& c.cells@.len() == c.width * c.height
    &&& c.filled@.len() == c.width * c.height
}

/// The cell index of pixel `(i, j)`: row-major.
pub open spec fn cell_at(width: int, i: int, j: int) -> int {
    j * width + i
}

impl Canvas {
    /// A zeroed canvas with nothing filled yet.
    pub fn new(width: usize, height: usize) -> (r: Canvas)
        requires
            width * height <= usize::MAX,
        ensures
            r.width == width,
            r.height == height,
            canvas_wf(r),
            forall|k: int| 0 <= k < r.filled@.len() ==> !r.filled@[k],
            forall|k: int| 0 <= k < r.cells@.len() ==> r.cells@[k] == (Vec3 { x: 0, y: 0, z: 0 }),
    {
        let n = width * height;
        let mut cells: Vec<Color> = Vec::new();
        let mut filled: Vec<bool> = Vec::new();
        let mut k: usize = 0;
        while k < n
            invariant
                k <= n,
                cells@.len() == k,
                filled@.len() == k,
                forall|t: int| 0 <= t < k ==> !filled@[t],
                forall|t: int| 0 <= t < k ==> cells@[t] == (Vec3 { x: 0, y: 0, z: 0 }),
            decreases n - k,
        {
            cells.push(Vec3 { x: 0, y: 0, z: 0 });
            filled.push(false);
            k = k + 1;
        }
        Canvas { width, height, cells, filled }
    }

    pub fn is_filled(&self, i: usize, j: usize) -> (r: bool)
        requires
            canvas_wf(*self),
            i < self.width,
            j < self.height,
        ensures
            r == self.filled@[cell_at(self.width as int, i as int, j as int)],
    {
        proof {
            lemma_cell_at_in_range(self.width as int, self.height as int, i as int, j as int);
        }
        self.filled[j * self.width + i]
    }

    pub fn get(&self, i: usize, j: usize) -> (c: Color)
        requires
            canvas_wf(*self),
            i < self.width,
            j < self.height,
        ensures
            c == self.cells@[cell_at(self.width as int, i as int, j as int)],
    {
        proof {
            lemma_cell_at_in_range(self.width as int, self.height as int, i as int, j as int);
        }
        self.cells[j * self.width + i]
    }

    /// Write one cell, once: the cell must not have been filled before.
    pub fn put(&mut self, i: usize, j: usize, c: Color)
        requires
            canvas_wf(*old(self)),
            i < old(self).width,
            j < old(self).height,
            !old(self).filled@[cell_at(old(self).width as int, i as int, j as int)],
        ensures
            final(self).width == old(self).width,
            final(self).height == old(self).height,
            canvas_wf(*final(self)),
            final(self).cells@ == old(self).cells@.update(
                cell_at(old(self).width as int, i as int, j as int),
                c,
            ),
            final(self).filled@ == old(self).filled@.update(
                cell_at(old(self).width as int, i as int, j as int),
                true,
            ),
    {
        proof {
            lemma_cell_at_in_range(self.width as int, self.height as int, i as int, j as int);
        }
        let k = j * self.width + i;
        self.cells.set(k, c);
        self.filled.set(k, true);
    }

    /// Whether every cell has been written.
    pub fn is_complete(&self) -> (r: bool)
        requires
            canvas_wf(*self),
        ensures
            r == (forall|k: int| 0 <= k < self.filled@.len() ==> self.filled@[k]),
    {
        let n = self.filled.len();
        let mut k: usize = 0;
        while k < n
            invariant
                k <= n,
                n == self.filled@.len(),
                forall|t: int| 0 <= t < k ==> self.filled@[t],
            decreases n - k,
        {
            if !self.filled[k] {
                return false;
            }
            k = k + 1;
        }
        true
    }
}

/// A pixel's cell index lies inside the canvas.
pub proof fn lemma_cell_at_in_range(width: int, height: int, i: int, j: int)
    requires
        0 <= i < width,
        0 <= j < height,
    ensures
        0 <= cell_at(width, i, j) < width * height,
{
    assert(j * width + i < width * height) by (nonlinear_arith)
        requires
            0 <= i < width,
            0 <= j < height,
    ;
    assert(j * width >= 0) by (nonlinear_arith)
        requires
            j >= 0,
            width > 0,
    ;
}

/// Two distinct pixels never share a cell index.
pub proof fn lemma_cell_at_injective(width: int, x1: int, y1: int, x2: int, y2: int)
    requires
        0 <= x1 < width,
        0 <= x2 < width,
        0 <= y1,
        0 <= y2,
        cell_at(width, x1, y1) == cell_at(width, x2, y2),
    ensures
        x1 == x2 && y1 == y2,
{
    vstd::arithmetic::div_mod::lemma_fundamental_div_mod_converse(
        cell_at(width, x1, y1),
        width,
        y1,
        x1,
    );
    vstd::arithmetic::div_mod::lemma_fundamental_div_mod_converse(
        cell_at(width, x2, y2),
        width,
        y2,
        x2,
    );
}

/// The color stored for pixel `(x, y)` is the truncated average of `samples`
/// traced sample colors of that pixel.
pub open spec fn cell_is_averaged(
    scene: Scene,
    cam: Camera,
    width: int,
    height: int,
    samples: int,
    depth: int,
    x: int,
    y: int,
    c: Color,
) -> bool {
    exists|cs: Seq<Color>|
        all_colors_ok(cs) && all_samples_ok(scene, cam, x, y, width, height, depth, cs)
            && #[trigger] is_average(cs, samples, c)
}

/// Every pixel coordinate of a `width` by `height` image, each exactly once:
/// entry `t` is `(t % width, t / width)`, and distinct entries differ. Any
/// fixed pool of workers draining this queue therefore touches every pixel
/// exactly once among them.
pub fn pixel_coords(width: usize, height: usize) -> (r: Vec<(usize, usize)>)
    requires
        0 < width,
        width * height <= usize::MAX,
    ensures
        r@.len() == width * height,
        forall|t: int|
            0 <= t < r@.len() ==> #[trigger] r@[t] == (
                (t % (width as int)) as usize,
                (t / (width as int)) as usize,
            ),
        forall|t: int|
            0 <= t < r@.len() ==> (#[trigger] r@[t]).0 < width && r@[t].1 < height,
        forall|t1: int, t2: int| 0 <= t1 < t2 < r@.len() ==> #[trigger] r@[t1] != #[trigger] r@[t2],
{
    let n = width * height;
    let mut out: Vec<(usize, usize)> = Vec::new();
    let mut j: usize = 0;
    while j < height
        invariant
            0 < width,
            j <= height,
            n == width * height,
            width * height <= usize::MAX,
            out@.len() == j * width,
            forall|t: int|
                0 <= t < out@.len() ==> #[trigger] out@[t] == (
                    (t % (width as int)) as usize,
                    (t / (width as int)) as usize,
                ),
            forall|t: int|
                0 <= t < out@.len() ==> (#[trigger] out@[t]).0 < width && out@[t].1 < height,
        decreases height - j,
    {
        let mut i: usize = 0;
        proof {
            assert((j + 1) * width <= height * width) by (nonlinear_arith)
                requires
                    j + 1 <= height,
                    width >= 0,
            ;
            assert(height * width == width * height) by (nonlinear_arith);
        }
        while i < width
            invariant
                0 < width,
                j < height,
                i <= width,
                n == width * height,
                (j + 1) * width <= width * height,
                out@.len() == j * width + i,
                forall|t: int|
                    0 <= t < out@.len() ==> #[trigger] out@[t] == (
                        (t % (width as int)) as usize,
                        (t / (width as int)) as usize,
                    ),
                forall|t: int|
                    0 <= t < out@.len() ==> (#[trigger] out@[t]).0 < width && out@[t].1 < height,
            decreases width - i,
        {
            proof {
                assert(j * width + i < (j + 1) * width) by (nonlinear_arith)
                    requires
                        i < width,
                ;
                vstd::arithmetic::div_mod::lemma_fundamental_div_mod_converse(
                    j * width + i,
                    width as int,
                    j as int,
                    i as int,
                );
            }
            out.push((i, j));
            i = i + 1;
        }
        j = j + 1;
        proof {
            assert(((j - 1) + 1) * (width as int) == (j - 1) * (width as int) + width)
                by (nonlinear_arith);
        }
    }
    proof {
        assert((height as int) * (width as int) == (width as int) * (height as int))
            by (nonlinear_arith);
        assert(out@.len() == width * height);
        assert forall|t1: int, t2: int| 0 <= t1 < t2 < out@.len() implies #[trigger] out@[t1]
            != #[trigger] out@[t2] by {
            let w = width as int;
            vstd::arithmetic::div_mod::lemma_fundamental_div_mod(t1, w);
            vstd::arithmetic::div_mod::lemma_fundamental_div_mod(t2, w);
            vstd::arithmetic::div_mod::lemma_mod_bound(t1, w);
            vstd::arithmetic::div_mod::lemma_mod_bound(t2, w);
            vstd::arithmetic::div_mod::lemma_multiply_divide_lt(t1, w, height as int);
            vstd::arithmetic::div_mod::lemma_multiply_divide_lt(t2, w, height as int);
            assert(out@[t1] == ((t1 % w) as usize, (t1 / w) as usize));
            assert(out@[t2] == ((t2 % w) as usize, (t2 / w) as usize));
            if t1 % w == t2 % w && t1 / w == t2 / w {
                assert(t1 == t2);
            }
        }
    }
    out
}

/// The componentwise sum of a sequence of colors, as mathematical integers.
pub open spec fn color_sum(cs: Seq<Color>) -> (int, int, int)
    decreases cs.len(),
{
    if cs.len() == 0 {
        (0int, 0int, 0int)
    } else {
        let rest = color_sum(cs.drop_last());
        (rest.0 + cs.last().x, rest.1 + cs.last().y, rest.2 + cs.last().z)
    }
}

pub open spec fn all_colors_ok(cs: Seq<Color>) -> bool {
    forall|k: int| 0 <= k < cs.len() ==> color_ok(#[trigger] cs[k])
}

/// What one traced ray contributes: its radiance when the ray lies in the
/// numeric domain, black otherwise.
pub open spec fn sample_of_ray(scene: Scene, r: Ray, depth: int, s: Color) -> bool {
    if ray_within(r) {
        radiance_rel(scene, r, depth, s)
    } else {
        s == black()
    }
}

/// `s` is a sample of pixel `(i, j)`: the radiance of the camera ray through
/// the pixel's jittered normalized coordinates, for some jitters, lens disk
/// point and exposure time.
pub open spec fn pixel_sample_ok(
    scene: Scene,
    cam: Camera,
    i: int,
    j: int,
    width: int,
    height: int,
    depth: int,
    s: Color,
) -> bool {
    exists|ju: int, jv: int, d: Vec3, tm: int|
        {
            &&& 0 <= ju < SCALE
            &&& 0 <= jv < SCALE
            &&& in_unit_sphere(d)
            &&& d.z == 0
            &&& cam.time0 <= tm < cam.time1
            &&& sample_of_ray(
                scene,
                #[trigger] camera_ray_spec(
                    cam,
                    sdiv(i * SCALE + ju, (width - 1) * SCALE),
                    sdiv(j * SCALE + jv, (height - 1) * SCALE),
                    d,
                    tm,
                ),
                depth,
                s,
            )
        }
}

/// Every entry of the sample sequence is such a sample.
pub open spec fn all_samples_ok(
    scene: Scene,
    cam: Camera,
    i: int,
    j: int,
    width: int,
    height: int,
    depth: int,
    cs: Seq<Color>,
) -> bool {
    forall|k: int|
        0 <= k < cs.len() ==> pixel_sample_ok(
            scene,
            cam,
            i,
            j,
            width,
            height,
            depth,
            #[trigger] cs[k],
        )
}

/// `c` is the truncated per-component average of the `n` colors of `cs`.
pub open spec fn is_average(cs: Seq<Color>, n: int, c: Color) -> bool {
    let s = color_sum(cs);
    &&& cs.len() == n
    &&& c.x as int == tdiv(s.0, n)
    &&& c.y as int == tdiv(s.1, n)
    &&& c.z as int == tdiv(s.2, n)
}

/// One pixel's color: `samples` jittered rays through the pixel, summed and
/// divided by the sample count before the one write the caller makes. The
/// result is the truncated per-component average of the sample colors, each
/// a unit-interval color a traced camera ray produced (or black, for the
/// vanishingly rare camera ray outside the numeric domain).
#[verifier::rlimit(80)]
pub fn render_pixel(
    scene: &Scene,
    cam: &Camera,
    i: usize,
    j: usize,
    width: usize,
    height: usize,
    samples: usize,
    depth: usize,
    rng: &mut rand::rngs::StdRng,
) -> (c: Color)
    requires
        scene_wf(*scene),
        cam_within(*cam),
        2 <= width <= RENDER_MAX,
        2 <= height <= RENDER_MAX,
        i < width,
        j < height,
        1 <= samples <= RENDER_MAX,
    ensures
        color_ok(c),
        exists|cs: Seq<Color>|
            all_colors_ok(cs) && all_samples_ok(
                *scene,
                *cam,
                i as int,
                j as int,
                width as int,
                height as int,
                depth as int,
                cs,
            ) && #[trigger] is_average(cs, samples as int, c),
{
    let mut sum = Vec3 { x: 0, y: 0, z: 0 };
    let ghost mut cs: Seq<Color> = Seq::empty();
    let mut k: usize = 0;
    while k < samples
        invariant
            scene_wf(*scene),
            cam_within(*cam),
            2 <= width <= RENDER_MAX,
            2 <= height <= RENDER_MAX,
            i < width,
            j < height,
            1 <= samples <= RENDER_MAX,
            k <= samples,
            cs.len() == k,
            all_colors_ok(cs),
            all_samples_ok(
                *scene,
                *cam,
                i as int,
                j as int,
                width as int,
                height as int,
                depth as int,
                cs,
            ),
            sum.x == color_sum(cs).0,
            sum.y == color_sum(cs).1,
            sum.z == color_sum(cs).2,
            0 <= sum.x <= k * SCALE,
            0 <= sum.y <= k * SCALE,
            0 <= sum.z <= k * SCALE,
        decreases samples - k,
    {
        let ju = rand_unit(rng);
        let jv = rand_unit(rng);
        let u = pixel_fraction(i, width, ju);
        let v = pixel_fraction(j, height, jv);
        let ray = cam.get_ray(u, v, rng);
        let sample = if ray.in_domain() {
            ray_color(scene, &ray, depth, rng)
        } else {
            // A ray outside the numeric domain contributes nothing.
            Vec3 { x: 0, y: 0, z: 0 }
        };
        proof {
            let (d, tm): (Vec3, int) = choose|d: Vec3, tm: int|
                in_unit_sphere(d) && d.z == 0 && cam.time0 <= tm < cam.time1 && ray
                    == #[trigger] camera_ray_spec(*cam, u as int, v as int, d, tm);
            assert(0 <= ju < SCALE && 0 <= jv < SCALE && in_unit_sphere(d) && d.z == 0
                && cam.time0 <= tm < cam.time1 && sample_of_ray(
                *scene,
                camera_ray_spec(
                    *cam,
                    sdiv(i as int * SCALE + ju, (width - 1) * SCALE),
                    sdiv(j as int * SCALE + jv, (height - 1) * SCALE),
                    d,
                    tm,
                ),
                depth as int,
                sample,
            ));
            assert(pixel_sample_ok(
                *scene,
                *cam,
                i as int,
                j as int,
                width as int,
                height as int,
                depth as int,
                sample,
            ));
        }
        proof {
            assert((k + 1) * (SCALE as int) == k * SCALE + SCALE) by (nonlinear_arith);
            assert(samples * (SCALE as int) <= 0x1_0000_0000_0000int) by (nonlinear_arith)
                requires
                    samples <= 0x1_0000,
                    SCALE == 65536i64,
            ;
            assert(k * (SCALE as int) <= samples * (SCALE as int)) by (nonlinear_arith)
                requires
                    k < samples,
                    SCALE == 65536i64,
            ;
        }
        sum = Vec3 { x: sum.x + sample.x, y: sum.y + sample.y, z: sum.z + sample.z };
        proof {
            assert(cs.push(sample).drop_last() =~= cs);
            assert(cs.push(sample).last() == sample);
            cs = cs.push(sample);
        }
        k = k + 1;
    }
    proof {
        lemma_average_ok(sum.x as int, samples as int);
        lemma_average_ok(sum.y as int, samples as int);
        lemma_average_ok(sum.z as int, samples as int);
    }
    let c = Vec3 {
        x: tdiv128(sum.x as i128, samples as i128) as i64,
        y: tdiv128(sum.y as i128, samples as i128) as i64,
        z: tdiv128(sum.z as i128, samples as i128) as i64,
    };
    proof {
        assert(all_colors_ok(cs) && all_samples_ok(
            *scene,
            *cam,
            i as int,
            j as int,
            width as int,
            height as int,
            depth as int,
            cs,
        ) && is_average(cs, samples as int, c));
    }
    c
}

/// An accumulated sum of `n` unit-interval samples averages back into the
/// unit interval.
proof fn lemma_average_ok(sum: int, n: int)
    requires
        n >= 1,
        0 <= sum <= n * SCALE,
    ensures
        0 <= tdiv(sum, n) <= SCALE,
{
    lemma_tdiv_nonneg(sum, n);
    vstd::arithmetic::div_mod::lemma_div_pos_is_pos(sum, n);
    vstd::arithmetic::div_mod::lemma_div_is_ordered(sum, n * SCALE, n);
    vstd::arithmetic::div_mod::lemma_div_multiples_vanish(SCALE as int, n);
}

/// The normalized image coordinate of pixel `p` of `extent`, jittered inside
/// the pixel: `(p + jitter) / (extent - 1)`.
fn pixel_fraction(p: usize, extent: usize, jitter: i64) -> (r: i64)
    requires
        2 <= extent <= RENDER_MAX,
        p < extent,
        0 <= jitter < SCALE,
    ensures
        0 <= r <= 2 * SCALE,
        r as int == sdiv(p * SCALE + jitter, (extent - 1) * SCALE),
{
    let num = (p as i64) * SCALE + jitter;
    let den = ((extent - 1) as i64) * SCALE;
    proof {
        let s = SCALE as int;
        let numi = num as int;
        let deni = den as int;
        assert(numi >= 0 && deni > 0 && numi <= 2 * deni) by (nonlinear_arith)
            requires
                numi == p * (SCALE as int) + jitter,
                deni == (extent - 1) * (SCALE as int),
                p < extent,
                2 <= extent,
                0 <= jitter < SCALE,
                SCALE == 65536i64,
        ;
        vstd::arithmetic::mul::lemma_mul_nonnegative(numi, s);
        vstd::arithmetic::mul::lemma_mul_inequality(numi, 2 * deni, s);
        lemma_tdiv_nonneg(numi * s, deni);
        vstd::arithmetic::div_mod::lemma_div_pos_is_pos(numi * s, deni);
        lemma_tdiv_nonneg(2 * deni * s, deni);
        crate::fx::lemma_tdiv_ordered(numi * s, 2 * deni * s, deni);
        assert(2 * deni * s == deni * (2 * s)) by (nonlinear_arith);
        vstd::arithmetic::div_mod::lemma_div_multiples_vanish(2 * s, deni);
    }
    fdiv(num, den)
}

/// Render the whole image sequentially: every one of the `width * height`
/// cells is written, each exactly once (the canvas refuses a second write),
/// and each holds the truncated average of its own pixel's traced samples.
pub fn render(
    scene: &Scene,
    cam: &Camera,
    width: usize,
    height: usize,
    samples: usize,
    depth: usize,
    rng: &mut rand::rngs::StdRng,
) -> (canvas: Canvas)
    requires
        scene_wf(*scene),
        cam_within(*cam),
        2 <= width <= RENDER_MAX,
        2 <= height <= RENDER_MAX,
        width * height <= usize::MAX,
        1 <= samples <= RENDER_MAX,
    ensures
        canvas.width == width,
        canvas.height == height,
        canvas_wf(canvas),
        forall|k: int| 0 <= k < canvas.filled@.len() ==> canvas.filled@[k],
        forall|k: int| 0 <= k < canvas.cells@.len() ==> color_ok(#[trigger] canvas.cells@[k]),
        forall|x: int, y: int|
            0 <= x < width && 0 <= y < height ==> cell_is_averaged(
                *scene,
                *cam,
                width as int,
                height as int,
                samples as int,
                depth as int,
                x,
                y,
                canvas.cells@[#[trigger] cell_at(width as int, x, y)],
            ),
{
    let mut canvas = Canvas::new(width, height);
    let mut j: usize = 0;
    while j < height
        invariant
            scene_wf(*scene),
            cam_within(*cam),
            2 <= width <= RENDER_MAX,
            2 <= height <= RENDER_MAX,
            width * height <= usize::MAX,
            1 <= samples <= RENDER_MAX,
            j <= height,
            canvas.width == width,
            canvas.height == height,
            canvas_wf(canvas),
            forall|k: int|
                0 <= k < canvas.filled@.len() ==> (canvas.filled@[k] <==> k < j * width),
            forall|k: int|
                0 <= k < canvas.cells@.len() && k < j * width ==> color_ok(
                    #[trigger] canvas.cells@[k],
                ),
            forall|x: int, y: int|
                0 <= x < width && 0 <= y < height && cell_at(width as int, x, y) < j * width
                    ==> cell_is_averaged(
                    *scene,
                    *cam,
                    width as int,
                    height as int,
                    samples as int,
                    depth as int,
                    x,
                    y,
                    canvas.cells@[#[trigger] cell_at(width as int, x, y)],
                ),
        decreases height - j,
    {
        let mut i: usize = 0;
        while i < width
            invariant
                scene_wf(*scene),
                cam_within(*cam),
                2 <= width <= RENDER_MAX,
                2 <= height <= RENDER_MAX,
                width * height <= usize::MAX,
                1 <= samples <= RENDER_MAX,
                j < height,
                i <= width,
                canvas.width == width,
                canvas.height == height,
                canvas_wf(canvas),
                forall|k: int|
                    0 <= k < canvas.filled@.len() ==> (canvas.filled@[k] <==> k < j * width + i),
                forall|k: int|
                    0 <= k < canvas.cells@.len() && k < j * width + i ==> color_ok(
                        #[trigger] canvas.cells@[k],
                    ),
                forall|x: int, y: int|
                    0 <= x < width && 0 <= y < height && cell_at(width as int, x, y) < j * width
                        + i ==> cell_is_averaged(
                        *scene,
                        *cam,
                        width as int,
                        height as int,
                        samples as int,
                        depth as int,
                        x,
                        y,
                        canvas.cells@[#[trigger] cell_at(width as int, x, y)],
                    ),
            decreases width - i,
        {
            let c = render_pixel(scene, cam, i, j, width, height, samples, depth, rng);
            proof {
                lemma_cell_at_in_range(width as int, height as int, i as int, j as int);
            }
            let ghost before = canvas.cells@;
            canvas.put(i, j, c);
            proof {
                let w = width as int;
                let idx = cell_at(w, i as int, j as int);
                assert(canvas.cells@[idx] == c);
                assert(cell_is_averaged(
                    *scene,
                    *cam,
                    w,
                    height as int,
                    samples as int,
                    depth as int,
                    i as int,
                    j as int,
                    c,
                ));
                assert forall|x: int, y: int|
                    0 <= x < width && 0 <= y < height && cell_at(w, x, y) < j * width + i
                        + 1 implies cell_is_averaged(
                    *scene,
                    *cam,
                    w,
                    height as int,
                    samples as int,
                    depth as int,
                    x,
                    y,
                    canvas.cells@[#[trigger] cell_at(w, x, y)],
                ) by {
                    if cell_at(w, x, y) == idx {
                        lemma_cell_at_injective(w, x, y, i as int, j as int);
                    } else {
                        assert(canvas.cells@[cell_at(w, x, y)] == before[cell_at(w, x, y)]);
                        lemma_cell_at_in_range(w, height as int, x, y);
                    }
                }
            }
            i = i + 1;
        }
        j = j + 1;
        proof {
            assert(((j - 1) + 1) * (width as int) == (j - 1) * (width as int) + width)
                by (nonlinear_arith);
            assert(j * (width as int) == (j - 1) * (width as int) + width) by (nonlinear_arith);
        }
    }
    proof {
        assert(height * (width as int) == (width as int) * (height as int)) by (nonlinear_arith);
        assert forall|x: int, y: int| 0 <= x < width && 0 <= y < height implies cell_is_averaged(
            *scene,
            *cam,
            width as int,
            height as int,
            samples as int,
            depth as int,
            x,
            y,
            canvas.cells@[#[trigger] cell_at(width as int, x, y)],
        ) by {
            lemma_cell_at_in_range(width as int, height as int, x, y);
        }
    }
    canvas
}

/// One channel of the wire format: gamma-encode by square root, scale to 255
/// and truncate.
pub open spec fn gamma8(v: int) -> int {
    tdiv(crate::fx::ssqrt(v) * 255, SCALE as int)
}

/// A linear color as the three integer channels the image format carries.
pub fn color_to_rgb(c: Color) -> (r: (u8, u8, u8))
    requires
        color_ok(c),
    ensures
        r.0 == gamma8(c.x as int),
        r.1 == gamma8(c.y as int),
        r.2 == gamma8(c.z as int),
{
    (channel8(c.x), channel8(c.y), channel8(c.z))
}

fn channel8(v: i64) -> (r: u8)
    requires
        0 <= v <= SCALE,
    ensures
        r == gamma8(v as int),
{
    let e = fsqrt(v);
    proof {
        crate::vec3::lemma_sqrt_floor_unique_converse((v as int) * (SCALE as int), e as int);
        assert(e >= 0);
        lemma_tdiv_nonneg(e * 255, SCALE as int);
        vstd::arithmetic::mul::lemma_mul_nonnegative(e as int, 255);
        vstd::arithmetic::mul::lemma_mul_inequality(e as int, SCALE as int, 255);
        assert((e as int) * 255 == 255 * (e as int)) by (nonlinear_arith);
        assert((SCALE as int) * 255 == 255 * (SCALE as int)) by (nonlinear_arith);
        vstd::arithmetic::div_mod::lemma_div_is_ordered(
            (e as int) * 255,
            (SCALE as int) * 255,
            SCALE as int,
        );
        vstd::arithmetic::div_mod::lemma_div_multiples_vanish(255, SCALE as int);
    }
    (tdiv128((e as i128) * 255, SCALE as i128)) as u8
}

} // verus!
