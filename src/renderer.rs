use vstd::prelude::*;

use crate::vector::Vec3;

verus! {

/// A `width` by `height` buffer of color triples, row by row, three
/// components per pixel.
pub struct Image<T> {
    pub width: usize,
    pub height: usize,
    pub data: Vec<T>,
}

impl<T: Copy> Image<T> {
    /// An image whose every component is `zero`.
    pub fn new(width: usize, height: usize, zero: T) -> (r: Self)
        requires
            3 * width * height <= usize::MAX,
        ensures
            r.width == width,
            r.height == height,
            r.data@ == Seq::new((3 * width * height) as nat, |k: int| zero),
    {
        assert(width * height <= 3 * width * height) by (nonlinear_arith);
        assert(3 * (width * height) == 3 * width * height) by (nonlinear_arith);
        let n: usize = 3 * (width * height);
        let mut data: Vec<T> = Vec::new();
        let mut k: usize = 0;
        while k < n
            invariant
                k <= n,
                data@ == Seq::new(k as nat, |m: int| zero),
            decreases n - k,
        {
            data.push(zero);
            k = k + 1;
            assert(data@ =~= Seq::new(k as nat, |m: int| zero));
        }
        Image { width, height, data }
    }
}

/// The settings of a renderer: the pixel rectangle `[x0, x1) x [y0, y1)`
/// that it renders out of a virtual frame of `width` by `height` pixels, the
/// samples taken per pixel, the bounces allowed per path and whether samples
/// are jittered within their pixel.
pub struct RendererView {
    pub x0: nat,
    pub x1: nat,
    pub y0: nat,
    pub y1: nat,
    pub width: nat,
    pub height: nat,
    pub sampling: nat,
    pub reflections: nat,
    pub antialiasing: bool,
}

pub struct Renderer {
    x0: usize,
    x1: usize,
    y0: usize,
    y1: usize,
    width: usize,
    height: usize,
    sampling: usize,
    reflections: usize,
    antialiasing: bool,
}

impl View for Renderer {
    type V = RendererView;

    closed spec fn view(&self) -> RendererView {
        RendererView {
            x0: self.x0 as nat,
            x1: self.x1 as nat,
            y0: self.y0 as nat,
            y1: self.y1 as nat,
            width: self.width as nat,
            height: self.height as nat,
            sampling: self.sampling as nat,
            reflections: self.reflections as nat,
            antialiasing: self.antialiasing,
        }
    }
}

/// The number of samples taken per pixel: the requested count, at least one.
pub open spec fn samples_of(sampling: nat) -> nat {
    if sampling == 0 {
        1
    } else {
        sampling
    }
}

/// The number of distinct rays traced per pixel: one per sample when samples
/// are jittered, else one ray that every sample reuses.
pub open spec fn rays_of(sampling: nat, antialiasing: bool) -> nat {
    if antialiasing {
        samples_of(sampling)
    } else {
        1
    }
}

/// The color triple of pixel `m` (counted row by row) in an image's buffer.
pub open spec fn pixel_of<T>(data: Seq<T>, m: int) -> Seq<T> {
    data.subrange(3 * m, 3 * m + 3)
}

/// `pixel` may give the color triple `color` for the pixel at column `x`
/// and row `y`.
pub open spec fn gives_color<T, F: Fn(usize, usize) -> Vec3<T>>(
    pixel: F,
    x: usize,
    y: usize,
    color: Seq<T>,
) -> bool {
    exists|c: Vec3<T>| #[trigger] pixel.ensures((x, y), c) && c.data@ == color
}

/// `rays` may all be rays that `ray_of` gives through pixel `(x, y)`, and
/// `colors` the colors that `color_of` gives along them: sample `s` along
/// ray `s` when each sample has a ray of its own, else along the first.
pub open spec fn traced<R, C, G: Fn(usize, usize) -> R, S: Fn(R) -> C>(
    ray_of: G,
    color_of: S,
    x: usize,
    y: usize,
    own_rays: bool,
    rays: Seq<R>,
    colors: Seq<C>,
) -> bool {
    &&& forall|k: int| 0 <= k < rays.len() ==> ray_of.ensures((x, y), #[trigger] rays[k])
    &&& forall|s: int|
        0 <= s < colors.len() ==> color_of.ensures(
            (rays[if own_rays {
                s
            } else {
                0
            }],),
            #[trigger] colors[s],
        )
}

impl Renderer {
    /// A renderer of the rectangle `[x0, x1) x [y0, y1)` of a `width` by
    /// `height` frame, taking `sampling` samples per pixel (at least one),
    /// letting each path bounce `reflections` times, jittering samples when
    /// `antialiasing` is set.
    pub fn new(
        x0: usize,
        x1: usize,
        y0: usize,
        y1: usize,
        width: usize,
        height: usize,
        sampling: usize,
        reflections: usize,
        antialiasing: bool,
    ) -> (r: Self)
        ensures
            r@ == (RendererView {
                x0: x0 as nat,
                x1: x1 as nat,
                y0: y0 as nat,
                y1: y1 as nat,
                width: width as nat,
                height: height as nat,
                sampling: sampling as nat,
                reflections: reflections as nat,
                antialiasing,
            }),
    {
        Renderer { x0, x1, y0, y1, width, height, sampling, reflections, antialiasing }
    }

    /// The number of samples taken per pixel; a count of zero takes one.
    pub fn sample_count(&self) -> (r: usize)
        ensures
            r == samples_of(self@.sampling),
    {
        if self.sampling == 0 {
            1
        } else {
            self.sampling
        }
    }

    /// The number of distinct rays traced per pixel.
    pub fn ray_count(&self) -> (r: usize)
        ensures
            r == rays_of(self@.sampling, self@.antialiasing),
    {
        if self.antialiasing {
            self.sample_count()
        } else {
            1
        }
    }

    /// The colors of the samples of the pixel at column `x` and row `y`; the
    /// pixel's color is their mean. `ray_of(x, y)` gives a ray through the
    /// pixel and `color_of` the color seen along a ray. With antialiasing each
    /// sample traces a ray of its own; without, every sample traces the one
    /// ray taken first.
    pub fn render_pixel<R: Copy, C, G: Fn(usize, usize) -> R, S: Fn(R) -> C>(
        &self,
        x: usize,
        y: usize,
        ray_of: G,
        color_of: S,
    ) -> (r: Vec<C>)
        requires
            forall|a: usize, b: usize| ray_of.requires((a, b)),
            forall|ray: R| color_of.requires((ray,)),
        ensures
            r@.len() == samples_of(self@.sampling),
            exists|rays: Seq<R>|
                rays.len() == rays_of(self@.sampling, self@.antialiasing) && #[trigger] traced(
                    ray_of,
                    color_of,
                    x,
                    y,
                    self@.antialiasing,
                    rays,
                    r@,
                ),
    {
        let n: usize = self.sample_count();
        let mut colors: Vec<C> = Vec::new();
        let ghost mut rays: Seq<R> = Seq::empty();
        if self.antialiasing {
            let mut s: usize = 0;
            while s < n
                invariant
                    s <= n,
                    n == samples_of(self@.sampling),
                    self@.antialiasing,
                    forall|a: usize, b: usize| ray_of.requires((a, b)),
                    forall|ray: R| color_of.requires((ray,)),
                    colors@.len() == s,
                    rays.len() == s,
                    forall|k: int| 0 <= k < s ==> ray_of.ensures((x, y), #[trigger] rays[k]),
                    forall|k: int|
                        0 <= k < s ==> color_of.ensures((rays[k],), #[trigger] colors@[k]),
                decreases n - s,
            {
                let ray = ray_of(x, y);
                let c = color_of(ray);
                proof {
                    rays = rays.push(ray);
                }
                colors.push(c);
                s = s + 1;
            }
            assert(rays.len() == rays_of(self@.sampling, self@.antialiasing));
            assert(traced(ray_of, color_of, x, y, self@.antialiasing, rays, colors@));
        } else {
            let ray = ray_of(x, y);
            proof {
                rays = seq![ray];
            }
            let mut s: usize = 0;
            while s < n
                invariant
                    s <= n,
                    n == samples_of(self@.sampling),
                    forall|ray: R| color_of.requires((ray,)),
                    rays == seq![ray],
                    colors@.len() == s,
                    forall|k: int| 0 <= k < s ==> color_of.ensures((ray,), #[trigger] colors@[k]),
                decreases n - s,
            {
                let c = color_of(ray);
                colors.push(c);
                s = s + 1;
            }
            assert(rays.len() == rays_of(self@.sampling, self@.antialiasing));
            assert(forall|k: int| 0 <= k < rays.len() ==> ray_of.ensures((x, y), #[trigger] rays[k]));
            assert(traced(ray_of, color_of, x, y, self@.antialiasing, rays, colors@));
        }
        colors
    }

    /// Renders the rectangle `[x0, x1) x [y0, y1)`: `pixel(x, y)` gives the
    /// color of the pixel at column `x` and row `y` of the virtual frame, and
    /// the image holds the colors row by row, its pixel `m` being at column
    /// `x0 + m % w` and row `y0 + m / w` for the rectangle's width `w`.
    pub fn render<T: Copy, F: Fn(usize, usize) -> Vec3<T>>(&self, pixel: F) -> (image: Image<T>)
        requires
            self@.x0 <= self@.x1,
            self@.y0 <= self@.y1,
            3 * (self@.x1 - self@.x0) * (self@.y1 - self@.y0) <= usize::MAX,
            forall|x: usize, y: usize| pixel.requires((x, y)),
        ensures
            image.width == self@.x1 - self@.x0,
            image.height == self@.y1 - self@.y0,
            image.data@.len() == 3 * image.width * image.height,
            forall|m: int|
                0 <= m < image.width * image.height ==> #[trigger] gives_color(
                    pixel,
                    (self@.x0 + m % (image.width as int)) as usize,
                    (self@.y0 + m / (image.width as int)) as usize,
                    pixel_of(image.data@, m),
                ),
    {
        let w: usize = self.x1 - self.x0;
        let h: usize = self.y1 - self.y0;
        assert(w * h <= 3 * w * h) by (nonlinear_arith);
        assert(3 * (w * h) == 3 * w * h) by (nonlinear_arith);
        let n: usize = w * h;
        let mut data: Vec<T> = Vec::new();
        let ghost mut colors: Seq<Vec3<T>> = Seq::empty();
        let mut m: usize = 0;
        while m < n
            invariant
                m <= n,
                n == w * h,
                3 * n <= usize::MAX,
                w == self@.x1 - self@.x0,
                h == self@.y1 - self@.y0,
                self@.x0 <= self@.x1,
                self@.y0 <= self@.y1,
                forall|x: usize, y: usize| pixel.requires((x, y)),
                data@.len() == 3 * m,
                colors.len() == m,
                forall|k: int|
                    0 <= k < m ==> pixel.ensures(
                        (
                            (self@.x0 + k % (w as int)) as usize,
                            (self@.y0 + k / (w as int)) as usize,
                        ),
                        #[trigger] colors[k],
                    ) && pixel_of(data@, k) == colors[k].data@,
            decreases n - m,
        {
            let i: usize = m % w;
            let j: usize = m / w;
            assert(j < h) by (nonlinear_arith)
                requires
                    m < n,
                    n == w * h,
                    j == m / w,
                    w > 0,
            ;
            let c = pixel(self.x0 + i, self.y0 + j);
            let d = c.get_data();
            let ghost before = data@;
            data.push(d[0]);
            data.push(d[1]);
            data.push(d[2]);
            proof {
                colors = colors.push(c);
                assert forall|k: int| 0 <= k < m + 1 implies pixel_of(data@, k)
                    == colors[k].data@ by {
                    if k < m {
                        assert(pixel_of(data@, k) =~= pixel_of(before, k));
                    } else {
                        assert(pixel_of(data@, k) =~= c.data@);
                    }
                }
            }
            m = m + 1;
        }
        let image = Image { width: w, height: h, data };
        assert forall|k: int| 0 <= k < image.width * image.height implies #[trigger] gives_color(
            pixel,
            (self@.x0 + k % (w as int)) as usize,
            (self@.y0 + k / (w as int)) as usize,
            pixel_of(image.data@, k),
        ) by {
            let c = colors[k];
            assert(pixel.ensures(
                ((self@.x0 + k % (w as int)) as usize, (self@.y0 + k / (w as int)) as usize),
                c,
            ));
        }
        image
    }

    /// The rendered rectangle as `(x0, x1, y0, y1)`.
    pub fn bounds(&self) -> (r: (usize, usize, usize, usize))
        ensures
            r == (self@.x0 as usize, self@.x1 as usize, self@.y0 as usize, self@.y1 as usize),
    {
        (self.x0, self.x1, self.y0, self.y1)
    }

    pub fn antialiasing(&self) -> (r: bool)
        ensures
            r == self@.antialiasing,
    {
        self.antialiasing
    }

    pub fn reflections(&self) -> (r: usize)
        ensures
            r == self@.reflections,
    {
        self.reflections
    }

    pub fn width(&self) -> (r: usize)
        ensures
            r == self@.width,
    {
        self.width
    }

    pub fn height(&self) -> (r: usize)
        ensures
            r == self@.height,
    {
        self.height
    }
}

} // verus!
