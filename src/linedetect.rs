//! Perfect two-tone template matching over a grayscale raster.

use vstd::prelude::*;
use crate::staffmatcher::lemma_cell_in_grid;

verus! {

/// A width x height grid of 8-bit luma samples, row-major, origin top-left.
pub struct Raster {
    pub width: u32,
    pub height: u32,
    pub samples: Vec<u8>,
}

impl Raster {
    /// One sample per pixel.
    pub open spec fn wf(&self) -> bool {
        self.samples@.len() == self.width * self.height
    }

    /// A raster over `samples`, which must hold exactly `width * height` values.
    pub fn new(width: u32, height: u32, samples: Vec<u8>) -> (r: Option<Raster>)
        ensures
            (samples@.len() == width * height) <==> r is Some,
            r matches Some(img) ==> img.wf() && img.width == width && img.height == height
                && img.samples@ == samples@,
    {
        proof {
            lemma_u32_product(width, height);
        }
        if samples.len() as u64 == width as u64 * height as u64 {
            Some(Raster { width, height, samples })
        } else {
            None
        }
    }
}

/// The sample at column `x`, row `y`.
pub open spec fn sample(img: Raster, x: int, y: int) -> u8 {
    img.samples@[y * img.width + x]
}

/// One side is ink (below 128) and the other paper (above 128).
pub open spec fn tones_disagree(a: u8, b: u8) -> bool {
    (a > 128 && b < 128) || (a < 128 && b > 128)
}

/// Template cell `(i, j)` agrees with the raster under the window anchored at `(x, y)`.
pub open spec fn cell_agrees(
    img: Raster,
    pw: nat,
    template: Seq<u8>,
    x: int,
    y: int,
    i: int,
    j: int,
) -> bool {
    !tones_disagree(sample(img, x + i, y + j), template[j * pw + i])
}

/// Every cell of the template agrees with the window anchored at `(x, y)`.
pub open spec fn window_matches(
    img: Raster,
    pw: nat,
    ph: nat,
    template: Seq<u8>,
    x: int,
    y: int,
) -> bool {
    forall|i: int, j: int|
        0 <= i < pw && 0 <= j < ph ==> #[trigger] cell_agrees(img, pw, template, x, y, i, j)
}

/// The center pixel of the window anchored at `(x, y)`.
pub open spec fn center(pw: nat, ph: nat, x: int, y: int) -> (u32, u32) {
    ((x + (pw - 1) / 2) as u32, (y + (ph - 1) / 2) as u32)
}

/// Centers of the matching windows of row `y`, anchors from `x` to the last one.
pub open spec fn row_matches(
    img: Raster,
    pw: nat,
    ph: nat,
    template: Seq<u8>,
    x: int,
    y: int,
) -> Seq<(u32, u32)>
    decreases img.width - pw + 1 - x,
{
    if x < 0 || x > img.width - pw {
        seq![]
    } else {
        (if window_matches(img, pw, ph, template, x, y) {
            seq![center(pw, ph, x, y)]
        } else {
            seq![]
        }) + row_matches(img, pw, ph, template, x + 1, y)
    }
}

/// Centers of the matching windows of the anchor rows from `y` to the last one.
pub open spec fn matches_from_row(
    img: Raster,
    pw: nat,
    ph: nat,
    template: Seq<u8>,
    y: int,
) -> Seq<(u32, u32)>
    decreases img.height - ph + 1 - y,
{
    if y < 0 || y > img.height - ph {
        seq![]
    } else {
        row_matches(img, pw, ph, template, 0, y) + matches_from_row(img, pw, ph, template, y + 1)
    }
}

/// Centers of all windows that match the template perfectly, anchors in
/// row-major order.
pub open spec fn all_matches(img: Raster, pw: nat, ph: nat, template: Seq<u8>) -> Seq<(u32, u32)> {
    matches_from_row(img, pw, ph, template, 0)
}

/// A template to look for.
pub enum Pattern {
    /// Width, height and the row-major tone values of the template.
    Staff(u32, u32, Vec<u8>),
}

/// The pattern holds `width * height` tones, both sides are odd, and it is
/// narrower and lower than the raster.
pub open spec fn pattern_fits(pattern: Pattern, img: Raster) -> bool {
    match pattern {
        Pattern::Staff(w, h, v) => {
            &&& v@.len() == w * h
            &&& w % 2 == 1
            &&& h % 2 == 1
            &&& w < img.width
            &&& h < img.height
        },
    }
}

impl Pattern {
    /// Whether the pattern can be matched over `image`.
    pub fn fits(&self, image: &Raster) -> (r: bool)
        ensures
            r == pattern_fits(*self, *image),
    {
        match self {
            Pattern::Staff(w, h, v) => {
                proof {
                    lemma_u32_product(*w, *h);
                }
                v.len() as u64 == *w as u64 * *h as u64 && *w % 2 == 1 && *h % 2 == 1 && *w
                    < image.width && *h < image.height
            },
        }
    }
}

enum MatchingMode {
    Perfect,
}

/// A template bound to the raster it is matched over.
pub struct ImgPatternMatcher<'a> {
    pattern_width: u32,
    pattern_height: u32,
    pattern_vec: Vec<u8>,
    image: &'a Raster,
    matching_mode: MatchingMode,
}

impl<'a> ImgPatternMatcher<'a> {
    /// The raster is well formed and the template fits it.
    pub closed spec fn wf(&self) -> bool {
        &&& self.image.wf()
        &&& pattern_fits(
            Pattern::Staff(self.pattern_width, self.pattern_height, self.pattern_vec),
            *self.image,
        )
    }

    /// The raster matched over.
    pub closed spec fn raster(&self) -> Raster {
        *self.image
    }

    /// Width, height and tones of the template.
    pub closed spec fn template(&self) -> (nat, nat, Seq<u8>) {
        (self.pattern_width as nat, self.pattern_height as nat, self.pattern_vec@)
    }

    /// Centers of all perfectly matching windows, in scan order.
    pub closed spec fn matches(&self) -> Seq<(u32, u32)> {
        all_matches(
            *self.image,
            self.pattern_width as nat,
            self.pattern_height as nat,
            self.pattern_vec@,
        )
    }

    /// Binds `pattern` to `image`; the pattern must fit the raster.
    pub fn new(image: &'a Raster, pattern: Pattern) -> (r: ImgPatternMatcher<'a>)
        requires
            image.wf(),
            pattern_fits(pattern, *image),
        ensures
            r.wf(),
            r.raster() == *image,
            pattern matches Pattern::Staff(w, h, v) && r.template() == (w as nat, h as nat, v@),
            r.matches() == (match pattern {
                Pattern::Staff(w, h, v) => all_matches(*image, w as nat, h as nat, v@),
            }),
    {
        match pattern {
            Pattern::Staff(w, h, vec) => ImgPatternMatcher {
                pattern_width: w,
                pattern_height: h,
                pattern_vec: vec,
                image,
                matching_mode: MatchingMode::Perfect,
            },
        }
    }

    /// Whether the window anchored at `(x, y)` matches the template.
    fn window_matches_at(&self, x: u32, y: u32) -> (r: bool)
        requires
            self.wf(),
            x <= self.image.width - self.pattern_width,
            y <= self.image.height - self.pattern_height,
        ensures
            r == window_matches(
                *self.image,
                self.pattern_width as nat,
                self.pattern_height as nat,
                self.pattern_vec@,
                x as int,
                y as int,
            ),
    {
        let ghost img = *self.image;
        let ghost pw = self.pattern_width as nat;
        let ghost tmpl = self.pattern_vec@;
        let iw: usize = self.image.width as usize;
        let ih: usize = self.image.height as usize;
        let w: usize = self.pattern_width as usize;
        let h: usize = self.pattern_height as usize;
        let n_samples: usize = self.image.samples.len();
        let n_tones: usize = self.pattern_vec.len();
        let mut j: usize = 0;
        while j < h
            invariant
                self.wf(),
                img == *self.image,
                pw == w,
                tmpl == self.pattern_vec@,
                iw == img.width,
                ih == img.height,
                w == self.pattern_width,
                h == self.pattern_height,
                x + w <= iw,
                y + h <= ih,
                n_samples == img.samples@.len(),
                n_tones == tmpl.len(),
                j <= h,
                forall|i: int, jj: int|
                    0 <= i < w && 0 <= jj < j ==> #[trigger] cell_agrees(img, pw, tmpl, x as int, y as int, i, jj),
            decreases h - j,
        {
            let mut i: usize = 0;
            while i < w
                invariant
                    self.wf(),
                    img == *self.image,
                    pw == w,
                    tmpl == self.pattern_vec@,
                    iw == img.width,
                    ih == img.height,
                    w == self.pattern_width,
                    h == self.pattern_height,
                    x + w <= iw,
                    y + h <= ih,
                    n_samples == img.samples@.len(),
                    n_tones == tmpl.len(),
                    j < h,
                    i <= w,
                    forall|ii: int, jj: int|
                        0 <= ii < w && 0 <= jj < j ==> #[trigger] cell_agrees(img, pw, tmpl, x as int, y as int, ii, jj),
                    forall|ii: int| 0 <= ii < i ==> #[trigger] cell_agrees(img, pw, tmpl, x as int, y as int, ii, j as int),
                decreases w - i,
            {
                proof {
                    lemma_cell_in_grid(x + i, y + j, iw as int, ih as int);
                    lemma_cell_in_grid(i as int, j as int, w as int, h as int);
                }
                let s = self.image.samples[(y as usize + j) * iw + (x as usize + i)];
                let t = self.pattern_vec[j * w + i];
                let disagree = match self.matching_mode {
                    MatchingMode::Perfect => (s > 128u8 && t < 128u8) || (s < 128u8 && t > 128u8),
                };
                if disagree {
                    assert(!cell_agrees(img, pw, tmpl, x as int, y as int, i as int, j as int));
                    return false;
                }
                i = i + 1;
            }
            j = j + 1;
        }
        true
    }

    /// A scan over all anchors, from the top-left one.
    pub fn iter(&self) -> (r: MatchedPixels<'_>)
        requires
            self.wf(),
        ensures
            r.wf(),
            r.remaining() == self.matches(),
    {
        MatchedPixels { matcher: self, x: 0, y: 0, finished: false }
    }
}

/// A scan over the anchors of a matcher, yielding the center of each matching window.
pub struct MatchedPixels<'a> {
    matcher: &'a ImgPatternMatcher<'a>,
    x: u32,
    y: u32,
    finished: bool,
}

impl<'a> MatchedPixels<'a> {
    /// The matcher is well formed and the scan stands on an anchor.
    pub closed spec fn wf(&self) -> bool {
        &&& self.matcher.wf()
        &&& self.x <= self.matcher.image.width - self.matcher.pattern_width
        &&& self.y <= self.matcher.image.height - self.matcher.pattern_height
    }

    /// The centers that the scan has still to yield, in order.
    pub closed spec fn remaining(&self) -> Seq<(u32, u32)> {
        let m = self.matcher;
        if self.finished {
            seq![]
        } else {
            row_matches(
                *m.image,
                m.pattern_width as nat,
                m.pattern_height as nat,
                m.pattern_vec@,
                self.x as int,
                self.y as int,
            ) + matches_from_row(
                *m.image,
                m.pattern_width as nat,
                m.pattern_height as nat,
                m.pattern_vec@,
                self.y + 1,
            )
        }
    }

    /// Yields the next center still to come, or `None` once all are yielded.
    pub fn next(&mut self) -> (r: Option<(u32, u32)>)
        requires
            old(self).wf(),
        ensures
            final(self).wf(),
            old(self).remaining().len() == 0 ==> r is None && final(self).remaining() == old(
                self,
            ).remaining(),
            old(self).remaining().len() > 0 ==> r == Some(old(self).remaining()[0])
                && final(self).remaining() == old(self).remaining().drop_first(),
    {
        let m = self.matcher;
        let xmax = m.image.width - m.pattern_width;
        let ymax = m.image.height - m.pattern_height;
        loop
            invariant
                self.wf(),
                self.matcher == m,
                xmax == m.image.width - m.pattern_width,
                ymax == m.image.height - m.pattern_height,
                self.remaining() == old(self).remaining(),
            decreases (if self.finished {
                0int
            } else {
                1int
            }), ymax - self.y, xmax - self.x,
        {
            if self.finished {
                return None;
            }
            let ghost before = self.remaining();
            let ghost img = *m.image;
            let ghost pw = m.pattern_width as nat;
            let ghost ph = m.pattern_height as nat;
            let ghost tmpl = m.pattern_vec@;
            let ghost (x0, y0) = (self.x as int, self.y as int);
            let matched = m.window_matches_at(self.x, self.y);
            let c = (self.x + (m.pattern_width - 1) / 2, self.y + (m.pattern_height - 1) / 2);
            let ghost head: Seq<(u32, u32)> = if matched {
                seq![c]
            } else {
                seq![]
            };
            assert(c == center(pw, ph, x0, y0));
            assert(row_matches(img, pw, ph, tmpl, x0, y0) == head + row_matches(img, pw, ph, tmpl, x0 + 1, y0));
            if self.x == xmax {
                assert(row_matches(img, pw, ph, tmpl, x0 + 1, y0) == Seq::<(u32, u32)>::empty());
                if self.y == ymax {
                    self.finished = true;
                    assert(matches_from_row(img, pw, ph, tmpl, y0 + 1) == Seq::<(u32, u32)>::empty());
                    assert(before =~= head + self.remaining());
                } else {
                    self.x = 0;
                    self.y = self.y + 1;
                    assert(matches_from_row(img, pw, ph, tmpl, y0 + 1) == row_matches(img, pw, ph, tmpl, 0, y0 + 1) + matches_from_row(img, pw, ph, tmpl, y0 + 2));
                    assert(before =~= head + self.remaining());
                }
            } else {
                self.x = self.x + 1;
                assert(before =~= head + self.remaining());
            }
            if matched {
                assert(self.remaining() =~= before.drop_first());
                return Some(c);
            }
        }
    }
}

/// The product of two `u32` values fits in a `u64`.
proof fn lemma_u32_product(a: u32, b: u32)
    ensures
        a * b <= u64::MAX,
{
    assert(a * b <= u32::MAX * u32::MAX) by (nonlinear_arith)
        requires
            a <= u32::MAX,
            b <= u32::MAX,
    ;
}

/// Scans restart: two scans over the same raster and template, each taken
/// fresh from its matcher, yield the same centers in the same order.
pub proof fn lemma_scans_agree(
    m1: ImgPatternMatcher,
    m2: ImgPatternMatcher,
    a: MatchedPixels,
    b: MatchedPixels,
)
    requires
        m1.raster() == m2.raster(),
        m1.template() == m2.template(),
        a.remaining() == m1.matches(),
        b.remaining() == m2.matches(),
    ensures
        a.remaining() == b.remaining(),
{
}

} // verus!
