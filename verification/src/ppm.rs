//! The image buffer: a 2D grid of integer RGB triples with a maximum
//! channel value, stored as a vector of columns.

use vstd::prelude::*;
use crate::color::{color_le, Color};
use crate::fx::{isqrt_u128, sqrt_floor, lemma_sqrt_floor_bounds, lemma_sqrt_floor_mono,
    lemma_sqrt_floor_square, lemma_mul_signs};
use crate::numtext::{
    dec_bytes, parse_dec_capped, spec_lines, spec_tokens, split_lines, tokenize, u64_to_dec,
};

verus! {

/// A rasterized image: `data[x][y]` is the pixel in column `x`, row `y`.
#[derive(Debug)]
pub struct PPMImage {
    dim: (usize, usize),
    data: Vec<Vec<Color>>,
    maxval: u32,
}

impl PPMImage {
    /// Image width in pixels.
    pub closed spec fn width(&self) -> int {
        self.dim.0 as int
    }

    /// Image height in pixels.
    pub closed spec fn height(&self) -> int {
        self.dim.1 as int
    }

    /// The maximum channel value.
    pub closed spec fn max_value(&self) -> int {
        self.maxval as int
    }

    /// The pixel stored in column `x`, row `y`.
    pub closed spec fn pixel(&self, x: int, y: int) -> Color {
        self.data@[x]@[y]
    }

    /// The grid really is `width` columns of `height` pixels.
    pub closed spec fn wf(&self) -> bool {
        &&& self.data@.len() == self.width()
        &&& forall|x: int| 0 <= x < self.width() ==> (#[trigger] self.data@[x])@.len()
            == self.height()
    }

    /// An all-black image of the given size.
    pub fn new(width: usize, height: usize, maxval: u32) -> (r: PPMImage)
        requires
            width <= 0x100000,
            height <= 0x1000000,
        ensures
            r.wf(),
            r.width() == width,
            r.height() == height,
            r.max_value() == maxval,
            forall|x: int, y: int|
                0 <= x < width && 0 <= y < height ==> #[trigger] r.pixel(x, y) == (Color {
                    r: 0u32,
                    g: 0u32,
                    b: 0u32,
                }),
    {
        let mut data: Vec<Vec<Color>> = Vec::new();
        let mut x: usize = 0;
        while x < width
            invariant
                x <= width,
                data@.len() == x,
                forall|i: int| 0 <= i < x ==> (#[trigger] data@[i])@.len() == height,
                forall|i: int, j: int|
                    0 <= i < x && 0 <= j < height ==> #[trigger] data@[i]@[j] == (Color {
                        r: 0u32,
                        g: 0u32,
                        b: 0u32,
                    }),
            decreases width - x,
        {
            let mut col: Vec<Color> = Vec::new();
            let mut y: usize = 0;
            while y < height
                invariant
                    y <= height,
                    col@.len() == y,
                    forall|j: int| 0 <= j < y ==> col@[j] == (Color { r: 0u32, g: 0u32, b: 0u32 }),
                decreases height - y,
            {
                col.push(Color::black());
                y = y + 1;
            }
            data.push(col);
            x = x + 1;
        }
        PPMImage { dim: (width, height), data, maxval }
    }

    /// The image's (width, height).
    pub fn dim(&self) -> (r: (usize, usize))
        ensures
            r.0 == self.width(),
            r.1 == self.height(),
    {
        self.dim
    }

    /// The maximum channel value.
    pub fn maxval(&self) -> (r: u32)
        ensures
            r == self.max_value(),
    {
        self.maxval
    }

    /// Replace the pixel at (x, y); the position must exist and the
    /// color must not exceed the maximum channel value.
    pub fn change_pixel(&mut self, x: usize, y: usize, color: Color)
        requires
            old(self).wf(),
            x < old(self).width(),
            y < old(self).height(),
            color_le(color, old(self).max_value()),
        ensures
            final(self).wf(),
            final(self).width() == old(self).width(),
            final(self).height() == old(self).height(),
            final(self).max_value() == old(self).max_value(),
            final(self).pixel(x as int, y as int) == color,
            forall|a: int, b: int|
                0 <= a < old(self).width() && 0 <= b < old(self).height() && !(a == x as int && b
                    == y as int) ==> #[trigger] final(self).pixel(a, b) == old(self).pixel(a, b),
    {
        self.data[x][y] = color;
    }

    /// The pixel at (x, y), which must exist.
    pub fn pixel_at(&self, x: usize, y: usize) -> (r: Color)
        requires
            self.wf(),
            x < self.width(),
            y < self.height(),
        ensures
            r == self.pixel(x as int, y as int),
    {
        self.data[x][y]
    }

    /// A copy with every channel halved.
    pub fn darken(&self) -> (r: PPMImage)
        requires
            self.wf(),
        ensures
            r.wf(),
            r.width() == self.width(),
            r.height() == self.height(),
            r.max_value() == self.max_value(),
            forall|x: int, y: int|
                0 <= x < self.width() && 0 <= y < self.height() ==> #[trigger] r.pixel(x, y)
                    == (Color {
                    r: (self.pixel(x, y).r / 2) as u32,
                    g: (self.pixel(x, y).g / 2) as u32,
                    b: (self.pixel(x, y).b / 2) as u32,
                }),
    {
        let w: usize = self.dim.0;
        let h: usize = self.dim.1;
        let mut data: Vec<Vec<Color>> = Vec::new();
        let mut x: usize = 0;
        while x < w
            invariant
                self.wf(),
                w == self.width(),
                h == self.height(),
                x <= w,
                data@.len() == x,
                forall|i: int| 0 <= i < x ==> (#[trigger] data@[i])@.len() == h,
                forall|i: int, j: int|
                    0 <= i < x && 0 <= j < h ==> #[trigger] data@[i]@[j] == (Color {
                        r: (self.pixel(i, j).r / 2) as u32,
                        g: (self.pixel(i, j).g / 2) as u32,
                        b: (self.pixel(i, j).b / 2) as u32,
                    }),
            decreases w - x,
        {
            let mut col: Vec<Color> = Vec::new();
            let mut y: usize = 0;
            while y < h
                invariant
                    self.wf(),
                    w == self.width(),
                    h == self.height(),
                    x < w,
                    y <= h,
                    col@.len() == y,
                    forall|j: int| 0 <= j < y ==> col@[j] == (Color {
                        r: (self.pixel(x as int, j).r / 2) as u32,
                        g: (self.pixel(x as int, j).g / 2) as u32,
                        b: (self.pixel(x as int, j).b / 2) as u32,
                    }),
                decreases h - y,
            {
                let p: Color = self.data[x][y];
                col.push(Color::new(p.r / 2, p.g / 2, p.b / 2));
                y = y + 1;
            }
            data.push(col);
            x = x + 1;
        }
        PPMImage { dim: (w, h), data, maxval: self.maxval }
    }

    /// A copy with every channel doubled, capped at the maximum value.
    pub fn lighten(&self) -> (r: PPMImage)
        requires
            self.wf(),
        ensures
            r.wf(),
            r.width() == self.width(),
            r.height() == self.height(),
            r.max_value() == self.max_value(),
            forall|x: int, y: int|
                0 <= x < self.width() && 0 <= y < self.height() ==> #[trigger] r.pixel(x, y)
                    == lighten_px(self.pixel(x, y), self.max_value()),
    {
        let w: usize = self.dim.0;
        let h: usize = self.dim.1;
        let mut data: Vec<Vec<Color>> = Vec::new();
        let mut x: usize = 0;
        while x < w
            invariant
                self.wf(),
                w == self.width(),
                h == self.height(),
                x <= w,
                data@.len() == x,
                forall|i: int| 0 <= i < x ==> (#[trigger] data@[i])@.len() == h,
                forall|i: int, j: int|
                    0 <= i < x && 0 <= j < h ==> #[trigger] data@[i]@[j] == lighten_px(
                        self.pixel(i, j),
                        self.max_value(),
                    ),
            decreases w - x,
        {
            let mut col: Vec<Color> = Vec::new();
            let mut y: usize = 0;
            while y < h
                invariant
                    self.wf(),
                    w == self.width(),
                    h == self.height(),
                    x < w,
                    y <= h,
                    col@.len() == y,
                    forall|j: int| 0 <= j < y ==> col@[j] == lighten_px(
                        self.pixel(x as int, j),
                        self.max_value(),
                    ),
                decreases h - y,
            {
                let p: Color = self.data[x][y];
                col.push(Color::new(
                    double_capped(p.r, self.maxval),
                    double_capped(p.g, self.maxval),
                    double_capped(p.b, self.maxval),
                ));
                y = y + 1;
            }
            data.push(col);
            x = x + 1;
        }
        PPMImage { dim: (w, h), data, maxval: self.maxval }
    }

    /// A copy with every pixel replaced by `color`.
    pub fn fill(&self, color: Color) -> (r: PPMImage)
        requires
            self.wf(),
        ensures
            r.wf(),
            r.width() == self.width(),
            r.height() == self.height(),
            r.max_value() == self.max_value(),
            forall|x: int, y: int|
                0 <= x < self.width() && 0 <= y < self.height() ==> #[trigger] r.pixel(x, y)
                    == color,
    {
        let w: usize = self.dim.0;
        let h: usize = self.dim.1;
        let mut data: Vec<Vec<Color>> = Vec::new();
        let mut x: usize = 0;
        while x < w
            invariant
                x <= w,
                data@.len() == x,
                forall|i: int| 0 <= i < x ==> (#[trigger] data@[i])@.len() == h,
                forall|i: int, j: int|
                    0 <= i < x && 0 <= j < h ==> #[trigger] data@[i]@[j] == color,
            decreases w - x,
        {
            let mut col: Vec<Color> = Vec::new();
            let mut y: usize = 0;
            while y < h
                invariant
                    y <= h,
                    col@.len() == y,
                    forall|j: int| 0 <= j < y ==> col@[j] == color,
                decreases h - y,
            {
                col.push(color);
                y = y + 1;
            }
            data.push(col);
            x = x + 1;
        }
        PPMImage { dim: (w, h), data, maxval: self.maxval }
    }

    /// Replace every channel by the rounded-down square root of its
    /// value (a crude gamma correction).
    pub fn gamma_correct(&mut self)
        requires
            old(self).wf(),
        ensures
            final(self).wf(),
            final(self).width() == old(self).width(),
            final(self).height() == old(self).height(),
            final(self).max_value() == old(self).max_value(),
            forall|x: int, y: int|
                0 <= x < old(self).width() && 0 <= y < old(self).height()
                    ==> #[trigger] final(self).pixel(x, y) == gamma_px(old(self).pixel(x, y)),
    {
        let w: usize = self.dim.0;
        let h: usize = self.dim.1;
        let mut data: Vec<Vec<Color>> = Vec::new();
        let mut x: usize = 0;
        while x < w
            invariant
                self.wf(),
                self.dim == old(self).dim,
                self.maxval == old(self).maxval,
                self.data@ == old(self).data@,
                w == self.width(),
                h == self.height(),
                x <= w,
                data@.len() == x,
                forall|i: int| 0 <= i < x ==> (#[trigger] data@[i])@.len() == h,
                forall|i: int, j: int|
                    0 <= i < x && 0 <= j < h ==> #[trigger] data@[i]@[j] == gamma_px(
                        self.pixel(i, j),
                    ),
            decreases w - x,
        {
            let mut col: Vec<Color> = Vec::new();
            let mut y: usize = 0;
            while y < h
                invariant
                    self.wf(),
                    self.dim == old(self).dim,
                    self.maxval == old(self).maxval,
                    self.data@ == old(self).data@,
                    w == self.width(),
                    h == self.height(),
                    x < w,
                    y <= h,
                    col@.len() == y,
                    forall|j: int| 0 <= j < y ==> col@[j] == gamma_px(self.pixel(x as int, j)),
                decreases h - y,
            {
                let p: Color = self.data[x][y];
                col.push(Color::new(sqrt_u32(p.r), sqrt_u32(p.g), sqrt_u32(p.b)));
                y = y + 1;
            }
            data.push(col);
            x = x + 1;
        }
        self.data = data;
    }
}

/// One channel doubled and capped.
pub open spec fn double_capped_spec(v: int, m: int) -> int {
    if 2 * v <= m {
        2 * v
    } else {
        m
    }
}

/// A pixel doubled and capped at the maximum value.
pub open spec fn lighten_px(c: Color, m: int) -> Color {
    Color {
        r: double_capped_spec(c.r as int, m) as u32,
        g: double_capped_spec(c.g as int, m) as u32,
        b: double_capped_spec(c.b as int, m) as u32,
    }
}

/// A pixel with every channel replaced by its rounded-down square root.
pub open spec fn gamma_px(c: Color) -> Color {
    Color {
        r: sqrt_floor(c.r as int) as u32,
        g: sqrt_floor(c.g as int) as u32,
        b: sqrt_floor(c.b as int) as u32,
    }
}

fn double_capped(v: u32, m: u32) -> (r: u32)
    ensures
        r == double_capped_spec(v as int, m as int),
{
    if v <= 0x7fffffff && 2 * v <= m {
        2 * v
    } else {
        m
    }
}

fn sqrt_u32(v: u32) -> (r: u32)
    ensures
        r == sqrt_floor(v as int),
{
    proof {
        lemma_sqrt_floor_bounds(v as int);
        lemma_sqrt_floor_mono(v as int, 0x100000000);
        lemma_mul_signs(0x10000, 0x10000);
        lemma_sqrt_floor_square(0x10000);
    }
    isqrt_u128(v as u128) as u32
}

/// The two on-disk image flavors: ASCII and binary.
#[derive(Clone, Copy, Debug, PartialEq, Eq, Structural)]
pub enum PPMType {
    P3,
    P6,
}

/// Parse errors of the image reader.
#[derive(Clone, Copy, Debug, PartialEq, Eq, Structural)]
pub enum PPMError {
    /// The first token is neither of the two magic numbers.
    BadMagic,
    /// The width token is not a representable number.
    BadWidth,
    /// The height token is not a representable number.
    BadHeight,
    /// The maximum-value token is not a 16-bit number.
    BadMaxval,
    /// A channel token is not a 16-bit number.
    BadChannel,
    /// More pixel values arrived than the header announced.
    PixelOutOfRange,
    /// A channel value exceeds the maximum value.
    ValueTooHigh,
}

/// The reader and writer of the on-disk format.
pub struct PPMHandler {}

/// One ASCII pixel: its three channels in order.
pub open spec fn p3_pixel(c: Color) -> Seq<u8> {
    seq![32u8] + dec_bytes(c.r as int) + seq![32u8, 10u8] + seq![32u8] + dec_bytes(c.g as int)
        + seq![32u8, 10u8] + seq![32u8] + dec_bytes(c.b as int) + seq![32u8, 10u8]
}

/// The first `x` pixels of row `y`, in ASCII.
pub open spec fn p3_row(img: &PPMImage, y: int, x: int) -> Seq<u8>
    decreases x,
{
    if x <= 0 {
        Seq::empty()
    } else {
        p3_row(img, y, x - 1) + p3_pixel(img.pixel(x - 1, y))
    }
}

/// The first `y` rows, in ASCII.
pub open spec fn p3_rows(img: &PPMImage, y: int) -> Seq<u8>
    decreases y,
{
    if y <= 0 {
        Seq::empty()
    } else {
        p3_rows(img, y - 1) + p3_row(img, y - 1, img.width())
    }
}

/// The ASCII header: the magic line, the dimensions and the maximum
/// value.
pub open spec fn p3_header(img: &PPMImage) -> Seq<u8> {
    seq![80u8, 51u8, 32u8, 10u8] + dec_bytes(img.width()) + seq![32u8] + dec_bytes(img.height())
        + seq![32u8, 10u8] + dec_bytes(img.max_value()) + seq![32u8, 10u8]
}

/// The full ASCII encoding.
pub open spec fn p3_bytes(img: &PPMImage) -> Seq<u8> {
    p3_header(img) + p3_rows(img, img.height())
}

/// One binary channel: one byte below 256, two (big-endian) otherwise;
/// values are truncated to the field width.
pub open spec fn p6_chan(v: int, wide: bool) -> Seq<u8> {
    if wide {
        seq![((v % 65536) / 256) as u8, (v % 256) as u8]
    } else {
        seq![(v % 256) as u8]
    }
}

/// One binary pixel: its three channels in order.
pub open spec fn p6_pixel(c: Color, wide: bool) -> Seq<u8> {
    p6_chan(c.r as int, wide) + p6_chan(c.g as int, wide) + p6_chan(c.b as int, wide)
}

/// The first `x` pixels of row `y`, in binary.
pub open spec fn p6_row(img: &PPMImage, y: int, x: int, wide: bool) -> Seq<u8>
    decreases x,
{
    if x <= 0 {
        Seq::empty()
    } else {
        p6_row(img, y, x - 1, wide) + p6_pixel(img.pixel(x - 1, y), wide)
    }
}

/// The first `y` rows, in binary.
pub open spec fn p6_rows(img: &PPMImage, y: int, wide: bool) -> Seq<u8>
    decreases y,
{
    if y <= 0 {
        Seq::empty()
    } else {
        p6_rows(img, y - 1, wide) + p6_row(img, y - 1, img.width(), wide)
    }
}

/// The binary header: the magic word, the dimensions and the maximum
/// value on one line.
pub open spec fn p6_header(img: &PPMImage) -> Seq<u8> {
    seq![80u8, 54u8, 32u8] + dec_bytes(img.width()) + seq![32u8] + dec_bytes(img.height())
        + seq![32u8] + dec_bytes(img.max_value()) + seq![10u8]
}

/// The full binary encoding.
pub open spec fn p6_bytes(img: &PPMImage) -> Seq<u8> {
    p6_header(img) + p6_rows(img, img.height(), img.max_value() >= 256)
}

/// The encoding selected by the type tag.
pub open spec fn ppm_bytes(img: &PPMImage, t: PPMType) -> Seq<u8> {
    match t {
        PPMType::P3 => p3_bytes(img),
        PPMType::P6 => p6_bytes(img),
    }
}

/// Append all of `b` to `out`.
fn append_bytes(out: &mut Vec<u8>, b: &Vec<u8>)
    ensures
        final(out)@ == old(out)@ + b@,
{
    let n: usize = b.len();
    let mut i: usize = 0;
    while i < n
        invariant
            n == b@.len(),
            i <= n,
            out@ =~= old(out)@ + b@.subrange(0, i as int),
        decreases n - i,
    {
        out.push(b[i]);
        proof {
            assert(old(out)@ + b@.subrange(0, i as int + 1) =~= (old(out)@ + b@.subrange(
                0,
                i as int,
            )).push(b@[i as int]));
        }
        i = i + 1;
    }
    proof {
        assert(b@.subrange(0, n as int) =~= b@);
    }
}

impl PPMHandler {

    /// Decode an image from the textual format: header tokens then one
    /// value per channel, with comment lines skipped.
    #[verifier::rlimit(100)]
    pub fn read(&self, data: &[u8]) -> (r: Result<PPMImage, PPMError>)
        requires
            data@.len() < 0x10000000000000000,
        ensures
            match r {
                Ok(img) => ppm_parse(data@) matches Ok(st) && img_matches(img, st),
                Err(e) => ppm_parse(data@) == Err::<PpmSt, PPMError>(e),
            },
    {
        let lines: Vec<Vec<u8>> = split_lines(data);
        let ghost linesv = spec_lines(data@);
        let mut ptype: Option<PPMType> = None;
        let mut width: Option<usize> = None;
        let mut height: Option<usize> = None;
        let mut maxval: Option<u32> = None;
        let mut image: PPMImage = PPMImage::new(0, 0, 0);
        let mut px: usize = 0;
        let mut py: usize = 0;
        let mut count: usize = 0;
        let mut cr: Option<u32> = None;
        let mut cg: Option<u32> = None;
        let ghost mut st = ppm_init();
        let nl: usize = lines.len();
        proof {
            assert(linesv.subrange(0, 0) =~~= Seq::<Seq<u8>>::empty());
        }
        let mut li: usize = 0;
        while li < nl
            invariant
                data@.len() < 0x10000000000000000,
                linesv == spec_lines(data@),
                lines@.map_values(|l: Vec<u8>| l@) =~~= linesv,
                nl == lines@.len(),
                li <= nl,
                ppm_run_lines(ppm_init(), linesv.subrange(0, li as int)) == Ok::<PpmSt, PPMError>(
                    st,
                ),
                ppm_st_inv(st),
                ptype == st.ptype,
                corr_usize(width, st.width),
                corr_usize(height, st.height),
                corr_u32(maxval, st.maxval),
                corr_u32(cr, st.cr),
                corr_u32(cg, st.cg),
                px as int == st.px,
                py as int == st.py,
                count as int == st.count,
                img_matches(image, st),
            decreases nl - li,
        {
            let line: &Vec<u8> = &lines[li];
            let ghost linev = linesv[li as int];
            proof {
                assert(lines@.map_values(|l: Vec<u8>| l@)[li as int] == line@);
                assert(linesv.subrange(0, li as int).push(linev) =~~= linesv.subrange(
                    0,
                    li as int + 1,
                ));
                lemma_run_lines_snoc(ppm_init(), linesv.subrange(0, li as int), linev);
            }
            if line.len() > 0 && line[0] == 35 {
                li = li + 1;
            } else {
                let toks: Vec<Vec<u8>> = tokenize(line.as_slice());
                let ghost toksv = spec_tokens(linev);
                let ghost st0 = st;
                let nt: usize = toks.len();
                proof {
                    assert(toksv.subrange(0, 0) =~~= Seq::<Seq<u8>>::empty());
                }
                let mut ti: usize = 0;
                while ti < nt
                    invariant
                        linesv == spec_lines(data@),
                        0 <= li < linesv.len(),
                        !(linev.len() > 0 && linev[0] == 35),
                        linev == linesv[li as int],
                        toksv == spec_tokens(linev),
                        toks@.map_values(|t: Vec<u8>| t@) =~~= toksv,
                        nt == toks@.len(),
                        ti <= nt,
                        ppm_run_lines(ppm_init(), linesv.subrange(0, li as int)) == Ok::<
                            PpmSt,
                            PPMError,
                        >(st0),
                        ppm_run_tokens(st0, toksv.subrange(0, ti as int)) == Ok::<PpmSt, PPMError>(
                            st,
                        ),
                        ppm_st_inv(st),
                        ptype == st.ptype,
                        corr_usize(width, st.width),
                        corr_usize(height, st.height),
                        corr_u32(maxval, st.maxval),
                        corr_u32(cr, st.cr),
                        corr_u32(cg, st.cg),
                        px as int == st.px,
                        py as int == st.py,
                        count as int == st.count,
                        img_matches(image, st),
                    decreases nt - ti,
                {
                    let t: &Vec<u8> = &toks[ti];
                    let ghost tv = toksv[ti as int];
                    proof {
                        assert(toks@.map_values(|t2: Vec<u8>| t2@)[ti as int] == t@);
                        assert(toksv.subrange(0, ti as int).push(tv) =~~= toksv.subrange(
                            0,
                            ti as int + 1,
                        ));
                        lemma_run_tokens_snoc(st0, toksv.subrange(0, ti as int), tv);
                        lemma_step_inv(st, tv);
                        crate::numtext::lemma_parse_dec_nonneg(tv);
                    }
                    if ptype.is_none() {
                        if t.len() == 2 && t[0] == 80 && t[1] == 51 {
                            proof {
                                assert(tv =~= seq![80u8, 51u8]);
                                st = PpmSt { ptype: Some(PPMType::P3), ..st };
                            }
                            ptype = Some(PPMType::P3);
                        } else if t.len() == 2 && t[0] == 80 && t[1] == 54 {
                            proof {
                                assert(tv =~= seq![80u8, 54u8]);
                                st = PpmSt { ptype: Some(PPMType::P6), ..st };
                            }
                            ptype = Some(PPMType::P6);
                        } else {
                            proof {
                                assert(tv != seq![80u8, 51u8] && tv != seq![80u8, 54u8]) by {
                                    if tv == seq![80u8, 51u8] || tv == seq![80u8, 54u8] {
                                        assert(tv.len() == 2 && tv[0] == 80);
                                    }
                                }
                                lemma_read_err(
                                    data@,
                                    li as int,
                                    st0,
                                    st,
                                    ti as int,
                                    PPMError::BadMagic,
                                );
                            }
                            return Err(PPMError::BadMagic);
                        }
                    } else if width.is_none() {
                        match crate::numtext::parse_dec_u32(t.as_slice()) {
                            Some(v) => {
                                if v <= 0xffff {
                                    width = Some(v as usize);
                                    proof {
                                        st = PpmSt { width: Some(v as int), ..st };
                                    }
                                } else {
                                    proof {
                                        lemma_read_err(
                                            data@,
                                            li as int,
                                            st0,
                                            st,
                                            ti as int,
                                            PPMError::BadWidth,
                                        );
                                    }
                                    return Err(PPMError::BadWidth);
                                }
                            },
                            None => {
                                proof {
                                    lemma_read_err(
                                        data@,
                                        li as int,
                                        st0,
                                        st,
                                        ti as int,
                                        PPMError::BadWidth,
                                    );
                                }
                                return Err(PPMError::BadWidth);
                            },
                        }
                    } else if height.is_none() {
                        match crate::numtext::parse_dec_u32(t.as_slice()) {
                            Some(v) => {
                                if v <= 0xffff {
                                    height = Some(v as usize);
                                    proof {
                                        st = PpmSt { height: Some(v as int), ..st };
                                    }
                                } else {
                                    proof {
                                        lemma_read_err(
                                            data@,
                                            li as int,
                                            st0,
                                            st,
                                            ti as int,
                                            PPMError::BadHeight,
                                        );
                                    }
                                    return Err(PPMError::BadHeight);
                                }
                            },
                            None => {
                                proof {
                                    lemma_read_err(
                                        data@,
                                        li as int,
                                        st0,
                                        st,
                                        ti as int,
                                        PPMError::BadHeight,
                                    );
                                }
                                return Err(PPMError::BadHeight);
                            },
                        }
                    } else if maxval.is_none() {
                        match parse_chan(t.as_slice()) {
                            Some(v) => {
                                let w: usize = match width {
                                    Some(w) => w,
                                    None => 0,
                                };
                                let h: usize = match height {
                                    Some(h) => h,
                                    None => 0,
                                };
                                maxval = Some(v);
                                image = PPMImage::new(w, h, v);
                                px = 0;
                                py = 0;
                                count = 0;
                                proof {
                                    st = PpmSt {
                                        maxval: Some(v as int),
                                        grid: grid_zero(st.width.unwrap(), st.height.unwrap()),
                                        px: 0,
                                        py: 0,
                                        count: 0,
                                        ..st
                                    };
                                    assert(0 * (w as int) == 0) by (nonlinear_arith);
                                    assert(img_matches(image, st));
                                }
                            },
                            None => {
                                proof {
                                    lemma_read_err(
                                        data@,
                                        li as int,
                                        st0,
                                        st,
                                        ti as int,
                                        PPMError::BadMaxval,
                                    );
                                }
                                return Err(PPMError::BadMaxval);
                            },
                        }
                    } else if cr.is_none() {
                        match parse_chan(t.as_slice()) {
                            Some(v) => {
                                cr = Some(v);
                                proof {
                                    st = PpmSt { cr: Some(v as int), ..st };
                                }
                            },
                            None => {
                                proof {
                                    lemma_read_err(
                                        data@,
                                        li as int,
                                        st0,
                                        st,
                                        ti as int,
                                        PPMError::BadChannel,
                                    );
                                }
                                return Err(PPMError::BadChannel);
                            },
                        }
                    } else if cg.is_none() {
                        match parse_chan(t.as_slice()) {
                            Some(v) => {
                                cg = Some(v);
                                proof {
                                    st = PpmSt { cg: Some(v as int), ..st };
                                }
                            },
                            None => {
                                proof {
                                    lemma_read_err(
                                        data@,
                                        li as int,
                                        st0,
                                        st,
                                        ti as int,
                                        PPMError::BadChannel,
                                    );
                                }
                                return Err(PPMError::BadChannel);
                            },
                        }
                    } else {
                        match parse_chan(t.as_slice()) {
                            Some(v) => {
                                let w: usize = match width {
                                    Some(w) => w,
                                    None => 0,
                                };
                                let h: usize = match height {
                                    Some(h) => h,
                                    None => 0,
                                };
                                let m: u32 = match maxval {
                                    Some(m) => m,
                                    None => 0,
                                };
                                let r0: u32 = match cr {
                                    Some(x) => x,
                                    None => 0,
                                };
                                let g0: u32 = match cg {
                                    Some(x) => x,
                                    None => 0,
                                };
                                if !(px < w && py < h) {
                                    proof {
                                        lemma_read_err(
                                            data@,
                                            li as int,
                                            st0,
                                            st,
                                            ti as int,
                                            PPMError::PixelOutOfRange,
                                        );
                                    }
                                    return Err(PPMError::PixelOutOfRange);
                                }
                                if r0 > m || g0 > m || v > m {
                                    proof {
                                        lemma_read_err(
                                            data@,
                                            li as int,
                                            st0,
                                            st,
                                            ti as int,
                                            PPMError::ValueTooHigh,
                                        );
                                    }
                                    return Err(PPMError::ValueTooHigh);
                                }
                                proof {
                                    assert((count as int) + 1 < 0x100000000) by (nonlinear_arith)
                                        requires
                                            count as int == (py as int) * (w as int)
                                                + (px as int),
                                            (px as int) < (w as int),
                                            (py as int) < (h as int),
                                            (w as int) <= 0xffff,
                                            (h as int) <= 0xffff,
                                    ;
                                }
                                let c: Color = Color::new(r0, g0, v);
                                image.change_pixel(px, py, c);
                                proof {
                                    st = PpmSt {
                                        grid: st.grid.update(
                                            st.px,
                                            st.grid[st.px].update(st.py, c),
                                        ),
                                        px: if st.count % st.width.unwrap()
                                            == st.width.unwrap() - 1 {
                                            0
                                        } else {
                                            st.px + 1
                                        },
                                        py: if st.count % st.width.unwrap()
                                            == st.width.unwrap() - 1 {
                                            st.py + 1
                                        } else {
                                            st.py
                                        },
                                        count: st.count + 1,
                                        cr: None,
                                        cg: None,
                                        ..st
                                    };
                                }
                                if count % w == w - 1 {
                                    px = 0;
                                    py = py + 1;
                                } else {
                                    px = px + 1;
                                }
                                count = count + 1;
                                cr = None;
                                cg = None;
                                proof {
                                    assert(img_matches(image, st));
                                }
                            },
                            None => {
                                proof {
                                    lemma_read_err(
                                        data@,
                                        li as int,
                                        st0,
                                        st,
                                        ti as int,
                                        PPMError::BadChannel,
                                    );
                                }
                                return Err(PPMError::BadChannel);
                            },
                        }
                    }
                    ti = ti + 1;
                }
                proof {
                    assert(toksv.subrange(0, nt as int) =~~= toksv);
                    assert(ppm_line_step(st0, linev) == Ok::<PpmSt, PPMError>(st));
                }
                li = li + 1;
            }
        }
        proof {
            assert(linesv.subrange(0, nl as int) =~~= linesv);
        }
        Ok(image)
    }

    /// Encode an image in the requested flavor.
    pub fn write(&self, image: &PPMImage, ppm_type: PPMType) -> (r: Vec<u8>)
        requires
            image.wf(),
        ensures
            r@ == ppm_bytes(image, ppm_type),
    {
        match ppm_type {
            PPMType::P3 => self.write_p3(image),
            PPMType::P6 => self.write_p6(image),
        }
    }

    /// Encode the ASCII flavor.
    #[verifier::rlimit(100)]
    fn write_p3(&self, image: &PPMImage) -> (r: Vec<u8>)
        requires
            image.wf(),
        ensures
            r@ == p3_bytes(image),
    {
        let (w, h): (usize, usize) = image.dim();
        let mut out: Vec<u8> = Vec::new();
        out.push(80);
        out.push(51);
        out.push(32);
        out.push(10);
        let wd: Vec<u8> = u64_to_dec(w as u64);
        append_bytes(&mut out, &wd);
        out.push(32);
        let hd: Vec<u8> = u64_to_dec(h as u64);
        append_bytes(&mut out, &hd);
        out.push(32);
        out.push(10);
        let md: Vec<u8> = u64_to_dec(image.maxval() as u64);
        append_bytes(&mut out, &md);
        out.push(32);
        out.push(10);
        proof {
            assert(out@ =~= p3_header(image));
        }
        let mut y: usize = 0;
        while y < h
            invariant
                image.wf(),
                w == image.width(),
                h == image.height(),
                y <= h,
                out@ =~= p3_header(image) + p3_rows(image, y as int),
            decreases h - y,
        {
            let mut x: usize = 0;
            while x < w
                invariant
                    image.wf(),
                    w == image.width(),
                    h == image.height(),
                    y < h,
                    x <= w,
                    out@ =~= p3_header(image) + p3_rows(image, y as int) + p3_row(
                        image,
                        y as int,
                        x as int,
                    ),
                decreases w - x,
            {
                let p: Color = image.pixel_at(x, y);
                out.push(32);
                let rd: Vec<u8> = u64_to_dec(p.r as u64);
                append_bytes(&mut out, &rd);
                out.push(32);
                out.push(10);
                out.push(32);
                let gd: Vec<u8> = u64_to_dec(p.g as u64);
                append_bytes(&mut out, &gd);
                out.push(32);
                out.push(10);
                out.push(32);
                let bd: Vec<u8> = u64_to_dec(p.b as u64);
                append_bytes(&mut out, &bd);
                out.push(32);
                out.push(10);
                proof {
                    assert(out@ =~= p3_header(image) + p3_rows(image, y as int) + p3_row(
                        image,
                        y as int,
                        x as int + 1,
                    ));
                }
                x = x + 1;
            }
            proof {
                assert(p3_rows(image, y as int + 1) =~= p3_rows(image, y as int) + p3_row(
                    image,
                    y as int,
                    w as int,
                ));
                assert(out@ =~= p3_header(image) + p3_rows(image, y as int + 1));
            }
            y = y + 1;
        }
        out
    }

    /// Encode the binary flavor.
    #[verifier::rlimit(100)]
    fn write_p6(&self, image: &PPMImage) -> (r: Vec<u8>)
        requires
            image.wf(),
        ensures
            r@ == p6_bytes(image),
    {
        let (w, h): (usize, usize) = image.dim();
        let wide: bool = image.maxval() >= 256;
        let mut out: Vec<u8> = Vec::new();
        out.push(80);
        out.push(54);
        out.push(32);
        let wd: Vec<u8> = u64_to_dec(w as u64);
        append_bytes(&mut out, &wd);
        out.push(32);
        let hd: Vec<u8> = u64_to_dec(h as u64);
        append_bytes(&mut out, &hd);
        out.push(32);
        let md: Vec<u8> = u64_to_dec(image.maxval() as u64);
        append_bytes(&mut out, &md);
        out.push(10);
        proof {
            assert(out@ =~= p6_header(image));
        }
        let mut y: usize = 0;
        while y < h
            invariant
                image.wf(),
                w == image.width(),
                h == image.height(),
                wide == (image.max_value() >= 256),
                y <= h,
                out@ =~= p6_header(image) + p6_rows(image, y as int, wide),
            decreases h - y,
        {
            let mut x: usize = 0;
            while x < w
                invariant
                    image.wf(),
                    w == image.width(),
                    h == image.height(),
                    wide == (image.max_value() >= 256),
                    y < h,
                    x <= w,
                    out@ =~= p6_header(image) + p6_rows(image, y as int, wide) + p6_row(
                        image,
                        y as int,
                        x as int,
                        wide,
                    ),
                decreases w - x,
            {
                let p: Color = image.pixel_at(x, y);
                if wide {
                    out.push(((p.r % 65536) / 256) as u8);
                    out.push((p.r % 256) as u8);
                    out.push(((p.g % 65536) / 256) as u8);
                    out.push((p.g % 256) as u8);
                    out.push(((p.b % 65536) / 256) as u8);
                    out.push((p.b % 256) as u8);
                } else {
                    out.push((p.r % 256) as u8);
                    out.push((p.g % 256) as u8);
                    out.push((p.b % 256) as u8);
                }
                proof {
                    assert(out@ =~= p6_header(image) + p6_rows(image, y as int, wide) + p6_row(
                        image,
                        y as int,
                        x as int + 1,
                        wide,
                    ));
                }
                x = x + 1;
            }
            proof {
                assert(p6_rows(image, y as int + 1, wide) =~= p6_rows(image, y as int, wide)
                    + p6_row(image, y as int, w as int, wide));
                assert(out@ =~= p6_header(image) + p6_rows(image, y as int + 1, wide));
            }
            y = y + 1;
        }
        out
    }
}

/// The reader's state: header fields fill in order, then channel values
/// accumulate into pixels, walking the grid row-major.
pub struct PpmSt {
    pub ptype: Option<PPMType>,
    pub width: Option<int>,
    pub height: Option<int>,
    pub maxval: Option<int>,
    pub grid: Seq<Seq<Color>>,
    pub px: int,
    pub py: int,
    pub count: int,
    pub cr: Option<int>,
    pub cg: Option<int>,
}

/// The state before any token.
pub open spec fn ppm_init() -> PpmSt {
    PpmSt {
        ptype: None,
        width: None,
        height: None,
        maxval: None,
        grid: Seq::empty(),
        px: 0,
        py: 0,
        count: 0,
        cr: None,
        cg: None,
    }
}

/// An all-black column-major grid.
pub open spec fn grid_zero(w: int, h: int) -> Seq<Seq<Color>> {
    Seq::new(w as nat, |x: int| Seq::new(h as nat, |y: int| Color { r: 0u32, g: 0u32, b: 0u32 }))
}

/// One token of the reader (see `PpmSt`): magic number, width, height,
/// maximum value, then channel values three at a time.  Dimensions are
/// capped at 16 bits.
pub open spec fn ppm_token_step(st: PpmSt, t: Seq<u8>) -> Result<PpmSt, PPMError> {
    if st.ptype is None {
        if t == seq![80u8, 51u8] {
            Ok(PpmSt { ptype: Some(PPMType::P3), ..st })
        } else if t == seq![80u8, 54u8] {
            Ok(PpmSt { ptype: Some(PPMType::P6), ..st })
        } else {
            Err(PPMError::BadMagic)
        }
    } else if st.width is None {
        match parse_dec_capped(t) {
            Some(v) => if v <= 0xffff {
                Ok(PpmSt { width: Some(v), ..st })
            } else {
                Err(PPMError::BadWidth)
            },
            None => Err(PPMError::BadWidth),
        }
    } else if st.height is None {
        match parse_dec_capped(t) {
            Some(v) => if v <= 0xffff {
                Ok(PpmSt { height: Some(v), ..st })
            } else {
                Err(PPMError::BadHeight)
            },
            None => Err(PPMError::BadHeight),
        }
    } else if st.maxval is None {
        match parse_dec_capped(t) {
            Some(v) => if v <= 65535 {
                Ok(
                    PpmSt {
                        maxval: Some(v),
                        grid: grid_zero(st.width.unwrap(), st.height.unwrap()),
                        px: 0,
                        py: 0,
                        count: 0,
                        ..st
                    },
                )
            } else {
                Err(PPMError::BadMaxval)
            },
            None => Err(PPMError::BadMaxval),
        }
    } else if st.cr is None {
        match parse_dec_capped(t) {
            Some(v) => if v <= 65535 {
                Ok(PpmSt { cr: Some(v), ..st })
            } else {
                Err(PPMError::BadChannel)
            },
            None => Err(PPMError::BadChannel),
        }
    } else if st.cg is None {
        match parse_dec_capped(t) {
            Some(v) => if v <= 65535 {
                Ok(PpmSt { cg: Some(v), ..st })
            } else {
                Err(PPMError::BadChannel)
            },
            None => Err(PPMError::BadChannel),
        }
    } else {
        match parse_dec_capped(t) {
            Some(v) => if v <= 65535 {
                ppm_commit(st, v)
            } else {
                Err(PPMError::BadChannel)
            },
            None => Err(PPMError::BadChannel),
        }
    }
}

/// Commit one pixel: the position must exist, the channels must respect
/// the maximum value; then walk one step through the grid.
pub open spec fn ppm_commit(st: PpmSt, b: int) -> Result<PpmSt, PPMError> {
    let w = st.width.unwrap();
    let h = st.height.unwrap();
    let m = st.maxval.unwrap();
    if !(st.px < w && st.py < h) {
        Err(PPMError::PixelOutOfRange)
    } else if st.cr.unwrap() > m || st.cg.unwrap() > m || b > m {
        Err(PPMError::ValueTooHigh)
    } else {
        let c = Color { r: st.cr.unwrap() as u32, g: st.cg.unwrap() as u32, b: b as u32 };
        let grid2 = st.grid.update(st.px, st.grid[st.px].update(st.py, c));
        if st.count % w == w - 1 {
            Ok(
                PpmSt {
                    grid: grid2,
                    px: 0,
                    py: st.py + 1,
                    count: st.count + 1,
                    cr: None,
                    cg: None,
                    ..st
                },
            )
        } else {
            Ok(
                PpmSt {
                    grid: grid2,
                    px: st.px + 1,
                    py: st.py,
                    count: st.count + 1,
                    cr: None,
                    cg: None,
                    ..st
                },
            )
        }
    }
}

/// Run the reader over a token sequence.
pub open spec fn ppm_run_tokens(st: PpmSt, toks: Seq<Seq<u8>>) -> Result<PpmSt, PPMError>
    decreases toks.len(),
{
    if toks.len() == 0 {
        Ok(st)
    } else {
        match ppm_token_step(st, toks[0]) {
            Ok(m) => ppm_run_tokens(m, toks.drop_first()),
            Err(e) => Err(e),
        }
    }
}

/// One line of input: comment lines are skipped whole; any other line
/// contributes its whitespace-separated tokens.
pub open spec fn ppm_line_step(st: PpmSt, line: Seq<u8>) -> Result<PpmSt, PPMError> {
    if line.len() > 0 && line[0] == 35 {
        Ok(st)
    } else {
        ppm_run_tokens(st, spec_tokens(line))
    }
}

/// Run the reader over the lines of the input.
pub open spec fn ppm_run_lines(st: PpmSt, lines: Seq<Seq<u8>>) -> Result<PpmSt, PPMError>
    decreases lines.len(),
{
    if lines.len() == 0 {
        Ok(st)
    } else {
        match ppm_line_step(st, lines[0]) {
            Ok(m) => ppm_run_lines(m, lines.drop_first()),
            Err(e) => Err(e),
        }
    }
}

/// The reader over a whole input.
pub open spec fn ppm_parse(data: Seq<u8>) -> Result<PpmSt, PPMError> {
    ppm_run_lines(ppm_init(), spec_lines(data))
}

/// The image the reader hands back for a final state: the announced
/// grid once the header completed, the empty image otherwise.
pub open spec fn img_matches(img: PPMImage, st: PpmSt) -> bool {
    &&& img.wf()
    &&& match st.maxval {
        Some(m) => {
            &&& img.width() == st.width.unwrap()
            &&& img.height() == st.height.unwrap()
            &&& img.max_value() == m
            &&& forall|x: int, y: int|
                0 <= x < img.width() && 0 <= y < img.height() ==> #[trigger] img.pixel(x, y)
                    == st.grid[x][y]
        },
        None => img.width() == 0 && img.height() == 0 && img.max_value() == 0,
    }
}

/// Running a token sequence extended by one token runs the extra token
/// on the result.
pub proof fn lemma_run_tokens_snoc(st: PpmSt, toks: Seq<Seq<u8>>, t: Seq<u8>)
    ensures
        ppm_run_tokens(st, toks.push(t)) == (match ppm_run_tokens(st, toks) {
            Ok(m) => ppm_token_step(m, t),
            Err(e) => Err(e),
        }),
{
    assert(toks.push(t) =~~= toks + seq![t]);
    lemma_run_tokens_append(st, toks, seq![t]);
    match ppm_run_tokens(st, toks) {
        Ok(m) => {
            assert(seq![t][0] == t);
            assert(seq![t].drop_first() =~~= Seq::<Seq<u8>>::empty());
            match ppm_token_step(m, t) {
                Ok(m2) => {
                    assert(ppm_run_tokens(m2, Seq::<Seq<u8>>::empty()) == Ok::<PpmSt, PPMError>(
                        m2,
                    ));
                },
                Err(_) => {},
            }
        },
        Err(_) => {},
    }
}

/// Splitting a token run at any point composes.
pub proof fn lemma_run_tokens_append(st: PpmSt, a: Seq<Seq<u8>>, b: Seq<Seq<u8>>)
    ensures
        ppm_run_tokens(st, a + b) == (match ppm_run_tokens(st, a) {
            Ok(m) => ppm_run_tokens(m, b),
            Err(e) => Err::<PpmSt, PPMError>(e),
        }),
    decreases a.len(),
{
    if a.len() == 0 {
        assert(a + b =~~= b);
    } else {
        assert((a + b)[0] == a[0]);
        assert((a + b).drop_first() =~~= a.drop_first() + b);
        match ppm_token_step(st, a[0]) {
            Ok(m) => {
                lemma_run_tokens_append(m, a.drop_first(), b);
            },
            Err(_) => {},
        }
    }
}

/// Running a line sequence extended by one line runs the extra line on
/// the result.
pub proof fn lemma_run_lines_snoc(st: PpmSt, lines: Seq<Seq<u8>>, l: Seq<u8>)
    ensures
        ppm_run_lines(st, lines.push(l)) == (match ppm_run_lines(st, lines) {
            Ok(m) => ppm_line_step(m, l),
            Err(e) => Err(e),
        }),
{
    assert(lines.push(l) =~~= lines + seq![l]);
    lemma_run_lines_append(st, lines, seq![l]);
    match ppm_run_lines(st, lines) {
        Ok(m) => {
            assert(seq![l][0] == l);
            assert(seq![l].drop_first() =~~= Seq::<Seq<u8>>::empty());
            match ppm_line_step(m, l) {
                Ok(m2) => {
                    assert(ppm_run_lines(m2, Seq::<Seq<u8>>::empty()) == Ok::<PpmSt, PPMError>(
                        m2,
                    ));
                },
                Err(_) => {},
            }
        },
        Err(_) => {},
    }
}

/// Splitting a line run at any point composes.
pub proof fn lemma_run_lines_append(st: PpmSt, a: Seq<Seq<u8>>, b: Seq<Seq<u8>>)
    ensures
        ppm_run_lines(st, a + b) == (match ppm_run_lines(st, a) {
            Ok(m) => ppm_run_lines(m, b),
            Err(e) => Err::<PpmSt, PPMError>(e),
        }),
    decreases a.len(),
{
    if a.len() == 0 {
        assert(a + b =~~= b);
    } else {
        assert((a + b)[0] == a[0]);
        assert((a + b).drop_first() =~~= a.drop_first() + b);
        match ppm_line_step(st, a[0]) {
            Ok(m) => {
                lemma_run_lines_append(m, a.drop_first(), b);
            },
            Err(_) => {},
        }
    }
}

/// Structural invariant of the reader's state.
pub open spec fn ppm_st_inv(st: PpmSt) -> bool {
    &&& (st.width matches Some(w) ==> 0 <= w <= 0xffff)
    &&& (st.height matches Some(h) ==> 0 <= h <= 0xffff)
    &&& (st.maxval matches Some(m) ==> 0 <= m <= 65535 && st.width is Some && st.height is Some)
    &&& (st.cr matches Some(v) ==> 0 <= v <= 65535 && st.maxval is Some)
    &&& (st.cg matches Some(v) ==> 0 <= v <= 65535 && st.cr is Some)
    &&& (st.maxval is Some ==> {
        let w = st.width.unwrap();
        let h = st.height.unwrap();
        &&& 0 <= st.px
        &&& 0 <= st.py <= h
        &&& (w > 0 ==> st.px < w)
        &&& (w == 0 ==> st.px == 0)
        &&& st.count == st.py * w + st.px
        &&& st.grid.len() == w
        &&& (forall|x: int| 0 <= x < w ==> (#[trigger] st.grid[x]).len() == h)
    })
}

/// The reader's steps preserve the structural invariant.
pub proof fn lemma_step_inv(st: PpmSt, t: Seq<u8>)
    requires
        ppm_st_inv(st),
    ensures
        ppm_token_step(st, t) matches Ok(st2) ==> ppm_st_inv(st2),
{
    crate::numtext::lemma_parse_dec_nonneg(t);
    if st.ptype is Some && st.width is Some && st.height is Some && st.maxval is None {
        match parse_dec_capped(t) {
            Some(v) => {
                if v <= 65535 {
                    let w = st.width.unwrap();
                    let h = st.height.unwrap();
                    assert(grid_zero(w, h).len() == w);
                    assert(forall|x: int|
                        0 <= x < w ==> (#[trigger] grid_zero(w, h)[x]).len() == h);
                    assert(0 * w == 0) by (nonlinear_arith);
                }
            },
            None => {},
        }
    }
    if st.ptype is Some && st.width is Some && st.height is Some && st.maxval is Some && st.cr
        is Some && st.cg is Some {
        match parse_dec_capped(t) {
            Some(v) => {
                if v <= 65535 {
                    let w = st.width.unwrap();
                    let h = st.height.unwrap();
                    if st.px < w && st.py < h && !(st.cr.unwrap() > st.maxval.unwrap()
                        || st.cg.unwrap() > st.maxval.unwrap() || v > st.maxval.unwrap()) {
                        assert(w >= 1);
                        vstd::arithmetic::div_mod::lemma_mod_multiples_vanish(st.py, st.px, w);
                        vstd::arithmetic::div_mod::lemma_small_mod(st.px as nat, w as nat);
                        assert(st.count % w == st.px);
                        if st.count % w == w - 1 {
                            assert(st.px == w - 1);
                            assert(st.count + 1 == (st.py + 1) * w) by (nonlinear_arith)
                                requires
                                    st.count == st.py * w + st.px,
                                    st.px == w - 1,
                            ;
                        }
                        let c = Color {
                            r: st.cr.unwrap() as u32,
                            g: st.cg.unwrap() as u32,
                            b: v as u32,
                        };
                        let grid2 = st.grid.update(st.px, st.grid[st.px].update(st.py, c));
                        assert(grid2.len() == w);
                        assert(forall|x: int| 0 <= x < w ==> (#[trigger] grid2[x]).len() == h);
                    }
                }
            },
            None => {},
        }
    }
}

/// Exec and ghost optional sizes agree.
pub open spec fn corr_usize(a: Option<usize>, b: Option<int>) -> bool {
    match a {
        Some(v) => b == Some(v as int),
        None => b is None,
    }
}

/// Exec and ghost optional channel values agree.
pub open spec fn corr_u32(a: Option<u32>, b: Option<int>) -> bool {
    match a {
        Some(v) => b == Some(v as int),
        None => b is None,
    }
}

/// An error at token `ti` of line `li` is the whole parse's outcome.
proof fn lemma_read_err(data: Seq<u8>, li: int, st0: PpmSt, st: PpmSt, ti: int, e: PPMError)
    requires
        0 <= li < spec_lines(data).len(),
        ppm_run_lines(ppm_init(), spec_lines(data).subrange(0, li)) == Ok::<PpmSt, PPMError>(st0),
        !(spec_lines(data)[li].len() > 0 && spec_lines(data)[li][0] == 35),
        0 <= ti < spec_tokens(spec_lines(data)[li]).len(),
        ppm_run_tokens(st0, spec_tokens(spec_lines(data)[li]).subrange(0, ti)) == Ok::<
            PpmSt,
            PPMError,
        >(st),
        ppm_token_step(st, spec_tokens(spec_lines(data)[li])[ti]) == Err::<PpmSt, PPMError>(e),
    ensures
        ppm_parse(data) == Err::<PpmSt, PPMError>(e),
{
    let lines = spec_lines(data);
    let linev = lines[li];
    let toksv = spec_tokens(linev);
    assert(toksv.subrange(0, ti).push(toksv[ti]) =~~= toksv.subrange(0, ti + 1));
    lemma_run_tokens_snoc(st0, toksv.subrange(0, ti), toksv[ti]);
    assert(ppm_run_tokens(st0, toksv.subrange(0, ti + 1)) == Err::<PpmSt, PPMError>(e));
    assert(toksv =~~= toksv.subrange(0, ti + 1) + toksv.subrange(ti + 1, toksv.len() as int));
    lemma_run_tokens_append(
        st0,
        toksv.subrange(0, ti + 1),
        toksv.subrange(ti + 1, toksv.len() as int),
    );
    assert(ppm_run_tokens(st0, toksv) == Err::<PpmSt, PPMError>(e));
    assert(ppm_line_step(st0, linev) == Err::<PpmSt, PPMError>(e));
    assert(lines.subrange(0, li).push(linev) =~~= lines.subrange(0, li + 1));
    lemma_run_lines_snoc(ppm_init(), lines.subrange(0, li), linev);
    assert(ppm_run_lines(ppm_init(), lines.subrange(0, li + 1)) == Err::<PpmSt, PPMError>(e));
    assert(lines =~~= lines.subrange(0, li + 1) + lines.subrange(li + 1, lines.len() as int));
    lemma_run_lines_append(
        ppm_init(),
        lines.subrange(0, li + 1),
        lines.subrange(li + 1, lines.len() as int),
    );
}

/// Parse a channel token: an integer of at most 16 bits.
fn parse_chan(t: &[u8]) -> (r: Option<u32>)
    ensures
        match parse_dec_capped(t@) {
            Some(v) => if v <= 65535 {
                r == Some(v as u32)
            } else {
                r is None
            },
            None => r is None,
        },
{
    match crate::numtext::parse_dec_u32(t) {
        Some(v) => if v <= 65535 {
            Some(v as u32)
        } else {
            None
        },
        None => None,
    }
}

} // verus!
