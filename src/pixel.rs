//! The raster type shared by every filter.
use vstd::prelude::*;

verus! {

/// One 8-bit RGB sample.
#[derive(Clone, Copy, Debug, PartialEq, Eq, Structural)]
pub struct Pixel {
    pub r: u8,
    pub g: u8,
    pub b: u8,
}

/// Channel `c` of a pixel: 0 is red, 1 green, anything else blue.
pub open spec fn channel(p: Pixel, c: int) -> u8 {
    if c == 0 {
        p.r
    } else if c == 1 {
        p.g
    } else {
        p.b
    }
}

pub open spec fn black() -> Pixel {
    Pixel { r: 0, g: 0, b: 0 }
}

pub open spec fn white() -> Pixel {
    Pixel { r: 255, g: 255, b: 255 }
}

/// Errors reported at the library's boundary.
#[derive(Clone, Copy, Debug, PartialEq, Eq, Structural)]
pub enum FilterError {
    /// A filter parameter is out of its domain (zero scale, malformed kernel).
    Configuration,
    /// The sample count does not match the declared width and height.
    Dimension,
}

/// The mathematical content of a buffer.
pub struct BufferView {
    pub width: nat,
    pub height: nat,
    pub samples: Seq<Pixel>,
}

/// The sample at `(x, y)` of a row-major view.
pub open spec fn at(v: BufferView, x: int, y: int) -> Pixel {
    v.samples[y * v.width + x]
}

pub open spec fn in_bounds(v: BufferView, x: int, y: int) -> bool {
    0 <= x < v.width && 0 <= y < v.height
}

pub open spec fn view_wf(v: BufferView) -> bool {
    v.samples.len() == v.width * v.height
}

/// A row-major raster of RGB samples; the sample at `(x, y)` is
/// `samples[y * width + x]`.
pub struct PixelBuffer {
    pub width: usize,
    pub height: usize,
    pub samples: Vec<Pixel>,
}

impl View for PixelBuffer {
    type V = BufferView;

    open spec fn view(&self) -> BufferView {
        BufferView { width: self.width as nat, height: self.height as nat, samples: self.samples@ }
    }
}

impl PixelBuffer {
    pub open spec fn wf(&self) -> bool {
        view_wf(self@)
    }

    /// Wraps `samples` as a `width` x `height` buffer; the count must match.
    pub fn new(width: usize, height: usize, samples: Vec<Pixel>) -> (r: Result<PixelBuffer, FilterError>)
        ensures
            samples@.len() == width * height <==> r is Ok,
            r is Ok ==> r->Ok_0.wf() && r->Ok_0@ == (BufferView {
                width: width as nat,
                height: height as nat,
                samples: samples@,
            }),
            r is Err ==> r->Err_0 == FilterError::Dimension,
    {
        let len = samples.len();
        match width.checked_mul(height) {
            Some(n) => {
                if len == n {
                    Ok(PixelBuffer { width, height, samples })
                } else {
                    Err(FilterError::Dimension)
                }
            },
            None => Err(FilterError::Dimension),
        }
    }

    /// A `width` x `height` buffer with every sample equal to `p`.
    pub fn filled(width: usize, height: usize, p: Pixel) -> (r: PixelBuffer)
        requires
            width * height <= usize::MAX,
        ensures
            r.wf(),
            r@.width == width,
            r@.height == height,
            forall|i: int| 0 <= i < r@.samples.len() ==> r@.samples[i] == p,
    {
        let n = width * height;
        let mut samples: Vec<Pixel> = Vec::new();
        let mut i: usize = 0;
        while i < n
            invariant
                i <= n,
                samples@.len() == i,
                forall|j: int| 0 <= j < i ==> samples@[j] == p,
            decreases n - i,
        {
            samples.push(p);
            i = i + 1;
        }
        PixelBuffer { width, height, samples }
    }

    /// Reads a `width` x `height` buffer from interleaved `R, G, B` bytes;
    /// fails with `Dimension` unless there are exactly `3 * width * height`.
    pub fn from_raw(width: usize, height: usize, bytes: &Vec<u8>) -> (r: Result<PixelBuffer, FilterError>)
        ensures
            bytes@.len() == 3 * width * height <==> r is Ok,
            r is Ok ==> r->Ok_0.wf() && r->Ok_0.width == width && r->Ok_0.height == height
                && r->Ok_0.samples@ == unpack(bytes@),
            r is Err ==> r->Err_0 == FilterError::Dimension,
    {
        let len = bytes.len();
        if len % 3 != 0 {
            proof {
                if len == 3 * width * height {
                    assert(3 * width * height == (width * height) * 3) by (nonlinear_arith);
                    vstd::arithmetic::div_mod::lemma_mod_multiples_basic(width * height, 3);
                }
            }
            return Err(FilterError::Dimension);
        }
        let n = len / 3;
        let samples = read_samples(bytes, n);
        assert(bytes@.take(3 * n) =~= bytes@);
        let r = PixelBuffer::new(width, height, samples);
        proof {
            assert(3 * width * height == 3 * (width * height)) by (nonlinear_arith);
        }
        r
    }

    /// The samples as interleaved `R, G, B` bytes.
    pub fn to_raw(&self) -> (r: Vec<u8>)
        ensures
            r@.len() == 3 * self.samples@.len(),
            unpack(r@) == self.samples@,
    {
        let mut out: Vec<u8> = Vec::new();
        let mut i: usize = 0;
        while i < self.samples.len()
            invariant
                i <= self.samples@.len(),
                out@.len() == 3 * i,
                forall|j: int| 0 <= j < i ==> #[trigger] unpack(out@)[j] == self.samples@[j],
            decreases self.samples@.len() - i,
        {
            let p = self.samples[i];
            let ghost prev = out@;
            out.push(p.r);
            out.push(p.g);
            out.push(p.b);
            assert forall|j: int| 0 <= j < i + 1 implies #[trigger] unpack(out@)[j] == self.samples@[j] by {
                if j < i {
                    assert(unpack(prev)[j] == self.samples@[j]);
                    assert(out@[3 * j] == prev[3 * j]);
                    assert(out@[3 * j + 1] == prev[3 * j + 1]);
                    assert(out@[3 * j + 2] == prev[3 * j + 2]);
                }
            }
            i = i + 1;
        }
        assert(unpack(out@) =~= self.samples@);
        out
    }

    pub fn width(&self) -> (r: usize)
        ensures
            r == self.width,
    {
        self.width
    }

    pub fn height(&self) -> (r: usize)
        ensures
            r == self.height,
    {
        self.height
    }

    /// The sample at `(x, y)`.
    pub fn get_pixel(&self, x: usize, y: usize) -> (r: Pixel)
        requires
            self.wf(),
            x < self.width,
            y < self.height,
        ensures
            r == at(self@, x as int, y as int),
    {
        let len = self.samples.len();
        proof {
            lemma_index_in_range(self.width as int, self.height as int, x as int, y as int);
        }
        self.samples[y * self.width + x]
    }
}

/// Interleaved `R, G, B` bytes read as samples; a trailing partial sample is dropped.
pub open spec fn unpack(bytes: Seq<u8>) -> Seq<Pixel> {
    Seq::new(
        (bytes.len() / 3) as nat,
        |i: int| Pixel { r: bytes[3 * i], g: bytes[3 * i + 1], b: bytes[3 * i + 2] },
    )
}

/// The first `n` samples of interleaved `R, G, B` bytes.
fn read_samples(bytes: &Vec<u8>, n: usize) -> (r: Vec<Pixel>)
    requires
        3 * n <= bytes@.len(),
    ensures
        r@ == unpack(bytes@.take(3 * n)),
{
    let ghost pre = bytes@.take(3 * n);
    let len = bytes.len();
    let mut samples: Vec<Pixel> = Vec::new();
    let mut i: usize = 0;
    while i < n
        invariant
            len == bytes@.len(),
            3 * n <= len,
            pre == bytes@.take(3 * n),
            i <= n,
            samples@.len() == i,
            forall|j: int| 0 <= j < i ==> #[trigger] samples@[j] == unpack(pre)[j],
        decreases n - i,
    {
        samples.push(Pixel { r: bytes[3 * i], g: bytes[3 * i + 1], b: bytes[3 * i + 2] });
        i = i + 1;
    }
    assert(samples@ =~= unpack(pre));
    samples
}

/// A coordinate inside a `w` x `h` raster has a row-major index below `w * h`.
pub proof fn lemma_index_in_range(w: int, h: int, x: int, y: int)
    requires
        0 <= x < w,
        0 <= y < h,
    ensures
        0 <= y * w + x < w * h,
        y * w + x <= w * h - 1,
{
    assert(y * w + x < w * h) by (nonlinear_arith)
        requires
            0 <= x < w,
            0 <= y < h,
    ;
    assert(0 <= y * w) by (nonlinear_arith)
        requires
            0 <= y,
            0 <= w,
    ;
}

} // verus!
