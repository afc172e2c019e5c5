use crate::text::str_eq;
use vstd::prelude::*;

verus! {

/// The frame counter of one device's framebuffer subscription.
#[derive(Debug, Clone, Copy)]
pub struct FrameClock {
    pub counter: u64,
    pub last_nanos: u64,
}

/// The framebuffer subscriptions, by device.
#[derive(Debug)]
pub struct Subscriptions {
    clocks: Vec<(String, FrameClock)>,
}

/// The clock of `udid`, if subscribed.
pub open spec fn clock_of(cs: Seq<(String, FrameClock)>, udid: Seq<char>) -> Option<FrameClock>
    decreases cs.len(),
{
    if cs.len() == 0 {
        None
    } else if cs.last().0@ == udid {
        Some(cs.last().1)
    } else {
        clock_of(cs.drop_last(), udid)
    }
}

impl Subscriptions {
    /// The clock of each subscribed device.
    pub closed spec fn clock(self, udid: Seq<char>) -> Option<FrameClock> {
        clock_of(self.clocks@, udid)
    }

    /// No subscriptions.
    pub fn new() -> (r: Self)
        ensures
            forall|u: Seq<char>| r.clock(u) is None,
    {
        Subscriptions { clocks: Vec::new() }
    }

    fn find(&self, udid: &str) -> (r: Option<usize>)
        ensures
            match self.clock(udid@) {
                None => r is None,
                Some(c) => r matches Some(i) && i < self.clocks.len() && self.clocks@[i as int].1
                    == c && self.clocks@[i as int].0@ == udid@ && forall|k: int|
                    i < k < self.clocks.len() ==> self.clocks@[k].0@ != udid@,
            },
    {
        let mut i = self.clocks.len();
        assert(self.clocks@.take(i as int) =~= self.clocks@);
        while i > 0
            invariant
                i <= self.clocks.len(),
                clock_of(self.clocks@, udid@) == clock_of(self.clocks@.take(i as int), udid@),
                forall|k: int| i <= k < self.clocks.len() ==> self.clocks@[k].0@ != udid@,
            decreases i,
        {
            let ghost t = self.clocks@.take(i as int);
            assert(t.drop_last() =~= self.clocks@.take(i - 1));
            if str_eq(self.clocks[i - 1].0.as_str(), udid) {
                return Some(i - 1);
            }
            i -= 1;
        }
        None
    }

    /// Whether `udid` is subscribed.
    pub fn contains(&self, udid: &str) -> (r: bool)
        ensures
            r == self.clock(udid@) is Some,
    {
        self.find(udid).is_some()
    }

    /// Subscribes `udid` with a fresh clock unless it is subscribed already.
    pub fn subscribe(&mut self, udid: &str)
        ensures
            old(self).clock(udid@) is Some ==> final(self).clock(udid@) == old(self).clock(udid@),
            old(self).clock(udid@) is None ==> final(self).clock(udid@) == Some(
                FrameClock { counter: 0, last_nanos: 0 },
            ),
            forall|u: Seq<char>| u != udid@ ==> final(self).clock(u) == old(self).clock(u),
    {
        if self.contains(udid) {
            return;
        }
        let ghost before = self.clocks@;
        self.clocks.push((String::from_str(udid), FrameClock { counter: 0, last_nanos: 0 }));
        assert(self.clocks@.drop_last() =~= before);
    }

    /// Counts a frame of `udid` seen at `now_nanos`.
    pub fn bump(&mut self, udid: &str, now_nanos: u64)
        ensures
            match old(self).clock(udid@) {
                Some(c) => final(self).clock(udid@) == Some(
                    FrameClock { counter: if c.counter == u64::MAX { 0 } else { (c.counter + 1) as u64 }, last_nanos: now_nanos },
                ),
                None => final(self).clock(udid@) is None,
            },
            forall|u: Seq<char>| u != udid@ ==> final(self).clock(u) == old(self).clock(u),
    {
        match self.find(udid) {
            Some(i) => {
                let c = self.clocks[i].1;
                let counter = c.counter.wrapping_add(1);
                let ghost before = self.clocks@;
                let name = self.clocks[i].0.clone();
                self.clocks.set(i, (name, FrameClock { counter, last_nanos: now_nanos }));
                proof {
                    lemma_set_clock(before, i as int, udid@, FrameClock { counter, last_nanos: now_nanos });
                }
            },
            None => {},
        }
    }

    /// Frames counted for `udid`, 0 when it is not subscribed.
    pub fn current_counter(&self, udid: &str) -> (r: u64)
        ensures
            r == match self.clock(udid@) {
                Some(c) => c.counter,
                None => 0,
            },
    {
        match self.find(udid) {
            Some(i) => self.clocks[i].1.counter,
            None => 0,
        }
    }

    /// Frames counted for `udid` since counter value `last`.
    pub fn frames_since(&self, udid: &str, last: u64) -> (r: u64)
        ensures
            ({
                let now = match self.clock(udid@) {
                    Some(c) => c.counter,
                    None => 0,
                };
                r == if now >= last { now - last } else { 0 }
            }),
    {
        let now = self.current_counter(udid);
        now.saturating_sub(last)
    }

    /// When the last frame of `udid` was counted, 0 when it is not
    /// subscribed.
    pub fn last_frame_nanos(&self, udid: &str) -> (r: u64)
        ensures
            r == match self.clock(udid@) {
                Some(c) => c.last_nanos,
                None => 0,
            },
    {
        match self.find(udid) {
            Some(i) => self.clocks[i].1.last_nanos,
            None => 0,
        }
    }

    /// Whether a frame after counter value `last` has arrived: the current
    /// counter when it is past `last`; an error when `udid` is not
    /// subscribed.
    pub fn wait_frame_after(&self, udid: &str, last: u64) -> (r: Result<Option<u64>, ()>)
        ensures
            match self.clock(udid@) {
                None => r is Err,
                Some(c) => r == Ok::<Option<u64>, ()>(if c.counter > last {
                    Some(c.counter)
                } else {
                    None
                }),
            },
    {
        match self.find(udid) {
            None => Err(()),
            Some(i) => {
                let now = self.clocks[i].1.counter;
                Ok(if now > last {
                    Some(now)
                } else {
                    None
                })
            },
        }
    }
}

proof fn lemma_set_clock(cs: Seq<(String, FrameClock)>, i: int, udid: Seq<char>, c: FrameClock)
    requires
        0 <= i < cs.len(),
        cs[i].0@ == udid,
        clock_of(cs, udid) == Some(cs[i].1),
        forall|k: int| i < k < cs.len() ==> cs[k].0@ != udid,
    ensures
        clock_of(cs.update(i, (cs[i].0, c)), udid) == Some(c),
        forall|u: Seq<char>| u != udid ==> clock_of(cs.update(i, (cs[i].0, c)), u) == clock_of(cs, u),
    decreases cs.len(),
{
    let n = cs.update(i, (cs[i].0, c));
    if i == cs.len() - 1 {
        assert(n.drop_last() =~= cs.drop_last());
    } else {
        assert(n.drop_last() =~= cs.drop_last().update(i, (cs[i].0, c)));
        assert(cs.last().0@ != udid);
        lemma_set_clock(cs.drop_last(), i, udid, c);
    }
    assert forall|u: Seq<char>| u != udid implies clock_of(n, u) == clock_of(cs, u) by {
        lemma_clock_other(cs, i, udid, c, u);
    }
}

proof fn lemma_clock_other(cs: Seq<(String, FrameClock)>, i: int, udid: Seq<char>, c: FrameClock, u: Seq<char>)
    requires
        0 <= i < cs.len(),
        cs[i].0@ == udid,
        u != udid,
    ensures
        clock_of(cs.update(i, (cs[i].0, c)), u) == clock_of(cs, u),
    decreases cs.len(),
{
    let n = cs.update(i, (cs[i].0, c));
    if i == cs.len() - 1 {
        assert(n.drop_last() =~= cs.drop_last());
    } else {
        assert(n.drop_last() =~= cs.drop_last().update(i, (cs[i].0, c)));
        lemma_clock_other(cs.drop_last(), i, udid, c, u);
    }
}


/// The `IOSurface` pixel format code of 8-bit BGRA.
pub const FOURCC_BGRA: u32 = 0x42475241;
/// The `IOSurface` pixel format code of 8-bit RGBA.
pub const FOURCC_RGBA: u32 = 0x52474241;
/// The `IOSurface` pixel format code of 8-bit ARGB.
pub const FOURCC_ARGB: u32 = 0x41524742;

/// The byte order of a 4-byte framebuffer pixel.
#[derive(Debug, Clone, Copy, PartialEq, Eq, Structural)]
pub enum PixelFormat {
    Bgra,
    Rgba,
    Argb,
}

/// The layout of a pixel format code; unknown codes are read as BGRA.
pub open spec fn format_of(fourcc: u32) -> PixelFormat {
    if fourcc == FOURCC_RGBA {
        PixelFormat::Rgba
    } else if fourcc == FOURCC_ARGB {
        PixelFormat::Argb
    } else {
        PixelFormat::Bgra
    }
}

/// The pixel layout for a format code.
pub fn pixel_format(fourcc: u32) -> (r: PixelFormat)
    ensures
        r == format_of(fourcc),
{
    if fourcc == FOURCC_RGBA {
        PixelFormat::Rgba
    } else if fourcc == FOURCC_ARGB {
        PixelFormat::Argb
    } else {
        PixelFormat::Bgra
    }
}

/// Where red (`c == 0`), green (1) and blue (2) stand within a pixel.
pub open spec fn channel_offset(f: PixelFormat, c: int) -> int {
    match f {
        PixelFormat::Bgra => 2 - c,
        PixelFormat::Rgba => c,
        PixelFormat::Argb => c + 1,
    }
}

/// Byte `k` of the packed picture: pixel `k / 3`, channel `k % 3`, sampled
/// from the source pixel that the output pixel falls on when the source is
/// scaled to `out_w` by `out_h`.
pub open spec fn packed_byte(
    src: Seq<u8>,
    width: int,
    height: int,
    bytes_per_row: int,
    f: PixelFormat,
    out_w: int,
    out_h: int,
    k: int,
) -> u8 {
    let p = k / 3;
    let y = p / out_w;
    let x = p % out_w;
    src[(y * height / out_h) * bytes_per_row + (x * width / out_w) * 4 + channel_offset(f, k % 3)]
}

/// Why a framebuffer could not be packed.
#[derive(Debug, Clone, Copy, PartialEq, Eq, Structural)]
pub enum PackError {
    /// A zero width or height.
    EmptyFrame,
    /// Rows shorter than four bytes per pixel.
    ShortRows,
    /// Fewer bytes than `bytes_per_row * height`.
    ShortBuffer,
}

impl PackError {
    /// The error as text.
    pub fn message(&self) -> (r: String)
        ensures
            match self {
                PackError::EmptyFrame => r@ == "Frame size must be positive"@,
                PackError::ShortRows => r@ == "bytesPerRow is smaller than width"@,
                PackError::ShortBuffer => r@ == "BGRA buffer is shorter than bytesPerRow * height"@,
            },
    {
        match self {
            PackError::EmptyFrame => String::from_str("Frame size must be positive"),
            PackError::ShortRows => String::from_str("bytesPerRow is smaller than width"),
            PackError::ShortBuffer => String::from_str(
                "BGRA buffer is shorter than bytesPerRow * height",
            ),
        }
    }
}

/// `i * n / m` names an index below `n` when `i < m`.
proof fn lemma_scaled_index(i: int, n: int, m: int)
    requires
        0 <= i < m,
        0 < n,
    ensures
        0 <= i * n / m < n,
{
    assert(0 <= i * n) by (nonlinear_arith)
        requires
            0 <= i,
            0 < n,
    ;
    vstd::arithmetic::div_mod::lemma_fundamental_div_mod(i * n, m);
    vstd::arithmetic::div_mod::lemma_mod_pos_bound(i * n, m);
    vstd::arithmetic::div_mod::lemma_div_pos_is_pos(i * n, m);
    let q = i * n / m;
    if q >= n {
        vstd::arithmetic::mul::lemma_mul_inequality(n, q, m);
        vstd::arithmetic::mul::lemma_mul_strict_inequality(i, m, n);
        vstd::arithmetic::mul::lemma_mul_is_commutative(m, q);
        vstd::arithmetic::mul::lemma_mul_is_commutative(m, n);
    }
}

/// The row of source row `sy` fits in the buffer.
proof fn lemma_row_fits(sy: int, height: int, bytes_per_row: int, width: int)
    requires
        0 <= sy < height,
        0 <= width,
        width * 4 <= bytes_per_row,
    ensures
        0 <= sy * bytes_per_row,
        sy * bytes_per_row + width * 4 <= height * bytes_per_row,
{
    assert(0 <= sy * bytes_per_row) by (nonlinear_arith)
        requires
            0 <= sy,
            0 <= bytes_per_row,
    ;
    assert(sy * bytes_per_row + bytes_per_row <= height * bytes_per_row) by (nonlinear_arith)
        requires
            sy + 1 <= height,
            0 <= bytes_per_row,
    ;
}

/// Byte `k` of output pixel `(y, x)` lies at `(y * out_w + x) * 3 + c`.
proof fn lemma_pixel_index(y: int, x: int, c: int, out_w: int)
    requires
        0 <= y,
        0 <= x < out_w,
        0 <= c < 3,
    ensures
        ((y * out_w + x) * 3 + c) / 3 == y * out_w + x,
        ((y * out_w + x) * 3 + c) % 3 == c,
        (y * out_w + x) / out_w == y,
        (y * out_w + x) % out_w == x,
{
    vstd::arithmetic::div_mod::lemma_fundamental_div_mod_converse(
        (y * out_w + x) * 3 + c,
        3,
        y * out_w + x,
        c,
    );
    vstd::arithmetic::div_mod::lemma_fundamental_div_mod_converse(y * out_w + x, out_w, y, x);
}

/// Packs the framebuffer `src` (`height` rows of `bytes_per_row` bytes, four
/// bytes per pixel in the layout `fourcc` names, padding after each row) into
/// `out` as 8-bit RGB of `out_w` by `out_h` pixels, each sampled from the
/// source pixel it falls on. Returns the output size.
pub fn pack_to_rgb(
    src: &[u8],
    width: u32,
    height: u32,
    bytes_per_row: usize,
    fourcc: u32,
    out_w: u32,
    out_h: u32,
    out: &mut Vec<u8>,
) -> (r: Result<(u32, u32), PackError>)
    requires
        1 <= out_w,
        1 <= out_h,
        out_w * out_h * 3 <= usize::MAX,
        height * bytes_per_row <= usize::MAX,
    ensures
        width == 0 || height == 0 ==> r == Err::<(u32, u32), PackError>(PackError::EmptyFrame),
        width > 0 && height > 0 && bytes_per_row < width * 4 ==> r == Err::<(u32, u32), PackError>(
            PackError::ShortRows,
        ),
        width > 0 && height > 0 && bytes_per_row >= width * 4 && src@.len() < height
            * bytes_per_row ==> r == Err::<(u32, u32), PackError>(PackError::ShortBuffer),
        width > 0 && height > 0 && bytes_per_row >= width * 4 && src@.len() >= height
            * bytes_per_row ==> r == Ok::<(u32, u32), PackError>((out_w, out_h)),
        r is Err ==> final(out)@ == old(out)@,
        r is Ok ==> {
            &&& width > 0 && height > 0
            &&& bytes_per_row >= width * 4
            &&& src@.len() >= height * bytes_per_row
            &&& r == Ok::<(u32, u32), PackError>((out_w, out_h))
            &&& final(out)@.len() == out_w * out_h * 3
            &&& forall|k: int|
                0 <= k < final(out)@.len() ==> #[trigger] final(out)@[k] == packed_byte(
                    src@,
                    width as int,
                    height as int,
                    bytes_per_row as int,
                    format_of(fourcc),
                    out_w as int,
                    out_h as int,
                    k,
                )
        },
{
    if width == 0 || height == 0 {
        return Err(PackError::EmptyFrame);
    }
    if (bytes_per_row as u64) < (width as u64) * 4 {
        return Err(PackError::ShortRows);
    }
    let needed = height as usize * bytes_per_row;
    if src.len() < needed {
        return Err(PackError::ShortBuffer);
    }
    let f = pixel_format(fourcc);
    let ghost fmt = format_of(fourcc);
    out.clear();
    let mut y: u32 = 0;
    while y < out_h
        invariant
            0 < width,
            0 < height,
            1 <= out_w,
            1 <= out_h,
            out_w * out_h * 3 <= usize::MAX,
            width * 4 <= bytes_per_row,
            height * bytes_per_row <= src@.len(),
            height * bytes_per_row <= usize::MAX,
            f == fmt,
            y <= out_h,
            out@.len() == y * out_w * 3,
            forall|k: int|
                0 <= k < out@.len() ==> #[trigger] out@[k] == packed_byte(
                    src@,
                    width as int,
                    height as int,
                    bytes_per_row as int,
                    fmt,
                    out_w as int,
                    out_h as int,
                    k,
                ),
        decreases out_h - y,
    {
        assert((y as int) * (height as int) <= u64::MAX) by (nonlinear_arith)
            requires
                y <= u32::MAX,
                height <= u32::MAX,
                0 <= y,
                0 <= height,
        ;
        let sy_wide = (y as u64) * (height as u64) / (out_h as u64);
        proof {
            lemma_scaled_index(y as int, height as int, out_h as int);
            lemma_row_fits(sy_wide as int, height as int, bytes_per_row as int, width as int);
        }
        let sy = sy_wide as usize;
        let row = sy * bytes_per_row;
        let mut x: u32 = 0;
        while x < out_w
            invariant
                0 < width,
                0 < height,
                1 <= out_w,
                1 <= out_h,
                y < out_h,
                out_w * out_h * 3 <= usize::MAX,
                width * 4 <= bytes_per_row,
                height * bytes_per_row <= src@.len(),
                f == fmt,
                sy as int == (y as int) * (height as int) / (out_h as int),
                row as int == sy * bytes_per_row,
                row + width * 4 <= src@.len(),
                row + width * 4 <= height * bytes_per_row,
                height * bytes_per_row <= usize::MAX,
                x <= out_w,
                out@.len() == (y * out_w + x) * 3,
                forall|k: int|
                    0 <= k < out@.len() ==> #[trigger] out@[k] == packed_byte(
                        src@,
                        width as int,
                        height as int,
                        bytes_per_row as int,
                        fmt,
                        out_w as int,
                        out_h as int,
                        k,
                    ),
            decreases out_w - x,
        {
            assert((x as int) * (width as int) <= u64::MAX) by (nonlinear_arith)
                requires
                    x <= u32::MAX,
                    width <= u32::MAX,
                    0 <= x,
                    0 <= width,
            ;
            let sx_wide = (x as u64) * (width as u64) / (out_w as u64);
            proof {
                lemma_scaled_index(x as int, width as int, out_w as int);
                assert(sx_wide < width);
                assert(row + sx_wide * 4 + 3 < src@.len());
            }
            let base = row + (sx_wide as usize) * 4;
            let (r, g, b) = match f {
                PixelFormat::Bgra => (src[base + 2], src[base + 1], src[base]),
                PixelFormat::Rgba => (src[base], src[base + 1], src[base + 2]),
                PixelFormat::Argb => (src[base + 1], src[base + 2], src[base + 3]),
            };
            let ghost before = out@;
            proof {
                assert((y * out_w + x + 1) * 3 <= out_w * out_h * 3) by (nonlinear_arith)
                    requires
                        y < out_h,
                        x < out_w,
                        0 <= y,
                        0 <= x,
                ;
                lemma_pixel_index(y as int, x as int, 0, out_w as int);
                lemma_pixel_index(y as int, x as int, 1, out_w as int);
                lemma_pixel_index(y as int, x as int, 2, out_w as int);
            }
            out.push(r);
            out.push(g);
            out.push(b);
            proof {
                let k0 = (y * out_w + x) * 3;
                assert forall|k: int| 0 <= k < out@.len() implies #[trigger] out@[k]
                    == packed_byte(
                    src@,
                    width as int,
                    height as int,
                    bytes_per_row as int,
                    fmt,
                    out_w as int,
                    out_h as int,
                    k,
                ) by {
                    if k < k0 {
                        assert(out@[k] == before[k]);
                    }
                }
                assert(out@.len() == (y * out_w + x + 1) * 3);
            }
            x += 1;
        }
        proof {
            assert((y * out_w + out_w) * 3 == (y + 1) * out_w * 3) by (nonlinear_arith);
        }
        y += 1;
    }
    assert(out_h * out_w * 3 == out_w * out_h * 3) by (nonlinear_arith);
    Ok((out_w, out_h))
}


#[verifier::external_type_specification]
#[verifier::external_body]
pub struct ExJpegEncodingError(jpeg_encoder::EncodingError);

#[verifier::external_type_specification]
#[verifier::external_body]
pub struct ExPngEncodingError(png::EncodingError);

/// The JPEG that `jpeg_encoder::Encoder` writes for `width` by `height`
/// 8-bit RGB pixels taken from `rgb` at `quality`; it depends on these
/// arguments alone.
pub uninterp spec fn jpeg_of(rgb: Seq<u8>, width: u16, height: u16, quality: u8) -> Seq<u8>;

/// The PNG that `png::Encoder` writes for `width` by `height` 8-bit RGB
/// pixels in `rgb`; it depends on these arguments alone.
pub uninterp spec fn png_of(rgb: Seq<u8>, width: u32, height: u32) -> Seq<u8>;

/// `jpeg_encoder::Encoder::new(.., quality).encode(rgb, width, height,
/// ColorType::Rgb)` into memory. The encoder refuses data shorter than
/// `width * height * 3` bytes and a zero side; writing to a `Vec` cannot
/// fail. What it writes is named `jpeg_of`; it begins with the SOI marker
/// `FF D8` and ends with EOI. The compressed bytes themselves are not stated.
#[verifier::external_body]
fn jpeg_encode(rgb: &[u8], width: u16, height: u16, quality: u8) -> (r: Result<
    Vec<u8>,
    jpeg_encoder::EncodingError,
>)
    requires
        1 <= quality <= 100,
        width * height * 3 <= usize::MAX,
    ensures
        r is Ok <==> (width > 0 && height > 0 && rgb@.len() >= width * height * 3),
        r matches Ok(v) ==> v@ == jpeg_of(rgb@, width, height, quality) && v@.len() >= 4 && v@[0]
            == 0xFFu8 && v@[1] == 0xD8u8,
{
    let mut out = Vec::new();
    let done = jpeg_encoder::Encoder::new(&mut out, quality).encode(rgb, width, height, jpeg_encoder::ColorType::Rgb);
    match done {
        Ok(()) => Ok(out),
        Err(error) => Err(error),
    }
}

/// `png::Encoder::new(.., width, height)` set to 8-bit RGB, then
/// `write_header`, `write_image_data(rgb)` and `finish`, into memory. The
/// encoder refuses a zero side and data of another length than
/// `width * height * 3` bytes; writing to a `Vec` cannot fail. What it
/// writes is named `png_of`; it begins with the PNG signature. The
/// compressed bytes themselves are not stated.
#[verifier::external_body]
fn png_encode(rgb: &[u8], width: u32, height: u32) -> (r: Result<Vec<u8>, png::EncodingError>)
    requires
        width * height * 3 <= usize::MAX,
    ensures
        r is Ok <==> (width > 0 && height > 0 && rgb@.len() == width * height * 3),
        r matches Ok(v) ==> v@ == png_of(rgb@, width, height) && v@.len() >= 8 && v@.take(8)
            == seq![0x89u8, 0x50u8, 0x4Eu8, 0x47u8, 0x0Du8, 0x0Au8, 0x1Au8, 0x0Au8],
{
    let mut out = Vec::new();
    let mut encoder = png::Encoder::new(&mut out, width, height);
    encoder.set_color(png::ColorType::Rgb);
    encoder.set_depth(png::BitDepth::Eight);
    let mut writer = encoder.write_header()?;
    writer.write_image_data(rgb)?;
    writer.finish()?;
    Ok(out)
}

/// Why a frame could not be encoded.
#[derive(Debug, Clone, Copy, PartialEq, Eq)]
pub enum EncodeError {
    /// A side of the frame is over 65535 pixels, more than JPEG can hold.
    TooLarge,
    /// The JPEG encoder refused the frame: a zero side, or fewer bytes than
    /// the pixels need.
    Jpeg,
    /// The PNG encoder refused the frame: a zero side, or another number of
    /// bytes than the pixels need.
    Png,
}

impl EncodeError {
    /// The error as text.
    pub fn message(&self) -> (r: &'static str)
        ensures
            r@ == match self {
                EncodeError::TooLarge => "Frame is too large"@,
                EncodeError::Jpeg => "JPEG encode failed"@,
                EncodeError::Png => "PNG encode failed"@,
            },
    {
        match self {
            EncodeError::TooLarge => "Frame is too large",
            EncodeError::Jpeg => "JPEG encode failed",
            EncodeError::Png => "PNG encode failed",
        }
    }
}

/// The quality the JPEG encoder is given: `quality` clamped to 1..=100.
pub open spec fn clamp_quality(quality: u8) -> u8 {
    if quality < 1 {
        1
    } else if quality > 100 {
        100
    } else {
        quality
    }
}

/// Encodes `width` by `height` 8-bit RGB pixels as a JPEG at `quality`
/// clamped to 1..=100. A side over 65535 is refused before the encoder runs.
pub fn encode_rgb_jpeg(rgb: &[u8], width: u32, height: u32, quality: u8) -> (r: Result<
    Vec<u8>,
    EncodeError,
>)
    requires
        width > 65535 || height > 65535 || width * height * 3 <= usize::MAX,
    ensures
        (width > 65535 || height > 65535) ==> r == Err::<Vec<u8>, EncodeError>(EncodeError::TooLarge),
        width <= 65535 && height <= 65535 ==> {
            &&& (width > 0 && height > 0 && rgb@.len() >= width * height * 3) ==> (r matches Ok(v)
                && v@ == jpeg_of(rgb@, width as u16, height as u16, clamp_quality(quality)))
            &&& !(width > 0 && height > 0 && rgb@.len() >= width * height * 3) ==> r == Err::<
                Vec<u8>,
                EncodeError,
            >(EncodeError::Jpeg)
        },
{
    if width > 65535 || height > 65535 {
        return Err(EncodeError::TooLarge);
    }
    let q = if quality < 1 {
        1
    } else if quality > 100 {
        100
    } else {
        quality
    };
    match jpeg_encode(rgb, width as u16, height as u16, q) {
        Ok(v) => Ok(v),
        Err(_) => Err(EncodeError::Jpeg),
    }
}

/// Encodes `width` by `height` 8-bit RGB pixels as a PNG.
pub fn encode_rgb_png(rgb: &[u8], width: u32, height: u32) -> (r: Result<Vec<u8>, EncodeError>)
    requires
        width * height * 3 <= usize::MAX,
    ensures
        (width > 0 && height > 0 && rgb@.len() == width * height * 3) ==> (r matches Ok(v) && v@
            == png_of(rgb@, width, height)),
        !(width > 0 && height > 0 && rgb@.len() == width * height * 3) ==> r == Err::<
            Vec<u8>,
            EncodeError,
        >(EncodeError::Png),
{
    match png_encode(rgb, width, height) {
        Ok(v) => Ok(v),
        Err(_) => Err(EncodeError::Png),
    }
}

} // verus!
