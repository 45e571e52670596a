//! The framebuffer that the firmware gives: its geometry, and filling it.

use crate::nhboot::mailbox::MailboxError;
use vstd::prelude::*;

verus! {

/// Bits of a pixel.
pub const FB_DEPTH: u32 = 32;

/// Red in the lowest byte.
pub const FB_PIXEL_ORDER_RGB: u32 = 1;

/// The framebuffer's alignment.
pub const FB_ALIGN: u32 = 4096;

/// What is asked for where the panel has no size.
pub const FALLBACK_WIDTH: u32 = 1024;

pub const FALLBACK_HEIGHT: u32 = 768;

/// A framebuffer.
#[derive(Clone, Copy, PartialEq, Eq, Structural, Debug)]
pub struct FbInfo {
    pub pa: u64,
    pub width: u32,
    pub height: u32,
    /// Bytes of a row.
    pub pitch: u32,
    pub bpp: u32,
    pub size: u32,
}

/// Why there is no framebuffer.
#[derive(Clone, Copy, PartialEq, Eq, Structural, Debug)]
pub enum FbError {
    Mailbox(MailboxError),
    /// The firmware gave one without an address or without a size.
    EmptyAllocation,
}

/// What is asked of the firmware.
#[derive(Clone, Copy, PartialEq, Eq, Structural, Debug)]
pub struct FbRequest {
    pub width: u32,
    pub height: u32,
    pub depth: u32,
    pub pixel_order: u32,
    pub align: u32,
}

/// A framebuffer is asked for with the size that is wanted, 32 bits to a pixel, red first, on a page.
pub proof fn requests_ask_for_the_size(w: u32, h: u32)
    ensures
        request(w, h).width == w && request(w, h).height == h,
        request(w, h).depth == 32 && request(w, h).pixel_order == 1 && request(w, h).align == 4096,
        FALLBACK_WIDTH == 1024 && FALLBACK_HEIGHT == 768,
{
}

/// What the firmware gave.
#[derive(Clone, Copy, PartialEq, Eq, Structural, Debug)]
pub struct FbAllocation {
    pub bus_addr: u32,
    pub size: u32,
    pub width: u32,
    pub height: u32,
    pub pitch: u32,
    pub depth: u32,
}

/// The request for a framebuffer of `w` by `h` pixels.
pub open spec fn request(w: u32, h: u32) -> FbRequest {
    FbRequest {
        width: w,
        height: h,
        depth: FB_DEPTH,
        pixel_order: FB_PIXEL_ORDER_RGB,
        align: FB_ALIGN,
    }
}

/// The request for a framebuffer of the panel's size, as the firmware tells it. A panel
/// without a size gets one that shows once a monitor is there.
pub fn alloc_native(panel: Result<(u32, u32), MailboxError>) -> (r: Result<FbRequest, FbError>)
    ensures
        r == (match panel {
            Err(e) => Err::<FbRequest, FbError>(FbError::Mailbox(e)),
            Ok((w, h)) => if w == 0 || h == 0 {
                Ok(request(FALLBACK_WIDTH, FALLBACK_HEIGHT))
            } else {
                Ok(request(w, h))
            },
        }),
{
    match panel {
        Err(e) => Err(FbError::Mailbox(e)),
        Ok((panel_w, panel_h)) => {
            let (w, h) = if panel_w == 0 || panel_h == 0 {
                (FALLBACK_WIDTH, FALLBACK_HEIGHT)
            } else {
                (panel_w, panel_h)
            };
            Ok(
                FbRequest {
                    width: w,
                    height: h,
                    depth: FB_DEPTH,
                    pixel_order: FB_PIXEL_ORDER_RGB,
                    align: FB_ALIGN,
                },
            )
        },
    }
}

/// The framebuffer that the firmware gave: at its bus address without the two bits that
/// choose an alias.
pub fn alloc_fb(reply: Result<FbAllocation, MailboxError>) -> (r: Result<FbInfo, FbError>)
    ensures
        r == (match reply {
            Err(e) => Err::<FbInfo, FbError>(FbError::Mailbox(e)),
            Ok(a) => if a.bus_addr == 0 || a.size == 0 {
                Err(FbError::EmptyAllocation)
            } else {
                Ok(
                    FbInfo {
                        pa: (a.bus_addr % 0x4000_0000) as u64,
                        width: a.width,
                        height: a.height,
                        pitch: a.pitch,
                        bpp: a.depth,
                        size: a.size,
                    },
                )
            },
        }),
{
    match reply {
        Err(e) => Err(FbError::Mailbox(e)),
        Ok(a) => {
            if a.bus_addr == 0 || a.size == 0 {
                return Err(FbError::EmptyAllocation);
            }
            Ok(
                FbInfo {
                    pa: (a.bus_addr % 0x4000_0000) as u64,
                    width: a.width,
                    height: a.height,
                    pitch: a.pitch,
                    bpp: a.depth,
                    size: a.size,
                },
            )
        },
    }
}

/// Pixels of a row, padding and all.
pub open spec fn row_pixels(fb: FbInfo) -> int {
    fb.pitch as int / 4
}

/// The framebuffer's words: a row is no shorter than its pixels, and every row is there.
pub open spec fn fits(fb: FbInfo, words: Seq<u32>) -> bool {
    &&& fb.width <= row_pixels(fb)
    &&& fb.height * row_pixels(fb) <= words.len()
}

/// Whether word `i` is a pixel.
pub open spec fn is_pixel(fb: FbInfo, i: int) -> bool {
    row_pixels(fb) > 0 && i / row_pixels(fb) < fb.height && i % row_pixels(fb) < fb.width
}

/// Pixel `x` of `width`, from `left` to `right`: each byte in proportion, rounded down.
pub open spec fn mixed(left: u8, right: u8, x: int, span: int) -> int {
    (left * (span - x) + right * x) / span
}

/// The steps from the first to the last of `width` pixels, at least one.
pub open spec fn span(width: u32) -> int {
    if width <= 1 {
        1
    } else {
        width - 1
    }
}

/// Byte `k` of a pixel.
pub open spec fn channel(pixel: u32, k: int) -> u8 {
    (pixel as int / (if k == 0 {
        1int
    } else if k == 1 {
        0x100
    } else if k == 2 {
        0x1_0000
    } else {
        0x100_0000
    }) % 0x100) as u8
}

/// Pixel `x` of a gradient.
pub open spec fn gradient(left: u32, right: u32, x: int, width: u32) -> u32 {
    let s = span(width);
    (mixed(channel(left, 0), channel(right, 0), x, s) + mixed(
        channel(left, 1),
        channel(right, 1),
        x,
        s,
    ) * 0x100 + mixed(channel(left, 2), channel(right, 2), x, s) * 0x1_0000 + mixed(
        channel(left, 3),
        channel(right, 3),
        x,
        s,
    ) * 0x100_0000) as u32
}

proof fn mixed_bounds(a: u8, b: u8, x: int, s: int)
    requires
        0 <= x <= s,
        s > 0,
    ensures
        0 <= mixed(a, b, x, s) <= 255,
        0 <= a * (s - x) + b * x <= 255 * s,
        x == 0 ==> mixed(a, b, x, s) == a,
        x == s ==> mixed(a, b, x, s) == b,
        a <= b ==> a <= mixed(a, b, x, s) <= b,
        b <= a ==> b <= mixed(a, b, x, s) <= a,
{
    let n = a * (s - x) + b * x;
    assert(0 <= n <= 255 * s) by (nonlinear_arith)
        requires
            n == a * (s - x) + b * x,
            0 <= a <= 255,
            0 <= b <= 255,
            0 <= x <= s,
    ;
    assert(a <= b ==> a * s <= n <= b * s) by (nonlinear_arith)
        requires
            n == a * (s - x) + b * x,
            0 <= x <= s,
    ;
    assert(b <= a ==> b * s <= n <= a * s) by (nonlinear_arith)
        requires
            n == a * (s - x) + b * x,
            0 <= x <= s,
    ;
    assert(x == 0 ==> n == a * s) by (nonlinear_arith)
        requires
            n == a * (s - x) + b * x,
    ;
    assert(x == s ==> n == b * s) by (nonlinear_arith)
        requires
            n == a * (s - x) + b * x,
    ;
    quotient_between(n, s, a as int, b as int);
    quotient_between(n, s, 0, 255);
    quotient_between(n, s, a as int, a as int);
    quotient_between(n, s, b as int, b as int);
    quotient_between(n, s, b as int, a as int);
}

proof fn quotient_between(n: int, s: int, lo: int, hi: int)
    requires
        s > 0,
    ensures
        lo * s <= n <= hi * s ==> lo <= n / s <= hi,
{
    if lo * s <= n <= hi * s {
        vstd::arithmetic::div_mod::lemma_div_is_ordered(lo * s, n, s);
        vstd::arithmetic::div_mod::lemma_div_is_ordered(n, hi * s, s);
        vstd::arithmetic::div_mod::lemma_div_multiples_vanish(lo, s);
        vstd::arithmetic::div_mod::lemma_div_multiples_vanish(hi, s);
        vstd::arithmetic::mul::lemma_mul_is_commutative(lo, s);
        vstd::arithmetic::mul::lemma_mul_is_commutative(hi, s);
    }
}

/// A gradient starts with its left colour and ends with its right one.
pub proof fn gradient_ends(left: u32, right: u32, width: u32)
    requires
        width >= 2,
    ensures
        gradient(left, right, 0, width) == left,
        gradient(left, right, width - 1, width) == right,
{
    let s = span(width);
    assert forall|k: int| 0 <= k < 4 implies mixed(
        #[trigger] channel(left, k),
        channel(right, k),
        0,
        s,
    ) == channel(left, k) && mixed(channel(left, k), channel(right, k), s, s) == channel(
        right,
        k,
    ) by {
        mixed_bounds(channel(left, k), channel(right, k), 0, s);
        mixed_bounds(channel(left, k), channel(right, k), s, s);
    }
    channels_compose(left);
    channels_compose(right);
}

proof fn channels_compose(p: u32)
    ensures
        channel(p, 0) + channel(p, 1) * 0x100 + channel(p, 2) * 0x1_0000 + channel(p, 3)
            * 0x100_0000 == p,
{
}

/// A gradient is a straight line: byte `k` of its pixel `x` is that byte of the left colour and that of
/// the right one in proportion to the distances from either end, rounded down.
pub proof fn gradient_is_linear(left: u32, right: u32, x: int, width: u32)
    requires
        width >= 2,
        0 <= x < width,
    ensures
        ({
            let g = gradient(left, right, x, width) as int;
            let s = width - 1;
            &&& on_line(left as int % 256, right as int % 256, g % 256, x, s)
            &&& on_line(left as int / 256 % 256, right as int / 256 % 256, g / 256 % 256, x, s)
            &&& on_line(
                left as int / 0x1_0000 % 256,
                right as int / 0x1_0000 % 256,
                g / 0x1_0000 % 256,
                x,
                s,
            )
            &&& on_line(
                left as int / 0x100_0000,
                right as int / 0x100_0000,
                g / 0x100_0000,
                x,
                s,
            )
        }),
{
    let s = width - 1;
    mixed_on_line(channel(left, 0), channel(right, 0), x, s);
    mixed_on_line(channel(left, 1), channel(right, 1), x, s);
    mixed_on_line(channel(left, 2), channel(right, 2), x, s);
    mixed_on_line(channel(left, 3), channel(right, 3), x, s);
    let a = mixed(channel(left, 0), channel(right, 0), x, s);
    let b = mixed(channel(left, 1), channel(right, 1), x, s);
    let c = mixed(channel(left, 2), channel(right, 2), x, s);
    let d = mixed(channel(left, 3), channel(right, 3), x, s);
    bytes_of_sum(a, b, c, d);
}

proof fn bytes_of_sum(a: int, b: int, c: int, d: int)
    requires
        0 <= a <= 255,
        0 <= b <= 255,
        0 <= c <= 255,
        0 <= d <= 255,
    ensures
        ({
            let g = a + b * 0x100 + c * 0x1_0000 + d * 0x100_0000;
            &&& 0 <= g <= u32::MAX
            &&& g % 256 == a
            &&& g / 256 % 256 == b
            &&& g / 0x1_0000 % 256 == c
            &&& g / 0x100_0000 == d
        }),
{
    let g = a + b * 0x100 + c * 0x1_0000 + d * 0x100_0000;
    assert(g / 256 == b + c * 0x100 + d * 0x1_0000);
    assert(g / 0x1_0000 == c + d * 0x100);
}

/// Whether `m` is where the line from `a` to `b` is after `x` of `s` steps, rounded down.
pub open spec fn on_line(a: int, b: int, m: int, x: int, s: int) -> bool {
    m * s <= a * (s - x) + b * x < (m + 1) * s
}

proof fn mixed_on_line(a: u8, b: u8, x: int, s: int)
    requires
        0 <= x <= s,
        s > 0,
    ensures
        on_line(a as int, b as int, mixed(a, b, x, s), x, s),
        0 <= mixed(a, b, x, s) <= 255,
{
    mixed_bounds(a, b, x, s);
    let n = a * (s - x) + b * x;
    vstd::arithmetic::div_mod::lemma_fundamental_div_mod(n, s);
    let q = n / s;
    assert(q * s <= n < (q + 1) * s) by (nonlinear_arith)
        requires
            n == s * q + n % s,
            0 <= n % s < s,
    ;
}

/// Pixel `x` of row `y` is word `x` of the row's words, and the words behind the row's pixels, and
/// behind the last row, are none.
pub proof fn pixels_lie_in_rows(fb: FbInfo, x: int, y: int)
    requires
        0 <= x < fb.pitch as int / 4,
        0 <= y,
    ensures
        is_pixel(fb, y * (fb.pitch as int / 4) + x) <==> x < fb.width && y < fb.height,
        (y * (fb.pitch as int / 4) + x) % row_pixels(fb) == x,
{
    vstd::arithmetic::div_mod::lemma_fundamental_div_mod_converse(
        y * row_pixels(fb) + x,
        row_pixels(fb),
        y,
        x,
    );
}

fn mix(a: u8, b: u8, x: u32, s: u32) -> (m: u8)
    requires
        0 <= x <= s,
        0 < s <= 16_843_009,
    ensures
        m == mixed(a, b, x as int, s as int),
{
    proof {
        mixed_bounds(a, b, x as int, s as int);
        assert(0 <= a * (s - x) <= 255 * s) by (nonlinear_arith)
            requires
                0 <= a <= 255,
                0 <= x <= s,
        ;
        assert(0 <= b * x <= 255 * s) by (nonlinear_arith)
            requires
                0 <= b <= 255,
                0 <= x <= s,
        ;
    }
    ((a as u32 * (s - x) + b as u32 * x) / s) as u8
}

fn channel_of(p: u32, k: u32) -> (c: u8)
    requires
        k < 4,
    ensures
        c == channel(p, k as int),
{
    match k {
        0 => (p % 0x100) as u8,
        1 => (p / 0x100 % 0x100) as u8,
        2 => (p / 0x1_0000 % 0x100) as u8,
        _ => (p / 0x100_0000 % 0x100) as u8,
    }
}

fn gradient_pixel(left: u32, right: u32, x: u32, width: u32) -> (px: u32)
    requires
        x < width <= 16_843_010,
    ensures
        px == gradient(left, right, x as int, width),
{
    let s: u32 = if width <= 1 {
        1
    } else {
        width - 1
    };
    let b0: u8 = mix(channel_of(left, 0), channel_of(right, 0), x, s);
    let b1: u8 = mix(channel_of(left, 1), channel_of(right, 1), x, s);
    let b2: u8 = mix(channel_of(left, 2), channel_of(right, 2), x, s);
    let b3: u8 = mix(channel_of(left, 3), channel_of(right, 3), x, s);
    b0 as u32 + b1 as u32 * 0x100 + b2 as u32 * 0x1_0000 + b3 as u32 * 0x100_0000
}

/// Sets every pixel to one value. Padding stays as it is.
pub fn fill_solid(fb: &FbInfo, words: &mut Vec<u32>, pixel: u32)
    requires
        fits(*fb, old(words)@),
    ensures
        final(words)@ == Seq::new(
            old(words)@.len(),
            |i: int|
                if is_pixel(*fb, i) {
                    pixel
                } else {
                    old(words)@[i]
                },
        ),
{
    let ghost before = words@;
    let total: usize = words.len();
    let row: usize = (fb.pitch / 4) as usize;
    let mut i: usize = 0;
    let mut x: usize = 0;
    let mut y: usize = 0;
    if row == 0 {
        assert(words@ =~= Seq::new(
            before.len(),
            |i: int|
                if is_pixel(*fb, i) {
                    pixel
                } else {
                    before[i]
                },
        ));
        return ;
    }
    while i < total
        invariant
            i <= total,
            total == before.len(),
            words@.len() == before.len(),
            row == row_pixels(*fb),
            row > 0,
            x < row,
            y <= i,
            i == y * row + x,
            forall|k: int|
                0 <= k < i ==> #[trigger] words@[k] == (if is_pixel(*fb, k) {
                    pixel
                } else {
                    before[k]
                }),
            forall|k: int| i <= k < total ==> #[trigger] words@[k] == before[k],
        decreases total - i,
    {
        proof {
            vstd::arithmetic::div_mod::lemma_fundamental_div_mod_converse(
                i as int,
                row as int,
                y as int,
                x as int,
            );
        }
        if (y as u64) < fb.height as u64 && (x as u64) < fb.width as u64 {
            words.set(i, pixel);
        }
        proof {
            assert(y * row + row == (y + 1) * row) by (nonlinear_arith);
        }
        x = x + 1;
        i = i + 1;
        if x == row {
            x = 0;
            y = y + 1;
        }
    }
    assert(words@ =~= Seq::new(
        before.len(),
        |i: int|
            if is_pixel(*fb, i) {
                pixel
            } else {
                before[i]
            },
    ));
}

/// Fills every row with a gradient from `left` to `right`. Padding stays as it is.
pub fn fill_h_gradient(fb: &FbInfo, words: &mut Vec<u32>, left: u32, right: u32)
    requires
        fits(*fb, old(words)@),
        fb.width <= 16_843_010,
    ensures
        final(words)@ == Seq::new(
            old(words)@.len(),
            |i: int|
                if is_pixel(*fb, i) {
                    gradient(left, right, i % row_pixels(*fb), fb.width)
                } else {
                    old(words)@[i]
                },
        ),
{
    let ghost before = words@;
    let total: usize = words.len();
    let row: usize = (fb.pitch / 4) as usize;
    let mut i: usize = 0;
    let mut x: usize = 0;
    let mut y: usize = 0;
    if row == 0 {
        assert(words@ =~= Seq::new(
            before.len(),
            |i: int|
                if is_pixel(*fb, i) {
                    gradient(left, right, i % row_pixels(*fb), fb.width)
                } else {
                    before[i]
                },
        ));
        return ;
    }
    while i < total
        invariant
            i <= total,
            total == before.len(),
            words@.len() == before.len(),
            row == row_pixels(*fb),
            row > 0,
            x < row,
            y <= i,
            i == y * row + x,
            fb.width <= 16_843_010,
            forall|k: int|
                0 <= k < i ==> #[trigger] words@[k] == (if is_pixel(*fb, k) {
                    gradient(left, right, k % row_pixels(*fb), fb.width)
                } else {
                    before[k]
                }),
            forall|k: int| i <= k < total ==> #[trigger] words@[k] == before[k],
        decreases total - i,
    {
        proof {
            vstd::arithmetic::div_mod::lemma_fundamental_div_mod_converse(
                i as int,
                row as int,
                y as int,
                x as int,
            );
        }
        if (y as u64) < fb.height as u64 && (x as u64) < fb.width as u64 {
            words.set(i, gradient_pixel(left, right, x as u32, fb.width));
        }
        proof {
            assert(y * row + row == (y + 1) * row) by (nonlinear_arith);
        }
        x = x + 1;
        i = i + 1;
        if x == row {
            x = 0;
            y = y + 1;
        }
    }
    assert(words@ =~= Seq::new(
        before.len(),
        |i: int|
            if is_pixel(*fb, i) {
                gradient(left, right, i % row_pixels(*fb), fb.width)
            } else {
                before[i]
            },
    ));
}

} // verus!
