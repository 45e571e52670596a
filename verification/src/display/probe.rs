//! A test picture: a gradient from red to green over the whole screen.

use crate::display::fb;
use crate::display::fb::{fill_h_gradient, FbInfo};
use crate::text;
use crate::text::{push_dec, push_numeral, push_text};
use vstd::prelude::*;

verus! {

/// Red: the lowest byte.
pub const RED: u32 = 0x0000_00FF;

/// Green: the byte above it.
pub const GREEN: u32 = 0x0000_FF00;

/// The line that describes a framebuffer.
pub open spec fn info_text(i: FbInfo) -> Seq<char> {
    "fb: "@ + text::dec(i.width as nat) + "x"@ + text::dec(i.height as nat) + " "@ + text::dec(
        i.bpp as nat,
    ) + " bpp pitch="@ + text::dec(i.pitch as nat) + " pa=0x"@ + text::hex(i.pa as nat) + " size="@
        + text::dec(i.size as nat)
}

/// The line tells width and height, depth and row length, and where the framebuffer lies and how large it is.
pub proof fn framebuffer_is_described(i: FbInfo)
    ensures
        text::within(text::dec(i.width as nat) + "x"@ + text::dec(i.height as nat), info_text(i)),
        text::within(text::dec(i.bpp as nat) + " bpp pitch="@ + text::dec(i.pitch as nat), info_text(i)),
        text::within(text::hex(i.pa as nat) + " size="@ + text::dec(i.size as nat), info_text(i)),
        RED == 0xFF && GREEN == 0xFF00,
{
    let w = text::dec(i.width as nat);
    let h = text::dec(i.height as nat);
    let b = text::dec(i.bpp as nat);
    let p = text::dec(i.pitch as nat);
    let a = text::hex(i.pa as nat);
    let s = text::dec(i.size as nat);
    let all = info_text(i);
    assert(all =~= "fb: "@ + (w + "x"@ + h) + (" "@ + b + " bpp pitch="@ + p + " pa=0x"@ + a + " size="@
        + s));
    assert(all =~= ("fb: "@ + w + "x"@ + h + " "@) + (b + " bpp pitch="@ + p) + (" pa=0x"@ + a + " size="@
        + s));
    assert(all =~= ("fb: "@ + w + "x"@ + h + " "@ + b + " bpp pitch="@ + p + " pa=0x"@) + (a + " size="@ + s)
        + Seq::<char>::empty());
}

/// Paints the test picture, and describes the framebuffer.
pub fn run(info: &FbInfo, words: &mut Vec<u32>) -> (line: String)
    requires
        fb::fits(*info, old(words)@),
        info.width <= 16_843_010,
    ensures
        line@ == info_text(*info),
        final(words)@ == Seq::new(
            old(words)@.len(),
            |i: int|
                if fb::is_pixel(*info, i) {
                    fb::gradient(RED, GREEN, i % fb::row_pixels(*info), info.width)
                } else {
                    old(words)@[i]
                },
        ),
{
    let mut out = String::new();
    push_text(&mut out, "fb: ");
    push_dec(&mut out, info.width as u64);
    push_text(&mut out, "x");
    push_dec(&mut out, info.height as u64);
    push_text(&mut out, " ");
    push_dec(&mut out, info.bpp as u64);
    push_text(&mut out, " bpp pitch=");
    push_dec(&mut out, info.pitch as u64);
    push_text(&mut out, " pa=0x");
    push_numeral(&mut out, info.pa, 16, 1);
    push_text(&mut out, " size=");
    push_dec(&mut out, info.size as u64);
    assert(out@ =~= info_text(*info));
    fill_h_gradient(info, words, RED, GREEN);
    out
}

} // verus!
