//! Which image the boot loader starts.

use crate::nhboot::image;
use crate::nhboot::image::ImageState;
use crate::text;
use crate::text::{push_dec, push_numeral, push_text};
use vstd::prelude::*;

verus! {

/// The image that the firmware loaded, by what its check found: its length, if it is valid.
pub fn old_image(state: ImageState) -> (len: Option<u32>)
    ensures
        len == (match state {
            ImageState::Valid { len, .. } => Some(len),
            _ => None,
        }),
{
    match state {
        ImageState::Valid { len, .. } => Some(len),
        _ => None,
    }
}

/// A check of an image, in words.
pub open spec fn state_text(state: ImageState) -> Seq<char> {
    match state {
        ImageState::Valid { len, crc } => "image: valid, "@ + text::dec(len as nat)
            + " bytes, crc32 "@ + text::hex_pad(crc as nat, 8),
        ImageState::BadPayloadCrc { expected, actual } =>
            "image: BadPayloadCrc (header says "@ + text::hex_pad(expected as nat, 8)
            + ", payload is "@ + text::hex_pad(actual as nat, 8) + ")"@,
        ImageState::NoMagic => "image: NoMagic"@,
        ImageState::BadHeaderCrc => "image: BadHeaderCrc"@,
        ImageState::BadLength => "image: BadLength"@,
    }
}

/// The report of a check tells what was found: of a valid image its length and checksum, and of a payload
/// that does not fit its checksum both checksums, the header's first.
pub proof fn checks_are_told(state: ImageState)
    ensures
        state matches ImageState::Valid { len, crc } ==> state_text(state) == "image: valid, "@ + (text::dec(
            len as nat,
        ) + " bytes, crc32 "@ + text::hex_pad(crc as nat, 8)),
        state matches ImageState::BadPayloadCrc { expected, actual } ==> text::within(
            text::hex_pad(expected as nat, 8) + ", payload is "@ + text::hex_pad(actual as nat, 8),
            state_text(state),
        ),
{
    if let ImageState::Valid { len, crc } = state {
        assert(state_text(state) =~= "image: valid, "@ + (text::dec(len as nat) + " bytes, crc32 "@
            + text::hex_pad(crc as nat, 8)));
    }
    if let ImageState::BadPayloadCrc { expected, actual } = state {
        assert(state_text(state) =~= "image: BadPayloadCrc (header says "@ + (text::hex_pad(
            expected as nat,
            8,
        ) + ", payload is "@ + text::hex_pad(actual as nat, 8)) + ")"@);
    }
}

/// The line that reports the check of the image that the firmware loaded.
pub fn state_line(state: ImageState) -> (out: String)
    ensures
        out@ == state_text(state),
{
    let mut out = String::new();
    match state {
        ImageState::Valid { len, crc } => {
            push_text(&mut out, "image: valid, ");
            push_dec(&mut out, len as u64);
            push_text(&mut out, " bytes, crc32 ");
            push_numeral(&mut out, crc as u64, 16, 8);
        },
        ImageState::BadPayloadCrc { expected, actual } => {
            push_text(&mut out, "image: BadPayloadCrc (header says ");
            push_numeral(&mut out, expected as u64, 16, 8);
            push_text(&mut out, ", payload is ");
            push_numeral(&mut out, actual as u64, 16, 8);
            push_text(&mut out, ")");
        },
        ImageState::NoMagic => push_text(&mut out, "image: NoMagic"),
        ImageState::BadHeaderCrc => push_text(&mut out, "image: BadHeaderCrc"),
        ImageState::BadLength => push_text(&mut out, "image: BadLength"),
    }
    assert(out@ =~= state_text(state));
    out
}

/// What the boot loader does once the handshake window has closed.
#[derive(Debug, Clone, Copy, PartialEq, Eq, Structural)]
pub enum Start {
    /// Boot the image at an address, of a length.
    Boot { base: usize, len: u32 },
    /// Stop: the uploaded image is not what was received.
    Park,
    /// Go on waiting for a host: there is nothing to boot.
    Wait,
}

/// What is started of an upload, if there was one, and of the image that was there.
pub open spec fn chosen(old: Option<u32>, upload: Option<(u32, ImageState)>) -> Start {
    match (upload, old) {
        (Some((received, state)), _) => match state {
            ImageState::Valid { len, .. } => if len == received {
                Start::Boot { base: image::NEW_BASE, len }
            } else {
                Start::Park
            },
            _ => Start::Park,
        },
        (None, Some(len)) => Start::Boot { base: image::IMAGE_ADDR, len },
        (None, None) => Start::Wait,
    }
}

/// Only a valid image is ever started. An upload is started exactly where it is valid and as long as what
/// was received, and a bad one stops the boot loader: it never falls back on the image that was there.
/// Without an upload that image is started, and where there is none the wait goes on.
pub proof fn only_valid_images_are_started(old: Option<u32>, upload: Option<(u32, ImageState)>)
    ensures
        ({
            let s = chosen(old, upload);
            &&& s is Wait <==> upload is None && old is None
            &&& upload is Some ==> (s is Boot <==> (upload->0).1 is Valid && (upload->0).1->Valid_len == (
            upload->0).0)
            &&& s is Park ==> upload is Some
            &&& s matches Start::Boot { base, len } ==> (upload is Some ==> base == image::NEW_BASE && len
                == (upload->0).0) && (upload is None ==> base == image::IMAGE_ADDR && old == Some(len))
        }),
        image::NEW_BASE != image::IMAGE_ADDR,
{
}

/// The image to start: an upload of the length that was received, if a host announced
/// itself, as its check finds it, and otherwise the image that was there, `old` bytes long.
pub fn choose_image(old: Option<u32>, upload: Option<(u32, ImageState)>) -> (s: Start)
    ensures
        s == chosen(old, upload),
{
    match upload {
        Some((received, state)) => {
            match state {
                ImageState::Valid { len, .. } => {
                    if len == received {
                        Start::Boot { base: image::NEW_BASE, len }
                    } else {
                        Start::Park
                    }
                },
                _ => Start::Park,
            }
        },
        None => {
            match old {
                Some(len) => Start::Boot { base: image::IMAGE_ADDR, len },
                None => Start::Wait,
            }
        },
    }
}

} // verus!
