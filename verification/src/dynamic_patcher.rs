//! Writing a screen resolution into the game's graphics engine image, and reading it back.
//!
//! The vanilla `GfxEngine.dll` loads its screen size with two immediate operands: the width at
//! byte offset 67214 and the height at byte offset 67219, each a 32-bit little-endian value.

use vstd::prelude::*;
use vstd::bytes::{
    lemma_auto_spec_u32_to_from_le_bytes, spec_u32_from_le_bytes, spec_u32_to_le_bytes,
    u32_from_le_bytes, u32_to_le_bytes,
};
use vstd::slice::{slice_subrange, slice_to_vec};
use vstd::string::StringExecFns;
use crate::text::{decimal, u32_to_string};

verus! {

/// Offset of the width operand (`mov ebp, <width>`).
pub const WIDTH_OFFSET: usize = 67214;

/// Offset of the height operand (`mov ebx, <height>`).
pub const HEIGHT_OFFSET: usize = 67219;

/// Smallest image that holds both operands.
pub const MIN_DLL_LEN: usize = 67223;

pub const MIN_WIDTH: u32 = 800;

pub const MAX_WIDTH: u32 = 7680;

pub const MIN_HEIGHT: u32 = 600;

pub const MAX_HEIGHT: u32 = 4320;

/// Why a patch was refused.
#[derive(Debug, Clone, Copy, PartialEq, Eq)]
pub enum PatchError {
    /// The width is outside 800..=7680.
    WidthOutOfRange(u32),
    /// The height is outside 600..=4320.
    HeightOutOfRange(u32),
    /// The image is too short to hold the height operand.
    DllTooSmall,
}

/// Why a resolution could not be read from an image.
#[derive(Debug, Clone, Copy, PartialEq, Eq)]
pub enum ReadDllError {
    /// The image is too short to hold the height operand.
    DllTooSmall,
}

pub open spec fn width_in_range(width: u32) -> bool {
    MIN_WIDTH <= width <= MAX_WIDTH
}

pub open spec fn height_in_range(height: u32) -> bool {
    MIN_HEIGHT <= height <= MAX_HEIGHT
}

/// `base` with the width and height operands replaced by the little-endian bytes of `width`
/// and `height`; every other byte is kept.
pub open spec fn patched_image(base: Seq<u8>, width: u32, height: u32) -> Seq<u8> {
    base.take(WIDTH_OFFSET as int) + spec_u32_to_le_bytes(width) + base.subrange(
        WIDTH_OFFSET + 4,
        HEIGHT_OFFSET as int,
    ) + spec_u32_to_le_bytes(height) + base.skip(HEIGHT_OFFSET + 4)
}

/// The width and height operands of an image, decoded as little-endian `u32`s.
pub open spec fn image_resolution(image: Seq<u8>) -> (u32, u32) {
    (
        spec_u32_from_le_bytes(image.subrange(WIDTH_OFFSET as int, WIDTH_OFFSET + 4)),
        spec_u32_from_le_bytes(image.subrange(HEIGHT_OFFSET as int, HEIGHT_OFFSET + 4)),
    )
}

/// The outcome of patching `base` to `width`×`height`: the width is checked first, then the
/// height, then the size of the image.
pub open spec fn patch_outcome(base: Seq<u8>, width: u32, height: u32) -> Result<
    Seq<u8>,
    PatchError,
> {
    if !width_in_range(width) {
        Err(PatchError::WidthOutOfRange(width))
    } else if !height_in_range(height) {
        Err(PatchError::HeightOutOfRange(height))
    } else if base.len() < MIN_DLL_LEN {
        Err(PatchError::DllTooSmall)
    } else {
        Ok(patched_image(base, width, height))
    }
}

/// Patches a copy of the vanilla image `base_dll` to `width`×`height`.
pub fn patch_dll_dynamic(base_dll: &[u8], width: u32, height: u32) -> (r: Result<
    Vec<u8>,
    PatchError,
>)
    ensures
        match r {
            Ok(v) => patch_outcome(base_dll@, width, height) == Ok::<Seq<u8>, PatchError>(v@),
            Err(e) => patch_outcome(base_dll@, width, height) == Err::<Seq<u8>, PatchError>(e),
        },
        r is Ok <==> (800 <= width <= 7680 && 600 <= height <= 4320 && base_dll@.len() >= 67223),
        r matches Ok(v) ==> {
            &&& v@.len() == base_dll@.len()
            &&& v@.subrange(67214, 67218) == spec_u32_to_le_bytes(width)
            &&& v@.subrange(67219, 67223) == spec_u32_to_le_bytes(height)
            &&& forall|i: int|
                0 <= i < v@.len() && !(67214 <= i < 67218) && !(67219 <= i < 67223) ==> v@[i]
                    == base_dll@[i]
        },
{
    if width < MIN_WIDTH || width > MAX_WIDTH {
        return Err(PatchError::WidthOutOfRange(width));
    }
    if height < MIN_HEIGHT || height > MAX_HEIGHT {
        return Err(PatchError::HeightOutOfRange(height));
    }
    let mut patched = slice_to_vec(base_dll);
    if patched.len() < MIN_DLL_LEN {
        return Err(PatchError::DllTooSmall);
    }
    let wb = u32_to_le_bytes(width);
    let hb = u32_to_le_bytes(height);
    patched.set(WIDTH_OFFSET, wb[0]);
    patched.set(WIDTH_OFFSET + 1, wb[1]);
    patched.set(WIDTH_OFFSET + 2, wb[2]);
    patched.set(WIDTH_OFFSET + 3, wb[3]);
    patched.set(HEIGHT_OFFSET, hb[0]);
    patched.set(HEIGHT_OFFSET + 1, hb[1]);
    patched.set(HEIGHT_OFFSET + 2, hb[2]);
    patched.set(HEIGHT_OFFSET + 3, hb[3]);
    assert(patched@ =~= patched_image(base_dll@, width, height));
    proof {
        lemma_patched_bytes(base_dll@, width, height);
    }
    Ok(patched)
}

/// The resolution an image is patched to.
pub fn read_dll_resolution(dll_data: &[u8]) -> (r: Result<(u32, u32), ReadDllError>)
    ensures
        dll_data@.len() >= MIN_DLL_LEN ==> r == Ok::<(u32, u32), ReadDllError>(
            image_resolution(dll_data@),
        ),
        dll_data@.len() < MIN_DLL_LEN ==> r == Err::<(u32, u32), ReadDllError>(
            ReadDllError::DllTooSmall,
        ),
        dll_data@.len() >= 67223 ==> r == Ok::<(u32, u32), ReadDllError>(
            (
                spec_u32_from_le_bytes(dll_data@.subrange(67214, 67218)),
                spec_u32_from_le_bytes(dll_data@.subrange(67219, 67223)),
            ),
        ),
{
    if dll_data.len() < MIN_DLL_LEN {
        return Err(ReadDllError::DllTooSmall);
    }
    let width = u32_from_le_bytes(slice_subrange(dll_data, WIDTH_OFFSET, WIDTH_OFFSET + 4));
    let height = u32_from_le_bytes(slice_subrange(dll_data, HEIGHT_OFFSET, HEIGHT_OFFSET + 4));
    Ok((width, height))
}

impl PatchError {
    /// The text the user is shown.
    pub fn message(&self) -> (r: String)
        ensures
            r@ == match *self {
                PatchError::WidthOutOfRange(w) => "Width must be between 800 and 7680 (got "@
                    + decimal(w as nat) + ")"@,
                PatchError::HeightOutOfRange(h) => "Height must be between 600 and 4320 (got "@
                    + decimal(h as nat) + ")"@,
                PatchError::DllTooSmall => "DLL file is too small (expected at least 67223 bytes)"@,
            },
    {
        match *self {
            PatchError::WidthOutOfRange(w) => {
                let mut s = String::from_str("Width must be between 800 and 7680 (got ");
                s.append(u32_to_string(w).as_str());
                s.append(")");
                s
            },
            PatchError::HeightOutOfRange(h) => {
                let mut s = String::from_str("Height must be between 600 and 4320 (got ");
                s.append(u32_to_string(h).as_str());
                s.append(")");
                s
            },
            PatchError::DllTooSmall => String::from_str(
                "DLL file is too small (expected at least 67223 bytes)",
            ),
        }
    }
}

impl ReadDllError {
    /// The text the user is shown.
    pub fn message(&self) -> (r: String)
        ensures
            r@ == "DLL file is too small"@,
    {
        String::from_str("DLL file is too small")
    }
}

// ---------------------------------------------------------------------------
// Laws

/// Reading back a patch: the image patched to `width`×`height` reports `width`×`height`,
/// and keeps the length of the base image.
pub proof fn lemma_read_after_patch(base: Seq<u8>, width: u32, height: u32)
    requires
        base.len() >= MIN_DLL_LEN,
    ensures
        patched_image(base, width, height).len() == base.len(),
        image_resolution(patched_image(base, width, height)) == (width, height),
{
    lemma_auto_spec_u32_to_from_le_bytes();
    let p = patched_image(base, width, height);
    assert(p.subrange(WIDTH_OFFSET as int, WIDTH_OFFSET + 4) =~= spec_u32_to_le_bytes(width));
    assert(p.subrange(HEIGHT_OFFSET as int, HEIGHT_OFFSET + 4) =~= spec_u32_to_le_bytes(height));
}

/// What a patch writes: the width as four little-endian bytes at offset 67214 and the height
/// at offset 67219, every other byte as in the base image.
pub proof fn lemma_patched_bytes(base: Seq<u8>, width: u32, height: u32)
    requires
        base.len() >= 67223,
    ensures
        patched_image(base, width, height).len() == base.len(),
        patched_image(base, width, height).subrange(67214, 67218) == spec_u32_to_le_bytes(width),
        patched_image(base, width, height).subrange(67219, 67223) == spec_u32_to_le_bytes(height),
        forall|i: int|
            0 <= i < base.len() && !(67214 <= i < 67218) && !(67219 <= i < 67223)
                ==> #[trigger] patched_image(base, width, height)[i] == base[i],
{
    lemma_auto_spec_u32_to_from_le_bytes();
    let p = patched_image(base, width, height);
    assert(p.subrange(67214, 67218) =~= spec_u32_to_le_bytes(width));
    assert(p.subrange(67219, 67223) =~= spec_u32_to_le_bytes(height));
}

/// What a read reports: the little-endian numbers at offsets 67214 and 67219.
pub proof fn lemma_image_resolution_bytes(image: Seq<u8>)
    requires
        image.len() >= 67223,
    ensures
        image_resolution(image) == (
            spec_u32_from_le_bytes(image.subrange(67214, 67218)),
            spec_u32_from_le_bytes(image.subrange(67219, 67223)),
        ),
{
}

/// A patch touches only the two operands: every byte outside offsets 67214..67218 and
/// 67219..67223 is the base image's byte.
pub proof fn lemma_patch_frame(base: Seq<u8>, width: u32, height: u32, i: int)
    requires
        base.len() >= MIN_DLL_LEN,
        0 <= i < base.len(),
        !(WIDTH_OFFSET <= i < WIDTH_OFFSET + 4),
        !(HEIGHT_OFFSET <= i < HEIGHT_OFFSET + 4),
    ensures
        patched_image(base, width, height)[i] == base[i],
{
    lemma_auto_spec_u32_to_from_le_bytes();
}

/// The last patch wins: patching an already patched image equals patching the base directly.
pub proof fn lemma_patch_overrides(base: Seq<u8>, w1: u32, h1: u32, w2: u32, h2: u32)
    requires
        base.len() >= MIN_DLL_LEN,
    ensures
        patched_image(patched_image(base, w1, h1), w2, h2) == patched_image(base, w2, h2),
{
    lemma_auto_spec_u32_to_from_le_bytes();
    assert(patched_image(patched_image(base, w1, h1), w2, h2) =~= patched_image(base, w2, h2));
}

/// Patching an image to the resolution it already has leaves it unchanged.
pub proof fn lemma_patch_same_resolution(image: Seq<u8>)
    requires
        image.len() >= MIN_DLL_LEN,
    ensures
        patched_image(image, image_resolution(image).0, image_resolution(image).1) == image,
{
    lemma_auto_spec_u32_to_from_le_bytes();
    let (w, h) = image_resolution(image);
    let ws = image.subrange(WIDTH_OFFSET as int, WIDTH_OFFSET + 4);
    let hs = image.subrange(HEIGHT_OFFSET as int, HEIGHT_OFFSET + 4);
    assert(spec_u32_to_le_bytes(spec_u32_from_le_bytes(ws)) == ws);
    assert(spec_u32_to_le_bytes(spec_u32_from_le_bytes(hs)) == hs);
    assert(patched_image(image, w, h) =~= image);
}

/// A patch succeeds exactly when the width is in 800..=7680, the height in 600..=4320, and the
/// image holds both operands.
pub proof fn lemma_patch_succeeds_iff(base: Seq<u8>, width: u32, height: u32)
    ensures
        patch_outcome(base, width, height) is Ok <==> (width_in_range(width) && height_in_range(
            height,
        ) && base.len() >= MIN_DLL_LEN),
{
}

} // verus!
