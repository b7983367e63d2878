//! Helpers for driving a FreeType-style rasterizer: error-code handling and
//! the load flags for LCD rendering. The FFI calls themselves live with the
//! backend; only the plain computations stand here.

use crate::shaper::BackendError;
use vstd::prelude::*;

verus! {

/// The render mode for subpixel (LCD) antialiasing.
pub const FT_RENDER_MODE_LCD: u32 = 3;

/// A zero error code means success.
pub fn succeeded(error: i32) -> (r: bool)
    ensures
        r == (error == 0),
{
    error == 0
}

/// Turns an error code and a value into a result: the value exactly when
/// the code is zero.
pub fn ft_result<T>(err: i32, t: T) -> (r: Result<T, BackendError>)
    ensures
        err == 0 ==> r == Ok::<T, BackendError>(t),
        err != 0 ==> r == Err::<T, BackendError>(BackendError),
{
    if succeeded(err) {
        Ok(t)
    } else {
        Err(BackendError)
    }
}

/// The load-target bits a render mode selects.
pub fn render_mode_to_load_target(render_mode: u32) -> (r: u32)
    ensures
        r == render_mode & (15u32 << 16),
{
    render_mode & (15u32 << 16)
}

/// The load flags and render mode used for glyph rendering.
pub fn compute_load_flags() -> (r: (i32, u32))
    ensures
        r.0 == (FT_RENDER_MODE_LCD & (15u32 << 16)) as i32,
        r.1 == FT_RENDER_MODE_LCD,
{
    let render: u32 = FT_RENDER_MODE_LCD;
    let flags = render_mode_to_load_target(render);
    proof {
        assert(FT_RENDER_MODE_LCD & (15u32 << 16) < 0x8000_0000) by (bit_vector);
    }
    (flags as i32, render)
}

} // verus!
