use vstd::prelude::*;

use crate::figure::canvas::pixelcanvas::PixelCanvas;

verus! {

/// The `0x00RRGGBB` value of an RGB triple.
pub open spec fn packed_rgb(r: u8, g: u8, b: u8) -> u32 {
    (r as int * 0x1_0000 + g as int * 0x100 + b as int) as u32
}

/// What an interactive chart window overlays on the chart: the hover
/// tooltip and the key hints. Both start off.
#[derive(Clone, Copy, Debug, PartialEq, Eq, Structural)]
pub struct ViewToggles {
    /// Whether hovering shows the closest data point.
    pub hover_enabled: bool,
    /// Whether the key hints are drawn.
    pub show_hints: bool,
}

impl ViewToggles {
    /// Both overlays off.
    pub fn new() -> (r: Self)
        ensures
            !r.hover_enabled,
            !r.show_hints,
    {
        ViewToggles { hover_enabled: false, show_hints: false }
    }

    /// The toggles after a frame in which the hover key (C) and the hints key
    /// (H) were or were not pressed: each pressed key flips its overlay.
    pub fn after_keys(self, hover_key: bool, hints_key: bool) -> (r: Self)
        ensures
            r.hover_enabled == (self.hover_enabled != hover_key),
            r.show_hints == (self.show_hints != hints_key),
    {
        ViewToggles {
            hover_enabled: if hover_key { !self.hover_enabled } else { self.hover_enabled },
            show_hints: if hints_key { !self.show_hints } else { self.show_hints },
        }
    }
}

/// Window operations: converting canvas frames for an on-screen window.
pub struct Winop;

impl Default for Winop {
    fn default() -> (r: Self)
        ensures
            r == Winop,
    {
        Winop
    }
}

impl Winop {
    /// Creates a `Winop`.
    pub fn new() -> (r: Self)
        ensures
            r == Winop,
    {
        Winop
    }

    /// The canvas pixels packed one `u32` each as `0x00RRGGBB`, in buffer
    /// order; a trailing partial pixel is dropped.
    pub fn canvas_to_buffer(canvas: &PixelCanvas) -> (r: Vec<u32>)
        ensures
            r@.len() == canvas.buffer@.len() / 3,
            forall|k: int|
                0 <= k < r@.len() ==> #[trigger] r@[k] == packed_rgb(
                    canvas.buffer@[3 * k],
                    canvas.buffer@[3 * k + 1],
                    canvas.buffer@[3 * k + 2],
                ),
    {
        let len = canvas.buffer.len();
        let n = len / 3;
        let mut out: Vec<u32> = Vec::new();
        let mut k: usize = 0;
        while k < n
            invariant
                len == canvas.buffer@.len(),
                n == len / 3,
                k <= n,
                out@.len() == k,
                forall|j: int|
                    0 <= j < k ==> #[trigger] out@[j] == packed_rgb(
                        canvas.buffer@[3 * j],
                        canvas.buffer@[3 * j + 1],
                        canvas.buffer@[3 * j + 2],
                    ),
            decreases n - k,
        {
            let r = canvas.buffer[3 * k] as u32;
            let g = canvas.buffer[3 * k + 1] as u32;
            let b = canvas.buffer[3 * k + 2] as u32;
            out.push(r * 0x1_0000 + g * 0x100 + b);
            k = k + 1;
        }
        out
    }

    /// The hint overlay is empty: the canvas is left as it is.
    pub fn render_hints(canvas: &mut PixelCanvas)
        ensures
            *final(canvas) == *old(canvas),
    {
    }
}

} // verus!
