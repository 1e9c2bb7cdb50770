//! How a dock cuts a surface into strips and names its connectors.

use vstd::prelude::*;

use crate::haar::entropy::Depth;
use crate::video_arm::CodeTables;

verus! {

/// Blocks in a strip.
pub const STRIP_BLOCKS: usize = 16;

/// Everything about a dock's video encoding that differs between platforms.
#[derive(Clone, Copy, Debug, PartialEq, Eq, Structural)]
pub struct Geometry {
    /// Base-2 logarithm of the strip width in pixels.
    pub strip_w_shift: u32,
    /// Base-2 logarithm of the strip height in pixels.
    pub strip_h_shift: u32,
    /// Whether image records carry the even bands before the odd ones.
    pub interlaced_bands: bool,
    /// Whether an image record's `sub` carries the band parity in bit 4.
    pub band_parity_bit: bool,
    /// How far left a connector number is shifted in a record's `sub`.
    pub connector_selector_shift: u8,
    /// The bits a connector's stream id sets over its record `sub`.
    pub stream_id_mask: u8,
    /// How many buffers the dock rotates through.
    pub dock_buffers: u8,
    /// Bits a steady-state image record adds to its `sub`.
    pub steady_sub_bit: u8,
    /// Bits per channel of the surface being encoded.
    pub depth: Depth,
    /// Which dialect of the unary code the dock's decoder reads.
    pub coding: CodeTables,
}

/// The layout of raster-ordered 64x16 strips, and the value every geometry-free path starts
/// from.
pub open spec fn ridge_spec() -> Geometry {
    Geometry {
        strip_w_shift: 6,
        strip_h_shift: 4,
        interlaced_bands: false,
        band_parity_bit: true,
        connector_selector_shift: 0,
        stream_id_mask: 0x08,
        dock_buffers: 2,
        steady_sub_bit: 0,
        depth: Depth::Eight,
        coding: CodeTables::Wide,
    }
}

/// The raster layout; see [`ridge_spec`].
pub fn ridge_geometry() -> (g: Geometry)
    ensures
        g == ridge_spec(),
        g.wf(),
{
    Geometry::new(8, false, true, 0, 0x08, 2)
}

impl Geometry {
    /// A strip is sixteen blocks, eight across and two down or sixteen across.
    pub open spec fn shaped(self) -> bool {
        (self.strip_w_shift == 6 && self.strip_h_shift == 4) || (self.strip_w_shift == 7
            && self.strip_h_shift == 3)
    }

    /// A strip has one of its shapes, and a connector number stays within its byte's shift range.
    pub open spec fn wf(self) -> bool {
        &&& self.shaped()
        &&& self.connector_selector_shift < 8
    }

    /// Strip width in pixels.
    pub open spec fn width(self) -> int {
        if self.strip_w_shift == 7 {
            128
        } else {
            64
        }
    }

    /// Strip height in pixels.
    pub open spec fn height(self) -> int {
        if self.strip_h_shift == 3 {
            8
        } else {
            16
        }
    }

    /// Blocks across a strip.
    pub open spec fn across(self) -> int {
        self.width() / 8
    }

    /// The byte that names `connector` in a record's `sub`.
    pub open spec fn selector(self, connector: u8) -> u8 {
        connector << self.connector_selector_shift
    }

    /// Build a dock's geometry. Sixteen blocks across give 128x8 strips, anything else 64x16.
    pub fn new(
        strip_blocks_x: usize,
        interlaced_bands: bool,
        band_parity_bit: bool,
        connector_selector_shift: u8,
        stream_id_mask: u8,
        dock_buffers: u8,
    ) -> (g: Self)
        ensures
            g == (Geometry {
                strip_w_shift: if strip_blocks_x == 16 {
                    7
                } else {
                    6
                },
                strip_h_shift: if strip_blocks_x == 16 {
                    3
                } else {
                    4
                },
                interlaced_bands,
                band_parity_bit,
                connector_selector_shift,
                stream_id_mask,
                dock_buffers: if dock_buffers == 0 {
                    1
                } else {
                    dock_buffers
                },
                steady_sub_bit: 0,
                depth: Depth::Eight,
                coding: CodeTables::Wide,
            }),
            connector_selector_shift < 8 ==> g.wf(),
    {
        let wide: bool = strip_blocks_x == 16;
        Geometry {
            strip_w_shift: if wide {
                7
            } else {
                6
            },
            strip_h_shift: if wide {
                3
            } else {
                4
            },
            interlaced_bands,
            band_parity_bit,
            connector_selector_shift,
            stream_id_mask,
            dock_buffers: if dock_buffers == 0 {
                1
            } else {
                dock_buffers
            },
            steady_sub_bit: 0,
            depth: Depth::Eight,
            coding: CodeTables::Wide,
        }
    }

    /// The same geometry at a different sample depth.
    pub fn with_depth(self, depth: Depth) -> (g: Self)
        ensures
            g == (Geometry { depth, ..self }),
    {
        Geometry { depth, ..self }
    }

    /// The same geometry in a different code dialect.
    pub fn with_coding(self, coding: CodeTables) -> (g: Self)
        ensures
            g == (Geometry { coding, ..self }),
    {
        Geometry { coding, ..self }
    }

    /// The same geometry with the steady-state record bit set.
    pub fn with_steady_sub_bit(self, bit: u8) -> (g: Self)
        ensures
            g == (Geometry { steady_sub_bit: bit, ..self }),
    {
        Geometry { steady_sub_bit: bit, ..self }
    }

    /// The same geometry for a frame that opens a stream, which carries no steady-state bit.
    pub fn opening(self) -> (g: Self)
        ensures
            g == (Geometry { steady_sub_bit: 0, ..self }),
    {
        Geometry { steady_sub_bit: 0, ..self }
    }

    /// Which dialect the dock's decoder reads.
    pub fn coding(&self) -> (c: CodeTables)
        ensures
            c == self.coding,
    {
        self.coding
    }

    /// Bits per channel of the frame being encoded.
    pub fn depth(&self) -> (d: Depth)
        ensures
            d == self.depth,
    {
        self.depth
    }

    /// Base-2 logarithm of the strip width.
    pub fn strip_w_shift(&self) -> (s: u32)
        ensures
            s == self.strip_w_shift,
    {
        self.strip_w_shift
    }

    /// Base-2 logarithm of the strip height.
    pub fn strip_h_shift(&self) -> (s: u32)
        ensures
            s == self.strip_h_shift,
    {
        self.strip_h_shift
    }

    /// Strip width in pixels.
    pub fn strip_w(&self) -> (w: usize)
        requires
            self.shaped(),
        ensures
            w == self.width(),
    {
        assert(1usize << 7u32 == 128 && 1usize << 6u32 == 64) by (bit_vector);
        1usize << self.strip_w_shift
    }

    /// Strip height in pixels.
    pub fn strip_h(&self) -> (h: usize)
        requires
            self.shaped(),
        ensures
            h == self.height(),
    {
        assert(1usize << 3u32 == 8 && 1usize << 4u32 == 16) by (bit_vector);
        1usize << self.strip_h_shift
    }

    /// Width of a damage macro-tile, four strips.
    pub fn macro_w(&self) -> (w: usize)
        requires
            self.shaped(),
        ensures
            w == 4 * self.width(),
    {
        4 * self.strip_w()
    }

    /// Height of a damage macro-tile, four strips.
    pub fn macro_h(&self) -> (h: usize)
        requires
            self.shaped(),
        ensures
            h == 4 * self.height(),
    {
        4 * self.strip_h()
    }

    /// Name `connector` the way this dock expects it in a record's `sub`.
    pub fn connector_selector(&self, connector: u8) -> (s: u8)
        requires
            self.connector_selector_shift < 8,
        ensures
            s == self.selector(connector),
    {
        connector << self.connector_selector_shift
    }

    /// The content-stream id of `connector` on this dock.
    pub fn stream_id(&self, connector: u8) -> (id: u16)
        requires
            self.connector_selector_shift < 8,
        ensures
            id == self.selector(connector) | self.stream_id_mask,
    {
        (self.connector_selector(connector) | self.stream_id_mask) as u16
    }
}

/// A strip is sixteen blocks of eight by eight pixels, in the shape its logarithms say.
pub proof fn law_strips_are_sixteen_blocks(g: Geometry)
    requires
        g.shaped(),
    ensures
        g.width() * g.height() == 16 * 64,
        g.width() % 8 == 0,
        g.height() % 8 == 0,
        g.across() * (g.height() / 8) == 16,
        g.width() == 1usize << g.strip_w_shift,
        g.height() == 1usize << g.strip_h_shift,
{
    assert(1usize << 7u32 == 128 && 1usize << 6u32 == 64) by (bit_vector);
    assert(1usize << 3u32 == 8 && 1usize << 4u32 == 16) by (bit_vector);
    if g.width() == 64 {
        assert(g.across() == 8 && g.height() / 8 == 2);
    } else {
        assert(g.across() == 16 && g.height() / 8 == 1);
    }
}

/// Connectors have names of their own, as far as a byte holds them.
pub proof fn law_connectors_are_named_apart(g: Geometry, a: u8, b: u8)
    requires
        g.connector_selector_shift < 8,
        a != b,
        a <= 0xffu8 >> g.connector_selector_shift,
        b <= 0xffu8 >> g.connector_selector_shift,
    ensures
        g.selector(a) != g.selector(b),
{
    let s = g.connector_selector_shift;
    assert(a << s != b << s) by (bit_vector)
        requires
            s < 8,
            a != b,
            a <= 0xffu8 >> s,
            b <= 0xffu8 >> s,
    ;
}

/// A connector's selector is its number above the geometry's shift, with nothing below.
pub proof fn law_selectors_stand_above_the_shift(g: Geometry, connector: u8)
    requires
        g.wf(),
        connector < 4,
        g.connector_selector_shift <= 6,
    ensures
        g.selector(connector) >> g.connector_selector_shift == connector,
        g.selector(connector) % (1u8 << g.connector_selector_shift) == 0,
{
    let s = g.connector_selector_shift;
    assert((connector << s) >> s == connector && (connector << s) % (1u8 << s) == 0) by (bit_vector)
        requires
            connector < 4,
            s <= 6,
    ;
}

} // verus!
