//! Braille pattern encoding: a 2-column by 4-row block of dots, stored as an
//! 8-bit offset into the Unicode braille block starting at U+2800.

use vstd::prelude::*;

verus! {

/// Bit index of the dot at column `x`, row `y`, following the historical
/// 6-dot-then-2-extension layout of the Unicode braille block.
pub open spec fn layout(x: u32, y: u32) -> u8 {
    if x == 0 {
        if y == 0 {
            0
        } else if y == 1 {
            1
        } else if y == 2 {
            2
        } else {
            6
        }
    } else {
        if y == 0 {
            3
        } else if y == 1 {
            4
        } else if y == 2 {
            5
        } else {
            7
        }
    }
}

/// The single-bit mask selecting the dot at column `x`, row `y`.
pub open spec fn spec_mask(x: u32, y: u32) -> u8 {
    1u8 << layout(x, y)
}

/// Mask with exactly the bit for the dot at column `x` (0 or 1),
/// row `y` (0 to 3) set.
pub fn mask(x: u32, y: u32) -> (r: u8)
    requires
        x < 2,
        y < 4,
    ensures
        r == spec_mask(x, y),
        r == 1u8 << layout(x, y),
{
    let bit: u8 = if x == 0 {
        if y == 0 {
            0
        } else if y == 1 {
            1
        } else if y == 2 {
            2
        } else {
            6
        }
    } else {
        if y == 0 {
            3
        } else if y == 1 {
            4
        } else if y == 2 {
            5
        } else {
            7
        }
    };
    assert(bit == layout(x, y));
    assert(bit < 8);
    1u8 << bit
}

/// The three UTF-8 code units of the codepoint `0x2800 + off`: every braille
/// codepoint lies in the three-byte range U+0800..=U+FFFF.
pub open spec fn utf8_bytes(off: u8) -> Seq<u8> {
    seq![0xE2u8, 0xA0u8 | (off >> 6), 0x80u8 | (off & 0x3F)]
}

/// One braille glyph: an 8-bit offset into the Unicode block U+2800..=U+28FF.
/// Bit `layout(x, y)` of the offset is set exactly when the dot at column `x`,
/// row `y` is on.
#[derive(Debug, Clone, Copy, PartialEq, Eq, Structural)]
pub struct Pattern(u8);

impl View for Pattern {
    type V = u8;

    closed spec fn view(&self) -> u8 {
        self.0
    }
}

impl Pattern {
    /// Whether the dot at column `x`, row `y` is on.
    pub open spec fn dot(self, x: u32, y: u32) -> bool {
        self@ & spec_mask(x, y) != 0
    }

    /// The blank pattern: every dot clear, glyph U+2800.
    pub fn empty() -> (r: Pattern)
        ensures
            r@ == 0,
    {
        Pattern(0)
    }

    pub fn from_offset(offset: u8) -> (r: Pattern)
        ensures
            r@ == offset,
    {
        Pattern(offset)
    }

    pub fn offset(self) -> (r: u8)
        ensures
            r == self@,
    {
        self.0
    }

    /// The pattern with the dot at column `x`, row `y` turned on and every
    /// other dot as in `self`.
    pub fn with(self, x: u32, y: u32) -> (r: Pattern)
        requires
            x < 2,
            y < 4,
        ensures
            r@ == self@ | spec_mask(x, y),
            forall|xx: u32, yy: u32|
                xx < 2 && yy < 4 ==> (#[trigger] r.dot(xx, yy) <==> self.dot(xx, yy) || (xx == x
                    && yy == y)),
    {
        let r = Pattern(self.0 | mask(x, y));
        proof {
            assert forall|xx: u32, yy: u32|
                xx < 2 && yy < 4 implies (#[trigger] r.dot(xx, yy) <==> self.dot(xx, yy) || (xx == x
                && yy == y)) by {
                lemma_or_mask_dots(self.0, x, y, xx, yy);
            }
        }
        r
    }

    /// The pattern with the dot at column `x`, row `y` turned on when `on` is
    /// true and left exactly as in `self` otherwise.
    pub fn set(self, x: u32, y: u32, on: bool) -> (r: Pattern)
        requires
            x < 2,
            y < 4,
        ensures
            r@ == if on {
                self@ | spec_mask(x, y)
            } else {
                self@
            },
            forall|xx: u32, yy: u32|
                xx < 2 && yy < 4 ==> (#[trigger] r.dot(xx, yy) <==> self.dot(xx, yy) || (on && xx
                    == x && yy == y)),
    {
        if on {
            self.with(x, y)
        } else {
            self
        }
    }

    /// The Unicode scalar `0x2800 + offset`; defined for every offset, since
    /// the braille block spans exactly 256 contiguous codepoints.
    pub fn as_char(self) -> (c: char)
        ensures
            c as u32 == 0x2800 + self@,
    {
        let v: u32 = 0x2800 + (self.0 as u32);
        match char::from_u32(v) {
            Some(c) => c,
            None => {
                proof {
                    assert(false);
                }
                ' '
            },
        }
    }

    /// Writes the UTF-8 encoding of the glyph's codepoint into a fixed
    /// three-byte buffer.
    pub fn encode_utf8(self, buf: &mut [u8; 3])
        ensures
            final(buf)@ == utf8_bytes(self@),
    {
        buf[0] = 0xE2;
        buf[1] = 0xA0 | (self.0 >> 6);
        buf[2] = 0x80 | (self.0 & 0x3F);
        proof {
            assert(buf@ =~= utf8_bytes(self@));
        }
    }
}

/// Relies on char::from_u32: it returns `Some` exactly for Unicode scalar
/// values (everything up to 0x10FFFF except the surrogate range), and the
/// returned char converts back to the same number.
pub assume_specification[ char::from_u32 ](i: u32) -> (r: Option<char>)
    ensures
        r is Some <==> (i < 0xD800 || (0xE000 <= i && i <= 0x10FFFF)),
        r matches Some(c) ==> c as u32 == i,
;

pub(crate) proof fn lemma_or_mask_dots(off: u8, x: u32, y: u32, xx: u32, yy: u32)
    by (bit_vector)
    requires
        x < 2,
        y < 4,
        xx < 2,
        yy < 4,
    ensures
        ((off | spec_mask(x, y)) & spec_mask(xx, yy) != 0) <==> ((off & spec_mask(xx, yy) != 0) || (
        xx == x && yy == y)),
{
}

/// Law: turning on dots is order-independent — turning on the dot at
/// `(x1, y1)` and then the dot at `(x2, y2)` yields the same offset as doing
/// it in the opposite order.
pub proof fn lemma_set_order_independent(off: u8, x1: u32, y1: u32, x2: u32, y2: u32)
    requires
        x1 < 2,
        y1 < 4,
        x2 < 2,
        y2 < 4,
    ensures
        (off | spec_mask(x1, y1)) | spec_mask(x2, y2) == (off | spec_mask(x2, y2)) | spec_mask(
            x1,
            y1,
        ),
{
    assert((off | spec_mask(x1, y1)) | spec_mask(x2, y2) == (off | spec_mask(x2, y2)) | spec_mask(
        x1,
        y1,
    )) by (bit_vector);
}

/// Law: turning on a dot that is already on leaves the offset unchanged.
pub proof fn lemma_set_idempotent(off: u8, x: u32, y: u32)
    requires
        x < 2,
        y < 4,
    ensures
        (off | spec_mask(x, y)) | spec_mask(x, y) == off | spec_mask(x, y),
{
    assert((off | spec_mask(x, y)) | spec_mask(x, y) == off | spec_mask(x, y)) by (bit_vector);
}

/// Law: `utf8_bytes(off)` is the well-formed three-byte UTF-8 encoding of the
/// codepoint `0x2800 + off` — the bytes carry the three-byte-sequence
/// prefixes, and their payload bits decode back to the codepoint.
pub proof fn lemma_utf8_round_trip(off: u8)
    ensures
        utf8_bytes(off).len() == 3,
        utf8_bytes(off)[0] == 0xE2u8,
        0x80 <= utf8_bytes(off)[1] < 0xC0,
        0x80 <= utf8_bytes(off)[2] < 0xC0,
        (((utf8_bytes(off)[0] & 0x0F) as u32) << 12u32) | ((((utf8_bytes(off)[1] & 0x3F)) as u32)
            << 6u32) | (((utf8_bytes(off)[2] & 0x3F)) as u32) == 0x2800 + off,
{
    assert(0x80 <= (0xA0u8 | (off >> 6)) < 0xC0) by (bit_vector);
    assert(0x80 <= (0x80u8 | (off & 0x3F)) < 0xC0) by (bit_vector);
    assert((((0xE2u8 & 0x0F) as u32) << 12u32) | ((((0xA0u8 | (off >> 6)) & 0x3F) as u32) << 6u32)
        | ((((0x80u8 | (off & 0x3F)) & 0x3F)) as u32) == 0x2800 + off) by (bit_vector);
}

} // verus!
