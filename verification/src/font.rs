//! The built-in hexadecimal fontset: sixteen glyphs of five bytes each,
//! resident in low memory from the moment the interpreter is constructed.

use vstd::prelude::*;

verus! {

/// The eighty fontset bytes: the glyphs for the digits 0 through F, in order,
/// five bytes per glyph, most significant bit leftmost on screen.
pub open spec fn font_seq() -> Seq<u8> {
    seq![
        0xF0u8, 0x90, 0x90, 0x90, 0xF0, // 0
        0x20, 0x60, 0x20, 0x20, 0x70, // 1
        0xF0, 0x10, 0xF0, 0x80, 0xF0, // 2
        0xF0, 0x10, 0xF0, 0x10, 0xF0, // 3
        0x90, 0x90, 0xF0, 0x10, 0x10, // 4
        0xF0, 0x80, 0xF0, 0x10, 0xF0, // 5
        0xF0, 0x80, 0xF0, 0x90, 0xF0, // 6
        0xF0, 0x10, 0x20, 0x40, 0x40, // 7
        0xF0, 0x90, 0xF0, 0x90, 0xF0, // 8
        0xF0, 0x90, 0xF0, 0x10, 0xF0, // 9
        0xF0, 0x90, 0xF0, 0x90, 0x90, // A
        0xE0, 0x90, 0xE0, 0x90, 0xE0, // B
        0xF0, 0x80, 0x80, 0x80, 0xF0, // C
        0xE0, 0x90, 0x90, 0x90, 0xE0, // D
        0xF0, 0x80, 0xF0, 0x80, 0xF0, // E
        0xF0, 0x80, 0xF0, 0x80, 0x80, // F
    ]
}

/// Appends one five-byte glyph to the vector under construction.
fn push_glyph(v: &mut Vec<u8>, b0: u8, b1: u8, b2: u8, b3: u8, b4: u8)
    ensures
        final(v)@ == old(v)@ + seq![b0, b1, b2, b3, b4],
{
    v.push(b0);
    v.push(b1);
    v.push(b2);
    v.push(b3);
    v.push(b4);
    proof {
        assert(v@ =~= old(v)@ + seq![b0, b1, b2, b3, b4]);
    }
}

/// Builds the fontset as a byte vector whose contents are exactly `font_seq()`.
pub fn font_vec() -> (v: Vec<u8>)
    ensures
        v@ == font_seq(),
{
    let mut v: Vec<u8> = Vec::new();
    push_glyph(&mut v, 0xF0, 0x90, 0x90, 0x90, 0xF0);
    push_glyph(&mut v, 0x20, 0x60, 0x20, 0x20, 0x70);
    push_glyph(&mut v, 0xF0, 0x10, 0xF0, 0x80, 0xF0);
    push_glyph(&mut v, 0xF0, 0x10, 0xF0, 0x10, 0xF0);
    push_glyph(&mut v, 0x90, 0x90, 0xF0, 0x10, 0x10);
    push_glyph(&mut v, 0xF0, 0x80, 0xF0, 0x10, 0xF0);
    push_glyph(&mut v, 0xF0, 0x80, 0xF0, 0x90, 0xF0);
    push_glyph(&mut v, 0xF0, 0x10, 0x20, 0x40, 0x40);
    push_glyph(&mut v, 0xF0, 0x90, 0xF0, 0x90, 0xF0);
    push_glyph(&mut v, 0xF0, 0x90, 0xF0, 0x10, 0xF0);
    push_glyph(&mut v, 0xF0, 0x90, 0xF0, 0x90, 0x90);
    push_glyph(&mut v, 0xE0, 0x90, 0xE0, 0x90, 0xE0);
    push_glyph(&mut v, 0xF0, 0x80, 0x80, 0x80, 0xF0);
    push_glyph(&mut v, 0xE0, 0x90, 0x90, 0x90, 0xE0);
    push_glyph(&mut v, 0xF0, 0x80, 0xF0, 0x80, 0xF0);
    push_glyph(&mut v, 0xF0, 0x80, 0xF0, 0x80, 0x80);
    proof {
        assert(v@ =~= font_seq());
    }
    v
}

} // verus!
