//! Fixed 5x7 bitmap font of the framebuffer console.
use vstd::prelude::*;

verus! {

pub const GLYPH_WIDTH: usize = 5;
pub const GLYPH_HEIGHT: usize = 7;

/// The glyph a byte is drawn with: letters fold to their upper-case form and
/// bytes without a glyph of their own share the question mark.
pub open spec fn glyph_char(byte: u8) -> u8 {
    if 0x61 <= byte <= 0x7a {
        (byte - 0x20) as u8
    } else if byte == 0x20 || byte == 0x2e || (0x30 <= byte <= 0x39) || (0x41 <= byte <= 0x5a) {
        byte
    } else {
        0x3f
    }
}

/// Rows of a glyph, top row first; bit 4 is the leftmost column.
pub open spec fn glyph_rows(c: u8) -> Seq<u8> {
    match c {
        0x20 => seq![0b00000, 0b00000, 0b00000, 0b00000, 0b00000, 0b00000, 0b00000],
        0x2e => seq![0b00000, 0b00000, 0b00000, 0b00000, 0b00000, 0b01100, 0b01100],
        0x30 => seq![0b01110, 0b10001, 0b10011, 0b10101, 0b11001, 0b10001, 0b01110],
        0x31 => seq![0b00100, 0b01100, 0b00100, 0b00100, 0b00100, 0b00100, 0b01110],
        0x32 => seq![0b01110, 0b10001, 0b00001, 0b00010, 0b00100, 0b01000, 0b11111],
        0x33 => seq![0b11110, 0b00001, 0b00001, 0b01110, 0b00001, 0b00001, 0b11110],
        0x34 => seq![0b00010, 0b00110, 0b01010, 0b10010, 0b11111, 0b00010, 0b00010],
        0x35 => seq![0b11111, 0b10000, 0b10000, 0b11110, 0b00001, 0b00001, 0b11110],
        0x36 => seq![0b01110, 0b10000, 0b10000, 0b11110, 0b10001, 0b10001, 0b01110],
        0x37 => seq![0b11111, 0b00001, 0b00010, 0b00100, 0b01000, 0b01000, 0b01000],
        0x38 => seq![0b01110, 0b10001, 0b10001, 0b01110, 0b10001, 0b10001, 0b01110],
        0x39 => seq![0b01110, 0b10001, 0b10001, 0b01111, 0b00001, 0b00001, 0b01110],
        0x41 => seq![0b01110, 0b10001, 0b10001, 0b11111, 0b10001, 0b10001, 0b10001],
        0x42 => seq![0b11110, 0b10001, 0b10001, 0b11110, 0b10001, 0b10001, 0b11110],
        0x43 => seq![0b01110, 0b10001, 0b10000, 0b10000, 0b10000, 0b10001, 0b01110],
        0x44 => seq![0b11110, 0b10001, 0b10001, 0b10001, 0b10001, 0b10001, 0b11110],
        0x45 => seq![0b11111, 0b10000, 0b10000, 0b11110, 0b10000, 0b10000, 0b11111],
        0x46 => seq![0b11111, 0b10000, 0b10000, 0b11110, 0b10000, 0b10000, 0b10000],
        0x47 => seq![0b01110, 0b10001, 0b10000, 0b10111, 0b10001, 0b10001, 0b01110],
        0x48 => seq![0b10001, 0b10001, 0b10001, 0b11111, 0b10001, 0b10001, 0b10001],
        0x49 => seq![0b01110, 0b00100, 0b00100, 0b00100, 0b00100, 0b00100, 0b01110],
        0x4a => seq![0b00001, 0b00001, 0b00001, 0b00001, 0b10001, 0b10001, 0b01110],
        0x4b => seq![0b10001, 0b10010, 0b10100, 0b11000, 0b10100, 0b10010, 0b10001],
        0x4c => seq![0b10000, 0b10000, 0b10000, 0b10000, 0b10000, 0b10000, 0b11111],
        0x4d => seq![0b10001, 0b11011, 0b10101, 0b10101, 0b10001, 0b10001, 0b10001],
        0x4e => seq![0b10001, 0b11001, 0b10101, 0b10011, 0b10001, 0b10001, 0b10001],
        0x4f => seq![0b01110, 0b10001, 0b10001, 0b10001, 0b10001, 0b10001, 0b01110],
        0x50 => seq![0b11110, 0b10001, 0b10001, 0b11110, 0b10000, 0b10000, 0b10000],
        0x51 => seq![0b01110, 0b10001, 0b10001, 0b10001, 0b10101, 0b10010, 0b01101],
        0x52 => seq![0b11110, 0b10001, 0b10001, 0b11110, 0b10100, 0b10010, 0b10001],
        0x53 => seq![0b01111, 0b10000, 0b10000, 0b01110, 0b00001, 0b00001, 0b11110],
        0x54 => seq![0b11111, 0b00100, 0b00100, 0b00100, 0b00100, 0b00100, 0b00100],
        0x55 => seq![0b10001, 0b10001, 0b10001, 0b10001, 0b10001, 0b10001, 0b01110],
        0x56 => seq![0b10001, 0b10001, 0b10001, 0b10001, 0b10001, 0b01010, 0b00100],
        0x57 => seq![0b10001, 0b10001, 0b10001, 0b10101, 0b10101, 0b10101, 0b01010],
        0x58 => seq![0b10001, 0b10001, 0b01010, 0b00100, 0b01010, 0b10001, 0b10001],
        0x59 => seq![0b10001, 0b10001, 0b01010, 0b00100, 0b00100, 0b00100, 0b00100],
        0x5a => seq![0b11111, 0b00001, 0b00010, 0b00100, 0b01000, 0b10000, 0b11111],
        _ => seq![0b01110, 0b10001, 0b00001, 0b00010, 0b00100, 0b00000, 0b00100],
    }
}

fn glyph_bitmap(c: u8) -> (r: [u8; GLYPH_HEIGHT])
    ensures
        r@ == glyph_rows(c),
{
    let r = match c {
        0x20 => [0b00000, 0b00000, 0b00000, 0b00000, 0b00000, 0b00000, 0b00000],
        0x2e => [0b00000, 0b00000, 0b00000, 0b00000, 0b00000, 0b01100, 0b01100],
        0x30 => [0b01110, 0b10001, 0b10011, 0b10101, 0b11001, 0b10001, 0b01110],
        0x31 => [0b00100, 0b01100, 0b00100, 0b00100, 0b00100, 0b00100, 0b01110],
        0x32 => [0b01110, 0b10001, 0b00001, 0b00010, 0b00100, 0b01000, 0b11111],
        0x33 => [0b11110, 0b00001, 0b00001, 0b01110, 0b00001, 0b00001, 0b11110],
        0x34 => [0b00010, 0b00110, 0b01010, 0b10010, 0b11111, 0b00010, 0b00010],
        0x35 => [0b11111, 0b10000, 0b10000, 0b11110, 0b00001, 0b00001, 0b11110],
        0x36 => [0b01110, 0b10000, 0b10000, 0b11110, 0b10001, 0b10001, 0b01110],
        0x37 => [0b11111, 0b00001, 0b00010, 0b00100, 0b01000, 0b01000, 0b01000],
        0x38 => [0b01110, 0b10001, 0b10001, 0b01110, 0b10001, 0b10001, 0b01110],
        0x39 => [0b01110, 0b10001, 0b10001, 0b01111, 0b00001, 0b00001, 0b01110],
        0x41 => [0b01110, 0b10001, 0b10001, 0b11111, 0b10001, 0b10001, 0b10001],
        0x42 => [0b11110, 0b10001, 0b10001, 0b11110, 0b10001, 0b10001, 0b11110],
        0x43 => [0b01110, 0b10001, 0b10000, 0b10000, 0b10000, 0b10001, 0b01110],
        0x44 => [0b11110, 0b10001, 0b10001, 0b10001, 0b10001, 0b10001, 0b11110],
        0x45 => [0b11111, 0b10000, 0b10000, 0b11110, 0b10000, 0b10000, 0b11111],
        0x46 => [0b11111, 0b10000, 0b10000, 0b11110, 0b10000, 0b10000, 0b10000],
        0x47 => [0b01110, 0b10001, 0b10000, 0b10111, 0b10001, 0b10001, 0b01110],
        0x48 => [0b10001, 0b10001, 0b10001, 0b11111, 0b10001, 0b10001, 0b10001],
        0x49 => [0b01110, 0b00100, 0b00100, 0b00100, 0b00100, 0b00100, 0b01110],
        0x4a => [0b00001, 0b00001, 0b00001, 0b00001, 0b10001, 0b10001, 0b01110],
        0x4b => [0b10001, 0b10010, 0b10100, 0b11000, 0b10100, 0b10010, 0b10001],
        0x4c => [0b10000, 0b10000, 0b10000, 0b10000, 0b10000, 0b10000, 0b11111],
        0x4d => [0b10001, 0b11011, 0b10101, 0b10101, 0b10001, 0b10001, 0b10001],
        0x4e => [0b10001, 0b11001, 0b10101, 0b10011, 0b10001, 0b10001, 0b10001],
        0x4f => [0b01110, 0b10001, 0b10001, 0b10001, 0b10001, 0b10001, 0b01110],
        0x50 => [0b11110, 0b10001, 0b10001, 0b11110, 0b10000, 0b10000, 0b10000],
        0x51 => [0b01110, 0b10001, 0b10001, 0b10001, 0b10101, 0b10010, 0b01101],
        0x52 => [0b11110, 0b10001, 0b10001, 0b11110, 0b10100, 0b10010, 0b10001],
        0x53 => [0b01111, 0b10000, 0b10000, 0b01110, 0b00001, 0b00001, 0b11110],
        0x54 => [0b11111, 0b00100, 0b00100, 0b00100, 0b00100, 0b00100, 0b00100],
        0x55 => [0b10001, 0b10001, 0b10001, 0b10001, 0b10001, 0b10001, 0b01110],
        0x56 => [0b10001, 0b10001, 0b10001, 0b10001, 0b10001, 0b01010, 0b00100],
        0x57 => [0b10001, 0b10001, 0b10001, 0b10101, 0b10101, 0b10101, 0b01010],
        0x58 => [0b10001, 0b10001, 0b01010, 0b00100, 0b01010, 0b10001, 0b10001],
        0x59 => [0b10001, 0b10001, 0b01010, 0b00100, 0b00100, 0b00100, 0b00100],
        0x5a => [0b11111, 0b00001, 0b00010, 0b00100, 0b01000, 0b10000, 0b11111],
        _ => [0b01110, 0b10001, 0b00001, 0b00010, 0b00100, 0b00000, 0b00100],
    };
    assert(r@ =~= glyph_rows(c));
    r
}

/// Returns the bitmap used to draw `byte`.
pub fn glyph_for(byte: u8) -> (r: [u8; GLYPH_HEIGHT])
    ensures
        r@ == glyph_rows(glyph_char(byte)),
{
    let c = if 0x61 <= byte && byte <= 0x7a {
        byte - 0x20
    } else if byte == 0x20 || byte == 0x2e || (0x30 <= byte && byte <= 0x39) || (0x41 <= byte && byte <= 0x5a) {
        byte
    } else {
        0x3f
    };
    glyph_bitmap(c)
}


/// The characters the font draws: the space, the full stop, the digits, the
/// question mark and the upper-case letters.
pub open spec fn drawable(c: u8) -> bool {
    c == 0x20 || c == 0x2e || (0x30 <= c <= 0x39) || c == 0x3f || (0x41 <= c <= 0x5a)
}

/// A 5x7 glyph read as one number: its rows as base-32 digits, top row
/// first.
pub open spec fn glyph_code(rows: Seq<u8>) -> int {
    ((((((rows[0] as int) * 32 + rows[1]) * 32 + rows[2]) * 32 + rows[3]) * 32 + rows[4]) * 32 + rows[5]) * 32 + rows[6]
}

/// The character of the console font whose glyph reads as `code`, if any:
/// the font as printed, one number per character.
pub open spec fn font_character(code: int) -> Option<u8> {
    if code == 0 {
        Some(0x20u8)
    } else if code == 396 {
        Some(0x2eu8)
    } else if code == 15623448110 {
        Some(0x30u8)
    } else if code == 4701950094 {
        Some(0x31u8)
    } else if code == 15603929375 {
        Some(0x32u8)
    } else if code == 32247317566 {
        Some(0x33u8)
    } else if code == 2359917634 {
        Some(0x34u8)
    } else if code == 33840628798 {
        Some(0x35u8)
    } else if code == 15587034670 {
        Some(0x36u8)
    } else if code == 33321787656 {
        Some(0x37u8)
    } else if code == 15621113390 {
        Some(0x38u8)
    } else if code == 15621129262 {
        Some(0x39u8)
    } else if code == 15603929092 {
        Some(0x3fu8)
    } else if code == 15621670449 {
        Some(0x41u8)
    } else if code == 32801506878 {
        Some(0x42u8)
    } else if code == 15620129326 {
        Some(0x43u8)
    } else if code == 32801080894 {
        Some(0x44u8)
    } else if code == 33840644639 {
        Some(0x45u8)
    } else if code == 33840644624 {
        Some(0x46u8)
    } else if code == 15620359726 {
        Some(0x47u8)
    } else if code == 18842895921 {
        Some(0x48u8)
    } else if code == 15170932878 {
        Some(0x49u8)
    } else if code == 1108395566 {
        Some(0x4au8)
    } else if code == 18879369809 {
        Some(0x4bu8)
    } else if code == 17734058527 {
        Some(0x4cu8)
    } else if code == 19182306865 {
        Some(0x4du8)
    } else if code == 19115132465 {
        Some(0x4eu8)
    } else if code == 15621211694 {
        Some(0x4fu8)
    } else if code == 32801505808 {
        Some(0x50u8)
    } else if code == 15621215821 {
        Some(0x51u8)
    } else if code == 32801509969 {
        Some(0x52u8)
    } else if code == 16660235326 {
        Some(0x53u8)
    } else if code == 33424543876 {
        Some(0x54u8)
    } else if code == 18842437166 {
        Some(0x55u8)
    } else if code == 18842436932 {
        Some(0x56u8)
    } else if code == 18842572458 {
        Some(0x57u8)
    } else if code == 18834663985 {
        Some(0x58u8)
    } else if code == 18834657412 {
        Some(0x59u8)
    } else if code == 33321787935 {
        Some(0x5au8)
    } else {
        None
    }
}

/// Every drawable character is drawn with its own printed glyph: reading
/// the glyph back through the font gives the character, so no two drawable
/// characters share a glyph; every glyph is seven rows of five pixels.
pub proof fn lemma_glyph_reads_back(c: u8)
    ensures
        glyph_rows(c).len() == 7,
        forall|i: int| 0 <= i < 7 ==> #[trigger] glyph_rows(c)[i] < 32,
        drawable(c) ==> font_character(glyph_code(glyph_rows(c))) == Some(c),
{
        if c == 0x20 {
        } else if c == 0x2e {
        } else if c == 0x30 {
        } else if c == 0x31 {
        } else if c == 0x32 {
        } else if c == 0x33 {
        } else if c == 0x34 {
        } else if c == 0x35 {
        } else if c == 0x36 {
        } else if c == 0x37 {
        } else if c == 0x38 {
        } else if c == 0x39 {
        } else if c == 0x3f {
        } else if c == 0x41 {
        } else if c == 0x42 {
        } else if c == 0x43 {
        } else if c == 0x44 {
        } else if c == 0x45 {
        } else if c == 0x46 {
        } else if c == 0x47 {
        } else if c == 0x48 {
        } else if c == 0x49 {
        } else if c == 0x4a {
        } else if c == 0x4b {
        } else if c == 0x4c {
        } else if c == 0x4d {
        } else if c == 0x4e {
        } else if c == 0x4f {
        } else if c == 0x50 {
        } else if c == 0x51 {
        } else if c == 0x52 {
        } else if c == 0x53 {
        } else if c == 0x54 {
        } else if c == 0x55 {
        } else if c == 0x56 {
        } else if c == 0x57 {
        } else if c == 0x58 {
        } else if c == 0x59 {
        } else if c == 0x5a {
        } else {
        }
}

/// Distinct drawable characters have distinct glyphs.
pub proof fn lemma_glyphs_distinct(a: u8, b: u8)
    requires
        drawable(a),
        drawable(b),
        a != b,
    ensures
        glyph_rows(a) != glyph_rows(b),
{
    lemma_glyph_reads_back(a);
    lemma_glyph_reads_back(b);
}

/// A byte is drawn with the glyph of its character: a lower-case letter
/// with its upper-case letter's, another drawable byte with its own, and
/// anything else with the question mark's.
pub proof fn lemma_glyph_for_byte(byte: u8)
    ensures
        0x61 <= byte <= 0x7a ==> glyph_char(byte) == byte - 0x20,
        drawable(byte) ==> glyph_char(byte) == byte,
        !drawable(byte) && !(0x61 <= byte <= 0x7a) ==> glyph_char(byte) == 0x3f,
        drawable(glyph_char(byte)),
{
}

} // verus!
