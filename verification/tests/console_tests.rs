use lazers::console::{FramebufferConsole, FramebufferInfo, PixelFormat};

fn console() -> FramebufferConsole {
    let framebuffer = FramebufferInfo { size: 64 * 64 * 4, width: 64, height: 64, stride: 64, format: PixelFormat::Unknown };
    FramebufferConsole::new(framebuffer, 0xffffff, 0x000001)
}

#[test]
fn writing_a_glyph_paints_its_cell() {
    let mut console = console();
    console.write_str("1");
    let pixels = console.pixels();
    // the cell of the first glyph starts at (16, 16); a 1 has its top row 00100
    assert_eq!(pixels[16 * 64 + 16], 0x000001);
    assert_eq!(pixels[16 * 64 + 18], 0xffffff);
    assert_eq!(pixels[16 * 64 + 22], 0x000001);
    // outside the cell nothing is painted
    assert_eq!(pixels[15 * 64 + 16], 0);
    assert_eq!(pixels[16 * 64 + 23], 0);
    assert_eq!(console.cursor().column, 1);
}
