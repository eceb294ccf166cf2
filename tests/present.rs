use termview::buffer::Context;
use termview::geometry::{ScreenTriangle, ScreenVertex};
use termview::present::push_decimal;
use termview::raster::draw_triangle;
use termview::shader::DefaultShader;

#[test]
fn decimal_digits() {
    let mut out = vec![b'x'];
    push_decimal(&mut out, 0);
    push_decimal(&mut out, 7);
    push_decimal(&mut out, 120);
    push_decimal(&mut out, 18446744073709551615);
    assert_eq!(out, b"x0712018446744073709551615".to_vec());
}

#[test]
fn blank_frame_encodes_one_color_change() {
    let ctx = Context::new(2, 2);
    let bytes = ctx.encode_frame();
    assert_eq!(bytes, b"\x1b[1;1H\x1b[48;5;0m  \x1b[2;1H  \x1b[0m".to_vec());
}

#[test]
fn color_runs_are_coalesced() {
    let mut ctx = Context::new(3, 2);
    let t = ScreenTriangle {
        a: ScreenVertex { x: 8, y: 0, z: 0 },
        b: ScreenVertex { x: 60, y: 0, z: 0 },
        c: ScreenVertex { x: 8, y: 8, z: 0 },
        color: 196,
    };
    draw_triangle(&mut ctx, &t, &DefaultShader);
    assert_eq!(ctx.color_at(1, 0), 196);
    assert_eq!(ctx.color_at(2, 0), 196);
    let bytes = ctx.encode_frame();
    let want = b"\x1b[1;1H\x1b[48;5;0m \x1b[48;5;196m  \x1b[2;1H\x1b[48;5;0m   \x1b[0m".to_vec();
    assert_eq!(String::from_utf8_lossy(&bytes), String::from_utf8_lossy(&want));
}

#[test]
fn empty_frame_encodes_only_the_reset() {
    let ctx = Context::blank();
    assert_eq!(ctx.encode_frame(), b"\x1b[0m".to_vec());
}
