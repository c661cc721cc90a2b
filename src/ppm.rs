use vstd::prelude::*;

verus! {

/// The largest channel value that an image may hold.
pub const MAX_CHANNEL: u32 = 255;

/// The decimal spelling of `n` in ASCII, with no leading zeros.
pub open spec fn decimal(n: nat) -> Seq<u8>
    decreases n,
{
    if n < 10 {
        seq![(n + 48) as u8]
    } else {
        decimal(n / 10).push((n % 10 + 48) as u8)
    }
}

/// One pixel: its three channels, each followed by a space.
pub open spec fn pixel_text(p: [u32; 3]) -> Seq<u8> {
    decimal(p@[0] as nat) + seq![32u8] + decimal(p@[1] as nat) + seq![32u8] + decimal(
        p@[2] as nat,
    ) + seq![32u8]
}

/// The first `x` pixels of row `y` of an image `w` pixels wide.
pub open spec fn row_prefix(s: Seq<[u32; 3]>, w: nat, y: nat, x: nat) -> Seq<u8>
    decreases x,
{
    if x == 0 {
        Seq::empty()
    } else {
        row_prefix(s, w, y, (x - 1) as nat) + pixel_text(s[(y * w + x - 1) as int])
    }
}

/// The first `y` rows, each ended by a newline.
pub open spec fn rows(s: Seq<[u32; 3]>, w: nat, y: nat) -> Seq<u8>
    decreases y,
{
    if y == 0 {
        Seq::empty()
    } else {
        rows(s, w, (y - 1) as nat) + row_prefix(s, w, (y - 1) as nat, w) + seq![10u8]
    }
}

/// `P3`, the width and height, and the largest channel value, each on a
/// line of its own.
pub open spec fn header(w: nat, h: nat) -> Seq<u8> {
    seq![80u8, 51u8, 10u8] + decimal(w) + seq![32u8] + decimal(h) + seq![10u8] + decimal(
        MAX_CHANNEL as nat,
    ) + seq![10u8]
}

/// The plain-text PPM image of `w` by `h` pixels listed row by row.
pub open spec fn spec_ppm(w: nat, h: nat, pixels: Seq<[u32; 3]>) -> Seq<u8> {
    header(w, h) + rows(pixels, w, h)
}

fn push_decimal(out: &mut Vec<u8>, n: u64)
    ensures
        final(out)@ == old(out)@ + decimal(n as nat),
    decreases n,
{
    if n >= 10 {
        push_decimal(out, n / 10);
    }
    out.push((n % 10) as u8 + 48);
    assert(final(out)@ =~= old(out)@ + decimal(n as nat));
}

fn push_byte(out: &mut Vec<u8>, b: u8)
    ensures
        final(out)@ == old(out)@ + seq![b],
{
    out.push(b);
    assert(final(out)@ =~= old(out)@ + seq![b]);
}

/// Encodes `pixels`, a `w` by `h` image listed row by row, as a plain-text
/// PPM file: the header `P3`, `w h`, `255`, then one line per row with the
/// three channels of each pixel, each followed by a space.
pub fn encode(w: usize, h: usize, pixels: &Vec<[u32; 3]>) -> (r: Vec<u8>)
    requires
        w * h <= pixels.len(),
    ensures
        r@ == spec_ppm(w as nat, h as nat, pixels@),
{
    let mut out: Vec<u8> = Vec::new();
    push_byte(&mut out, 80);
    push_byte(&mut out, 51);
    push_byte(&mut out, 10);
    push_decimal(&mut out, w as u64);
    push_byte(&mut out, 32);
    push_decimal(&mut out, h as u64);
    push_byte(&mut out, 10);
    push_decimal(&mut out, MAX_CHANNEL as u64);
    push_byte(&mut out, 10);
    let ghost head = out@;
    assert(head =~= header(w as nat, h as nat));
    let mut y: usize = 0;
    while y < h
        invariant
            y <= h,
            w * h <= pixels.len(),
            out@ == head + rows(pixels@, w as nat, y as nat),
            head == header(w as nat, h as nat),
        decreases h - y,
    {
        let ghost before_row = out@;
        let mut x: usize = 0;
        while x < w
            invariant
                x <= w,
                y < h,
                w * h <= pixels.len(),
                out@ == before_row + row_prefix(pixels@, w as nat, y as nat, x as nat),
            decreases w - x,
        {
            proof {
                assert(y * w + x < h * w) by (nonlinear_arith)
                    requires
                        y < h,
                        x < w,
                ;
                assert(h * w == w * h) by (nonlinear_arith);
            }
            let p = pixels[y * w + x];
            let ghost before_pixel = out@;
            push_decimal(&mut out, p[0] as u64);
            push_byte(&mut out, 32);
            push_decimal(&mut out, p[1] as u64);
            push_byte(&mut out, 32);
            push_decimal(&mut out, p[2] as u64);
            push_byte(&mut out, 32);
            assert(out@ =~= before_pixel + pixel_text(p));
            x = x + 1;
            assert(out@ =~= before_row + row_prefix(pixels@, w as nat, y as nat, x as nat));
        }
        push_byte(&mut out, 10);
        y = y + 1;
        assert(out@ =~= head + rows(pixels@, w as nat, y as nat));
    }
    out
}

} // verus!
