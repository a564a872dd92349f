//! The plain-text PPM image format.
use vstd::prelude::*;

verus! {

/// The ASCII character of the decimal digit `d`.
pub open spec fn digit(d: int) -> u8 {
    (48 + d) as u8
}

/// The decimal notation of `n` in ASCII, without leading zeros.
pub open spec fn decimal(n: nat) -> Seq<u8>
    decreases n,
{
    if n < 10 {
        seq![digit(n as int)]
    } else {
        decimal(n / 10).push(digit((n % 10) as int))
    }
}

/// The decimal notation of `n` in ASCII, with a minus sign if it is
/// negative.
pub open spec fn signed_decimal(n: int) -> Seq<u8> {
    if n < 0 {
        seq![45u8] + decimal((-n) as nat)
    } else {
        decimal(n as nat)
    }
}

/// The header of an image of the given size with 255 as the largest
/// value: the signature of the plain format, the width and the height, and
/// `255`, each on a line of its own but for the two sizes, which share
/// one.
pub open spec fn header(width: int, height: int) -> Seq<u8> {
    seq![80u8, 51, 10] + signed_decimal(width) + seq![32u8] + signed_decimal(height) + seq![
        10u8,
        50,
        53,
        53,
        10,
    ]
}

/// The line of one pixel: red, green and blue, separated by spaces.
pub open spec fn pixel_line(r: u8, g: u8, b: u8) -> Seq<u8> {
    decimal(r as nat) + seq![32u8] + decimal(g as nat) + seq![32u8] + decimal(b as nat) + seq![
        10u8,
    ]
}

/// The lines of the first `pixels` pixels of `image`, which holds three
/// bytes a pixel.
pub open spec fn body(image: Seq<u8>, pixels: nat) -> Seq<u8>
    decreases pixels,
{
    if pixels == 0 {
        Seq::empty()
    } else {
        let k = (pixels - 1) as int;
        body(image, (pixels - 1) as nat) + pixel_line(
            image[3 * k],
            image[3 * k + 1],
            image[3 * k + 2],
        )
    }
}

/// The whole file: the header and a line for every complete pixel of
/// `image`.
pub open spec fn ppm(width: int, height: int, image: Seq<u8>) -> Seq<u8> {
    header(width, height) + body(image, image.len() / 3)
}

/// Appends the decimal notation of `n`.
pub fn push_decimal(out: &mut Vec<u8>, n: u64)
    ensures
        final(out)@ == old(out)@ + decimal(n as nat),
    decreases n,
{
    if n >= 10 {
        push_decimal(out, n / 10);
    }
    out.push(48 + (n % 10) as u8);
    proof {
        assert(final(out)@ =~= old(out)@ + decimal(n as nat));
    }
}

/// Appends the decimal notation of `n`, with its sign.
pub fn push_signed(out: &mut Vec<u8>, n: i32)
    ensures
        final(out)@ == old(out)@ + signed_decimal(n as int),
{
    if n < 0 {
        out.push(45);
        push_decimal(out, (-(n as i64)) as u64);
        proof {
            assert(final(out)@ =~= old(out)@ + signed_decimal(n as int));
        }
    } else {
        push_decimal(out, n as u64);
    }
}

/// The PPM file of an image of the given size, whose bytes are `image`:
/// three a pixel, the rows from the top down.
pub fn to_ppm(image_width: i32, image_height: i32, image: &Vec<u8>) -> (text: Vec<u8>)
    ensures
        text@ == ppm(image_width as int, image_height as int, image@),
{
    let mut text: Vec<u8> = Vec::new();
    text.push(80);
    text.push(51);
    text.push(10);
    push_signed(&mut text, image_width);
    text.push(32);
    push_signed(&mut text, image_height);
    text.push(10);
    text.push(50);
    text.push(53);
    text.push(53);
    text.push(10);
    proof {
        assert(text@ =~= header(image_width as int, image_height as int));
    }
    let pixels: usize = image.len() / 3;
    let mut k: usize = 0;
    while k < pixels
        invariant
            0 <= k <= pixels,
            pixels == image.len() / 3,
            text@ == header(image_width as int, image_height as int) + body(image@, k as nat),
        decreases pixels - k,
    {
        let ghost before = text@;
        push_decimal(&mut text, image[3 * k] as u64);
        text.push(32);
        push_decimal(&mut text, image[3 * k + 1] as u64);
        text.push(32);
        push_decimal(&mut text, image[3 * k + 2] as u64);
        text.push(10);
        proof {
            let line = pixel_line(image@[3 * k], image@[3 * k + 1], image@[3 * k + 2]);
            assert(text@ =~= before + line);
            assert(before + line =~= header(image_width as int, image_height as int) + (body(
                image@,
                k as nat,
            ) + line));
        }
        k += 1;
    }
    text
}

} // verus!
