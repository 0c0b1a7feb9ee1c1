//! Reordering of the color channels of 32-bit pixels.

use vstd::prelude::*;

verus! {

/// Pixels of blue, green, red and an unused byte as pixels of red, green, blue and full opacity.
pub open spec fn bgrx_to_rgba(s: Seq<u8>) -> Seq<u8> {
    Seq::new(
        s.len(),
        |i: int|
            if i % 4 == 0 {
                s[i + 2]
            } else if i % 4 == 1 {
                s[i]
            } else if i % 4 == 2 {
                s[i - 2]
            } else {
                255
            },
    )
}

/// Pixels of red, green, blue and an unused byte as pixels of red, green, blue and full opacity.
pub open spec fn rgbx_to_rgba(s: Seq<u8>) -> Seq<u8> {
    Seq::new(
        s.len(),
        |i: int|
            if i % 4 == 3 {
                255
            } else {
                s[i]
            },
    )
}

/// Pixels with their first and third byte exchanged: red, green, blue and opacity as blue,
/// green, red and opacity, and back.
pub open spec fn red_blue_exchanged(s: Seq<u8>) -> Seq<u8> {
    Seq::new(
        s.len(),
        |i: int|
            if i % 4 == 0 {
                s[i + 2]
            } else if i % 4 == 2 {
                s[i - 2]
            } else {
                s[i]
            },
    )
}

/// Exchanging red and blue twice gives the pixels back.
pub proof fn exchange_is_involutive(s: Seq<u8>)
    requires
        s.len() % 4 == 0,
    ensures
        red_blue_exchanged(red_blue_exchanged(s)) == s,
{
    assert(red_blue_exchanged(red_blue_exchanged(s)) =~= s);
}

/// The pixels with red and blue exchanged, where `swap` says so, and with full opacity in place of
/// their fourth byte, where `opaque` says so.
pub open spec fn reordered(s: Seq<u8>, swap: bool, opaque: bool) -> Seq<u8> {
    if swap {
        if opaque {
            bgrx_to_rgba(s)
        } else {
            red_blue_exchanged(s)
        }
    } else if opaque {
        rgbx_to_rgba(s)
    } else {
        s
    }
}

/// Appends a row of pixels in the order red, green, blue and opacity. `swap` tells that they come
/// with red and blue exchanged, and `opaque` that their fourth byte is unused.
pub fn push_as_rgba(out: &mut Vec<u8>, row: &[u8], swap: bool, opaque: bool)
    requires
        row@.len() % 4 == 0,
    ensures
        final(out)@ == old(out)@ + reordered(row@, swap, opaque),
{
    let n: usize = row.len();
    let ghost before = out@;
    let ghost wanted = reordered(row@, swap, opaque);
    let mut i: usize = 0;
    while i < n
        invariant
            i <= n == row@.len(),
            i % 4 == 0,
            n % 4 == 0,
            wanted == reordered(row@, swap, opaque),
            out@ =~= before + wanted.take(i as int),
        decreases n - i,
    {
        if swap {
            out.push(row[i + 2]);
            out.push(row[i + 1]);
            out.push(row[i]);
        } else {
            out.push(row[i]);
            out.push(row[i + 1]);
            out.push(row[i + 2]);
        }
        if opaque {
            out.push(255);
        } else {
            out.push(row[i + 3]);
        }
        i = i + 4;
    }
    assert(wanted.take(n as int) =~= wanted);
}

/// Writes `count` pixels of red, green, blue and opacity over the front of `canvas`, as pixels
/// of blue, green, red and opacity.
pub fn write_exchanged(canvas: &mut [u8], pixels: &[u8], count: usize)
    requires
        count * 4 <= pixels@.len(),
        count * 4 <= old(canvas)@.len(),
    ensures
        final(canvas)@ == red_blue_exchanged(pixels@.take(count * 4)) + old(canvas)@.skip(
            count * 4,
        ),
{
    assert(pixels.len() == pixels@.len());
    let ghost wanted = red_blue_exchanged(pixels@.take(count * 4));
    let ghost before = canvas@;
    let mut i: usize = 0;
    while i < count
        invariant
            i <= count,
            count * 4 <= pixels@.len() <= usize::MAX,
            count * 4 <= canvas@.len() == before.len(),
            wanted == red_blue_exchanged(pixels@.take(count * 4)),
            canvas@ =~= wanted.take(i * 4) + before.skip(i * 4),
        decreases count - i,
    {
        let k: usize = i * 4;
        let ghost now = canvas@;
        canvas[k] = pixels[k + 2];
        canvas[k + 1] = pixels[k + 1];
        canvas[k + 2] = pixels[k];
        canvas[k + 3] = pixels[k + 3];
        i = i + 1;
    }
    assert(wanted.take(count * 4) =~= wanted);
}

/// Of a pixel of blue, green, red and an unused byte, red, green and blue are kept, for all their
/// values, and the fourth byte is full opacity.
pub proof fn bgrx_pixel(s: Seq<u8>, i: int)
    requires
        0 <= i,
        4 * i + 3 < s.len(),
    ensures
        bgrx_to_rgba(s).len() == s.len(),
        bgrx_to_rgba(s)[4 * i] == s[4 * i + 2],
        bgrx_to_rgba(s)[4 * i + 1] == s[4 * i + 1],
        bgrx_to_rgba(s)[4 * i + 2] == s[4 * i],
        bgrx_to_rgba(s)[4 * i + 3] == 255,
{
}

/// Of a pixel of red, green, blue and an unused byte, the colors are kept where they stand, and
/// the fourth byte is full opacity.
pub proof fn rgbx_pixel(s: Seq<u8>, i: int)
    requires
        0 <= i,
        4 * i + 3 < s.len(),
    ensures
        rgbx_to_rgba(s).len() == s.len(),
        rgbx_to_rgba(s)[4 * i] == s[4 * i],
        rgbx_to_rgba(s)[4 * i + 1] == s[4 * i + 1],
        rgbx_to_rgba(s)[4 * i + 2] == s[4 * i + 2],
        rgbx_to_rgba(s)[4 * i + 3] == 255,
{
}

/// Exchanging red and blue exchanges the first and the third byte of every pixel and keeps the
/// second and the fourth.
pub proof fn exchanged_pixel(s: Seq<u8>, i: int)
    requires
        0 <= i,
        4 * i + 3 < s.len(),
    ensures
        red_blue_exchanged(s).len() == s.len(),
        red_blue_exchanged(s)[4 * i] == s[4 * i + 2],
        red_blue_exchanged(s)[4 * i + 1] == s[4 * i + 1],
        red_blue_exchanged(s)[4 * i + 2] == s[4 * i],
        red_blue_exchanged(s)[4 * i + 3] == s[4 * i + 3],
{
}

/// The colors of a pixel can be told from the reordered one: red and blue are exchanged or not,
/// green stays, and opacity stays or is full.
pub proof fn reordered_pixel(s: Seq<u8>, swap: bool, opaque: bool, i: int)
    requires
        0 <= i,
        4 * i + 3 < s.len(),
    ensures
        reordered(s, swap, opaque).len() == s.len(),
        swap ==> reordered(s, swap, opaque)[4 * i] == s[4 * i + 2] && reordered(s, swap, opaque)[4
            * i + 2] == s[4 * i],
        !swap ==> reordered(s, swap, opaque)[4 * i] == s[4 * i] && reordered(s, swap, opaque)[4 * i
            + 2] == s[4 * i + 2],
        reordered(s, swap, opaque)[4 * i + 1] == s[4 * i + 1],
        opaque ==> reordered(s, swap, opaque)[4 * i + 3] == 255,
        !opaque ==> reordered(s, swap, opaque)[4 * i + 3] == s[4 * i + 3],
{
}

} // verus!
