//! Images in the binary portable pixmap format (P6).

use vstd::prelude::*;

use crate::text;

verus! {

/// A number in decimal digits, as ASCII bytes.
pub open spec fn digits_of(n: nat) -> Seq<u8>
    decreases n,
{
    if n < 10 {
        seq![(48 + n) as u8]
    } else {
        digits_of(n / 10).push((48 + n % 10) as u8)
    }
}

/// The header of an image with 8 bits per channel.
pub open spec fn ppm_header(width: nat, height: nat) -> Seq<u8> {
    // "P6", the two sides and "255", separated by a line feed, a space and line feeds.
    seq![80u8, 54, 10] + digits_of(width) + seq![32u8] + digits_of(height) + seq![
        10u8,
        50,
        53,
        53,
        10,
    ]
}

/// The first three bytes of every group of four.
pub open spec fn without_opacity(pixels: Seq<u8>) -> Seq<u8> {
    Seq::new(3 * ((pixels.len() + 3) / 4), |i: int| pixels[4 * (i / 3) + i % 3])
}

/// An image of the given sides.
pub open spec fn picture(width: nat, height: nat, pixels: Seq<u8>) -> Seq<u8> {
    ppm_header(width, height) + without_opacity(pixels)
}

fn push_digits(out: &mut Vec<u8>, n: u32)
    ensures
        final(out)@ == old(out)@ + digits_of(n as nat),
    decreases n,
{
    let ghost before = out@;
    if n < 10 {
        out.push(48 + n as u8);
        assert(out@ =~= before + digits_of(n as nat));
    } else {
        push_digits(out, n / 10);
        out.push(48 + (n % 10) as u8);
        assert(out@ =~= before + digits_of(n as nat));
    }
}

/// Encodes rows of red, green, blue and opacity as an image without opacity.
pub fn encode_ppm(width: u32, height: u32, pixels: &[u8]) -> (r: Vec<u8>)
    requires
        pixels@.len() % 4 == 0 || pixels@.len() % 4 == 3,
    ensures
        r@ == picture(width as nat, height as nat, pixels@),
        r@ == ppm_header(width as nat, height as nat) + without_opacity(pixels@),
{
    let n: usize = pixels.len();
    let mut r: Vec<u8> = Vec::new();
    r.push(80);
    r.push(54);
    r.push(10);
    assert(r@ =~= seq![80u8, 54, 10]);
    push_digits(&mut r, width);
    r.push(32);
    assert(r@ =~= seq![80u8, 54, 10] + digits_of(width as nat) + seq![32u8]);
    push_digits(&mut r, height);
    let ghost upto = r@;
    r.push(10);
    r.push(50);
    r.push(53);
    r.push(53);
    r.push(10);
    assert(r@ =~= upto + seq![10u8, 50, 53, 53, 10]);
    let ghost header = r@;
    assert(header == ppm_header(width as nat, height as nat));
    let ghost wanted = without_opacity(pixels@);
    let mut i: usize = 0;
    let ghost mut k: int = 0;
    assert(wanted.take(0) =~= Seq::<u8>::empty());
    while i < n
        invariant
            n == pixels@.len(),
            n % 4 == 0 || n % 4 == 3,
            wanted == without_opacity(pixels@),
            0 <= k <= (n + 3) / 4,
            i < n ==> i == 4 * k,
            i >= n ==> i == n && k == (n + 3) / 4,
            r@ =~= header + wanted.take(3 * k),
        decreases n - i,
    {
        let ghost before = r@;
        r.push(pixels[i]);
        r.push(pixels[i + 1]);
        r.push(pixels[i + 2]);
        proof {
            assert(wanted[3 * k] == pixels@[4 * k]);
            assert(wanted[3 * k + 1] == pixels@[4 * k + 1]);
            assert(wanted[3 * k + 2] == pixels@[4 * k + 2]);
            assert(wanted.take(3 * (k + 1)) =~= wanted.take(3 * k).push(pixels@[4 * k]).push(
                pixels@[4 * k + 1],
            ).push(pixels@[4 * k + 2]));
            k = k + 1;
        }
        i = if n - i >= 4 {
            i + 4
        } else {
            n
        };
    }
    assert(wanted.take(3 * k) =~= wanted);
    r
}

/// Every byte of a written number is a digit, and the digits write the number.
pub proof fn digits_read_back(n: nat)
    ensures
        digits_of(n).map_values(|b: u8| b as char) == text::digits(n),
        text::decimal(digits_of(n).map_values(|b: u8| b as char)) == n,
    decreases n,
{
    text::digits_write_the_number(n);
    let s = digits_of(n).map_values(|b: u8| b as char);
    if n >= 10 {
        digits_read_back(n / 10);
        assert(s.drop_last() =~= text::digits(n / 10));
    }
    assert(s =~= text::digits(n));
}

/// The header is "P6", a line feed, the two sides in decimal with a space between them, a line
/// feed, "255" and a line feed, in ASCII; behind it the colors of each pixel follow, three bytes
/// each, whatever their values.
pub proof fn picture_has_header_and_colors(
    width: nat,
    height: nat,
    pixels: Seq<u8>,
    i: int,
    k: int,
)
    requires
        pixels.len() % 4 == 0 || pixels.len() % 4 == 3,
        0 <= i,
        4 * i < pixels.len(),
        0 <= k < 3,
    ensures
        ({
            let p = picture(width, height, pixels);
            let w = text::digits(width);
            let h = text::digits(height);
            let n = 3 + w.len() + 1 + h.len() + 5;
            &&& p.len() == n + 3 * ((pixels.len() + 3) / 4)
            &&& p.take(n as int).map_values(|b: u8| b as char) == seq!['P', '6', '\n'] + w + seq![
                ' ',
            ] + h + seq!['\n', '2', '5', '5', '\n']
            &&& p[n + 3 * i + k] == pixels[4 * i + k]
        }),
{
    let p = picture(width, height, pixels);
    let w = text::digits(width);
    let h = text::digits(height);
    digits_read_back(width);
    digits_read_back(height);
    let dw = digits_of(width);
    let dh = digits_of(height);
    let f = |b: u8| b as char;
    assert(dw.map_values(f) == w);
    assert(dh.map_values(f) == h);
    assert(dw.len() == w.len() && dh.len() == h.len());
    let header = ppm_header(width, height);
    let n = 3 + w.len() + 1 + h.len() + 5;
    assert(header.len() == n);
    assert(p.take(n as int) =~= header);
    let want = seq!['P', '6', '\n'] + w + seq![' '] + h + seq!['\n', '2', '5', '5', '\n'];
    assert forall|j: int| 0 <= j < n implies header.map_values(f)[j] == want[j] by {
        if 3 <= j < 3 + w.len() {
            assert(header[j] == dw[j - 3]);
            assert(dw.map_values(f)[j - 3] == w[j - 3]);
        } else if 4 + w.len() <= j < 4 + w.len() + h.len() {
            assert(header[j] == dh[j - 4 - w.len()]);
            assert(dh.map_values(f)[j - 4 - w.len()] == h[j - 4 - w.len()]);
        }
    }
    assert(header.map_values(f) =~= want);
    assert((3 * i + k) / 3 == i);
    assert((3 * i + k) % 3 == k);
}

} // verus!
