//! The binary PPM encoding of an image, and the reading of its header.

use vstd::prelude::*;
use crate::image::{Grid, Image};

verus! {

/// The decimal digits of `n` in ASCII, most significant first, without
/// leading zeros.
pub open spec fn decimal(n: nat) -> Seq<u8>
    decreases n,
{
    if n < 10 {
        seq![(48 + n) as u8]
    } else {
        decimal(n / 10).push((48 + n % 10) as u8)
    }
}

/// The header of a binary PPM image of the given size: the line `P6`, the
/// line of width and height separated by one space, and the line `255`.
pub open spec fn ppm_header(width: nat, height: nat) -> Seq<u8> {
    seq![0x50u8, 0x36u8, 0x0Au8] + decimal(width) + seq![0x20u8] + decimal(height)
        + seq![0x0Au8, 0x32u8, 0x35u8, 0x35u8, 0x0Au8]
}

/// The red channel of a packed colour: bits 16 to 23.
pub open spec fn red(pixel: u32) -> u8 {
    ((pixel >> 16) & 0xFF) as u8
}

/// The green channel of a packed colour: bits 8 to 15.
pub open spec fn green(pixel: u32) -> u8 {
    ((pixel >> 8) & 0xFF) as u8
}

/// The blue channel of a packed colour: bits 0 to 7.
pub open spec fn blue(pixel: u32) -> u8 {
    (pixel & 0xFF) as u8
}

/// Channel 0, 1 or 2 of a packed colour: red, green or blue.
pub open spec fn channel(pixel: u32, which: int) -> u8 {
    if which == 0 {
        red(pixel)
    } else if which == 1 {
        green(pixel)
    } else {
        blue(pixel)
    }
}

/// The pixels as raw bytes: red, green and blue of each pixel in turn.
pub open spec fn pixel_data(pixels: Seq<u32>) -> Seq<u8> {
    Seq::new(3 * pixels.len(), |k: int| channel(pixels[k / 3], k % 3))
}

/// The whole encoding of a grid: the header, then the pixel data row after
/// row.
pub open spec fn ppm_bytes(grid: Grid) -> Seq<u8> {
    ppm_header(grid.width, grid.height) + pixel_data(grid.pixels)
}

/// Adding a pixel to the sequence adds its three channels to the data.
proof fn lemma_pixel_data_push(pixels: Seq<u32>, pixel: u32)
    ensures
        pixel_data(pixels.push(pixel)) == pixel_data(pixels) + seq![
            red(pixel),
            green(pixel),
            blue(pixel),
        ],
{
    let longer = pixel_data(pixels.push(pixel));
    let joined = pixel_data(pixels) + seq![red(pixel), green(pixel), blue(pixel)];
    assert(longer.len() == joined.len());
    assert forall|k: int| 0 <= k < longer.len() implies longer[k] == joined[k] by {
        if k < 3 * pixels.len() {
            assert(pixels.push(pixel)[k / 3] == pixels[k / 3]);
        } else {
            assert(k / 3 == pixels.len());
        }
    }
    assert(longer =~= joined);
}

/// Splits a packed colour into its red, green and blue bytes.
pub fn channels(pixel: u32) -> (rgb: (u8, u8, u8))
    ensures
        rgb.0 == red(pixel),
        rgb.1 == green(pixel),
        rgb.2 == blue(pixel),
{
    assert((pixel >> 16) & 0xFF <= 0xFF) by (bit_vector);
    assert((pixel >> 8) & 0xFF <= 0xFF) by (bit_vector);
    assert(pixel & 0xFF <= 0xFF) by (bit_vector);
    (((pixel >> 16) & 0xFF) as u8, ((pixel >> 8) & 0xFF) as u8, (pixel & 0xFF) as u8)
}

/// Appends the decimal digits of `n` to `out`.
fn push_decimal(out: &mut Vec<u8>, n: usize)
    ensures
        final(out)@ == old(out)@ + decimal(n as nat),
    decreases n,
{
    if n >= 10 {
        push_decimal(out, n / 10);
    }
    let digit: u8 = (n % 10) as u8;
    out.push(48 + digit);
    assert(out@ =~= old(out)@ + decimal(n as nat));
}

/// Encodes the image as a binary PPM stream: the ASCII header that declares
/// the size and the largest channel value, followed at once by three bytes
/// for every pixel, row after row.
pub fn encode_ppm(image: &Image) -> (bytes: Vec<u8>)
    requires
        image.wf(),
    ensures
        bytes@ == ppm_bytes(image@),
{
    let width: usize = image.width();
    let height: usize = image.height();
    let mut out: Vec<u8> = Vec::new();
    out.push(0x50);
    out.push(0x36);
    out.push(0x0A);
    push_decimal(&mut out, width);
    out.push(0x20);
    push_decimal(&mut out, height);
    out.push(0x0A);
    out.push(0x32);
    out.push(0x35);
    out.push(0x35);
    out.push(0x0A);
    assert(out@ =~= ppm_header(width as nat, height as nat));
    let ghost header = out@;
    let ghost mut done: int = 0;
    assert(image@.pixels.take(0) =~= Seq::<u32>::empty());
    assert(out@ =~= header + pixel_data(image@.pixels.take(0)));
    let mut y: usize = 0;
    while y < height
        invariant
            image.wf(),
            image@.width == width,
            image@.height == height,
            y <= height,
            done == y * width,
            0 <= done <= image@.pixels.len(),
            out@ == header + pixel_data(image@.pixels.take(done)),
        decreases height - y,
    {
        let mut x: usize = 0;
        while x < width
            invariant
                image.wf(),
                image@.width == width,
                image@.height == height,
                y < height,
                x <= width,
                done == y * width + x,
                0 <= done <= image@.pixels.len(),
                out@ == header + pixel_data(image@.pixels.take(done)),
            decreases width - x,
        {
            proof {
                image@.lemma_position_index(x as int, y as int);
            }
            let (r, g, b) = channels(image.get(x, y));
            out.push(r);
            out.push(g);
            out.push(b);
            proof {
                let pixel = image@.pixels[done];
                assert(image@.pixels.take(done + 1) =~= image@.pixels.take(done).push(pixel));
                lemma_pixel_data_push(image@.pixels.take(done), pixel);
                assert(out@ =~= header + pixel_data(image@.pixels.take(done + 1)));
                done = done + 1;
            }
            x = x + 1;
        }
        proof {
            assert((y + 1) * width == y * width + width) by (nonlinear_arith);
        }
        y = y + 1;
    }
    proof {
        assert(done == image@.pixels.len()) by (nonlinear_arith)
            requires
                done == height * width,
                image@.pixels.len() == width * height,
        ;
        assert(image@.pixels.take(done) =~= image@.pixels);
    }
    out
}

/// What the header of an encoded image declares.
#[derive(Debug, Clone, Copy, PartialEq, Eq, Structural)]
pub struct PpmHeader {
    /// The number of columns.
    pub width: usize,
    /// The number of rows.
    pub height: usize,
    /// The number of bytes that the header takes: where the pixel data
    /// starts.
    pub data_start: usize,
}

/// Whether the bytes begin with the header of an image of the given size.
pub open spec fn has_header(bytes: Seq<u8>, width: nat, height: nat) -> bool {
    ppm_header(width, height).is_prefix_of(bytes)
}

/// What reading the header of `bytes` must give. A header is read exactly
/// where the bytes begin with the header of some size whose width and height
/// fit in a machine word; what is read is that size and the length of that
/// header.
pub open spec fn decodes_to(bytes: Seq<u8>, header: Option<PpmHeader>) -> bool {
    match header {
        Some(h) => {
            &&& has_header(bytes, h.width as nat, h.height as nat)
            &&& h.data_start == ppm_header(h.width as nat, h.height as nat).len()
        },
        None => forall|width: nat, height: nat|
            width <= usize::MAX && height <= usize::MAX ==> !#[trigger] has_header(
                bytes,
                width,
                height,
            ),
    }
}

/// Whether the byte is an ASCII digit.
pub open spec fn is_digit(b: u8) -> bool {
    48 <= b <= 57
}

/// The number that a sequence of ASCII digits writes.
pub open spec fn digits_value(digits: Seq<u8>) -> nat
    decreases digits.len(),
{
    if digits.len() == 0 {
        0
    } else {
        digits_value(digits.drop_last()) * 10 + (digits.last() - 48) as nat
    }
}

/// Whether the bytes are the decimal digits of a number as `decimal` writes
/// it: at least one digit, and no leading zero before another digit.
pub open spec fn is_canonical(digits: Seq<u8>) -> bool {
    &&& digits.len() > 0
    &&& forall|i: int| 0 <= i < digits.len() ==> is_digit(#[trigger] digits[i])
    &&& (digits.len() == 1 || digits[0] != 48)
}

/// Where the digits that start at `start` end: the first position from
/// `start` on that holds no digit.
pub open spec fn digits_end(bytes: Seq<u8>, start: int) -> int
    decreases bytes.len() - start,
{
    if 0 <= start < bytes.len() && is_digit(bytes[start]) {
        digits_end(bytes, start + 1)
    } else {
        start
    }
}

/// `decimal` writes canonical digits, and they write the number back.
pub proof fn lemma_decimal_canonical(n: nat)
    ensures
        is_canonical(decimal(n)),
        digits_value(decimal(n)) == n,
        n > 0 ==> decimal(n)[0] != 48,
    decreases n,
{
    if n < 10 {
        let d = decimal(n);
        assert(d.len() == 1);
        assert(d.drop_last().len() == 0);
        assert(digits_value(d) == digits_value(d.drop_last()) * 10 + (d.last() - 48) as nat);
    } else {
        lemma_decimal_canonical(n / 10);
        let front = decimal(n / 10);
        let d = decimal(n);
        assert(d == front.push((48 + n % 10) as u8));
        assert(d.drop_last() =~= front);
        assert(d[0] == front[0]);
        assert forall|i: int| 0 <= i < d.len() implies is_digit(#[trigger] d[i]) by {
            if i < front.len() {
                assert(d[i] == front[i]);
            }
        }
    }
}

/// Digits without a leading zero write a number that is not zero.
proof fn lemma_digits_value_positive(digits: Seq<u8>)
    requires
        digits.len() > 0,
        forall|i: int| 0 <= i < digits.len() ==> is_digit(#[trigger] digits[i]),
        digits[0] != 48,
    ensures
        digits_value(digits) >= 1,
    decreases digits.len(),
{
    if digits.len() == 1 {
        assert(digits.drop_last().len() == 0);
        assert(digits.last() == digits[0]);
    } else {
        let front = digits.drop_last();
        assert(front[0] == digits[0]);
        assert forall|i: int| 0 <= i < front.len() implies is_digit(#[trigger] front[i]) by {
            assert(front[i] == digits[i]);
        }
        lemma_digits_value_positive(front);
    }
}

/// Canonical digits are what `decimal` writes for their number.
pub proof fn lemma_canonical_decimal(digits: Seq<u8>)
    requires
        is_canonical(digits),
    ensures
        decimal(digits_value(digits)) == digits,
    decreases digits.len(),
{
    let front = digits.drop_last();
    let last = digits.last();
    assert(is_digit(last));
    if digits.len() == 1 {
        assert(front.len() == 0);
        assert(digits_value(front) == 0);
        assert(digits_value(digits) == digits_value(front) * 10 + (last - 48) as nat);
        assert(decimal(digits_value(digits)) =~= digits);
    } else {
        assert(front[0] == digits[0]);
        assert forall|i: int| 0 <= i < front.len() implies is_digit(#[trigger] front[i]) by {
            assert(front[i] == digits[i]);
        }
        lemma_digits_value_positive(front);
        lemma_canonical_decimal(front);
        let v = digits_value(front);
        let c = (last - 48) as nat;
        assert(digits_value(digits) == v * 10 + c);
        assert((v * 10 + c) / 10 == v);
        assert((v * 10 + c) % 10 == c);
        assert((48 + c) as u8 == last);
        assert(decimal(digits_value(digits)) == decimal(v).push(last));
        assert(front.push(last) =~= digits);
    }
}

/// A run of digits that is followed by no further digit ends where
/// `digits_end` says.
pub proof fn lemma_digits_end(bytes: Seq<u8>, start: int, end: int)
    requires
        0 <= start <= end <= bytes.len(),
        forall|i: int| start <= i < end ==> is_digit(#[trigger] bytes[i]),
        end == bytes.len() || !is_digit(bytes[end]),
    ensures
        digits_end(bytes, start) == end,
    decreases end - start,
{
    if start < end {
        assert(is_digit(bytes[start]));
        lemma_digits_end(bytes, start + 1, end);
    }
}

/// The digits between `start` and `digits_end` are digits, and no digit
/// follows them.
pub proof fn lemma_digits_end_is_end(bytes: Seq<u8>, start: int)
    requires
        0 <= start <= bytes.len(),
    ensures
        start <= digits_end(bytes, start) <= bytes.len(),
        forall|i: int| start <= i < digits_end(bytes, start) ==> is_digit(#[trigger] bytes[i]),
        digits_end(bytes, start) == bytes.len() || !is_digit(bytes[digits_end(bytes, start)]),
    decreases bytes.len() - start,
{
    if start < bytes.len() && is_digit(bytes[start]) {
        lemma_digits_end_is_end(bytes, start + 1);
    }
}

/// A longer run of digits writes a number that is at least as large.
proof fn lemma_digits_value_grows(bytes: Seq<u8>, start: int, middle: int, end: int)
    requires
        0 <= start <= middle <= end <= bytes.len(),
    ensures
        digits_value(bytes.subrange(start, middle)) <= digits_value(bytes.subrange(start, end)),
    decreases end - middle,
{
    if middle < end {
        lemma_digits_value_grows(bytes, start, middle, end - 1);
        let whole = bytes.subrange(start, end);
        assert(whole.drop_last() =~= bytes.subrange(start, end - 1));
        assert(digits_value(whole) == digits_value(whole.drop_last()) * 10 + (whole.last()
            - 48) as nat);
        assert(digits_value(whole) >= digits_value(whole.drop_last())) by (nonlinear_arith)
            requires
                digits_value(whole) == digits_value(whole.drop_last()) * 10 + (whole.last()
                    - 48) as nat,
        ;
    }
}

/// Where the bytes begin with the header of an image, what stands where:
/// the magic line, the digits of the width up to the first byte that is no
/// digit, a space, the digits of the height likewise, and the line `255`.
proof fn lemma_header_shape(bytes: Seq<u8>, width: nat, height: nat)
    requires
        has_header(bytes, width, height),
    ensures
        ({
            let a = decimal(width).len() as int;
            let b = decimal(height).len() as int;
            &&& ppm_header(width, height).len() == 9 + a + b
            &&& bytes.len() >= 9 + a + b
            &&& bytes[0] == 0x50 && bytes[1] == 0x36 && bytes[2] == 0x0A
            &&& digits_end(bytes, 3) == 3 + a
            &&& bytes.subrange(3, 3 + a) == decimal(width)
            &&& bytes[3 + a] == 0x20
            &&& digits_end(bytes, 4 + a) == 4 + a + b
            &&& bytes.subrange(4 + a, 4 + a + b) == decimal(height)
            &&& bytes[4 + a + b] == 0x0A
            &&& bytes[5 + a + b] == 0x32
            &&& bytes[6 + a + b] == 0x35
            &&& bytes[7 + a + b] == 0x35
            &&& bytes[8 + a + b] == 0x0A
        }),
{
    let header = ppm_header(width, height);
    let a = decimal(width).len() as int;
    let b = decimal(height).len() as int;
    lemma_decimal_canonical(width);
    lemma_decimal_canonical(height);
    assert(header.len() == 9 + a + b);
    assert(header =~= bytes.subrange(0, header.len() as int));
    assert forall|i: int| 0 <= i < header.len() implies bytes[i] == header[i] by {
        assert(bytes.subrange(0, header.len() as int)[i] == bytes[i]);
    }
    assert(header[0] == 0x50 && header[1] == 0x36 && header[2] == 0x0A);
    assert forall|i: int| 0 <= i < a implies header[3 + i] == decimal(width)[i] by {}
    assert(header[3 + a] == 0x20);
    assert forall|i: int| 0 <= i < b implies header[4 + a + i] == decimal(height)[i] by {}
    assert(header[4 + a + b] == 0x0A);
    assert(header[5 + a + b] == 0x32);
    assert(header[6 + a + b] == 0x35);
    assert(header[7 + a + b] == 0x35);
    assert(header[8 + a + b] == 0x0A);
    assert(bytes.subrange(3, 3 + a) =~= decimal(width)) by {
        assert forall|i: int| 0 <= i < a implies bytes.subrange(3, 3 + a)[i] == decimal(
            width,
        )[i] by {
            assert(bytes[3 + i] == header[3 + i]);
        }
    }
    assert(bytes.subrange(4 + a, 4 + a + b) =~= decimal(height)) by {
        assert forall|i: int| 0 <= i < b implies bytes.subrange(4 + a, 4 + a + b)[i]
            == decimal(height)[i] by {
            assert(bytes[4 + a + i] == header[4 + a + i]);
        }
    }
    assert forall|i: int| 3 <= i < 3 + a implies is_digit(#[trigger] bytes[i]) by {
        assert(bytes[i] == header[3 + (i - 3)]);
        assert(is_digit(decimal(width)[i - 3]));
    }
    assert(bytes[3 + a] == header[3 + a]);
    lemma_digits_end(bytes, 3, 3 + a);
    assert forall|i: int| 4 + a <= i < 4 + a + b implies is_digit(#[trigger] bytes[i]) by {
        assert(bytes[i] == header[4 + a + (i - 4 - a)]);
        assert(is_digit(decimal(height)[i - 4 - a]));
    }
    assert(bytes[4 + a + b] == header[4 + a + b]);
    lemma_digits_end(bytes, 4 + a, 4 + a + b);
}

/// Bytes that hold the magic line, canonical digits, a space, canonical
/// digits and the line `255` begin with the header of the size that the
/// digits write.
proof fn lemma_header_found(bytes: Seq<u8>, p: int, q: int)
    requires
        3 < p < q,
        q + 5 <= bytes.len(),
        bytes[0] == 0x50 && bytes[1] == 0x36 && bytes[2] == 0x0A,
        is_canonical(bytes.subrange(3, p)),
        bytes[p] == 0x20,
        is_canonical(bytes.subrange(p + 1, q)),
        bytes[q] == 0x0A,
        bytes[q + 1] == 0x32,
        bytes[q + 2] == 0x35,
        bytes[q + 3] == 0x35,
        bytes[q + 4] == 0x0A,
    ensures
        has_header(
            bytes,
            digits_value(bytes.subrange(3, p)),
            digits_value(bytes.subrange(p + 1, q)),
        ),
        ppm_header(
            digits_value(bytes.subrange(3, p)),
            digits_value(bytes.subrange(p + 1, q)),
        ).len() == q + 5,
{
    let first = bytes.subrange(3, p);
    let second = bytes.subrange(p + 1, q);
    lemma_canonical_decimal(first);
    lemma_canonical_decimal(second);
    let header = ppm_header(digits_value(first), digits_value(second));
    assert(header.len() == q + 5);
    assert forall|i: int| 0 <= i < header.len() implies header[i] == bytes[i] by {
        if 3 <= i < p {
            assert(header[i] == first[i - 3]);
        } else if p < i < q {
            assert(header[i] == second[i - p - 1]);
        }
    }
    assert(header =~= bytes.subrange(0, header.len() as int));
}

/// Reads the number whose digits start at `start`: its value, and where its
/// digits end. There is none where no digit stands at `start`, where a zero
/// leads further digits, or where the number does not fit in a machine word.
fn read_number(bytes: &Vec<u8>, start: usize) -> (found: Option<(usize, usize)>)
    requires
        start <= bytes@.len(),
    ensures
        ({
            let end = digits_end(bytes@, start as int);
            let digits = bytes@.subrange(start as int, end);
            found == if is_canonical(digits) && digits_value(digits) <= usize::MAX {
                Some((digits_value(digits) as usize, end as usize))
            } else {
                None
            }
        }),
{
    let n: usize = bytes.len();
    let ghost end = digits_end(bytes@, start as int);
    proof {
        lemma_digits_end_is_end(bytes@, start as int);
        assert(bytes@.subrange(start as int, start as int).len() == 0);
    }
    let mut i: usize = start;
    let mut value: usize = 0;
    while i < n && 48 <= bytes[i] && bytes[i] <= 57
        invariant
            n == bytes@.len(),
            start <= i <= end <= n,
            end == digits_end(bytes@, start as int),
            forall|k: int| start <= k < end ==> is_digit(#[trigger] bytes@[k]),
            end == n || !is_digit(bytes@[end]),
            value == digits_value(bytes@.subrange(start as int, i as int)),
        decreases n - i,
    {
        let digit: usize = (bytes[i] - 48) as usize;
        proof {
            let longer = bytes@.subrange(start as int, i + 1);
            assert(longer.drop_last() =~= bytes@.subrange(start as int, i as int));
            assert(longer.last() == bytes@[i as int]);
            assert(digits_value(longer) == value * 10 + digit);
            assert(i < end);
            lemma_digits_value_grows(bytes@, start as int, i + 1, end);
        }
        let next: Option<usize> = match value.checked_mul(10) {
            Some(tens) => tens.checked_add(digit),
            None => None,
        };
        match next {
            Some(sum) => {
                value = sum;
            },
            None => {
                return None;
            },
        }
        i = i + 1;
    }
    assert(i == end);
    if i == start {
        return None;
    }
    if bytes[start] == 48 && i - start > 1 {
        proof {
            assert(bytes@.subrange(start as int, end)[0] == bytes@[start as int]);
        }
        return None;
    }
    proof {
        let digits = bytes@.subrange(start as int, end);
        assert(digits[0] == bytes@[start as int]);
        assert forall|k: int| 0 <= k < digits.len() implies is_digit(#[trigger] digits[k]) by {
            assert(digits[k] == bytes@[start + k]);
        }
    }
    Some((value, i))
}

/// Reads the header of an encoded image: the size that it declares, and where
/// the pixel data starts.
///
/// The header is read where the bytes begin with the magic line `P6`, a line
/// that holds the width, one space and the height, both in decimal digits
/// without leading zeros, and the line `255`. Anything else is no header.
pub fn decode_header(bytes: &Vec<u8>) -> (header: Option<PpmHeader>)
    ensures
        decodes_to(bytes@, header),
{
    let n: usize = bytes.len();
    proof {
        assert forall|w: nat, h: nat| #[trigger] has_header(bytes@, w, h) implies {
            let a = decimal(w).len() as int;
            let b = decimal(h).len() as int;
            &&& n >= 9 + a + b
            &&& bytes@[0] == 0x50 && bytes@[1] == 0x36 && bytes@[2] == 0x0A
            &&& digits_end(bytes@, 3) == 3 + a
            &&& bytes@.subrange(3, 3 + a) == decimal(w)
            &&& bytes@[3 + a] == 0x20
            &&& digits_end(bytes@, 4 + a) == 4 + a + b
            &&& bytes@.subrange(4 + a, 4 + a + b) == decimal(h)
            &&& bytes@[4 + a + b] == 0x0A
            &&& bytes@[5 + a + b] == 0x32
            &&& bytes@[6 + a + b] == 0x35
            &&& bytes@[7 + a + b] == 0x35
            &&& bytes@[8 + a + b] == 0x0A
            &&& is_canonical(decimal(w))
            &&& is_canonical(decimal(h))
            &&& digits_value(decimal(w)) == w
            &&& digits_value(decimal(h)) == h
        } by {
            lemma_header_shape(bytes@, w, h);
            lemma_decimal_canonical(w);
            lemma_decimal_canonical(h);
        }
    }
    if n < 3 || bytes[0] != 0x50 || bytes[1] != 0x36 || bytes[2] != 0x0A {
        return None;
    }
    let (width, p) = match read_number(bytes, 3) {
        Some(found) => found,
        None => {
            return None;
        },
    };
    if p >= n || bytes[p] != 0x20 {
        return None;
    }
    let (height, q) = match read_number(bytes, p + 1) {
        Some(found) => found,
        None => {
            return None;
        },
    };
    proof {
        lemma_digits_end_is_end(bytes@, p + 1);
    }
    if n - q < 5 {
        return None;
    }
    if bytes[q] != 0x0A || bytes[q + 1] != 0x32 || bytes[q + 2] != 0x35 || bytes[q + 3] != 0x35
        || bytes[q + 4] != 0x0A {
        return None;
    }
    proof {
        lemma_digits_end_is_end(bytes@, 3);
        lemma_header_found(bytes@, p as int, q as int);
    }
    Some(PpmHeader { width, height, data_start: q + 5 })
}

/// The bytes begin with the header of at most one size.
pub proof fn lemma_header_unique(
    bytes: Seq<u8>,
    width: nat,
    height: nat,
    other_width: nat,
    other_height: nat,
)
    requires
        has_header(bytes, width, height),
        has_header(bytes, other_width, other_height),
    ensures
        width == other_width,
        height == other_height,
{
    lemma_header_shape(bytes, width, height);
    lemma_header_shape(bytes, other_width, other_height);
    lemma_decimal_canonical(width);
    lemma_decimal_canonical(height);
    lemma_decimal_canonical(other_width);
    lemma_decimal_canonical(other_height);
}

/// Reading the header of an encoded image recovers its size exactly, and
/// what follows the header is three bytes for every pixel.
pub proof fn lemma_encoding_round_trip(grid: Grid, header: Option<PpmHeader>)
    requires
        grid.wf(),
        grid.width <= usize::MAX,
        grid.height <= usize::MAX,
        decodes_to(ppm_bytes(grid), header),
    ensures
        header matches Some(h) && {
            &&& h.width == grid.width
            &&& h.height == grid.height
            &&& h.data_start + 3 * grid.width * grid.height == ppm_bytes(grid).len()
            &&& ppm_bytes(grid).skip(h.data_start as int) == pixel_data(grid.pixels)
        },
{
    let bytes = ppm_bytes(grid);
    let own = ppm_header(grid.width, grid.height);
    assert(own =~= bytes.subrange(0, own.len() as int));
    assert(has_header(bytes, grid.width, grid.height));
    match header {
        Some(h) => {
            lemma_header_unique(bytes, grid.width, grid.height, h.width as nat, h.height as nat);
            assert(bytes.skip(own.len() as int) =~= pixel_data(grid.pixels));
            assert(3 * grid.pixels.len() == 3 * grid.width * grid.height) by (nonlinear_arith)
                requires
                    grid.pixels.len() == grid.width * grid.height,
            ;
        },
        None => {},
    }
}

} // verus!
