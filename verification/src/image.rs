//! Screenshots: their names and the form in which they are sent, with the `base64` crate.

use base64::Engine;
use vstd::prelude::*;
use crate::http::concat;
use crate::text::{
    begins_with, decimal, decimal_of, finishes_with, law_decimal_reads_back,
    lemma_decimal_is_injective, number_in,
};

verus! {

/// The character for six bits.
pub open spec fn base64_digit(d: int) -> char {
    if d < 26 {
        (65 + d) as char
    } else if d < 52 {
        (71 + d) as char
    } else if d < 62 {
        (d - 4) as char
    } else if d == 62 {
        '+'
    } else {
        '/'
    }
}

/// The four digits of a group of three bytes.
pub open spec fn base64_group(a: u8, b: u8, c: u8) -> Seq<char> {
    let n = 65536 * a + 256 * b + c;
    seq![
        base64_digit(n / 262144),
        base64_digit(n / 4096 % 64),
        base64_digit(n / 64 % 64),
        base64_digit(n % 64),
    ]
}

/// Base64 with the standard alphabet: four digits for three bytes, with `=` in the place of those
/// digits for which the last group has no bits.
pub open spec fn base64(bytes: Seq<u8>) -> Seq<char>
    decreases bytes.len(),
{
    if bytes.len() == 0 {
        seq![]
    } else if bytes.len() == 1 {
        base64_group(bytes[0], 0, 0).take(2) + seq!['=', '=']
    } else if bytes.len() == 2 {
        base64_group(bytes[0], bytes[1], 0).take(3) + seq!['=']
    } else {
        base64_group(bytes[0], bytes[1], bytes[2]) + base64(bytes.skip(3))
    }
}

/// Whether base64 of that many bytes can be held in memory.
pub open spec fn base64_fits(len: nat) -> bool {
    (len + 2) / 3 * 4 <= isize::MAX
}

/// Whether base64 of that many bytes can be held in memory.
pub fn fits_base64(len: usize) -> (b: bool)
    ensures
        b == base64_fits(len as nat),
{
    (len as u128 + 2) / 3 * 4 <= isize::MAX as u128
}

/// `Engine::encode` of the `base64` crate with the engine `STANDARD`: base64 with the standard
/// alphabet and padding. It panics where the digits do not fit into memory.
#[verifier::external_body]
pub(crate) fn encode_base64(bytes: &[u8]) -> (s: String)
    requires
        base64_fits(bytes@.len()),
    ensures
        s@ == base64(bytes@),
{
    base64::engine::general_purpose::STANDARD.encode(bytes)
}

/// The address that holds a PNG image itself.
pub open spec fn data_url(image: Seq<u8>) -> Seq<char> {
    "data:image/png;base64,"@ + base64(image)
}

/// The address that holds a PNG image itself.
pub fn image_url(image: &[u8]) -> (s: String)
    requires
        base64_fits(image@.len()),
    ensures
        s@ == data_url(image@),
{
    concat("data:image/png;base64,", encode_base64(image).as_str())
}

/// The name of the file for a screenshot taken at a time, in seconds since 1970.
pub open spec fn capture_name(timestamp: nat) -> Seq<char> {
    "glidewin_capture_"@ + decimal(timestamp) + ".png"@
}

/// The name of the file for a screenshot taken at a time, in seconds since 1970.
pub fn capture_file_name(timestamp: u64) -> (name: String)
    ensures
        name@ == capture_name(timestamp as nat),
{
    let mut name = concat("glidewin_capture_", decimal_of(timestamp).as_str());
    name.append(".png");
    name
}

// ---------------------------------------------------------------------------------------------
// Laws
// ---------------------------------------------------------------------------------------------

/// The six bits that a character stands for; padding stands for none that count.
pub open spec fn base64_value(c: char) -> int {
    if 'A' <= c <= 'Z' {
        c as int - 65
    } else if 'a' <= c <= 'z' {
        c as int - 71
    } else if '0' <= c <= '9' {
        c as int + 4
    } else if c == '+' {
        62
    } else if c == '/' {
        63
    } else {
        0
    }
}

/// The three bytes in four digits.
pub open spec fn three_bytes(s: Seq<char>) -> Seq<u8> {
    let n = 262144 * base64_value(s[0]) + 4096 * base64_value(s[1]) + 64 * base64_value(s[2])
        + base64_value(s[3]);
    seq![(n / 65536) as u8, (n / 256 % 256) as u8, (n % 256) as u8]
}

/// The bytes that base64 stands for.
pub open spec fn unbase64(s: Seq<char>) -> Seq<u8>
    decreases s.len(),
{
    if s.len() < 4 {
        seq![]
    } else if s[2] == '=' {
        three_bytes(s).take(1)
    } else if s[3] == '=' {
        three_bytes(s).take(2)
    } else {
        three_bytes(s) + unbase64(s.skip(4))
    }
}

proof fn lemma_digit(d: int)
    requires
        0 <= d < 64,
    ensures
        base64_value(base64_digit(d)) == d,
        base64_digit(d) != '=',
{
}

proof fn lemma_sextets(n: int)
    requires
        0 <= n < 16777216,
    ensures
        0 <= n / 262144 < 64,
        262144 * (n / 262144) + 4096 * (n / 4096 % 64) + 64 * (n / 64 % 64) + n % 64 == n,
{
    let a = n / 64;
    let b = n / 4096;
    let c = n / 262144;
    assert(n == 64 * a + n % 64);
    assert(a / 64 == b);
    assert(a == 64 * b + a % 64);
    assert(b / 64 == c);
    assert(b == 64 * c + b % 64);
}

proof fn lemma_octets(a: u8, b: u8, c: u8)
    ensures
        ({
            let n = 65536 * a + 256 * b + c;
            &&& 0 <= n < 16777216
            &&& n / 65536 == a
            &&& n / 256 % 256 == b
            &&& n % 256 == c
            &&& c == 0 ==> n % 64 == 0
            &&& b == 0 && c == 0 ==> n / 64 % 64 == 0
        }),
{
    let n = 65536 * a + 256 * b + c;
    assert(n / 256 == 256 * a + b);
    assert(b == 0 && c == 0 ==> n / 64 == 1024 * a);
}

/// The digits of three bytes, padding among them where the last bytes are zero, stand for those
/// bytes.
proof fn lemma_group(a: u8, b: u8, c: u8, s: Seq<char>)
    requires
        s.len() >= 4,
        s[0] == base64_group(a, b, c)[0],
        s[1] == base64_group(a, b, c)[1],
        s[2] == base64_group(a, b, c)[2] || (s[2] == '=' && b == 0 && c == 0),
        s[3] == base64_group(a, b, c)[3] || (s[3] == '=' && c == 0),
    ensures
        three_bytes(s) == seq![a, b, c],
{
    let n = 65536 * a + 256 * b + c;
    lemma_octets(a, b, c);
    lemma_sextets(n);
    lemma_digit(n / 262144);
    lemma_digit(n / 4096 % 64);
    lemma_digit(n / 64 % 64);
    lemma_digit(n % 64);
    assert(base64_value(s[0]) == n / 262144);
    assert(base64_value(s[1]) == n / 4096 % 64);
    assert(base64_value(s[2]) == n / 64 % 64);
    assert(base64_value(s[3]) == n % 64);
}

/// An image arrives as it was taken: the base64 of its bytes stands for those bytes.
pub proof fn law_base64_reads_back(bytes: Seq<u8>)
    ensures
        unbase64(base64(bytes)) == bytes,
    decreases bytes.len(),
{
    let s = base64(bytes);
    if bytes.len() == 1 {
        lemma_group(bytes[0], 0, 0, s);
        assert(unbase64(s) == bytes);
    } else if bytes.len() == 2 {
        lemma_digit((65536 * bytes[0] + 256 * bytes[1]) / 64 % 64);
        lemma_group(bytes[0], bytes[1], 0, s);
        assert(unbase64(s) == bytes);
    } else if bytes.len() > 2 {
        let n = 65536 * bytes[0] + 256 * bytes[1] + bytes[2];
        lemma_digit(n / 64 % 64);
        lemma_digit(n % 64);
        lemma_group(bytes[0], bytes[1], bytes[2], s);
        assert(s.skip(4) == base64(bytes.skip(3)));
        law_base64_reads_back(bytes.skip(3));
        assert(seq![bytes[0], bytes[1], bytes[2]] + bytes.skip(3) == bytes);
    } else {
        assert(unbase64(s) == bytes);
    }
}

/// Base64 has four digits for three bytes, counting a group that is not full as a full one.
pub proof fn law_base64_has_four_digits_for_three_bytes(bytes: Seq<u8>)
    ensures
        base64(bytes).len() == (bytes.len() + 2) / 3 * 4,
    decreases bytes.len(),
{
    if bytes.len() > 2 {
        law_base64_has_four_digits_for_three_bytes(bytes.skip(3));
    }
}

/// Screenshots taken in different seconds have different file names.
pub proof fn law_captures_do_not_share_files(a: nat, b: nat)
    requires
        capture_name(a) == capture_name(b),
    ensures
        a == b,
{
    let start = "glidewin_capture_"@.len() as int;
    let end = capture_name(a).len() - ".png"@.len();
    assert(capture_name(a).subrange(start, end) == decimal(a));
    assert(capture_name(b).subrange(start, end) == decimal(b));
    lemma_decimal_is_injective(a, b);
}

/// The address of an image says what the image is and holds it whole: after its head stands base64
/// that stands for the bytes of the image.
pub proof fn law_an_address_holds_the_image(image: Seq<u8>)
    ensures
        begins_with(data_url(image), "data:image/png;base64,"@),
        unbase64(data_url(image).skip("data:image/png;base64,"@.len() as int)) == image,
{
    let n = "data:image/png;base64,"@.len() as int;
    assert(data_url(image).take(n) == "data:image/png;base64,"@);
    assert(data_url(image).skip(n) == base64(image));
    law_base64_reads_back(image);
}

/// The name of a screenshot gives the second in which it was taken.
pub proof fn law_captures_name_their_second(timestamp: nat)
    ensures
        begins_with(capture_name(timestamp), "glidewin_capture_"@),
        finishes_with(capture_name(timestamp), ".png"@),
        number_in(
            capture_name(timestamp).subrange(
                "glidewin_capture_"@.len() as int,
                capture_name(timestamp).len() - ".png"@.len(),
            ),
        ) == timestamp,
{
    let name = capture_name(timestamp);
    let start = "glidewin_capture_"@.len() as int;
    let end = name.len() - ".png"@.len();
    assert(name.take(start) == "glidewin_capture_"@);
    assert(name.skip(end) == ".png"@);
    assert(name.subrange(start, end) == decimal(timestamp));
    law_decimal_reads_back(timestamp);
}

} // verus!
