//! Designations: the human-readable label of an ANIMA.
//!
//! The label of token `n` is the tag `ANIMA-` followed by `n` in upper-case
//! hexadecimal, padded with zeros on the left to at least eight digits.

use vstd::prelude::*;
use vstd::string::*;

verus! {

/// The least number of hexadecimal digits a designation shows.
pub const DESIGNATION_WIDTH: u64 = 8;

/// The upper-case hexadecimal digit for `d`, where `0 <= d < 16`.
pub open spec fn hex_digit(d: int) -> char {
    if d == 0 {
        '0'
    } else if d == 1 {
        '1'
    } else if d == 2 {
        '2'
    } else if d == 3 {
        '3'
    } else if d == 4 {
        '4'
    } else if d == 5 {
        '5'
    } else if d == 6 {
        '6'
    } else if d == 7 {
        '7'
    } else if d == 8 {
        '8'
    } else if d == 9 {
        '9'
    } else if d == 10 {
        'A'
    } else if d == 11 {
        'B'
    } else if d == 12 {
        'C'
    } else if d == 13 {
        'D'
    } else if d == 14 {
        'E'
    } else {
        'F'
    }
}

/// `n` in upper-case hexadecimal, most significant digit first, padded with
/// zeros on the left to at least `width` digits (and never empty).
pub open spec fn hex_digits(n: nat, width: nat) -> Seq<char>
    decreases n, width,
{
    if n < 16 && width <= 1 {
        seq![hex_digit(n as int)]
    } else {
        hex_digits(n / 16, if width > 0 { (width - 1) as nat } else { 0 }).push(
            hex_digit((n % 16) as int),
        )
    }
}

/// The tag every designation starts with.
pub open spec fn designation_tag() -> Seq<char> {
    seq!['A', 'N', 'I', 'M', 'A', '-']
}

/// The designation of token `token_id`.
pub open spec fn designation_of(token_id: u64) -> Seq<char> {
    designation_tag() + hex_digits(token_id as nat, DESIGNATION_WIDTH as nat)
}

/// `hex_digits` never writes an empty string, and writes a single digit only
/// for a number below 16 at a width of at most one.
proof fn lemma_hex_digits_len(n: nat, width: nat)
    ensures
        hex_digits(n, width).len() >= 1,
        !(n < 16 && width <= 1) ==> hex_digits(n, width).len() >= 2,
    decreases n, width,
{
    if !(n < 16 && width <= 1) {
        lemma_hex_digits_len(n / 16, if width > 0 { (width - 1) as nat } else { 0 });
    }
}

/// At one width, different numbers are written differently.
proof fn lemma_hex_digits_determine_number(a: nat, b: nat, width: nat)
    requires
        hex_digits(a, width) == hex_digits(b, width),
    ensures
        a == b,
    decreases a, width,
{
    let base_a = a < 16 && width <= 1;
    let base_b = b < 16 && width <= 1;
    lemma_hex_digits_len(a, width);
    lemma_hex_digits_len(b, width);
    if base_a && base_b {
        assert(hex_digits(a, width)[0] == hex_digit(a as int));
        assert(hex_digits(b, width)[0] == hex_digit(b as int));
    } else if base_a {
        assert(hex_digits(a, width).len() == 1);
    } else if base_b {
        assert(hex_digits(b, width).len() == 1);
    } else {
        let rest: nat = if width > 0 { (width - 1) as nat } else { 0 };
        let front_a = hex_digits(a / 16, rest);
        let front_b = hex_digits(b / 16, rest);
        let last_a = hex_digit((a % 16) as int);
        let last_b = hex_digit((b % 16) as int);
        assert(front_a.push(last_a).drop_last() =~= front_a);
        assert(front_b.push(last_b).drop_last() =~= front_b);
        assert(front_a.push(last_a).last() == last_a);
        assert(front_b.push(last_b).last() == last_b);
        lemma_hex_digits_determine_number(a / 16, b / 16, rest);
    }
}

/// A designation names one token: tokens with the same designation are the
/// same token.
pub proof fn lemma_designation_determines_token(a: u64, b: u64)
    requires
        designation_of(a) == designation_of(b),
    ensures
        a == b,
{
    let tag = designation_tag();
    let digits_a = hex_digits(a as nat, DESIGNATION_WIDTH as nat);
    let digits_b = hex_digits(b as nat, DESIGNATION_WIDTH as nat);
    assert((tag + digits_a).subrange(tag.len() as int, (tag + digits_a).len() as int) =~= digits_a);
    assert((tag + digits_b).subrange(tag.len() as int, (tag + digits_b).len() as int) =~= digits_b);
    lemma_hex_digits_determine_number(a as nat, b as nat, DESIGNATION_WIDTH as nat);
}

/// The designation of a token below `2^32` is the tag and exactly eight
/// digits.
pub proof fn lemma_designation_has_fixed_width(token_id: u64)
    requires
        token_id < 0x1_0000_0000,
    ensures
        designation_of(token_id).len() == designation_tag().len() + DESIGNATION_WIDTH,
{
    reveal_with_fuel(hex_digits, 9);
}

/// The one-character string for the hexadecimal digit `d`.
fn hex_digit_str(d: u64) -> (s: &'static str)
    requires
        d < 16,
    ensures
        s@ == seq![hex_digit(d as int)],
{
    proof {
        reveal_strlit("0");
        reveal_strlit("1");
        reveal_strlit("2");
        reveal_strlit("3");
        reveal_strlit("4");
        reveal_strlit("5");
        reveal_strlit("6");
        reveal_strlit("7");
        reveal_strlit("8");
        reveal_strlit("9");
        reveal_strlit("A");
        reveal_strlit("B");
        reveal_strlit("C");
        reveal_strlit("D");
        reveal_strlit("E");
        reveal_strlit("F");
    }
    let s = match d {
        0 => "0",
        1 => "1",
        2 => "2",
        3 => "3",
        4 => "4",
        5 => "5",
        6 => "6",
        7 => "7",
        8 => "8",
        9 => "9",
        10 => "A",
        11 => "B",
        12 => "C",
        13 => "D",
        14 => "E",
        _ => "F",
    };
    assert(s@ =~= seq![hex_digit(d as int)]);
    s
}

/// Appends `n` in hexadecimal, at least `width` digits wide, to `out`.
fn push_hex(out: &mut String, n: u64, width: u64)
    ensures
        final(out)@ == old(out)@ + hex_digits(n as nat, width as nat),
    decreases n, width,
{
    if n < 16 && width <= 1 {
        out.append(hex_digit_str(n));
    } else {
        let rest: u64 = if width > 0 { width - 1 } else { 0 };
        push_hex(out, n / 16, rest);
        out.append(hex_digit_str(n % 16));
        assert(out@ =~= old(out)@ + hex_digits(n as nat, width as nat));
    }
}

/// Builds the designation of token `token_id`.
pub fn designation(token_id: u64) -> (label: String)
    ensures
        label@ == designation_of(token_id),
{
    proof {
        reveal_strlit("ANIMA-");
    }
    let mut label = String::from_str("ANIMA-");
    assert(label@ =~= designation_tag());
    push_hex(&mut label, token_id, DESIGNATION_WIDTH);
    label
}

} // verus!
