//! Text helpers for previews: whitespace, truncation, numbers and sizes.
use vstd::prelude::*;

verus! {

/// Whether `c` has the Unicode White_Space property, as `char::is_whitespace` decides.
pub open spec fn is_ws(c: char) -> bool {
    let u = c as u32;
    (9 <= u <= 13) || u == 32 || u == 0x85 || u == 0xA0 || u == 0x1680 || (0x2000 <= u
        <= 0x200A) || u == 0x2028 || u == 0x2029 || u == 0x202F || u == 0x205F || u == 0x3000
}

/// `c` has the Unicode White_Space property.
pub fn is_whitespace(c: char) -> (r: bool)
    ensures
        r == is_ws(c),
{
    let u = c as u32;
    (9 <= u && u <= 13) || u == 32 || u == 0x85 || u == 0xA0 || u == 0x1680 || (0x2000 <= u
        && u <= 0x200A) || u == 0x2028 || u == 0x2029 || u == 0x202F || u == 0x205F || u
        == 0x3000
}

/// The words of `s` (its maximal runs of non-whitespace) joined by single spaces.
pub open spec fn collapse_ws(s: Seq<char>) -> Seq<char>
    decreases s.len(),
{
    if s.len() == 0 {
        s
    } else {
        let r = collapse_ws(s.drop_last());
        let c = s.last();
        if is_ws(c) {
            r
        } else if s.len() >= 2 && is_ws(s[s.len() - 2]) && r.len() > 0 {
            r.push(' ').push(c)
        } else {
            r.push(c)
        }
    }
}

/// Relies on `String::push`: appends one character.
#[verifier::external_body]
fn push_char(s: &mut String, c: char)
    ensures
        final(s)@ == old(s)@.push(c),
{
    s.push(c);
}

/// Trims `s` and replaces every run of whitespace inside it by one space.
pub fn collapse_whitespace(s: &str) -> (r: String)
    ensures
        r@ == collapse_ws(s@),
{
    let n = s.unicode_len();
    let mut out = String::new();
    let mut prev_ws = false;
    let mut i: usize = 0;
    for c in it: s.chars()
        invariant
            n == s@.len(),
            it.seq() == s@,
            i == it.index(),
            out@ == collapse_ws(s@.take(i as int)),
            prev_ws == (i > 0 && is_ws(s@[i - 1])),
    {
        let ghost t = s@.take(i + 1);
        assert(t.drop_last() =~= s@.take(i as int));
        assert(t.last() == c);
        if is_whitespace(c) {
            prev_ws = true;
        } else {
            if prev_ws && out.unicode_len() > 0 {
                push_char(&mut out, ' ');
            }
            push_char(&mut out, c);
            prev_ws = false;
        }
        i = i + 1;
    }
    assert(s@.take(i as int) =~= s@);
    out
}

/// `s` cut to its first `width` characters with `suffix` after them, or `s`
/// itself where it has no more than `width` characters.
pub open spec fn trunc_spec(s: Seq<char>, width: nat, suffix: Seq<char>) -> Seq<char> {
    if s.len() <= width {
        s
    } else {
        s.take(width as int) + suffix
    }
}

/// Shortens `s` to `width` characters, marking a cut with `suffix`.
pub fn trunc(s: &str, width: usize, suffix: &str) -> (r: String)
    ensures
        r@ == trunc_spec(s@, width as nat, suffix@),
{
    let n = s.unicode_len();
    if n <= width {
        String::from_str(s)
    } else {
        String::from_str(s.substring_char(0, width)).concat(suffix)
    }
}

/// The ASCII digit for `d`.
pub open spec fn digit_char(d: nat) -> char {
    ((d % 10) + 48) as char
}

/// `n` written in decimal, without leading zeros.
pub open spec fn dec_str(n: nat) -> Seq<char>
    decreases n,
{
    if n < 10 {
        seq![digit_char(n)]
    } else {
        dec_str(n / 10).push(digit_char(n % 10))
    }
}

/// Writes `n` in decimal.
pub fn dec_string(n: u64) -> (r: String)
    ensures
        r@ == dec_str(n as nat),
    decreases n,
{
    let d = ((n % 10) as u8 + 48u8) as char;
    if n < 10 {
        let mut s = String::new();
        push_char(&mut s, d);
        assert(s@ =~= dec_str(n as nat));
        s
    } else {
        let mut s = dec_string(n / 10);
        push_char(&mut s, d);
        s
    }
}

/// The unit step that `size_str` takes: 0 for bytes, 1 for KiB, 2 for MiB.
pub open spec fn size_scale(n: nat) -> nat {
    if n < 1024 {
        0
    } else if n < 1048576 {
        1
    } else {
        2
    }
}

/// `n / d` rounded to the nearest integer, ties to the even one.
pub open spec fn div_round_even(n: nat, d: nat) -> nat
    recommends
        d > 0,
{
    let q = n / d;
    let r = n % d;
    if 2 * r > d || (2 * r == d && q % 2 == 1) {
        q + 1
    } else {
        q
    }
}

/// The divisor of a unit step.
pub open spec fn scale_divisor(i: nat) -> nat {
    if i == 0 {
        1
    } else if i == 1 {
        1024
    } else {
        1048576
    }
}

/// The name of a unit step.
pub open spec fn unit_name(i: nat) -> Seq<char> {
    if i == 0 {
        "B"@
    } else if i == 1 {
        "KiB"@
    } else {
        "MiB"@
    }
}

/// A byte count in the largest of B, KiB and MiB that it reaches, rounded to a
/// whole number: `"900 B"`, `"2 KiB"`.
pub open spec fn human_size(n: nat) -> Seq<char> {
    let i = size_scale(n);
    dec_str(div_round_even(n, scale_divisor(i))) + " "@ + unit_name(i)
}

/// Writes a byte count as `human_size` gives it.
pub fn size_str(size: usize) -> (r: String)
    ensures
        r@ == human_size(size as nat),
{
    let n = size as u64;
    let (d, unit): (u64, &str) = if n < 1024 {
        (1, "B")
    } else if n < 1048576 {
        (1024, "KiB")
    } else {
        (1048576, "MiB")
    };
    let q = n / d;
    let rem = n % d;
    let v = if 2 * rem > d || (2 * rem == d && q % 2 == 1) {
        q + 1
    } else {
        q
    };
    dec_string(v).concat(" ").concat(unit)
}

} // verus!
