//! Entry ids and their 8-byte big-endian keys.
use crate::error::Error;
use vstd::prelude::*;

verus! {

/// Largest payload, in bytes, that is kept.
pub const MAX_SIZE: usize = 5000000;

/// The big-endian bytes of `n`, most significant first.
pub open spec fn be_bytes(n: u64) -> Seq<u8> {
    seq![
        (n >> 56u64) as u8,
        (n >> 48u64) as u8,
        (n >> 40u64) as u8,
        (n >> 32u64) as u8,
        (n >> 24u64) as u8,
        (n >> 16u64) as u8,
        (n >> 8u64) as u8,
        n as u8,
    ]
}

/// The number whose big-endian bytes are the first eight of `b`.
pub open spec fn be_value(b: Seq<u8>) -> u64
    recommends
        b.len() >= 8,
{
    ((b[0] as u64) << 56u64) | ((b[1] as u64) << 48u64) | ((b[2] as u64) << 40u64) | ((
    b[3] as u64) << 32u64) | ((b[4] as u64) << 24u64) | ((b[5] as u64) << 16u64) | ((
    b[6] as u64) << 8u64) | (b[7] as u64)
}

/// The key under which the entry with id `v` is kept.
pub fn itob(v: u64) -> (r: [u8; 8])
    ensures
        r@ == be_bytes(v),
{
    let r = [
        (v >> 56u64) as u8,
        (v >> 48u64) as u8,
        (v >> 40u64) as u8,
        (v >> 32u64) as u8,
        (v >> 24u64) as u8,
        (v >> 16u64) as u8,
        (v >> 8u64) as u8,
        v as u8,
    ];
    assert(r@ =~= be_bytes(v));
    r
}

/// Reads the number whose big-endian bytes are the first eight of `v`.
pub fn btoi(v: &[u8]) -> (r: u64)
    requires
        v@.len() >= 8,
    ensures
        r == be_value(v@),
{
    ((v[0] as u64) << 56u64) | ((v[1] as u64) << 48u64) | ((v[2] as u64) << 40u64) | ((
    v[3] as u64) << 32u64) | ((v[4] as u64) << 24u64) | ((v[5] as u64) << 16u64) | ((
    v[6] as u64) << 8u64) | (v[7] as u64)
}

/// The key of an id, as `itob` gives it.
pub fn u64_to_be_bytes(n: u64) -> (r: [u8; 8])
    ensures
        r@ == be_bytes(n),
{
    itob(n)
}

/// Reading a key back gives the id it was made from.
pub proof fn lemma_key_round_trip(n: u64)
    ensures
        be_value(be_bytes(n)) == n,
{
    let (b0, b1, b2, b3) = ((n >> 56u64) as u8, (n >> 48u64) as u8, (n >> 40u64) as u8, (n
        >> 32u64) as u8);
    let (b4, b5, b6, b7) = ((n >> 24u64) as u8, (n >> 16u64) as u8, (n >> 8u64) as u8, n as u8);
    assert(((b0 as u64) << 56u64) | ((b1 as u64) << 48u64) | ((b2 as u64) << 40u64) | ((
    b3 as u64) << 32u64) | ((b4 as u64) << 24u64) | ((b5 as u64) << 16u64) | ((b6 as u64)
        << 8u64) | (b7 as u64) == n) by (bit_vector)
        requires
            b0 == (n >> 56u64) as u8,
            b1 == (n >> 48u64) as u8,
            b2 == (n >> 40u64) as u8,
            b3 == (n >> 32u64) as u8,
            b4 == (n >> 24u64) as u8,
            b5 == (n >> 16u64) as u8,
            b6 == (n >> 8u64) as u8,
            b7 == n as u8,
    ;
}

/// Whether `x` comes before `y` in byte-wise lexicographic order, at a position
/// where both have a byte.
pub open spec fn lex_less(x: Seq<u8>, y: Seq<u8>) -> bool {
    exists|k: int| 0 <= k < x.len() && k < y.len() && x.take(k) == y.take(k) && x[k] < y[k]
}

proof fn lemma_shift_mono(a: u64, b: u64, s: u64)
    by (bit_vector)
    requires
        a < b,
        s < 64,
    ensures
        a >> s <= b >> s,
{
}

proof fn lemma_low_byte_lt(a: u64, b: u64, s: u64)
    by (bit_vector)
    requires
        s <= 48,
        a >> (s + 8) == b >> (s + 8),
        a >> s < b >> s,
    ensures
        ((a >> s) as u8) < ((b >> s) as u8),
{
}

proof fn lemma_top_byte_lt(a: u64, b: u64)
    by (bit_vector)
    requires
        a >> 56u64 < b >> 56u64,
    ensures
        ((a >> 56u64) as u8) < ((b >> 56u64) as u8),
{
}

/// The byte at position `j` of a key is the id shifted right by `56 - 8j`.
proof fn lemma_be_byte(n: u64, j: int)
    requires
        0 <= j < 8,
    ensures
        be_bytes(n)[j] == (n >> ((56 - 8 * j) as u64)) as u8,
{
    if j == 7 {
        assert(n >> 0u64 == n) by (bit_vector);
    }
}

/// `n` without the bytes after position `j` of its key.
spec fn key_prefix(n: u64, j: int) -> u64 {
    n >> ((56 - 8 * j) as u64)
}

proof fn lemma_key_order_from(a: u64, b: u64, k: int)
    requires
        a < b,
        0 <= k <= 7,
        forall|j: int| 0 <= j < k ==> #[trigger] key_prefix(a, j) == key_prefix(b, j),
    ensures
        lex_less(be_bytes(a), be_bytes(b)),
    decreases 7 - k,
{
    let sk = (56 - 8 * k) as u64;
    if k < 7 && a >> sk == b >> sk {
        assert(key_prefix(a, k) == key_prefix(b, k));
        lemma_key_order_from(a, b, k + 1);
    } else {
        let x = be_bytes(a);
        let y = be_bytes(b);
        if k == 7 {
            assert(a >> 0u64 == a && b >> 0u64 == b) by (bit_vector);
        }
        assert(a >> sk != b >> sk);
        lemma_shift_mono(a, b, sk);
        if k == 0 {
            lemma_top_byte_lt(a, b);
        } else {
            assert(key_prefix(a, k - 1) == key_prefix(b, k - 1));
            assert((56 - 8 * (k - 1)) as u64 == sk + 8);
            lemma_low_byte_lt(a, b, sk);
        }
        lemma_be_byte(a, k);
        lemma_be_byte(b, k);
        assert forall|j: int| 0 <= j < k implies x[j] == y[j] by {
            assert(key_prefix(a, j) == key_prefix(b, j));
            lemma_be_byte(a, j);
            lemma_be_byte(b, j);
        }
        assert(x.take(k) =~= y.take(k));
    }
}

/// Keys sort as their ids do: a smaller id has a key that is lexicographically
/// smaller.
pub proof fn lemma_key_order(a: u64, b: u64)
    requires
        a < b,
    ensures
        lex_less(be_bytes(a), be_bytes(b)),
{
    lemma_key_order_from(a, b, 0);
}

/// Position of the first `c` in `s`, or the length of `s` where there is none.
pub open spec fn sep_pos(s: Seq<char>, c: char) -> nat
    decreases s.len(),
{
    if s.len() == 0 {
        0
    } else if s[0] == c {
        0
    } else {
        1 + sep_pos(s.drop_first(), c)
    }
}

proof fn lemma_sep_pos(s: Seq<char>, c: char, p: int)
    requires
        0 <= p <= s.len(),
        forall|j: int| 0 <= j < p ==> s[j] != c,
        p < s.len() ==> s[p] == c,
    ensures
        sep_pos(s, c) == p,
    decreases s.len(),
{
    if s.len() > 0 && s[0] != c {
        lemma_sep_pos(s.drop_first(), c, p - 1);
    }
}

/// Splits `s` at the first `sep`: the text before it, the text after it, and
/// whether it was found. Without `sep`, the whole of `s` comes first.
pub fn cut(s: &str, sep: char) -> (r: (&str, &str, bool))
    ensures
        r.2 == (sep_pos(s@, sep) < s@.len()),
        r.0@ == s@.take(sep_pos(s@, sep) as int),
        r.2 ==> r.1@ == s@.skip(sep_pos(s@, sep) + 1int),
        !r.2 ==> r.1@ == Seq::<char>::empty(),
{
    let n = s.unicode_len();
    let mut i: usize = 0;
    let mut found = false;
    for c in it: s.chars()
        invariant_except_break
            i == it.index(),
            !found,
        invariant
            n == s@.len(),
            it.seq() == s@,
            forall|j: int| 0 <= j < i ==> s@[j] != sep,
        ensures
            found ==> i < n && s@[i as int] == sep,
            !found ==> i == n,
            forall|j: int| 0 <= j < i ==> s@[j] != sep,
    {
        if c == sep {
            found = true;
            break;
        }
        i = i + 1;
    }
    proof {
        lemma_sep_pos(s@, sep, i as int);
    }
    if found {
        (s.substring_char(0, i), s.substring_char(i + 1, n), true)
    } else {
        proof {
            reveal_strlit("");
        }
        (s, "", false)
    }
}

/// Whether `c` is an ASCII decimal digit.
pub open spec fn is_digit(c: char) -> bool {
    '0' <= c <= '9'
}

/// The value of the ASCII digit `c`.
pub open spec fn digit_val(c: char) -> nat {
    ((c as u32) - 48) as nat
}

/// The number that the digits `s` write in base ten.
pub open spec fn digits_value(s: Seq<char>) -> nat
    decreases s.len(),
{
    if s.len() == 0 {
        0
    } else {
        digits_value(s.drop_last()) * 10 + digit_val(s.last())
    }
}

/// `s` without one leading `+`.
pub open spec fn unsigned_digits(s: Seq<char>) -> Seq<char> {
    if s.len() > 0 && s[0] == '+' {
        s.drop_first()
    } else {
        s
    }
}

/// The unsigned 64-bit number that `s` writes: an optional `+`, then one or more
/// decimal digits, with a value that fits.
pub open spec fn parse_u64(s: Seq<char>) -> Option<u64> {
    let d = unsigned_digits(s);
    if d.len() > 0 && (forall|i: int| 0 <= i < d.len() ==> is_digit(#[trigger] d[i]))
        && digits_value(d) <= u64::MAX {
        Some(digits_value(d) as u64)
    } else {
        None
    }
}

proof fn lemma_digits_prefix(s: Seq<char>, i: int)
    requires
        0 <= i <= s.len(),
    ensures
        digits_value(s.take(i)) <= digits_value(s),
    decreases s.len(),
{
    if i < s.len() {
        lemma_digits_prefix(s.drop_last(), i);
        assert(s.drop_last().take(i) =~= s.take(i));
    } else {
        assert(s.take(i) =~= s);
    }
}

/// Reads an unsigned 64-bit number written in decimal, with an optional `+`.
pub fn parse_id(s: &str) -> (r: Option<u64>)
    ensures
        r == parse_u64(s@),
{
    let n = s.unicode_len();
    let d = if n > 0 && s.get_char(0) == '+' {
        s.substring_char(1, n)
    } else {
        s
    };
    assert(d@ =~= unsigned_digits(s@));
    let dn = d.unicode_len();
    if dn == 0 {
        return None;
    }
    let mut acc: u64 = 0;
    let mut i: usize = 0;
    for c in it: d.chars()
        invariant
            it.seq() == d@,
            d@ == unsigned_digits(s@),
            dn == d@.len(),
            dn > 0,
            i == it.index(),
            acc == digits_value(d@.take(i as int)),
            forall|j: int| 0 <= j < i ==> is_digit(#[trigger] d@[j]),
    {
        assert(c == d@[i as int]);
        assert(d@.take(i + 1).drop_last() =~= d@.take(i as int));
        assert(d@.take(i + 1).last() == c);
        if !(c >= '0' && c <= '9') {
            assert(!is_digit(d@[i as int]));
            assert(parse_u64(s@) is None);
            return None;
        }
        let v = (c as u32 - 48) as u64;
        assert(digits_value(d@.take(i + 1)) == acc * 10 + v);
        let next = match acc.checked_mul(10) {
            Some(m) => m.checked_add(v),
            None => None,
        };
        match next {
            Some(x) => {
                acc = x;
            },
            None => {
                proof {
                    lemma_digits_prefix(d@, i + 1);
                    assert(digits_value(d@) > u64::MAX);
                    assert(parse_u64(s@) is None);
                }
                return None;
            },
        }
        i = i + 1;
    }
    assert(d@.take(i as int) =~= d@);
    Some(acc)
}

/// The id that a listing line starts with: the text before its first tab (the
/// whole line where it has none), read as a number.
pub open spec fn id_of_line(line: Seq<char>) -> Result<u64, Error> {
    let p = line.take(sep_pos(line, '\t') as int);
    if p.len() == 0 {
        Err(Error::MissingId)
    } else if parse_u64(p) is Some {
        Ok(parse_u64(p)->0)
    } else {
        Err(Error::BadId)
    }
}

/// Reads the id at the start of a listing line: the text before the first tab.
pub fn extract_id(input: String) -> (r: Result<u64, Error>)
    ensures
        r == id_of_line(input@),
{
    let (id_str, _, _) = cut(input.as_str(), '\t');
    if id_str.unicode_len() == 0 {
        return Err(Error::MissingId);
    }
    match parse_id(id_str) {
        Some(v) => Ok(v),
        None => Err(Error::BadId),
    }
}

} // verus!
