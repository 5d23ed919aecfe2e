//! Small verified string utilities used throughout the library.

use vstd::prelude::*;
use vstd::string::*;
use vstd::slice::slice_to_vec;
use vstd::utf8::{encode_utf8, is_ascii_chars, is_ascii_chars_encode_utf8, valid_utf8};

verus! {

/// The ASCII byte of the decimal digit `d` (for `0 <= d < 10`).
pub open spec fn digit_byte(d: int) -> u8 {
    (48 + d) as u8
}

/// Whether `c` is one of the ten ASCII decimal digits.
pub open spec fn is_digit(c: char) -> bool {
    '0' <= c && c <= '9'
}

/// Whether the byte `b` is one of the ten ASCII decimal digits.
pub open spec fn is_digit_byte(b: u8) -> bool {
    48 <= b && b <= 57
}

/// The ASCII decimal rendering of `n`, without leading zeros (`0` for zero).
pub open spec fn spec_decimal(n: nat) -> Seq<u8>
    decreases n,
{
    if n < 10 {
        seq![digit_byte(n as int)]
    } else {
        spec_decimal(n / 10).push(digit_byte((n % 10) as int))
    }
}

/// `k` space characters.
pub open spec fn spaces(k: nat) -> Seq<char> {
    Seq::new(k, |i: int| ' ')
}

/// `s` padded on the right with spaces to at least `width` characters.
pub open spec fn spec_pad_right(s: Seq<char>, width: nat) -> Seq<char> {
    if s.len() >= width {
        s
    } else {
        s + spaces((width - s.len()) as nat)
    }
}

/// Every byte of a decimal rendering is a digit, and it is never empty.
pub proof fn lemma_decimal_digits(n: nat)
    ensures
        spec_decimal(n).len() >= 1,
        forall|i: int| 0 <= i < spec_decimal(n).len() ==> is_digit_byte(#[trigger] spec_decimal(n)[i]),
        n < 10 <==> spec_decimal(n).len() == 1,
    decreases n,
{
    if n >= 10 {
        lemma_decimal_digits(n / 10);
    }
}

/// Distinct numbers have distinct decimal renderings.
pub proof fn lemma_decimal_injective(a: nat, b: nat)
    requires
        spec_decimal(a) == spec_decimal(b),
    ensures
        a == b,
    decreases a,
{
    lemma_decimal_digits(a);
    lemma_decimal_digits(b);
    if a < 10 {
        assert(spec_decimal(a).len() == spec_decimal(b).len());
        assert(b < 10);
        assert(spec_decimal(a)[0] == digit_byte(a as int));
        assert(spec_decimal(b)[0] == digit_byte(b as int));
    } else {
        let da = spec_decimal(a);
        let db = spec_decimal(b);
        assert(da.last() == db.last());
        assert(da.drop_last() =~= spec_decimal(a / 10));
        assert(db.drop_last() =~= spec_decimal(b / 10));
        lemma_decimal_injective(a / 10, b / 10);
    }
}

/// Renders `n` in ASCII decimal, as `format!("{}", n)` does.
pub fn decimal(n: u64) -> (r: Vec<u8>)
    ensures
        r@ == spec_decimal(n as nat),
    decreases n,
{
    if n < 10 {
        let mut r: Vec<u8> = Vec::new();
        r.push(48u8 + n as u8);
        r
    } else {
        let mut r = decimal(n / 10);
        r.push(48u8 + (n % 10) as u8);
        r
    }
}

/// The characters of `s` in positions `from..to`.
pub fn substring(s: &str, from: usize, to: usize) -> (r: String)
    requires
        from <= to <= s@.len(),
    ensures
        r@ == s@.subrange(from as int, to as int),
{
    String::from_str(s.substring_char(from, to))
}

/// Whether the two strings hold the same characters.
pub fn text_eq(a: &str, b: &str) -> (r: bool)
    ensures
        r == (a@ == b@),
{
    let n = a.unicode_len();
    if n != b.unicode_len() {
        return false;
    }
    let mut i: usize = 0;
    while i < n
        invariant
            n == a@.len(),
            n == b@.len(),
            i <= n,
            forall|j: int| 0 <= j < i ==> a@[j] == b@[j],
        decreases n - i,
    {
        if a.get_char(i) != b.get_char(i) {
            return false;
        }
        i = i + 1;
    }
    assert(a@ =~= b@);
    true
}

/// Whether `c` occurs in `s`.
pub fn contains_char(s: &str, c: char) -> (r: bool)
    ensures
        r == s@.contains(c),
{
    let n = s.unicode_len();
    let mut i: usize = 0;
    while i < n
        invariant
            n == s@.len(),
            i <= n,
            forall|j: int| 0 <= j < i ==> s@[j] != c,
        decreases n - i,
    {
        if s.get_char(i) == c {
            assert(s@[i as int] == c);
            return true;
        }
        i = i + 1;
    }
    false
}

/// Whether `s` begins with the character `c`.
pub fn starts_with_char(s: &str, c: char) -> (r: bool)
    ensures
        r == (s@.len() > 0 && s@[0] == c),
{
    let n = s.unicode_len();
    n > 0 && s.get_char(0) == c
}

/// Padding never drops text: `s` padded to `width` begins with all of `s`,
/// is followed only by spaces, and is as long as the longer of `s` and
/// `width`.
pub proof fn lemma_pad_right_keeps_text(s: Seq<char>, width: nat)
    ensures
        spec_pad_right(s, width).len() == if s.len() >= width { s.len() } else { width },
        spec_pad_right(s, width).take(s.len() as int) == s,
        forall|i: int| s.len() <= i < spec_pad_right(s, width).len() ==> spec_pad_right(s, width)[i] == ' ',
{
    let p = spec_pad_right(s, width);
    assert(p.take(s.len() as int) =~= s);
}

/// `s` padded on the right with spaces to at least `width` characters, as the
/// format specification `{: <width}` lays out a string argument.
pub fn pad_right(s: &str, width: usize) -> (r: String)
    ensures
        r@ == spec_pad_right(s@, width as nat),
        r@.len() == if s@.len() >= width { s@.len() } else { width as nat },
        r@.take(s@.len() as int) == s@,
        forall|i: int| s@.len() <= i < r@.len() ==> r@[i] == ' ',
{
    let mut r = String::from_str(s);
    let n = s.unicode_len();
    let mut k: usize = n;
    let ghost start = s@;
    while k < width
        invariant
            n == start.len(),
            n <= k,
            n < width ==> k <= width,
            n >= width ==> k == n,
            r@ =~= start + spaces((k - n) as nat),
        decreases width - k,
    {
        proof { reveal_strlit(" "); }
        r.append(" ");
        k = k + 1;
        assert(r@ =~= start + spaces((k - n) as nat));
    }
    assert(r@ =~= spec_pad_right(start, width as nat));
    assert(r@.take(start.len() as int) =~= start);
    r
}

/// The bytes of a sequence of ASCII characters, one byte per character.
pub open spec fn ascii(cs: Seq<char>) -> Seq<u8> {
    Seq::new(cs.len(), |i: int| cs[i] as u8)
}

/// The UTF-8 bytes of `s`.
pub fn utf8_bytes(s: &str) -> (r: Vec<u8>)
    ensures
        r@ == encode_utf8(s@),
{
    slice_to_vec(s.as_bytes())
}

/// Reads `b` as UTF-8 text with `std::str::from_utf8`, which succeeds exactly
/// when `b` is valid UTF-8 and then hands back a string whose UTF-8 bytes are
/// `b` itself.
#[verifier::external_body]
pub(crate) fn utf8_text(b: &[u8]) -> (r: Option<String>)
    ensures
        r is Some <==> valid_utf8(b@),
        r matches Some(s) ==> encode_utf8(s@) == b@,
{
    match std::str::from_utf8(b) {
        Ok(s) => Some(s.to_string()),
        Err(_) => None,
    }
}

/// The bytes of an ASCII string, one per character.
pub fn ascii_bytes(s: &str) -> (r: Vec<u8>)
    requires
        is_ascii_chars(s@),
    ensures
        r@ == ascii(s@),
{
    proof {
        is_ascii_chars_encode_utf8(s@);
    }
    let r = utf8_bytes(s);
    assert(r@ =~= ascii(s@));
    r
}

/// A byte that stands for an ASCII character is in the bytes of an ASCII
/// sequence only where the character is in the sequence.
pub proof fn lemma_ascii_contains(cs: Seq<char>, c: char)
    requires
        is_ascii_chars(cs),
        '\0' <= c <= '\u{7f}',
    ensures
        ascii(cs).contains(c as u8) ==> cs.contains(c),
{
    if ascii(cs).contains(c as u8) {
        let i = choose|i: int| 0 <= i < ascii(cs).len() && ascii(cs)[i] == c as u8;
        assert('\0' <= cs[i] <= '\u{7f}');
        assert(cs[i] == c);
    }
}

/// The bytes of two ASCII sequences with a dot between them.
pub proof fn lemma_ascii_concat(a: Seq<char>, b: Seq<char>)
    ensures
        ascii(a) + seq![46u8] + ascii(b) == ascii(a + seq!['.'] + b),
{
    assert(ascii(a) + seq![46u8] + ascii(b) =~= ascii(a + seq!['.'] + b));
}

} // verus!
