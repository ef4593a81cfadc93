//! Building text a character at a time.
//!
//! Everything this crate prints — formula text, labels, diagnostics — is put
//! together as a vector of characters, so that what it says can be stated
//! exactly, and turned into a `String` once at the end.

use vstd::prelude::*;
use vstd::string::StrSliceExecFns;

verus! {

/// The digit for `d`, which is below ten.
pub open spec fn digit(d: nat) -> char {
    if d == 0 {
        '0'
    } else if d == 1 {
        '1'
    } else if d == 2 {
        '2'
    } else if d == 3 {
        '3'
    } else if d == 4 {
        '4'
    } else if d == 5 {
        '5'
    } else if d == 6 {
        '6'
    } else if d == 7 {
        '7'
    } else if d == 8 {
        '8'
    } else {
        '9'
    }
}

/// A non-negative integer in decimal, with no leading zeros.
pub open spec fn decimal(n: nat) -> Seq<char>
    decreases n,
{
    if n < 10 {
        seq![digit(n)]
    } else {
        decimal(n / 10) + seq![digit(n % 10)]
    }
}

/// An integer in decimal, with a `-` in front when it is negative.
pub open spec fn signed_decimal(n: int) -> Seq<char> {
    if n < 0 {
        seq!['-'] + decimal((-n) as nat)
    } else {
        decimal(n as nat)
    }
}

fn digit_char(d: u64) -> (c: char)
    requires
        d < 10,
    ensures
        c == digit(d as nat),
{
    if d == 0 {
        '0'
    } else if d == 1 {
        '1'
    } else if d == 2 {
        '2'
    } else if d == 3 {
        '3'
    } else if d == 4 {
        '4'
    } else if d == 5 {
        '5'
    } else if d == 6 {
        '6'
    } else if d == 7 {
        '7'
    } else if d == 8 {
        '8'
    } else {
        '9'
    }
}

/// Appends `n` in decimal.
pub fn push_decimal(out: &mut Vec<char>, n: u64)
    ensures
        final(out)@ == old(out)@ + decimal(n as nat),
    decreases n,
{
    if n >= 10 {
        push_decimal(out, n / 10);
    }
    let c = digit_char(n % 10);
    out.push(c);
    proof {
        if n < 10 {
            assert(n % 10 == n);
        }
    }
    assert(out@ =~= old(out)@ + decimal(n as nat)) by {
        if n >= 10 {
            assert(decimal(n as nat) == decimal((n / 10) as nat) + seq![digit((n % 10) as nat)]);
        }
    }
}

/// Appends `n` in decimal, for numbers wider than a machine word.
pub fn push_decimal_wide(out: &mut Vec<char>, n: u128)
    ensures
        final(out)@ == old(out)@ + decimal(n as nat),
    decreases n,
{
    if n >= 10 {
        push_decimal_wide(out, n / 10);
    }
    let c = digit_char((n % 10) as u64);
    out.push(c);
    proof {
        if n < 10 {
            assert(n % 10 == n);
        }
    }
    assert(out@ =~= old(out)@ + decimal(n as nat)) by {
        if n >= 10 {
            assert(decimal(n as nat) == decimal((n / 10) as nat) + seq![digit((n % 10) as nat)]);
        }
    }
}

/// Appends `n` in decimal, signed.
pub fn push_signed(out: &mut Vec<char>, n: i64)
    ensures
        final(out)@ == old(out)@ + signed_decimal(n as int),
{
    if n < 0 {
        out.push('-');
        let magnitude: u64 = if n == i64::MIN {
            0x8000_0000_0000_0000u64
        } else {
            (-n) as u64
        };
        push_decimal(out, magnitude);
        assert(out@ =~= old(out)@ + signed_decimal(n as int));
    } else {
        push_decimal(out, n as u64);
    }
}

/// Appends every character of `s`.
pub fn push_str(out: &mut Vec<char>, s: &str)
    ensures
        final(out)@ == old(out)@ + s@,
{
    let ghost start = out@;
    let n = s.unicode_len();
    let mut i: usize = 0;
    while i < n
        invariant
            n == s@.len(),
            i <= n,
            out@ == start + s@.take(i as int),
        decreases n - i,
    {
        let c = s.get_char(i);
        out.push(c);
        assert(s@.take(i + 1) =~= s@.take(i as int).push(c));
        i = i + 1;
    }
    assert(s@.take(n as int) =~= s@);
}

/// Appends every character of another vector.
pub fn push_chars(out: &mut Vec<char>, s: &Vec<char>)
    ensures
        final(out)@ == old(out)@ + s@,
{
    let ghost start = out@;
    let mut i: usize = 0;
    while i < s.len()
        invariant
            i <= s@.len(),
            out@ == start + s@.take(i as int),
        decreases s@.len() - i,
    {
        out.push(s[i]);
        assert(s@.take(i + 1) =~= s@.take(i as int).push(s@[i as int]));
        i = i + 1;
    }
    assert(s@.take(s@.len() as int) =~= s@);
}

/// The characters of `s`.
pub fn chars_of(s: &str) -> (r: Vec<char>)
    ensures
        r@ == s@,
{
    let mut r = Vec::new();
    push_str(&mut r, s);
    assert(r@ =~= s@);
    r
}

/// A copy of a character vector.
pub fn copy_chars(s: &Vec<char>) -> (r: Vec<char>)
    ensures
        r@ == s@,
{
    let mut r = Vec::new();
    push_chars(&mut r, s);
    assert(r@ =~= s@);
    r
}

/// Whether two character vectors hold the same text.
pub fn same_chars(a: &Vec<char>, b: &Vec<char>) -> (r: bool)
    ensures
        r == (a@ == b@),
{
    if a.len() != b.len() {
        return false;
    }
    let mut i: usize = 0;
    while i < a.len()
        invariant
            a@.len() == b@.len(),
            i <= a@.len(),
            forall|j: int| 0 <= j < i ==> a@[j] == b@[j],
        decreases a@.len() - i,
    {
        if a[i] != b[i] {
            return false;
        }
        i = i + 1;
    }
    assert(a@ =~= b@);
    true
}

/// The text of `v`, as a `String`.
///
/// Calls `String::from_iter` over the characters; the contract says that the
/// string holds exactly those characters, in order, which is what collecting
/// `char`s into a `String` is documented to do.
#[verifier::external_body]
pub fn to_string(v: &Vec<char>) -> (s: String)
    ensures
        s@ == v@,
{
    String::from_iter(v.iter())
}

/// What `String::from_utf8_lossy` makes of a byte string: the text it encodes,
/// with every ill-formed sequence replaced by U+FFFD.
pub uninterp spec fn utf8_lossy(bytes: Seq<u8>) -> Seq<char>;

/// Bytes as text, repairing what is not UTF-8.
///
/// Calls `String::from_utf8_lossy`. The contract names its result and states
/// the one fact its documentation gives outright: well-formed UTF-8 comes back
/// as the text it encodes.
#[verifier::external_body]
pub fn lossy_string(bytes: &[u8]) -> (s: String)
    ensures
        s@ == utf8_lossy(bytes@),
        vstd::utf8::valid_utf8(bytes@) ==> s@ == vstd::utf8::decode_utf8(bytes@),
{
    String::from_utf8_lossy(bytes).into_owned()
}

/// Bytes as text, when they are UTF-8.
///
/// Calls `std::str::from_utf8`, which is documented to fail exactly when the
/// bytes are not well-formed UTF-8, and otherwise to give the text they encode.
#[verifier::external_body]
pub fn utf8_text(bytes: &[u8]) -> (r: Option<String>)
    ensures
        r is Some <==> vstd::utf8::valid_utf8(bytes@),
        r matches Some(s) ==> s@ == vstd::utf8::decode_utf8(bytes@),
{
    std::str::from_utf8(bytes).ok().map(str::to_string)
}

/// UTF-16 code units as text, the way `String::from_utf16_lossy` reads them:
/// a unit outside the surrogate range is the character it numbers, a lead
/// surrogate followed by a trail surrogate is the character the pair encodes,
/// and any other surrogate is U+FFFD, the unit after it read on its own.
pub open spec fn utf16_lossy(units: Seq<u16>) -> Seq<char>
    decreases units.len(),
{
    if units.len() == 0 {
        Seq::empty()
    } else {
        let u = units[0];
        if u < 0xD800 || u > 0xDFFF {
            seq![(u as int) as char] + utf16_lossy(units.drop_first())
        } else if u <= 0xDBFF && units.len() >= 2 && 0xDC00 <= units[1] <= 0xDFFF {
            seq![(0x10000 + (u - 0xD800) * 0x400 + (units[1] - 0xDC00)) as char] + utf16_lossy(
                units.skip(2),
            )
        } else {
            seq!['\u{FFFD}'] + utf16_lossy(units.drop_first())
        }
    }
}

/// The character with this code point, when there is one.
///
/// Calls `char::from_u32`, which is documented to give the `char` with that
/// value exactly when the value is a Unicode scalar value: at most 0x10FFFF
/// and not a surrogate.
#[verifier::external_body]
fn char_from(value: u32) -> (r: Option<char>)
    ensures
        r is Some <==> (value <= 0x10FFFF && !(0xD800 <= value <= 0xDFFF)),
        r matches Some(c) ==> c == (value as int) as char,
{
    char::from_u32(value)
}

/// UTF-16 code units as text, each unpaired surrogate replaced by U+FFFD.
pub fn lossy_utf16(units: &[u16]) -> (s: String)
    ensures
        s@ == utf16_lossy(units@),
{
    let mut out: Vec<char> = Vec::new();
    let n = units.len();
    let mut i: usize = 0;
    assert(units@.skip(0) =~= units@);
    while i < n
        invariant
            n == units@.len(),
            i <= n,
            out@ + utf16_lossy(units@.skip(i as int)) == utf16_lossy(units@),
        decreases n - i,
    {
        let ghost rest = units@.skip(i as int);
        assert(rest[0] == units@[i as int]);
        let u = units[i];
        if u < 0xD800 || u > 0xDFFF {
            let c = char_from(u as u32).unwrap();
            assert(rest.drop_first() =~= units@.skip(i + 1));
            out.push(c);
            assert(out@ + utf16_lossy(units@.skip(i + 1)) =~= utf16_lossy(units@)) by {
                assert(utf16_lossy(rest) == seq![c] + utf16_lossy(rest.drop_first()));
            }
            i = i + 1;
        } else if u <= 0xDBFF && i + 1 < n && 0xDC00 <= units[i + 1] && units[i + 1] <= 0xDFFF {
            let t = units[i + 1];
            assert(rest[1] == t);
            let value: u32 = 0x10000 + (u as u32 - 0xD800) * 0x400 + (t as u32 - 0xDC00);
            let c = char_from(value).unwrap();
            assert(rest.skip(2) =~= units@.skip(i + 2));
            out.push(c);
            assert(out@ + utf16_lossy(units@.skip(i + 2)) =~= utf16_lossy(units@)) by {
                assert(utf16_lossy(rest) == seq![c] + utf16_lossy(rest.skip(2)));
            }
            i = i + 2;
        } else {
            assert(rest.drop_first() =~= units@.skip(i + 1));
            out.push('\u{FFFD}');
            assert(out@ + utf16_lossy(units@.skip(i + 1)) =~= utf16_lossy(units@)) by {
                assert(utf16_lossy(rest) == seq!['\u{FFFD}'] + utf16_lossy(rest.drop_first()));
            }
            i = i + 1;
        }
    }
    assert(units@.skip(n as int) =~= Seq::<u16>::empty());
    assert(out@ + Seq::<char>::empty() =~= out@);
    to_string(&out)
}

/// The characters of a `String`.
pub fn string_chars(s: &String) -> (r: Vec<char>)
    ensures
        r@ == s@,
{
    chars_of(s.as_str())
}

// -- the order of strings ----------------------------------------------------------

/// `a` sorts before `b`: at the first place where they differ `a` has the
/// lower code point, or `a` is a proper prefix of `b`. This is the order of
/// Rust's strings, whose UTF-8 bytes sort as their code points do.
pub open spec fn text_before(a: Seq<char>, b: Seq<char>) -> bool
    decreases a.len(),
{
    if a.len() == 0 {
        b.len() > 0
    } else if b.len() == 0 {
        false
    } else if a[0] != b[0] {
        a[0] < b[0]
    } else {
        text_before(a.drop_first(), b.drop_first())
    }
}

/// No text sorts before itself, and of two texts that differ exactly one
/// sorts first.
pub proof fn lemma_text_before_total(a: Seq<char>, b: Seq<char>)
    ensures
        !(text_before(a, b) && text_before(b, a)),
        a == b <==> !(text_before(a, b) || text_before(b, a)),
    decreases a.len(),
{
    if a.len() > 0 && b.len() > 0 {
        if a[0] == b[0] {
            lemma_text_before_total(a.drop_first(), b.drop_first());
            if a.drop_first() == b.drop_first() {
                assert(a =~= seq![a[0]] + a.drop_first());
                assert(b =~= seq![b[0]] + b.drop_first());
            }
        }
    } else if a.len() == 0 && b.len() == 0 {
        assert(a =~= b);
    }
}

/// The order is transitive.
pub proof fn lemma_text_before_transitive(a: Seq<char>, b: Seq<char>, c: Seq<char>)
    requires
        text_before(a, b),
        text_before(b, c),
    ensures
        text_before(a, c),
    decreases a.len(),
{
    if a.len() > 0 && b[0] == c[0] && a[0] == b[0] {
        lemma_text_before_transitive(a.drop_first(), b.drop_first(), c.drop_first());
    }
}

/// Whether `a` sorts before `b`.
pub fn chars_before(a: &Vec<char>, b: &Vec<char>) -> (r: bool)
    ensures
        r == text_before(a@, b@),
{
    let mut i: usize = 0;
    assert(a@.skip(0) =~= a@);
    assert(b@.skip(0) =~= b@);
    while i < a.len() && i < b.len()
        invariant
            i <= a@.len(),
            i <= b@.len(),
            text_before(a@, b@) == text_before(a@.skip(i as int), b@.skip(i as int)),
        decreases a@.len() - i,
    {
        assert(a@.skip(i as int)[0] == a@[i as int]);
        assert(b@.skip(i as int)[0] == b@[i as int]);
        if a[i] != b[i] {
            return a[i] < b[i];
        }
        assert(a@.skip(i as int).drop_first() =~= a@.skip(i + 1));
        assert(b@.skip(i as int).drop_first() =~= b@.skip(i + 1));
        i = i + 1;
    }
    i == a.len() && i < b.len()
}

} // verus!
