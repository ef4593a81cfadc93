//! How the command line shows things and reads them: one-line previews, CSV
//! fields, cell names and the arguments a command takes.

use vstd::prelude::*;

use crate::chars::{chars_of, decimal, lossy_utf16, push_decimal, push_str, to_string, utf16_lossy};
use crate::formula::names::{
    a1_column_fits, all_digits, digits_value, is_ascii_letter, is_digit, lemma_decimal_digits,
    lemma_letter_run_exact, lemma_letters, letters, letters_value, parse_a1, push_letters,
    spec_parse_usize, unsigned_body,
};

verus! {

// -- showing -----------------------------------------------------------------------------

/// How a preview shows one character: line and page breaks as `⏎`, an
/// attachment as `▨`, a section break as `§`, a paragraph-level break as `¶`
/// and a tab as `→`.
pub open spec fn shown(c: char) -> char {
    if c == '\n' || c == '\r' || c == '\u{000C}' {
        '⏎'
    } else if c == '\u{FFFC}' {
        '▨'
    } else if c == '\u{0004}' {
        '§'
    } else if c == '\u{0005}' {
        '¶'
    } else if c == '\t' {
        '→'
    } else {
        c
    }
}

/// One line of preview text: at most `width` characters, each shown, and `…`
/// where there was more.
pub open spec fn spec_oneline(text: Seq<char>, width: nat) -> Seq<char> {
    if text.len() <= width {
        text.map_values(|c: char| shown(c))
    } else {
        text.take(width as int).map_values(|c: char| shown(c)).push('…')
    }
}

fn show(c: char) -> (r: char)
    ensures
        r == shown(c),
{
    if c == '\n' || c == '\r' || c == '\u{000C}' {
        '⏎'
    } else if c == '\u{FFFC}' {
        '▨'
    } else if c == '\u{0004}' {
        '§'
    } else if c == '\u{0005}' {
        '¶'
    } else if c == '\t' {
        '→'
    } else {
        c
    }
}

/// One line of preview text, with the characters that are not text named.
pub fn oneline(text: &str, width: usize) -> (r: String)
    ensures
        r@ == spec_oneline(text@, width as nat),
{
    let chars = chars_of(text);
    let mut out: Vec<char> = Vec::new();
    let mut i: usize = 0;
    while i < chars.len()
        invariant
            i <= chars@.len(),
            i <= width,
            chars@ == text@,
            out@ == chars@.take(i as int).map_values(|c: char| shown(c)),
        decreases chars@.len() - i,
    {
        if i >= width {
            out.push('…');
            assert(chars@.len() > width);
            assert(out@ =~= spec_oneline(text@, width as nat));
            return to_string(&out);
        }
        out.push(show(chars[i]));
        assert(out@ =~= chars@.take(i + 1).map_values(|c: char| shown(c)));
        i = i + 1;
    }
    assert(chars@.take(i as int) =~= chars@);
    to_string(&out)
}

/// Whether a CSV field has to be quoted: it holds a comma, a quote or a line
/// break.
pub open spec fn needs_csv_quotes(text: Seq<char>) -> bool {
    exists|i: int|
        0 <= i < text.len() && (#[trigger] text[i] == ',' || text[i] == '"' || text[i] == '\n'
            || text[i] == '\r')
}

/// Text with every `"` doubled.
pub open spec fn quotes_doubled(text: Seq<char>) -> Seq<char>
    decreases text.len(),
{
    if text.len() == 0 {
        text
    } else if text.last() == '"' {
        quotes_doubled(text.drop_last()) + seq!['"', '"']
    } else {
        quotes_doubled(text.drop_last()).push(text.last())
    }
}

/// A CSV field: the text itself, or the text in quotes with its quotes doubled
/// where it holds a comma, a quote or a line break.
pub open spec fn spec_csv_field(text: Seq<char>) -> Seq<char> {
    if needs_csv_quotes(text) {
        seq!['"'] + quotes_doubled(text) + seq!['"']
    } else {
        text
    }
}

pub fn csv_field(text: &str) -> (r: String)
    ensures
        r@ == spec_csv_field(text@),
{
    let chars = chars_of(text);
    let mut quoted = false;
    let mut body: Vec<char> = Vec::new();
    let mut i: usize = 0;
    while i < chars.len()
        invariant
            i <= chars@.len(),
            chars@ == text@,
            body@ == quotes_doubled(chars@.take(i as int)),
            quoted <==> exists|k: int|
                0 <= k < i && (#[trigger] chars@[k] == ',' || chars@[k] == '"' || chars@[k] == '\n'
                    || chars@[k] == '\r'),
        decreases chars@.len() - i,
    {
        let c = chars[i];
        assert(chars@.take(i + 1).drop_last() =~= chars@.take(i as int));
        if c == ',' || c == '"' || c == '\n' || c == '\r' {
            quoted = true;
        }
        if c == '"' {
            body.push('"');
            body.push('"');
        } else {
            body.push(c);
        }
        assert(body@ =~= quotes_doubled(chars@.take(i + 1)));
        i = i + 1;
    }
    assert(chars@.take(i as int) =~= chars@);
    if quoted {
        let mut out: Vec<char> = Vec::new();
        out.push('"');
        let mut j: usize = 0;
        while j < body.len()
            invariant
                j <= body@.len(),
                out@ == seq!['"'] + body@.take(j as int),
            decreases body@.len() - j,
        {
            out.push(body[j]);
            assert(out@ =~= seq!['"'] + body@.take(j + 1));
            j = j + 1;
        }
        out.push('"');
        assert(body@.take(j as int) =~= body@);
        assert(out@ =~= spec_csv_field(text@));
        to_string(&out)
    } else {
        to_string(&chars)
    }
}

/// `label=value`, or nothing when there is no value.
pub open spec fn spec_key(label: Seq<char>, value: Option<u32>) -> Seq<char> {
    match value {
        Some(v) => label + seq!['='] + decimal(v as nat),
        None => Seq::empty(),
    }
}

pub fn key(label: &str, value: Option<u32>) -> (r: String)
    ensures
        r@ == spec_key(label@, value),
{
    let mut out: Vec<char> = Vec::new();
    if let Some(v) = value {
        push_str(&mut out, label);
        out.push('=');
        push_decimal(&mut out, v as u64);
    }
    assert(out@ =~= spec_key(label@, value));
    to_string(&out)
}

/// A column index as the letter the app shows, or `?` when a UUID did not
/// resolve to one — which the caller says with `usize::MAX`.
pub open spec fn spec_column_name(column: usize) -> Seq<char> {
    if column == usize::MAX {
        seq!['?']
    } else {
        letters((column + 1) as nat)
    }
}

pub fn column_name(column: usize) -> (r: String)
    ensures
        r@ == spec_column_name(column),
{
    let mut out: Vec<char> = Vec::new();
    if column == usize::MAX {
        out.push('?');
    } else {
        push_letters(&mut out, (column + 1) as u64);
    }
    assert(out@ =~= spec_column_name(column));
    to_string(&out)
}

/// `A1`-style name for a cell, as the app writes it: the column's letters and
/// the row counted from one.
pub open spec fn spec_reference_name(row: usize, column: usize) -> Seq<char> {
    letters((column + 1) as nat) + decimal((row + 1) as nat)
}

pub fn reference_name(row: usize, column: usize) -> (r: String)
    requires
        row < usize::MAX,
        column < usize::MAX,
    ensures
        r@ == spec_reference_name(row, column),
{
    let mut out: Vec<char> = Vec::new();
    push_letters(&mut out, (column + 1) as u64);
    push_decimal(&mut out, (row + 1) as u64);
    assert(out@ =~= spec_reference_name(row, column));
    to_string(&out)
}

// -- reading arguments -------------------------------------------------------------------

/// What `str::parse` makes of text as an unsigned integer no larger than
/// `limit`: an optional `+`, then at least one ASCII digit and nothing else.
pub open spec fn spec_parse_unsigned(s: Seq<char>, limit: nat) -> Option<nat> {
    let body = unsigned_body(s);
    if body.len() > 0 && all_digits(body) && digits_value(body) <= limit {
        Some(digits_value(body))
    } else {
        None
    }
}

proof fn lemma_digits_value_grows(s: Seq<char>, i: int, j: int)
    requires
        0 <= i <= j <= s.len(),
    ensures
        digits_value(s.take(i)) <= digits_value(s.take(j)),
    decreases j - i,
{
    if i < j {
        lemma_digits_value_grows(s, i, j - 1);
        assert(s.take(j).drop_last() =~= s.take(j - 1));
    }
}

fn parse_unsigned(text: &str, limit: u64) -> (r: Option<u64>)
    requires
        limit >= 9,
    ensures
        match spec_parse_unsigned(text@, limit as nat) {
            Some(v) => r == Some(v as u64),
            None => r is None,
        },
{
    let chars = chars_of(text);
    let n = chars.len();
    let mut start: usize = 0;
    if n > 0 && chars[0] == '+' {
        start = 1;
    }
    let ghost body = unsigned_body(text@);
    assert(body =~= chars@.skip(start as int));
    if start == n {
        return None;
    }
    let mut value: u64 = 0;
    let mut i: usize = start;
    while i < n
        invariant
            n == chars@.len(),
            chars@ == text@,
            start < n,
            start <= i <= n,
            body == chars@.skip(start as int),
            body == unsigned_body(text@),
            all_digits(body.take(i - start)),
            value == digits_value(body.take(i - start)),
            value <= limit,
            limit >= 9,
        decreases n - i,
    {
        let c = chars[i];
        assert(body.take(i - start + 1).drop_last() =~= body.take(i - start));
        assert(body[i - start] == c);
        if !('0' <= c && c <= '9') {
            assert(!is_digit(body[i - start]));
            assert(!all_digits(body));
            return None;
        }
        let d = (c as u32 - '0' as u32) as u64;
        assert(digits_value(body.take(i - start + 1)) == value * 10 + d);
        if value > (limit - d) / 10 {
            proof {
                assert(value * 10 + d > limit) by (nonlinear_arith)
                    requires
                        value > (limit - d) / 10,
                        d <= 9,
                        d <= limit,
                ;
                lemma_digits_value_grows(body, i - start + 1, body.len() as int);
                assert(body.take(body.len() as int) =~= body);
            }
            return None;
        }
        assert(value * 10 + d <= limit) by (nonlinear_arith)
            requires
                value <= (limit - d) / 10,
                d <= limit,
        ;
        value = value * 10 + d;
        assert(all_digits(body.take(i - start + 1))) by {
            assert forall|k: int| 0 <= k < i - start + 1 implies is_digit(#[trigger] body.take(i - start + 1)[k]) by {
                if k < i - start {
                    assert(body.take(i - start + 1)[k] == body.take(i - start)[k]);
                }
            }
        }
        i = i + 1;
    }
    assert(body.take(n - start) =~= body);
    Some(value)
}

/// `'text' is not …`, the message a refused argument gets.
pub open spec fn refusal(text: Seq<char>, what: Seq<char>) -> Seq<char> {
    seq!['\''] + text + "' is not "@ + what
}

fn refuse(text: &str, what: &str) -> (r: String)
    ensures
        r@ == refusal(text@, what@),
{
    let mut out: Vec<char> = Vec::new();
    out.push('\'');
    push_str(&mut out, text);
    push_str(&mut out, "' is not ");
    push_str(&mut out, what);
    assert(out@ =~= refusal(text@, what@));
    to_string(&out)
}

/// An object identifier, as a command takes one.
pub fn identifier(text: &str) -> (r: Result<u64, String>)
    ensures
        match spec_parse_unsigned(text@, u64::MAX as nat) {
            Some(v) => r == Ok::<u64, String>(v as u64),
            None => r matches Err(m) && m@ == refusal(text@, "an object identifier"@),
        },
{
    match parse_unsigned(text, u64::MAX) {
        Some(v) => Ok(v),
        None => Err(refuse(text, "an object identifier")),
    }
}

/// A row or column index, as a command takes one.
pub fn index(text: &str) -> (r: Result<usize, String>)
    ensures
        match spec_parse_unsigned(text@, usize::MAX as nat) {
            Some(v) => r == Ok::<usize, String>(v as usize),
            None => r matches Err(m) && m@ == refusal(text@, "a row or column index"@),
        },
{
    match parse_unsigned(text, usize::MAX as u64) {
        Some(v) => Ok(v as usize),
        None => Err(refuse(text, "a row or column index")),
    }
}

/// Where the first ASCII digit is.
pub open spec fn first_digit(s: Seq<char>) -> Option<int>
    decreases s.len(),
{
    if s.len() == 0 {
        None
    } else if is_digit(s[0]) {
        Some(0)
    } else {
        match first_digit(s.drop_first()) {
            Some(k) => Some(k + 1),
            None => None,
        }
    }
}

/// `B3` as the `(row, column)` pair the API takes: letters of either case up
/// to the first digit, then a row counted from one.
pub open spec fn spec_reference_position(s: Seq<char>) -> Option<(nat, nat)> {
    match first_digit(s) {
        Some(k) => if k > 0 && (forall|i: int| 0 <= i < k ==> is_ascii_letter(#[trigger] s[i])) {
            match spec_parse_usize(s.skip(k)) {
                Some(row) => if row > 0 {
                    Some(((row - 1) as nat, (letters_value(s.take(k)) - 1) as nat))
                } else {
                    None
                },
                None => None,
            }
        } else {
            None
        },
        None => None,
    }
}

proof fn lemma_first_digit(s: Seq<char>, k: int)
    requires
        0 <= k <= s.len(),
        forall|i: int| 0 <= i < k ==> !is_digit(#[trigger] s[i]),
    ensures
        k < s.len() && is_digit(s[k]) ==> first_digit(s) == Some(k),
        k == s.len() ==> first_digit(s) is None,
    decreases k,
{
    if k > 0 {
        assert forall|i: int| 0 <= i < k - 1 implies !is_digit(#[trigger] s.drop_first()[i]) by {
            assert(s.drop_first()[i] == s[i + 1]);
        }
        if k < s.len() {
            assert(s.drop_first()[k - 1] == s[k]);
        }
        lemma_first_digit(s.drop_first(), k - 1);
    } else if s.len() == 0 {
    }
}

proof fn lemma_letter_run_to(s: Seq<char>, k: int)
    requires
        0 <= k < s.len(),
        forall|i: int| 0 <= i < k ==> is_ascii_letter(#[trigger] s[i]),
        is_digit(s[k]),
    ensures
        crate::formula::names::letter_run(s) == k,
    decreases k,
{
    if k > 0 {
        assert forall|i: int| 0 <= i < k - 1 implies is_ascii_letter(#[trigger] s.drop_first()[i]) by {
            assert(s.drop_first()[i] == s[i + 1]);
        }
        assert(s.drop_first()[k - 1] == s[k]);
        lemma_letter_run_to(s.drop_first(), k - 1);
    }
}

/// `B3` to the `(row, column)` pair the API takes — the inverse of
/// [`reference_name`].
pub fn reference_position(text: &str) -> (r: Result<(usize, usize), String>)
    requires
        a1_column_fits(text@),
    ensures
        match spec_reference_position(text@) {
            Some((row, column)) => r == Ok::<(usize, usize), String>((row as usize, column as usize)),
            None => r matches Err(m) && m@ == refusal(text@, "a cell reference like B3"@),
        },
{
    let chars = chars_of(text);
    let n = chars.len();
    let mut k: usize = 0;
    while k < n && !('0' <= chars[k] && chars[k] <= '9')
        invariant
            n == chars@.len(),
            chars@ == text@,
            k <= n,
            forall|i: int| 0 <= i < k ==> !is_digit(#[trigger] text@[i]),
        decreases n - k,
    {
        k = k + 1;
    }
    proof {
        lemma_first_digit(text@, k as int);
    }
    if k == n || k == 0 {
        return Err(refuse(text, "a cell reference like B3"));
    }
    let mut i: usize = 0;
    while i < k
        invariant
            n == chars@.len(),
            chars@ == text@,
            i <= k < n,
            first_digit(text@) == Some(k as int),
            forall|j: int| 0 <= j < i ==> is_ascii_letter(#[trigger] text@[j]),
        decreases k - i,
    {
        let c = chars[i];
        if !(('a' <= c && c <= 'z') || ('A' <= c && c <= 'Z')) {
            assert(!is_ascii_letter(text@[i as int]));
            return Err(refuse(text, "a cell reference like B3"));
        }
        i = i + 1;
    }
    proof {
        lemma_letter_run_to(text@, k as int);
        assert(unsigned_body(text@.skip(k as int)) == text@.skip(k as int));
    }
    match parse_a1(text) {
        Some((row, column)) => Ok((row, column)),
        None => Err(refuse(text, "a cell reference like B3")),
    }
}

/// What `char::is_whitespace` answers: the Unicode `White_Space` property.
pub open spec fn is_white_space(c: char) -> bool {
    ||| ('\u{9}' <= c && c <= '\u{d}')
    ||| c == ' '
    ||| c == '\u{85}'
    ||| c == '\u{a0}'
    ||| c == '\u{1680}'
    ||| ('\u{2000}' <= c && c <= '\u{200a}')
    ||| c == '\u{2028}'
    ||| c == '\u{2029}'
    ||| c == '\u{202f}'
    ||| c == '\u{205f}'
    ||| c == '\u{3000}'
}

fn white_space(c: char) -> (r: bool)
    ensures
        r == is_white_space(c),
{
    ('\u{9}' <= c && c <= '\u{d}') || c == ' ' || c == '\u{85}' || c == '\u{a0}' || c == '\u{1680}'
        || ('\u{2000}' <= c && c <= '\u{200a}') || c == '\u{2028}' || c == '\u{2029}' || c
        == '\u{202f}' || c == '\u{205f}' || c == '\u{3000}'
}

/// The text without its white space.
pub open spec fn without_white_space(s: Seq<char>) -> Seq<char>
    decreases s.len(),
{
    if s.len() == 0 {
        s
    } else if is_white_space(s.last()) {
        without_white_space(s.drop_last())
    } else {
        without_white_space(s.drop_last()).push(s.last())
    }
}

/// A hexadecimal digit's value, in either case.
pub open spec fn hex_value(c: char) -> Option<nat> {
    if '0' <= c && c <= '9' {
        Some((c as int - '0' as int) as nat)
    } else if 'a' <= c && c <= 'f' {
        Some((c as int - 'a' as int + 10) as nat)
    } else if 'A' <= c && c <= 'F' {
        Some((c as int - 'A' as int + 10) as nat)
    } else {
        None
    }
}

/// What `u8::from_str_radix(_, 16)` makes of two characters: two hex digits,
/// or a `+` and one.
pub open spec fn pair_value(a: char, b: char) -> Option<u8> {
    if a == '+' {
        match hex_value(b) {
            Some(v) => Some(v as u8),
            None => None,
        }
    } else {
        match (hex_value(a), hex_value(b)) {
            (Some(x), Some(y)) => Some((16 * x + y) as u8),
            _ => None,
        }
    }
}

/// Digits read two at a time, or the first pair that is not a byte.
pub open spec fn hex_bytes(digits: Seq<char>) -> Result<Seq<u8>, Seq<char>>
    decreases digits.len(),
{
    if digits.len() < 2 {
        Ok(Seq::empty())
    } else {
        match pair_value(digits[0], digits[1]) {
            Some(v) => match hex_bytes(digits.skip(2)) {
                Ok(rest) => Ok(seq![v] + rest),
                Err(pair) => Err(pair),
            },
            None => Err(digits.take(2)),
        }
    }
}

/// Bytes written in hex, white space allowed anywhere, or why not.
pub open spec fn spec_parse_hex(text: Seq<char>) -> Result<Seq<u8>, Seq<char>> {
    let digits = without_white_space(text);
    if digits.len() % 2 != 0 {
        Err("hex needs an even number of digits"@)
    } else {
        match hex_bytes(digits) {
            Ok(bytes) => Ok(bytes),
            Err(pair) => Err(refusal(pair, "hex"@)),
        }
    }
}

fn hex_digit(c: char) -> (r: Option<u8>)
    ensures
        match hex_value(c) {
            Some(v) => r == Some(v as u8),
            None => r is None,
        },
{
    if '0' <= c && c <= '9' {
        Some((c as u32 - '0' as u32) as u8)
    } else if 'a' <= c && c <= 'f' {
        Some((c as u32 - 'a' as u32 + 10) as u8)
    } else if 'A' <= c && c <= 'F' {
        Some((c as u32 - 'A' as u32 + 10) as u8)
    } else {
        None
    }
}

fn pair_byte(a: char, b: char) -> (r: Option<u8>)
    ensures
        r == pair_value(a, b),
{
    if a == '+' {
        hex_digit(b)
    } else {
        match (hex_digit(a), hex_digit(b)) {
            (Some(x), Some(y)) => Some(16 * x + y),
            _ => None,
        }
    }
}

pub fn parse_hex(text: &str) -> (r: Result<Vec<u8>, String>)
    ensures
        match spec_parse_hex(text@) {
            Ok(bytes) => r matches Ok(b) && b@ == bytes,
            Err(message) => r matches Err(m) && m@ == message,
        },
{
    let chars = chars_of(text);
    let mut digits: Vec<char> = Vec::new();
    let mut i: usize = 0;
    while i < chars.len()
        invariant
            i <= chars@.len(),
            chars@ == text@,
            digits@ == without_white_space(chars@.take(i as int)),
        decreases chars@.len() - i,
    {
        assert(chars@.take(i + 1).drop_last() =~= chars@.take(i as int));
        if !white_space(chars[i]) {
            digits.push(chars[i]);
        }
        i = i + 1;
    }
    assert(chars@.take(i as int) =~= chars@);
    if digits.len() % 2 != 0 {
        let mut m: Vec<char> = Vec::new();
        push_str(&mut m, "hex needs an even number of digits");
        return Err(to_string(&m));
    }
    let ghost d = digits@;
    let mut out: Vec<u8> = Vec::new();
    let mut k: usize = 0;
    assert(d.skip(0) =~= d);
    while k < digits.len()
        invariant
            d == digits@,
            d == without_white_space(text@),
            d.len() % 2 == 0,
            k <= d.len(),
            k % 2 == 0,
            match hex_bytes(d.skip(k as int)) {
                Ok(rest) => hex_bytes(d) == Ok::<Seq<u8>, Seq<char>>(out@ + rest),
                Err(pair) => hex_bytes(d) == Err::<Seq<u8>, Seq<char>>(pair),
            },
        decreases d.len() - k,
    {
        let ghost tail = d.skip(k as int);
        assert(tail[0] == d[k as int] && tail[1] == d[k + 1]);
        assert(tail.skip(2) =~= d.skip(k + 2));
        match pair_byte(digits[k], digits[k + 1]) {
            Some(v) => {
                proof {
                    match hex_bytes(d.skip(k + 2)) {
                        Ok(rest) => {
                            assert(out@.push(v) + rest =~= out@ + (seq![v] + rest));
                        },
                        Err(_) => {},
                    }
                }
                out.push(v);
            },
            None => {
                assert(tail.take(2) =~= seq![d[k as int], d[k + 1]]);
                let mut pair: Vec<char> = Vec::new();
                pair.push(digits[k]);
                pair.push(digits[k + 1]);
                let mut m: Vec<char> = Vec::new();
                m.push('\'');
                push_str(&mut m, &to_string(&pair));
                push_str(&mut m, "' is not ");
                push_str(&mut m, "hex");
                assert(m@ =~= refusal(pair@, "hex"@));
                return Err(to_string(&m));
            },
        }
        k = k + 2;
    }
    proof {
        assert(d.skip(k as int).len() == 0);
        assert(out@ + Seq::<u8>::empty() =~= out@);
    }
    Ok(out)
}

/// **A cell name reads back.** `reference_position` is the inverse of
/// `reference_name`: the name of the cell at `(row, column)` parses to that
/// row and column, and its letters fit a machine word.
pub proof fn law_reference_name_reads_back(row: usize, column: usize)
    requires
        row < usize::MAX,
        column < usize::MAX,
    ensures
        spec_reference_position(spec_reference_name(row, column)) == Some((row as nat, column as nat)),
        a1_column_fits(spec_reference_name(row, column)),
{
    let l = letters((column + 1) as nat);
    let d = decimal((row + 1) as nat);
    let s = l + d;
    lemma_letters((column + 1) as nat);
    lemma_decimal_digits((row + 1) as nat);
    assert forall|i: int| 0 <= i < l.len() implies is_ascii_letter(#[trigger] s[i]) by {
        assert(s[i] == l[i]);
    }
    assert forall|i: int| 0 <= i < l.len() implies !is_digit(#[trigger] s[i]) by {
        assert(s[i] == l[i]);
        assert(is_ascii_letter(l[i]));
    }
    assert(is_digit(d[0]));
    assert(s[l.len() as int] == d[0]);
    lemma_first_digit(s, l.len() as int);
    lemma_letter_run_exact(s, l.len() as int);
    assert(s.take(l.len() as int) =~= l);
    assert(s.skip(l.len() as int) =~= d);
    assert(unsigned_body(d) == d);
}

// -- UTF-16 --------------------------------------------------------------------------------

/// The UTF-16 code units of one character: itself below U+10000, a surrogate
/// pair above.
pub open spec fn char_units(c: char) -> Seq<u16> {
    if (c as u32) < 0x10000 {
        seq![c as u16]
    } else {
        let v = (c as u32 - 0x10000) as nat;
        seq![(0xD800 + v / 1024) as u16, (0xDC00 + v % 1024) as u16]
    }
}

/// What `str::encode_utf16` gives.
pub open spec fn utf16_of(s: Seq<char>) -> Seq<u16>
    decreases s.len(),
{
    if s.len() == 0 {
        Seq::empty()
    } else {
        utf16_of(s.drop_last()) + char_units(s.last())
    }
}

fn push_char_units(out: &mut Vec<u16>, c: char)
    ensures
        final(out)@ == old(out)@ + char_units(c),
{
    let code = c as u32;
    if code < 0x10000 {
        out.push(code as u16);
    } else {
        let v = code - 0x10000;
        assert(v / 1024 < 1024) by {
            assert(code <= 0x10FFFF);
        }
        out.push((0xD800 + v / 1024) as u16);
        out.push((0xDC00 + v % 1024) as u16);
    }
    assert(out@ =~= old(out)@ + char_units(c));
}

/// Text as UTF-16 code units.
pub fn encode_utf16(text: &str) -> (r: Vec<u16>)
    ensures
        r@ == utf16_of(text@),
{
    let chars = chars_of(text);
    let mut out: Vec<u16> = Vec::new();
    let mut i: usize = 0;
    while i < chars.len()
        invariant
            i <= chars@.len(),
            chars@ == text@,
            out@ == utf16_of(chars@.take(i as int)),
        decreases chars@.len() - i,
    {
        assert(chars@.take(i + 1).drop_last() =~= chars@.take(i as int));
        push_char_units(&mut out, chars[i]);
        i = i + 1;
    }
    assert(chars@.take(i as int) =~= chars@);
    out
}

/// Where a section's UTF-16 range starts or ends, cut to the text.
pub open spec fn clamped(at: u64, len: nat) -> int {
    if (at as usize) < len {
        (at as usize) as int
    } else {
        len as int
    }
}

/// UTF-16 code units `start..end` of a string, for printing a section.
pub fn slice_units(text: &str, start: u64, end: u64) -> (r: String)
    requires
        clamped(start, utf16_of(text@).len()) <= clamped(end, utf16_of(text@).len()),
    ensures
        r@ == utf16_lossy(
            utf16_of(text@).subrange(
                clamped(start, utf16_of(text@).len()),
                clamped(end, utf16_of(text@).len()),
            ),
        ),
{
    let units = encode_utf16(text);
    let from: usize = if (start as usize) < units.len() {
        start as usize
    } else {
        units.len()
    };
    let to: usize = if (end as usize) < units.len() {
        end as usize
    } else {
        units.len()
    };
    let mut piece: Vec<u16> = Vec::new();
    let mut k: usize = from;
    while k < to
        invariant
            from <= k <= to <= units@.len(),
            piece@ == units@.subrange(from as int, k as int),
        decreases to - k,
    {
        piece.push(units[k]);
        assert(piece@ =~= units@.subrange(from as int, k + 1));
        k = k + 1;
    }
    lossy_utf16(piece.as_slice())
}

// -- snippets ------------------------------------------------------------------------------

/// What `char::is_control` answers: the `Cc` category.
pub open spec fn is_control(c: char) -> bool {
    c <= '\u{1f}' || ('\u{7f}' <= c && c <= '\u{9f}')
}

/// The text without the white space it starts with.
pub open spec fn trim_start(s: Seq<char>) -> Seq<char>
    decreases s.len(),
{
    if s.len() > 0 && is_white_space(s[0]) {
        trim_start(s.drop_first())
    } else {
        s
    }
}

/// The text without the white space it ends with.
pub open spec fn trim_end(s: Seq<char>) -> Seq<char>
    decreases s.len(),
{
    if s.len() > 0 && is_white_space(s.last()) {
        trim_end(s.drop_last())
    } else {
        s
    }
}

/// One line of a paragraph's text: control characters as spaces, white space
/// trimmed from both ends, and cut after 64 characters with `…`.
pub open spec fn spec_snippet_of(text: Seq<char>) -> Seq<char> {
    let flat = text.map_values(|c: char| if is_control(c) { ' ' } else { c });
    let trimmed = trim_end(trim_start(flat));
    if trimmed.len() > 64 {
        trimmed.take(64).push('…')
    } else {
        trimmed
    }
}

proof fn lemma_trim_start(s: Seq<char>, k: int)
    requires
        0 <= k <= s.len(),
        forall|i: int| 0 <= i < k ==> is_white_space(#[trigger] s[i]),
        k < s.len() ==> !is_white_space(s[k]),
    ensures
        trim_start(s) == s.skip(k),
    decreases k,
{
    if k > 0 {
        assert forall|i: int| 0 <= i < k - 1 implies is_white_space(#[trigger] s.drop_first()[i]) by {
            assert(s.drop_first()[i] == s[i + 1]);
        }
        if k < s.len() {
            assert(s.drop_first()[k - 1] == s[k]);
        }
        lemma_trim_start(s.drop_first(), k - 1);
        assert(s.drop_first().skip(k - 1) =~= s.skip(k));
    } else {
        assert(s.skip(0) =~= s);
    }
}

proof fn lemma_trim_end(s: Seq<char>, k: int)
    requires
        0 <= k <= s.len(),
        forall|i: int| k <= i < s.len() ==> is_white_space(#[trigger] s[i]),
        k > 0 ==> !is_white_space(s[k - 1]),
    ensures
        trim_end(s) == s.take(k),
    decreases s.len() - k,
{
    if k < s.len() {
        assert forall|i: int| k <= i < s.len() - 1 implies is_white_space(#[trigger] s.drop_last()[i]) by {
            assert(s.drop_last()[i] == s[i]);
        }
        if k > 0 {
            assert(s.drop_last()[k - 1] == s[k - 1]);
        }
        lemma_trim_end(s.drop_last(), k);
        assert(s.drop_last().take(k) =~= s.take(k));
    } else {
        assert(s.take(k) =~= s);
    }
}

/// A paragraph's text cut down to one scannable line.
pub fn snippet_of(text: &str) -> (r: String)
    ensures
        r@ == spec_snippet_of(text@),
{
    let chars = chars_of(text);
    let ghost flat = text@.map_values(|c: char| if is_control(c) { ' ' } else { c });
    let mut f: Vec<char> = Vec::new();
    let mut i: usize = 0;
    while i < chars.len()
        invariant
            i <= chars@.len(),
            chars@ == text@,
            flat == text@.map_values(|c: char| if is_control(c) { ' ' } else { c }),
            f@ == flat.take(i as int),
        decreases chars@.len() - i,
    {
        let c = chars[i];
        let control = c <= '\u{1f}' || ('\u{7f}' <= c && c <= '\u{9f}');
        if control {
            f.push(' ');
        } else {
            f.push(c);
        }
        assert(f@ =~= flat.take(i + 1));
        i = i + 1;
    }
    assert(f@ =~= flat);
    let n = f.len();
    let mut lo: usize = 0;
    while lo < n && white_space(f[lo])
        invariant
            n == f@.len(),
            lo <= n,
            forall|j: int| 0 <= j < lo ==> is_white_space(#[trigger] f@[j]),
        decreases n - lo,
    {
        lo = lo + 1;
    }
    proof {
        lemma_trim_start(f@, lo as int);
    }
    let ghost start = f@.skip(lo as int);
    let mut hi: usize = n;
    while hi > lo && white_space(f[hi - 1])
        invariant
            n == f@.len(),
            lo <= hi <= n,
            start == f@.skip(lo as int),
            forall|j: int| hi <= j < n ==> is_white_space(#[trigger] f@[j]),
        decreases hi,
    {
        hi = hi - 1;
    }
    proof {
        assert forall|j: int| hi - lo <= j < start.len() implies is_white_space(#[trigger] start[j]) by {
            assert(start[j] == f@[lo + j]);
        }
        if hi > lo {
            assert(start[hi - lo - 1] == f@[hi - 1]);
        }
        lemma_trim_end(start, hi - lo);
    }
    let ghost trimmed = f@.subrange(lo as int, hi as int);
    assert(trimmed =~= start.take(hi - lo));
    let cut: usize = if hi - lo > 64 {
        lo + 64
    } else {
        hi
    };
    let mut out: Vec<char> = Vec::new();
    let mut k: usize = lo;
    while k < cut
        invariant
            lo <= k <= cut <= hi <= n,
            n == f@.len(),
            out@ == f@.subrange(lo as int, k as int),
        decreases cut - k,
    {
        out.push(f[k]);
        assert(out@ =~= f@.subrange(lo as int, k + 1));
        k = k + 1;
    }
    if hi - lo > 64 {
        out.push('…');
        assert(out@ =~= trimmed.take(64).push('…'));
    } else {
        assert(out@ =~= trimmed);
    }
    to_string(&out)
}

/// One line of a paragraph's text, short enough to scan in a listing, from
/// its UTF-16 code units.
pub fn snippet(units: &[u16]) -> (r: String)
    ensures
        r@ == spec_snippet_of(utf16_lossy(units@)),
{
    let text = lossy_utf16(units);
    snippet_of(text.as_str())
}

} // verus!
