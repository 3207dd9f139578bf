//! Text rules shared by the naming conventions: hidden names, decimal
//! numbers and the byte order of strings.

use vstd::prelude::*;
use vstd::string::*;
use vstd::utf8::encode_utf8;

verus! {

/// A name is hidden when it begins with a dot.
pub open spec fn hidden(name: Seq<char>) -> bool {
    name.len() > 0 && name[0] == '.'
}

/// Whether `name` begins with a dot.
pub fn is_hidden(name: &str) -> (r: bool)
    ensures
        r == hidden(name@),
{
    name.unicode_len() > 0 && name.get_char(0) == '.'
}

/// The characters of `text`, in order.
pub fn chars_of(text: &str) -> (chars: Vec<char>)
    ensures
        chars@ == text@,
{
    let mut chars: Vec<char> = Vec::new();
    for c in it: text.chars()
        invariant
            chars@ == it.seq().take(it.index() as int),
            it.seq() == text@,
    {
        chars.push(c);
    }
    chars
}

/// `a` followed by `b`.
pub fn join(a: &str, b: &str) -> (joined: String)
    ensures
        joined@ == a@ + b@,
{
    let mut joined = String::from_str(a);
    joined.append(b);
    joined
}

/// An ASCII decimal digit.
pub open spec fn digit(c: char) -> bool {
    '0' <= c && c <= '9'
}

/// Every character of `text` is a decimal digit.
pub open spec fn all_digits(text: Seq<char>) -> bool {
    forall|i: int| 0 <= i < text.len() ==> digit(#[trigger] text[i])
}

/// The value of one digit; zero for any other character.
pub open spec fn digit_value(c: char) -> nat {
    if digit(c) {
        (c as int - '0' as int) as nat
    } else {
        0
    }
}

/// The number that the digits of `text` write in base ten.
pub open spec fn decimal_value(text: Seq<char>) -> nat
    decreases text.len(),
{
    if text.len() == 0 {
        0
    } else {
        decimal_value(text.drop_last()) * 10 + digit_value(text.last())
    }
}

/// Reading more digits never gives a smaller number.
pub proof fn lemma_decimal_value_of_prefix(text: Seq<char>, k: int)
    requires
        0 <= k <= text.len(),
    ensures
        decimal_value(text.take(k)) <= decimal_value(text),
    decreases text.len(),
{
    if k == text.len() {
        assert(text.take(k) =~= text);
    } else {
        lemma_decimal_value_of_prefix(text.drop_last(), k);
        assert(text.drop_last().take(k) =~= text.take(k));
    }
}

/// The digit that writes `d`, for `d` below ten.
pub open spec fn digit_char(d: nat) -> char {
    if d == 0 {
        '0'
    } else if d == 1 {
        '1'
    } else if d == 2 {
        '2'
    } else if d == 3 {
        '3'
    } else if d == 4 {
        '4'
    } else if d == 5 {
        '5'
    } else if d == 6 {
        '6'
    } else if d == 7 {
        '7'
    } else if d == 8 {
        '8'
    } else {
        '9'
    }
}

/// `n` written in base ten without leading zeros.
pub open spec fn decimal(n: nat) -> Seq<char>
    decreases n,
{
    if n < 10 {
        seq![digit_char(n)]
    } else {
        decimal(n / 10).push(digit_char(n % 10))
    }
}

fn digit_text(d: u32) -> (text: &'static str)
    requires
        d < 10,
    ensures
        text@ == seq![digit_char(d as nat)],
{
    proof {
        reveal_strlit("0");
        reveal_strlit("1");
        reveal_strlit("2");
        reveal_strlit("3");
        reveal_strlit("4");
        reveal_strlit("5");
        reveal_strlit("6");
        reveal_strlit("7");
        reveal_strlit("8");
        reveal_strlit("9");
    }
    let text = if d == 0 {
        "0"
    } else if d == 1 {
        "1"
    } else if d == 2 {
        "2"
    } else if d == 3 {
        "3"
    } else if d == 4 {
        "4"
    } else if d == 5 {
        "5"
    } else if d == 6 {
        "6"
    } else if d == 7 {
        "7"
    } else if d == 8 {
        "8"
    } else {
        "9"
    };
    assert(text@ =~= seq![digit_char(d as nat)]);
    text
}

/// Writes `n` in base ten.
pub fn decimal_text(n: u32) -> (text: String)
    ensures
        text@ == decimal(n as nat),
    decreases n,
{
    if n < 10 {
        String::from_str(digit_text(n))
    } else {
        let mut text = decimal_text(n / 10);
        text.append(digit_text(n % 10));
        assert(text@ =~= decimal(n as nat));
        text
    }
}

/// What a run of characters says when read as a price.
#[derive(Debug, Clone, Copy, PartialEq, Eq, Structural)]
pub enum Reading {
    /// Not a number: empty, or a character that is no digit.
    NotANumber,
    /// A number that fits in 32 bits.
    Value(u32),
    /// Digits only, but the number is too large.
    TooLarge,
}

/// The reading of `text` as a decimal number of at most 32 bits.
pub open spec fn reading(text: Seq<char>) -> Reading {
    if text.len() == 0 || !all_digits(text) {
        Reading::NotANumber
    } else if decimal_value(text) <= u32::MAX {
        Reading::Value(decimal_value(text) as u32)
    } else {
        Reading::TooLarge
    }
}

/// Reads the first `end` characters of `chars` as a decimal number.
pub fn read_decimal(chars: &Vec<char>, end: usize) -> (r: Reading)
    requires
        end <= chars.len(),
    ensures
        r == reading(chars@.take(end as int)),
{
    let ghost text = chars@.take(end as int);
    if end == 0 {
        return Reading::NotANumber;
    }
    let mut i: usize = 0;
    while i < end
        invariant
            i <= end <= chars.len(),
            text == chars@.take(end as int),
            forall|j: int| 0 <= j < i ==> digit(#[trigger] text[j]),
        decreases end - i,
    {
        let c = chars[i];
        if !('0' <= c && c <= '9') {
            assert(!digit(text[i as int]));
            return Reading::NotANumber;
        }
        i = i + 1;
    }
    assert(all_digits(text));
    let mut value: u64 = 0;
    let mut k: usize = 0;
    while k < end
        invariant
            k <= end <= chars.len(),
            text == chars@.take(end as int),
            all_digits(text),
            value == decimal_value(text.take(k as int)),
            value <= u32::MAX,
        decreases end - k,
    {
        let c = chars[k];
        assert(digit(text[k as int]));
        let d: u64 = (c as u32 - '0' as u32) as u64;
        assert(text.take(k + 1).drop_last() =~= text.take(k as int));
        assert(text.take(k + 1).last() == c);
        value = value * 10 + d;
        k = k + 1;
        if value > u32::MAX as u64 {
            proof {
                lemma_decimal_value_of_prefix(text, k as int);
            }
            return Reading::TooLarge;
        }
    }
    assert(text.take(k as int) =~= text);
    Reading::Value(value as u32)
}

/// `a` comes no later than `b` when both are read byte by byte: at the
/// first place where they differ `a` has the smaller byte, or `a` ends
/// where `b` goes on, or they are equal.
pub open spec fn bytes_le(a: Seq<u8>, b: Seq<u8>) -> bool
    decreases a.len(),
{
    if a.len() == 0 {
        true
    } else if b.len() == 0 {
        false
    } else if a[0] != b[0] {
        a[0] < b[0]
    } else {
        bytes_le(a.skip(1), b.skip(1))
    }
}

/// The order of strings: that of their UTF-8 bytes.
pub open spec fn text_le(a: Seq<char>, b: Seq<char>) -> bool {
    bytes_le(encode_utf8(a), encode_utf8(b))
}

/// Of two byte strings one comes no later than the other.
pub proof fn lemma_bytes_le_total(a: Seq<u8>, b: Seq<u8>)
    ensures
        bytes_le(a, b) || bytes_le(b, a),
    decreases a.len(),
{
    if a.len() > 0 && b.len() > 0 && a[0] == b[0] {
        lemma_bytes_le_total(a.skip(1), b.skip(1));
    }
}

/// The byte order passes on: from `a` to `b` and from `b` to `c` gives from
/// `a` to `c`.
pub proof fn lemma_bytes_le_transitive(a: Seq<u8>, b: Seq<u8>, c: Seq<u8>)
    requires
        bytes_le(a, b),
        bytes_le(b, c),
    ensures
        bytes_le(a, c),
    decreases a.len(),
{
    if a.len() > 0 && b.len() > 0 && c.len() > 0 && a[0] == b[0] && b[0] == c[0] {
        lemma_bytes_le_transitive(a.skip(1), b.skip(1), c.skip(1));
    }
}

/// Whether `a` comes no later than `b` in the byte order.
pub fn is_text_le(a: &str, b: &str) -> (r: bool)
    ensures
        r == text_le(a@, b@),
{
    let x = a.as_bytes();
    let y = b.as_bytes();
    let mut i: usize = 0;
    assert(x@.skip(0) =~= x@ && y@.skip(0) =~= y@);
    while i < x.len() && i < y.len()
        invariant
            i <= x.len(),
            i <= y.len(),
            x@ == encode_utf8(a@),
            y@ == encode_utf8(b@),
            bytes_le(x@, y@) == bytes_le(x@.skip(i as int), y@.skip(i as int)),
        decreases x.len() - i,
    {
        assert(x@.skip(i as int)[0] == x@[i as int]);
        assert(y@.skip(i as int)[0] == y@[i as int]);
        if x[i] != y[i] {
            return x[i] < y[i];
        }
        assert(x@.skip(i as int).skip(1) =~= x@.skip(i + 1));
        assert(y@.skip(i as int).skip(1) =~= y@.skip(i + 1));
        i = i + 1;
    }
    i == x.len()
}

} // verus!
