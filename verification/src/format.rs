//! Formatting, letter case, encoding and reading of numbers.
use vstd::prelude::*;
use crate::text::{chars_of, string_of, Text};

verus! {

// ---------------------------------------------------------------------------
// Widths
// ---------------------------------------------------------------------------
/// A character repeated.
pub open spec fn repeated(c: char, n: nat) -> Text {
    Seq::new(n, |i: int| c)
}

/// Repeats a character.
pub fn repeat(c: char, n: usize) -> (r: String)
    ensures
        r@ == repeated(c, n as nat),
{
    let mut out = String::new();
    let mut i: usize = 0;
    while i < n
        invariant
            i <= n,
            out@ == repeated(c, i as nat),
        decreases n - i,
    {
        out.push(c);
        i = i + 1;
        proof {
            assert(out@ =~= repeated(c, i as nat));
        }
    }
    out
}

/// How many spaces a text falls short of a width.
pub open spec fn shortfall(s: Text, width: nat) -> nat {
    if s.len() < width {
        (width - s.len()) as nat
    } else {
        0
    }
}

/// A text filled up with spaces on the right to a width.
pub open spec fn padded_right(s: Text, width: nat) -> Text {
    s + repeated(' ', shortfall(s, width))
}

/// A text filled up with spaces on the left to a width.
pub open spec fn padded_left(s: Text, width: nat) -> Text {
    repeated(' ', shortfall(s, width)) + s
}

/// How many characters a text falls short of a width.
fn missing(s: &str, width: usize) -> (r: usize)
    ensures
        r == shortfall(s@, width as nat),
{
    let n = chars_of(s).len();
    if n < width {
        width - n
    } else {
        0
    }
}

/// Fills a text up with spaces on the right.
pub fn pad_right(s: &str, width: usize) -> (r: String)
    ensures
        r@ == padded_right(s@, width as nat),
{
    s.to_owned().concat(repeat(' ', missing(s, width)).as_str())
}

/// Fills a text up with spaces on the left.
pub fn pad_left(s: &str, width: usize) -> (r: String)
    ensures
        r@ == padded_left(s@, width as nat),
{
    repeat(' ', missing(s, width)).concat(s)
}

// ---------------------------------------------------------------------------
// Letter case
// ---------------------------------------------------------------------------
/// An ASCII capital turned into its small letter; any other character as it is.
pub open spec fn ascii_small(c: char) -> char {
    if 65 <= c as u32 <= 90 {
        ((c as u32 + 32) as u8) as char
    } else {
        c
    }
}

/// Two texts that differ at most in the case of ASCII letters.
pub open spec fn same_but_case(a: Text, b: Text) -> bool {
    a.len() == b.len() && forall|i: int|
        0 <= i < a.len() ==> ascii_small(#[trigger] a[i]) == ascii_small(b[i])
}

/// The small letter of an ASCII capital.
fn small(c: char) -> (r: char)
    ensures
        r == ascii_small(c),
{
    let u: u32 = c as u32;
    if 65 <= u && u <= 90 {
        ((u + 32) as u8) as char
    } else {
        c
    }
}

/// Whether two texts are the same but for the case of ASCII letters.
pub fn equals_ignoring_case(a: &str, b: &str) -> (r: bool)
    ensures
        r == same_but_case(a@, b@),
{
    let x = chars_of(a);
    let y = chars_of(b);
    if x.len() != y.len() {
        return false;
    }
    let mut i: usize = 0;
    while i < x.len()
        invariant
            i <= x@.len(),
            x@.len() == y@.len(),
            x@ == a@,
            y@ == b@,
            forall|k: int| 0 <= k < i ==> ascii_small(#[trigger] a@[k]) == ascii_small(b@[k]),
        decreases x@.len() - i,
    {
        if small(x[i]) != small(y[i]) {
            proof {
                assert(ascii_small(a@[i as int]) != ascii_small(b@[i as int]));
            }
            return false;
        }
        i = i + 1;
    }
    true
}

/// What `str::to_lowercase` gives for a text.
pub uninterp spec fn lowercase(s: Seq<char>) -> Seq<char>;

/// `str::to_lowercase`: the text in small letters, by the Unicode tables,
/// which are not spelled out here. Of a text of ASCII characters alone, the
/// capitals become small letters and the rest stays.
#[verifier::external_body]
pub(crate) fn to_lowercase(s: &str) -> (r: String)
    ensures
        r@ == lowercase(s@),
        vstd::utf8::is_ascii_chars(s@) ==> r@ == s@.map_values(|c: char| ascii_small(c)),
{
    s.to_lowercase()
}

// ---------------------------------------------------------------------------
// Encoding
// ---------------------------------------------------------------------------
/// What `String::from_utf8_lossy` makes of bytes.
pub uninterp spec fn lossy(bytes: Seq<u8>) -> Seq<char>;

/// `String::from_utf8_lossy`: the text that the bytes encode. Where they are
/// not UTF-8, replacement characters stand for what cannot be decoded; where
/// exactly is not spelled out here.
#[verifier::external_body]
pub(crate) fn from_utf8_lossy(bytes: &[u8]) -> (r: String)
    ensures
        r@ == lossy(bytes@),
        vstd::utf8::valid_utf8(bytes@) ==> r@ == vstd::utf8::decode_utf8(bytes@),
{
    String::from_utf8_lossy(bytes).into_owned()
}

// ---------------------------------------------------------------------------
// Reading numbers
// ---------------------------------------------------------------------------
/// A decimal digit.
pub open spec fn is_digit(c: char) -> bool {
    48 <= c as u32 <= 57
}

/// One or more decimal digits and nothing else.
pub open spec fn all_digits(s: Text) -> bool {
    s.len() > 0 && forall|i: int| 0 <= i < s.len() ==> is_digit(#[trigger] s[i])
}

/// The number that decimal digits stand for.
pub open spec fn digits_value(s: Text) -> nat
    decreases s.len(),
{
    if s.len() == 0 {
        0
    } else {
        digits_value(s.drop_last()) * 10 + (s.last() as u32 - 48) as nat
    }
}

/// The number in front of which `+` or `-` may stand.
pub open spec fn signed_value(s: Text) -> Option<int> {
    let signed = s.len() > 0 && (s[0] == '-' || s[0] == '+');
    let body = if signed {
        s.drop_first()
    } else {
        s
    };
    if !all_digits(body) {
        None
    } else if signed && s[0] == '-' {
        Some(-(digits_value(body) as int))
    } else {
        Some(digits_value(body) as int)
    }
}

/// A text read as a 64-bit signed number: nothing where it is not one.
pub open spec fn read_i64(s: Text) -> Option<i64> {
    match signed_value(s) {
        Some(n) => if i64::MIN <= n <= i64::MAX {
            Some(n as i64)
        } else {
            None
        },
        None => None,
    }
}

/// A text read as a 32-bit unsigned number: no sign but `+` may stand there.
pub open spec fn read_u32(s: Text) -> Option<u32> {
    if s.len() > 0 && s[0] == '-' {
        None
    } else {
        match signed_value(s) {
            Some(n) => if n <= u32::MAX {
                Some(n as u32)
            } else {
                None
            },
            None => None,
        }
    }
}

/// The number that the digits from `from` on stand for. Numbers from 2^64 on
/// are all reported as 2^64.
fn read_digits(chars: &Vec<char>, from: usize) -> (r: Option<u128>)
    requires
        from <= chars@.len(),
    ensures
        match r {
            Some(v) => {
                let body = chars@.subrange(from as int, chars@.len() as int);
                &&& all_digits(body)
                &&& v == if digits_value(body) < 0x1_0000_0000_0000_0000 {
                    digits_value(body) as int
                } else {
                    0x1_0000_0000_0000_0000
                }
            },
            None => !all_digits(chars@.subrange(from as int, chars@.len() as int)),
        },
{
    let n = chars.len();
    let ghost body = chars@.subrange(from as int, n as int);
    let limit: u128 = 0x1_0000_0000_0000_0000;
    if from == n {
        return None;
    }
    let mut value: u128 = 0;
    let mut i: usize = from;
    while i < n
        invariant
            from <= i <= n,
            n == chars@.len(),
            limit == 0x1_0000_0000_0000_0000,
            body == chars@.subrange(from as int, n as int),
            forall|k: int| 0 <= k < i - from ==> is_digit(#[trigger] body[k]),
            value <= limit,
            value < limit ==> value == digits_value(body.take(i - from)),
            value == limit ==> digits_value(body.take(i - from)) >= limit,
        decreases n - i,
    {
        let c: char = chars[i];
        let u: u32 = c as u32;
        proof {
            assert(body[i - from] == c);
            let next = body.take(i - from + 1);
            assert(next.drop_last() =~= body.take(i - from));
            assert(next.last() == c);
        }
        if !(48 <= u && u <= 57) {
            return None;
        }
        let next: u128 = value * 10 + (u - 48) as u128;
        value = if next < limit {
            next
        } else {
            limit
        };
        i = i + 1;
    }
    proof {
        assert(body.take(n - from) =~= body);
    }
    Some(value)
}

/// Reads a 64-bit signed number.
pub fn parse_i64(s: &str) -> (r: Option<i64>)
    ensures
        r == read_i64(s@),
{
    let chars = chars_of(s);
    let n = chars.len();
    let negative = n > 0 && chars[0] == '-';
    let signed = negative || (n > 0 && chars[0] == '+');
    let from: usize = if signed {
        1
    } else {
        0
    };
    proof {
        if signed {
            assert(s@.drop_first() =~= chars@.subrange(1, n as int));
        } else {
            assert(s@ =~= chars@.subrange(0, n as int));
        }
    }
    match read_digits(&chars, from) {
        Some(v) => {
            if negative {
                if v <= 0x8000_0000_0000_0000 {
                    Some((-(v as i128)) as i64)
                } else {
                    None
                }
            } else if v <= 0x7fff_ffff_ffff_ffff {
                Some(v as i64)
            } else {
                None
            }
        },
        None => None,
    }
}

/// Reads a 32-bit unsigned number.
pub fn parse_u32(s: &str) -> (r: Option<u32>)
    ensures
        r == read_u32(s@),
{
    let chars = chars_of(s);
    let n = chars.len();
    if n > 0 && chars[0] == '-' {
        return None;
    }
    let from: usize = if n > 0 && chars[0] == '+' {
        1
    } else {
        0
    };
    proof {
        if from == 1 {
            assert(s@.drop_first() =~= chars@.subrange(1, n as int));
        } else {
            assert(s@ =~= chars@.subrange(0, n as int));
        }
    }
    match read_digits(&chars, from) {
        Some(v) => if v <= 0xffff_ffff {
            Some(v as u32)
        } else {
            None
        },
        None => None,
    }
}

// ---------------------------------------------------------------------------
// Shortening
// ---------------------------------------------------------------------------
/// A text cut to a number of characters, the last of which is then an
/// ellipsis.
pub open spec fn truncated(s: Text, max: nat) -> Text {
    if s.len() <= max {
        s
    } else {
        s.take(if max > 0 {
            max - 1
        } else {
            0
        }) + "…"@
    }
}

/// Cuts a text that is too long and marks the cut.
pub fn truncate(text: &str, max: usize) -> (r: String)
    ensures
        r@ == truncated(text@, max as nat),
{
    let chars = chars_of(text);
    if chars.len() <= max {
        return text.to_owned();
    }
    let kept: usize = if max > 0 {
        max - 1
    } else {
        0
    };
    proof {
        assert(chars@.subrange(0, kept as int) =~= text@.take(kept as int));
    }
    string_of(&chars, 0, kept).concat("…")
}

// ---------------------------------------------------------------------------
// What holds of texts and numbers
// ---------------------------------------------------------------------------
/// The digits of a number stand for that number.
pub proof fn lemma_digits(n: nat)
    ensures
        all_digits(crate::text::dec(n)),
        digits_value(crate::text::dec(n)) == n,
    decreases n,
{
    let s = crate::text::dec(n);
    if n < 10 {
        assert(s.drop_last() =~= Seq::<char>::empty());
        assert(s.last() == crate::text::digit(n));
        assert(digits_value(Seq::<char>::empty()) == 0);
    } else {
        lemma_digits(n / 10);
        assert(s.drop_last() =~= crate::text::dec(n / 10));
        assert(s.last() == crate::text::digit(n % 10));
        assert forall|i: int| 0 <= i < s.len() implies is_digit(#[trigger] s[i]) by {
            if i < s.len() - 1 {
                assert(s[i] == crate::text::dec(n / 10)[i]);
            }
        }
    }
}

/// A number that was written in decimal is read as the same number.
pub proof fn law_numbers_are_read_back(n: i64)
    ensures
        read_i64(crate::text::signed_dec(n as int)) == Some(n),
{
    let s = crate::text::signed_dec(n as int);
    if n < 0 {
        reveal_strlit("-");
        lemma_digits((-n) as nat);
        assert(s[0] == '-');
        assert(s.drop_first() =~= crate::text::dec((-n) as nat));
    } else {
        lemma_digits(n as nat);
        assert(is_digit(s[0]));
    }
}

/// A number without a sign that was written in decimal is read as the same
/// number.
pub proof fn law_counts_are_read_back(n: u32)
    ensures
        read_u32(crate::text::dec(n as nat)) == Some(n),
{
    let s = crate::text::dec(n as nat);
    lemma_digits(n as nat);
    assert(is_digit(s[0]));
}

/// Two numbers are never written alike.
pub proof fn law_decimals_differ(a: nat, b: nat)
    ensures
        crate::text::dec(a) == crate::text::dec(b) ==> a == b,
{
    lemma_digits(a);
    lemma_digits(b);
}

/// What is not a number, or goes beyond 64 bits, is not read as one.
pub proof fn law_only_numbers_are_read(s: Text)
    ensures
        s.len() == 0 ==> read_i64(s) is None && read_u32(s) is None,
        forall|i: int|
            0 < i < s.len() && !(48 <= (#[trigger] s[i]) as u32 <= 57) ==> read_i64(s) is None
                && read_u32(s) is None,
        s.len() > 0 && s[0] != '-' && s[0] != '+' && !(48 <= s[0] as u32 <= 57) ==> read_i64(
            s,
        ) is None && read_u32(s) is None,
        s.len() > 0 && s[0] == '-' ==> read_u32(s) is None,
{
    assert forall|i: int| 0 < i < s.len() && !(48 <= (#[trigger] s[i]) as u32 <= 57) implies read_i64(
        s,
    ) is None && read_u32(s) is None by {
        assert(s.drop_first()[i - 1] == s[i]);
        assert(!is_digit(s[i]));
    }
    assert(s.len() > 0 ==> (is_digit(s[0]) <==> 48 <= s[0] as u32 <= 57));
}

/// Filling up keeps the text, adds nothing but spaces, and reaches the width.
pub proof fn law_padding_keeps_the_text(s: Text, width: nat)
    ensures
        s.is_prefix_of(padded_right(s, width)),
        s.is_suffix_of(padded_left(s, width)),
        padded_right(s, width).len() == if s.len() < width {
            width
        } else {
            s.len()
        },
        padded_left(s, width).len() == padded_right(s, width).len(),
        forall|i: int| s.len() <= i < padded_right(s, width).len() ==> padded_right(s, width)[i] == ' ',
        forall|i: int|
            0 <= i < padded_left(s, width).len() - s.len() ==> padded_left(s, width)[i] == ' ',
{
    let l = padded_left(s, width);
    assert(padded_right(s, width).take(s.len() as int) =~= s);
    assert(l.subrange(l.len() - s.len(), l.len() as int) =~= s);
}

/// A text that is cut keeps its beginning, ends in an ellipsis, and takes no more
/// than the width; one that fits stays as it is.
pub proof fn law_cutting_marks_the_cut(s: Text, max: nat)
    ensures
        s.len() <= max ==> truncated(s, max) == s,
        s.len() > max && max > 0 ==> {
            &&& truncated(s, max).len() == max
            &&& truncated(s, max).last() == '…'
            &&& forall|i: int| 0 <= i < max - 1 ==> truncated(s, max)[i] == s[i]
        },
        s.len() > 0 && max == 0 ==> truncated(s, max) == seq!['…'],
{
    reveal_strlit("…");
    assert("…"@.len() == 1);
    if s.len() > 0 && max == 0 {
        assert(truncated(s, max) =~= seq!['…']);
    }
}

/// Characters with the same small letter.
proof fn lemma_small(c: char, d: char)
    requires
        ascii_small(c) == ascii_small(d),
    ensures
        c == d || (65 <= c as u32 <= 90 && d as u32 == c as u32 + 32) || (65 <= d as u32 <= 90 && c as u32
            == d as u32 + 32),
{
}

/// Case is nothing but case: two texts that differ in anything but the case of
/// ASCII letters are told apart.
pub proof fn law_case_only(a: Text, b: Text)
    ensures
        same_but_case(a, a),
        same_but_case(a, b) <==> same_but_case(b, a),
        same_but_case(a, b) ==> a.len() == b.len() && forall|i: int|
            0 <= i < a.len() ==> #[trigger] a[i] == b[i] || (65 <= a[i] as u32 <= 90 && b[i] as u32
                == a[i] as u32 + 32) || (65 <= b[i] as u32 <= 90 && a[i] as u32 == b[i] as u32 + 32),
{
    if same_but_case(a, b) {
        assert forall|i: int| 0 <= i < a.len() implies #[trigger] a[i] == b[i] || (65 <= a[i] as u32
            <= 90 && b[i] as u32 == a[i] as u32 + 32) || (65 <= b[i] as u32 <= 90 && a[i] as u32
            == b[i] as u32 + 32) by {
            lemma_small(a[i], b[i]);
        }
    }
    if same_but_case(b, a) {
        assert forall|i: int| 0 <= i < a.len() implies ascii_small(#[trigger] a[i]) == ascii_small(
            b[i],
        ) by {
            assert(ascii_small(b[i]) == ascii_small(a[i]));
        }
    }
}

} // verus!
