//! Text: digits, order and white space.
use vstd::prelude::*;

verus! {

/// `String::push` appends one character.
pub assume_specification[ String::push ](text: &mut String, c: char)
    ensures
        final(text)@ == old(text)@.push(c),
;

/// `a` comes before `b` in the order of text: at the first difference `a` has the
/// smaller character, or `a` is a shorter beginning of `b`.
pub open spec fn text_before(a: Seq<char>, b: Seq<char>) -> bool {
    ||| exists|i: int| #[trigger] differs_first(a, b, i)
    ||| a.len() < b.len() && a == b.take(a.len() as int)
}

/// `a` and `b` agree up to `i`, where `a` has the smaller character.
pub open spec fn differs_first(a: Seq<char>, b: Seq<char>, i: int) -> bool {
    &&& 0 <= i < a.len()
    &&& i < b.len()
    &&& a.take(i) == b.take(i)
    &&& (a[i] as int) < (b[i] as int)
}

/// The lowercase hexadecimal digit `d`.
pub open spec fn hex_digit(d: int) -> char {
    if d < 10 {
        (0x30 + d) as char
    } else {
        (0x61 + d - 10) as char
    }
}

/// The last `digits` hexadecimal digits of `value`, leading zeros included.
pub open spec fn hex_text(value: nat, digits: nat) -> Seq<char>
    decreases digits,
{
    if digits == 0 {
        Seq::empty()
    } else {
        hex_text(value / 16, (digits - 1) as nat).push(hex_digit((value % 16) as int))
    }
}

/// The base-62 digit `d`: digits, then uppercase letters, then lowercase letters.
pub open spec fn base62_digit(d: int) -> char {
    if d < 10 {
        (0x30 + d) as char
    } else if d < 36 {
        (0x41 + d - 10) as char
    } else {
        (0x61 + d - 36) as char
    }
}

/// Each byte, taken modulo 62, as a base-62 digit.
pub open spec fn base62_text(bytes: Seq<u8>) -> Seq<char> {
    Seq::new(bytes.len(), |i: int| base62_digit(bytes[i] as int % 62))
}

/// A base-62 digit.
pub open spec fn is_base62(c: char) -> bool {
    '0' <= c <= '9' || 'A' <= c <= 'Z' || 'a' <= c <= 'z'
}

/// 16 to the power `digits`: how many numbers `digits` hexadecimal digits can write.
pub open spec fn hex_span(digits: nat) -> nat
    decreases digits,
{
    if digits == 0 {
        1
    } else {
        16 * hex_span((digits - 1) as nat)
    }
}

pub proof fn lemma_hex_len(value: nat, digits: nat)
    ensures
        hex_text(value, digits).len() == digits,
    decreases digits,
{
    if digits > 0 {
        lemma_hex_len(value / 16, (digits - 1) as nat);
    }
}

/// Hexadecimal text of one width is in the order of the numbers.
pub proof fn hex_text_keeps_order(a: nat, b: nat, digits: nat)
    requires
        a < b < hex_span(digits),
    ensures
        text_before(hex_text(a, digits), hex_text(b, digits)),
        exists|i: int| #[trigger] differs_first(hex_text(a, digits), hex_text(b, digits), i),
    decreases digits,
{
    let x = hex_text(a, digits);
    let y = hex_text(b, digits);
    let fewer = (digits - 1) as nat;
    lemma_hex_len(a / 16, fewer);
    lemma_hex_len(b / 16, fewer);
    let u = hex_text(a / 16, fewer);
    let v = hex_text(b / 16, fewer);
    if a / 16 < b / 16 {
        hex_text_keeps_order(a / 16, b / 16, fewer);
        let i = choose|i: int| #[trigger] differs_first(u, v, i);
        assert(x.take(i) =~= u.take(i));
        assert(y.take(i) =~= v.take(i));
        assert(differs_first(x, y, i));
    } else {
        assert(a / 16 == b / 16);
        assert(a % 16 < b % 16);
        assert(x.take(fewer as int) =~= u);
        assert(y.take(fewer as int) =~= v);
        assert(differs_first(x, y, fewer as int));
    }
}

/// Writes `value` in `digits` hexadecimal digits.
pub fn hex(value: u64, digits: u32) -> (text: String)
    ensures
        text@ == hex_text(value as nat, digits as nat),
    decreases digits,
{
    if digits == 0 {
        let text = String::new();
        text
    } else {
        let mut text = hex(value / 16, digits - 1);
        let d: u8 = (value % 16) as u8;
        if d < 10 {
            text.push((0x30u8 + d) as char);
        } else {
            text.push((0x61u8 + (d - 10)) as char);
        }
        text
    }
}

/// Writes each byte, taken modulo 62, as a base-62 digit.
pub fn base62(bytes: &[u8]) -> (text: String)
    ensures
        text@ == base62_text(bytes@),
{
    let mut text = String::new();
    let mut i: usize = 0;
    while i < bytes.len()
        invariant
            i <= bytes@.len(),
            text@ == base62_text(bytes@.take(i as int)),
        decreases bytes@.len() - i,
    {
        let d: u8 = bytes[i] % 62;
        let c: char = if d < 10 {
            (0x30u8 + d) as char
        } else if d < 36 {
            (0x41u8 + (d - 10)) as char
        } else {
            (0x61u8 + (d - 36)) as char
        };
        text.push(c);
        i += 1;
        assert(text@ =~= base62_text(bytes@.take(i as int)));
    }
    assert(bytes@.take(i as int) =~= bytes@);
    text
}

/// A character of white space, by the Unicode property `White_Space`.
pub open spec fn white_space(c: char) -> bool {
    ||| 0x09 <= c as u32 <= 0x0D
    ||| c as u32 == 0x20
    ||| c as u32 == 0x85
    ||| c as u32 == 0xA0
    ||| c as u32 == 0x1680
    ||| 0x2000 <= c as u32 <= 0x200A
    ||| 0x2028 <= c as u32 <= 0x2029
    ||| c as u32 == 0x202F
    ||| c as u32 == 0x205F
    ||| c as u32 == 0x3000
}

/// All of `text` before `start` and from `end` on is white space, and what lies between
/// neither begins nor ends with any.
spec fn trimmed_at(text: Seq<char>, start: int, end: int) -> bool {
    &&& 0 <= start <= end <= text.len()
    &&& forall|i: int| 0 <= i < start ==> white_space(#[trigger] text[i])
    &&& forall|i: int| end <= i < text.len() ==> white_space(#[trigger] text[i])
    &&& start < end ==> !white_space(text[start]) && !white_space(text[end - 1])
}

/// `text` without the white space at both ends.
pub open spec fn trimmed(text: Seq<char>) -> Seq<char>
    decreases text.len(),
{
    if text.len() == 0 {
        text
    } else if white_space(text.first()) {
        trimmed(text.drop_first())
    } else if white_space(text.last()) {
        trimmed(text.drop_last())
    } else {
        text
    }
}

/// What is left of a text without the white space at both ends is determined.
proof fn lemma_trimmed(text: Seq<char>, start: int, end: int)
    requires
        trimmed_at(text, start, end),
    ensures
        trimmed(text) == text.subrange(start, end),
    decreases text.len(),
{
    let inner = text.subrange(start, end);
    if text.len() == 0 {
    } else if white_space(text.first()) {
        let rest = text.drop_first();
        if start == 0 {
            assert(end == 0) by {
                if end > 0 {
                    assert(!white_space(text[0]));
                }
            }
            assert(rest.subrange(0, 0) =~= inner);
            assert forall|i: int| 0 <= i < rest.len() implies white_space(#[trigger] rest[i]) by {
                assert(white_space(text[i + 1]));
            }
            lemma_trimmed(rest, 0, 0);
        } else {
            assert(rest.subrange(start - 1, end - 1) =~= inner);
            assert forall|i: int| 0 <= i < start - 1 implies white_space(#[trigger] rest[i]) by {
                assert(white_space(text[i + 1]));
            }
            assert forall|i: int| end - 1 <= i < rest.len() implies white_space(
                #[trigger] rest[i],
            ) by {
                assert(white_space(text[i + 1]));
            }
            lemma_trimmed(rest, start - 1, end - 1);
        }
    } else {
        assert(start == 0) by {
            if start > 0 {
                assert(white_space(text[0]));
            }
        }
        assert(end > 0) by {
            if end == 0 {
                assert(white_space(text[0]));
            }
        }
        if white_space(text.last()) {
            let rest = text.drop_last();
            assert(end < text.len()) by {
                if end == text.len() {
                    assert(!white_space(text[end - 1]));
                }
            }
            assert(rest.subrange(0, end) =~= inner);
            assert forall|i: int| end <= i < rest.len() implies white_space(#[trigger] rest[i]) by {
                assert(white_space(text[i]));
            }
            lemma_trimmed(rest, 0, end);
        } else {
            assert(end == text.len()) by {
                if end < text.len() {
                    assert(white_space(text[text.len() - 1]));
                }
            }
            assert(inner =~= text);
        }
    }
}

/// Whether `c` is white space.
fn is_white_space(c: char) -> (yes: bool)
    ensures
        yes == white_space(c),
{
    let n: u32 = c as u32;
    (0x09 <= n && n <= 0x0D) || n == 0x20 || n == 0x85 || n == 0xA0 || n == 0x1680 || (0x2000 <= n
        && n <= 0x200A) || (0x2028 <= n && n <= 0x2029) || n == 0x202F || n == 0x205F || n == 0x3000
}

/// `text` without the white space at both ends.
pub fn trim(text: &str) -> (inner: String)
    ensures
        inner@ == trimmed(text@),
{
    let mut chars: Vec<char> = Vec::new();
    for c in it: text.chars()
        invariant
            it.seq() == text@,
            chars@ == text@.take(it.index() as int),
    {
        chars.push(c);
    }
    assert(chars@ =~= text@);
    let mut start: usize = 0;
    while start < chars.len() && is_white_space(chars[start])
        invariant
            start <= chars@.len(),
            forall|i: int| 0 <= i < start ==> white_space(#[trigger] chars@[i]),
        decreases chars@.len() - start,
    {
        start += 1;
    }
    let mut end: usize = chars.len();
    while end > start && is_white_space(chars[end - 1])
        invariant
            start <= end <= chars@.len(),
            forall|i: int| end <= i < chars@.len() ==> white_space(#[trigger] chars@[i]),
        decreases end,
    {
        end -= 1;
    }
    let mut inner = String::new();
    let mut i: usize = start;
    while i < end
        invariant
            start <= i <= end <= chars@.len(),
            inner@ == chars@.subrange(start as int, i as int),
        decreases end - i,
    {
        inner.push(chars[i]);
        i += 1;
        assert(inner@ =~= chars@.subrange(start as int, i as int));
    }
    proof {
        lemma_trimmed(text@, start as int, end as int);
    }
    inner
}

/// The text that bytes write, with `U+FFFD` for what is no UTF-8.
pub uninterp spec fn lossy(bytes: Seq<u8>) -> Seq<char>;

/// `String::from_utf8_lossy`: the text that the bytes write. Bytes that are UTF-8 give what
/// they encode; nothing more is said of other bytes than that they determine the text.
#[verifier::external_body]
fn from_utf8_lossy(bytes: &[u8]) -> (text: String)
    ensures
        text@ == lossy(bytes@),
        vstd::utf8::valid_utf8(bytes@) ==> text@ == vstd::utf8::decode_utf8(bytes@),
{
    String::from_utf8_lossy(bytes).into_owned()
}

/// The text that bytes write: what they encode, where they are UTF-8.
pub open spec fn text_of(bytes: Seq<u8>) -> Seq<char> {
    if vstd::utf8::valid_utf8(bytes) {
        vstd::utf8::decode_utf8(bytes)
    } else {
        lossy(bytes)
    }
}

/// The text that bytes write, without white space around it.
pub fn trimmed_text(bytes: &[u8]) -> (text: String)
    ensures
        text@ == trimmed(text_of(bytes@)),
        vstd::utf8::valid_utf8(bytes@) ==> text@ == trimmed(vstd::utf8::decode_utf8(bytes@)),
{
    trim(from_utf8_lossy(bytes).as_str())
}

} // verus!
