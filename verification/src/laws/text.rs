//! What holds of digits, of the order of text, and of white space.
#[allow(unused_imports)]
use vstd::arithmetic::power::pow;
use vstd::prelude::*;
#[allow(unused_imports)]
use vstd::arithmetic::div_mod::lemma_div_denominator;
#[allow(unused_imports)]
use vstd::arithmetic::power::lemma_pow_positive;
#[allow(unused_imports)]
use crate::text::{
    base62_digit, base62_text, differs_first, hex_digit, hex_text, text_before, text_of, trimmed,
    white_space,
};

verus! {

proof fn lemma_hex_digit(d: int)
    requires
        0 <= d < 16,
    ensures
        hex_digit(d) == "0123456789abcdef"@[d],
{
    reveal_strlit("0123456789abcdef");
}

/// Each digit of a hexadecimal text is the number's digit at that place, the place of ones
/// last.
pub proof fn hex_digits_stand_at_their_places(value: nat, digits: nat, i: int)
    requires
        0 <= i < digits,
    ensures
        hex_text(value, digits).len() == digits,
        hex_text(value, digits)[i] == "0123456789abcdef"@[value as int / pow(
            16,
            (digits - 1 - i) as nat,
        ) % 16],
    decreases digits,
{
    let fewer = (digits - 1) as nat;
    let rest = hex_text(value / 16, fewer);
    assert(rest.len() == fewer) by {
        if fewer > 0 {
            hex_digits_stand_at_their_places(value / 16, fewer, 0);
        }
    }
    reveal(pow);
    if i < fewer {
        hex_digits_stand_at_their_places(value / 16, fewer, i);
        let place = pow(16, (digits - 2 - i) as nat);
        lemma_pow_positive(16, (digits - 2 - i) as nat);
        lemma_div_denominator(value as int, 16, place);
        assert(pow(16, (digits - 1 - i) as nat) == 16 * place);
    } else {
        assert(pow(16, 0) == 1);
        lemma_hex_digit(value as int % 16);
    }
}

/// Each byte gives one digit: of 62, the one that stands at the byte modulo 62.
pub proof fn bytes_give_base62_digits(bytes: Seq<u8>, i: int)
    requires
        0 <= i < bytes.len(),
    ensures
        base62_text(bytes).len() == bytes.len(),
        base62_text(bytes)[i]
            == "0123456789ABCDEFGHIJKLMNOPQRSTUVWXYZabcdefghijklmnopqrstuvwxyz"@[bytes[i] as int
            % 62],
{
    reveal_strlit("0123456789ABCDEFGHIJKLMNOPQRSTUVWXYZabcdefghijklmnopqrstuvwxyz");
}

/// Text is ordered by the first character that differs, and a beginning comes before the
/// whole.
pub proof fn text_is_ordered_by_its_characters(
    common: Seq<char>,
    lower: char,
    higher: char,
    x: Seq<char>,
    y: Seq<char>,
)
    requires
        (lower as int) < (higher as int),
    ensures
        text_before(common + seq![lower] + x, common + seq![higher] + y),
        text_before(common, common + seq![lower] + x),
{
    let a = common + seq![lower] + x;
    let b = common + seq![higher] + y;
    assert(a.take(common.len() as int) =~= common);
    assert(b.take(common.len() as int) =~= common);
    assert(differs_first(a, b, common.len() as int));
}

/// Of two texts, at most one comes before the other, and none before itself.
pub proof fn text_order_has_one_direction(a: Seq<char>, b: Seq<char>)
    ensures
        !(text_before(a, b) && text_before(b, a)),
        !text_before(a, a),
{
    if text_before(a, b) && text_before(b, a) {
        if exists|i: int| #[trigger] differs_first(a, b, i) {
            let i = choose|i: int| #[trigger] differs_first(a, b, i);
            if exists|j: int| #[trigger] differs_first(b, a, j) {
                let j = choose|j: int| #[trigger] differs_first(b, a, j);
                if i < j {
                    assert(b.take(j)[i] == a.take(j)[i]);
                } else if j < i {
                    assert(a.take(i)[j] == b.take(i)[j]);
                }
            } else {
                assert(a.take(b.len() as int)[i] == b[i]);
            }
        } else {
            let j = choose|j: int| #[trigger] differs_first(b, a, j);
            assert(b.take(a.len() as int)[j] == a[j]);
        }
    }
}

/// A character of white space: tab to carriage return, space, next line, no-break space and
/// the spaces and separators beyond Latin.
pub open spec fn blank(c: char) -> bool {
    let n = c as u32;
    ||| n == 9 || n == 10 || n == 11 || n == 12 || n == 13
    ||| n == 32 || n == 133 || n == 160 || n == 5760
    ||| 8192 <= n <= 8202
    ||| n == 8232 || n == 8233 || n == 8239 || n == 8287 || n == 12288
}

/// Nothing but white space.
pub open spec fn all_blank(text: Seq<char>) -> bool {
    forall|i: int| 0 <= i < text.len() ==> blank(#[trigger] text[i])
}

/// Trimming takes off the white space at both ends, all of it and nothing else.
pub proof fn trimming_takes_off_white_space(
    before: Seq<char>,
    inner: Seq<char>,
    after: Seq<char>,
)
    requires
        all_blank(before),
        all_blank(after),
        inner.len() > 0 ==> !blank(inner.first()) && !blank(inner.last()),
    ensures
        trimmed(before + inner + after) == inner,
    decreases before.len() + after.len(),
{
    let text = before + inner + after;
    if before.len() > 0 {
        assert(blank(before[0]));
        let rest = before.drop_first();
        assert forall|i: int| 0 <= i < rest.len() implies blank(#[trigger] rest[i]) by {
            assert(blank(before[i + 1]));
        }
        assert(text.drop_first() =~= rest + inner + after);
        trimming_takes_off_white_space(rest, inner, after);
    } else if after.len() > 0 {
        if inner.len() > 0 {
            assert(blank(after[after.len() - 1]));
            let rest = after.drop_last();
            assert forall|i: int| 0 <= i < rest.len() implies blank(#[trigger] rest[i]) by {
                assert(blank(after[i]));
            }
            assert(text.drop_last() =~= before + inner + rest);
            trimming_takes_off_white_space(before, inner, rest);
        } else {
            assert(blank(after[0]));
            let rest = after.drop_first();
            assert forall|i: int| 0 <= i < rest.len() implies blank(#[trigger] rest[i]) by {
                assert(blank(after[i + 1]));
            }
            assert(text.drop_first() =~= before + inner + rest);
            trimming_takes_off_white_space(before, inner, rest);
        }
    } else {
        assert(text =~= inner);
    }
}

/// Every text is a trimmed text with white space before and behind it.
pub proof fn every_text_can_be_trimmed(text: Seq<char>) -> (around: (Seq<char>, Seq<char>))
    ensures
        text == around.0 + trimmed(text) + around.1,
        all_blank(around.0),
        all_blank(around.1),
        trimmed(text).len() > 0 ==> !blank(trimmed(text).first()) && !blank(trimmed(text).last()),
    decreases text.len(),
{
    if text.len() == 0 {
        assert(text =~= Seq::empty() + trimmed(text) + Seq::empty());
        (Seq::empty(), Seq::empty())
    } else if blank(text.first()) {
        let (before, after) = every_text_can_be_trimmed(text.drop_first());
        let more = seq![text.first()] + before;
        assert(text =~= more + trimmed(text) + after) by {
            assert(text =~= seq![text.first()] + text.drop_first());
        }
        assert forall|i: int| 0 <= i < more.len() implies blank(#[trigger] more[i]) by {
            if i > 0 {
                assert(blank(before[i - 1]));
            }
        }
        (more, after)
    } else if blank(text.last()) {
        let (before, after) = every_text_can_be_trimmed(text.drop_last());
        let more = after.push(text.last());
        assert(text =~= before + trimmed(text) + more) by {
            assert(text =~= text.drop_last().push(text.last()));
        }
        assert forall|i: int| 0 <= i < more.len() implies blank(#[trigger] more[i]) by {
            if i < after.len() {
                assert(blank(after[i]));
            }
        }
        (before, more)
    } else {
        assert(text =~= Seq::empty() + trimmed(text) + Seq::empty());
        (Seq::empty(), Seq::empty())
    }
}

/// Text that was written as UTF-8 is read as it was written.
pub proof fn utf8_is_read_as_it_was_written(text: Seq<char>)
    ensures
        text_of(vstd::utf8::encode_utf8(text)) == text,
{
    vstd::utf8::encode_utf8_valid_utf8(text);
    vstd::utf8::encode_utf8_decode_utf8(text);
}

} // verus!
