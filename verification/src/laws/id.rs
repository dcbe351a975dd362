//! What holds of identifiers and of the counting behind them.
#[allow(unused_imports)]
use std::time::SystemTime;
#[allow(unused_imports)]
use vstd::arithmetic::power::pow;
use vstd::prelude::*;
#[allow(unused_imports)]
use crate::clock::{since_epoch, whole_millis};
#[allow(unused_imports)]
use crate::id::{
    id_digits, id_head, id_value, in_order, is_id, issued, stamp, ticked, IdState,
};
#[allow(unused_imports)]
use crate::laws::clock::clock_reads_moments;
#[allow(unused_imports)]
use crate::laws::text::{bytes_give_base62_digits, hex_digits_stand_at_their_places};
#[allow(unused_imports)]
use crate::text::{base62_text, hex_text, is_base62};

verus! {

/// The hexadecimal digit of `number` that has `behind` digits behind it.
pub open spec fn digit_at(number: nat, behind: nat) -> char {
    "0123456789abcdef"@[number as int / pow(16, behind) % 16]
}

/// `text` is `prefix`, `_`, the last 12 hexadecimal digits of `number`, and 14 letters and
/// decimal digits.
pub open spec fn made_of(text: Seq<char>, prefix: Seq<char>, number: nat) -> bool {
    let n = prefix.len() as int;
    &&& text.len() == n + 27
    &&& text.take(n) == prefix
    &&& text[n] == '_'
    &&& forall|k: int| n < k <= n + 12 ==> #[trigger] text[k] == digit_at(number, (n + 12 - k) as nat)
    &&& forall|k: int|
        n + 12 < k < n + 27 ==> '0' <= #[trigger] text[k] <= '9' || 'A' <= text[k] <= 'Z' || 'a'
            <= text[k] <= 'z'
}

proof fn lemma_head(prefix: Seq<char>, number: nat)
    ensures
        id_head(prefix, number).len() == prefix.len() + 13,
        id_head(prefix, number).take(prefix.len() as int) == prefix,
        id_head(prefix, number)[prefix.len() as int] == '_',
        forall|k: int|
            prefix.len() < k <= prefix.len() + 12 ==> #[trigger] id_head(prefix, number)[k]
                == digit_at(number, (prefix.len() + 12 - k) as nat),
{
    let head = id_head(prefix, number);
    let n = prefix.len() as int;
    hex_digits_stand_at_their_places(number, 12, 0);
    assert(head.take(n) =~= prefix);
    assert forall|k: int| n < k <= n + 12 implies #[trigger] head[k] == digit_at(
        number,
        (n + 12 - k) as nat,
    ) by {
        hex_digits_stand_at_their_places(number, 12, k - n - 1);
        assert(head[k] == hex_text(number, 12)[k - n - 1]);
    }
}

/// What an identifier is made of, character by character.
pub proof fn ids_are_made_of_their_number(text: Seq<char>, prefix: Seq<char>, number: nat)
    ensures
        is_id(text, prefix, number) <==> made_of(text, prefix, number),
{
    let head = id_head(prefix, number);
    let n = prefix.len() as int;
    lemma_head(prefix, number);
    if is_id(text, prefix, number) {
        assert forall|k: int| 0 <= k < n + 13 implies #[trigger] text[k] == head[k] by {
            assert(text.take(n + 13)[k] == head[k]);
        }
        assert(text.take(n) =~= prefix) by {
            assert(head.take(n) == prefix);
            assert forall|k: int| 0 <= k < n implies text[k] == prefix[k] by {
                assert(text[k] == head[k]);
                assert(head.take(n)[k] == prefix[k]);
            }
        }
        assert(text[n] == head[n]);
    }
    if made_of(text, prefix, number) {
        assert(text.take(n + 13) =~= head) by {
            assert forall|k: int| 0 <= k < n + 13 implies text[k] == head[k] by {
                if k < n {
                    assert(text.take(n)[k] == prefix[k]);
                    assert(head.take(n)[k] == prefix[k]);
                }
            }
        }
        assert forall|k: int| n + 13 <= k < text.len() implies is_base62(#[trigger] text[k]) by {}
    }
}

/// An identifier that is put together from random bytes has one digit for each, and before
/// them its prefix, `_` and 12 digits of its number.
pub proof fn composed_ids_hold_their_bytes(
    text: Seq<char>,
    prefix: Seq<char>,
    number: nat,
    random: Seq<u8>,
)
    requires
        text == id_head(prefix, number) + base62_text(random),
    ensures
        text.len() == prefix.len() + 13 + random.len(),
        text.take(prefix.len() as int) == prefix,
        text[prefix.len() as int] == '_',
        forall|k: int|
            prefix.len() < k <= prefix.len() + 12 ==> #[trigger] text[k] == digit_at(
                number,
                (prefix.len() + 12 - k) as nat,
            ),
        forall|i: int|
            0 <= i < random.len() ==> text[prefix.len() + 13 + i]
                == "0123456789ABCDEFGHIJKLMNOPQRSTUVWXYZabcdefghijklmnopqrstuvwxyz"@[(
            #[trigger] random[i]) as int % 62],
{
    let head = id_head(prefix, number);
    lemma_head(prefix, number);
    assert(base62_text(random).len() == random.len()) by {
        if random.len() > 0 {
            bytes_give_base62_digits(random, 0);
        }
    }
    assert(text.take(prefix.len() as int) =~= prefix) by {
        assert(head.take(prefix.len() as int) == prefix);
        assert forall|k: int| 0 <= k < prefix.len() implies text[k] == prefix[k] by {
            assert(head.take(prefix.len() as int)[k] == prefix[k]);
        }
    }
    assert forall|k: int| prefix.len() < k <= prefix.len() + 12 implies #[trigger] text[k]
        == digit_at(number, (prefix.len() + 12 - k) as nat) by {
        assert(text[k] == head[k]);
    }
    assert forall|i: int| 0 <= i < random.len() implies text[prefix.len() + 13 + i]
        == "0123456789ABCDEFGHIJKLMNOPQRSTUVWXYZabcdefghijklmnopqrstuvwxyz"@[(
    #[trigger] random[i]) as int % 62] by {
        bytes_give_base62_digits(random, i);
        assert(text[prefix.len() + 13 + i] == base62_text(random)[i]);
    }
}

/// An ascending number is what the time stamp, 4096 to the millisecond, leaves of full turns
/// of 48 bits; a descending one is what the ascending one lacks to 48 bits of ones.
pub proof fn numbers_hold_the_time(ms: u64, counter: u64)
    ensures
        0 <= id_value(false, ms, counter) <= 0xFFFF_FFFF_FFFF,
        exists|turns: int| #[trigger]
            (turns * 0x1_0000_0000_0000) + id_value(false, ms, counter) == ms * 4096 + counter,
        id_value(true, ms, counter) == 0xFFFF_FFFF_FFFF - id_value(false, ms, counter),
        stamp(ms, counter) == ms * 4096 + counter,
{
    let whole = ms * 4096 + counter;
    let turns = whole / 0x1_0000_0000_0000;
    assert((turns * 0x1_0000_0000_0000) + id_value(false, ms, counter) == whole);
}

/// An ascending number holds the time and the count themselves, wherever 36 bits hold the
/// one and 12 bits the other.
pub proof fn numbers_can_be_taken_apart(ms: u64, counter: u64)
    requires
        ms < 0x10_0000_0000,
        counter < 4096,
    ensures
        id_value(false, ms, counter) / 4096 == ms,
        id_value(false, ms, counter) % 4096 == counter,
        0xFFFF_FFFF_FFFF - id_value(true, ms, counter) == ms * 4096 + counter,
{
}

/// The count goes on at the same reading and starts over at another.
pub proof fn counting_goes_on_or_starts_over(before: IdState, ms: u64, after: IdState)
    requires
        after == ticked(before, ms),
    ensures
        after.ms == ms,
        ms != before.ms ==> after.counter == 1,
        ms == before.ms && before.counter < u64::MAX ==> after.counter == before.counter + 1,
        ms == before.ms && before.counter == u64::MAX ==> after.counter == 0,
{
}

/// A new identifier holds what the clock read at some moment and the count at that reading.
pub proof fn new_ids_hold_the_clock(
    before: IdState,
    prefix: Seq<char>,
    descending: bool,
    text: Seq<char>,
    after: IdState,
)
    requires
        issued(before, prefix, descending, text, after),
    ensures
        exists|moment: SystemTime|
            match #[trigger] since_epoch(moment) {
                Some(duration) => after.ms == whole_millis(duration) % 0x1_0000_0000_0000_0000,
                None => after.ms == 0,
            },
        after.ms != before.ms ==> after.counter == 1,
        after.ms == before.ms && before.counter < u64::MAX ==> after.counter == before.counter + 1,
        exists|turns: int, number: nat|
            {
                &&& #[trigger] (turns * 0x1_0000_0000_0000) + number == after.ms * 4096
                    + after.counter
                &&& number <= 0xFFFF_FFFF_FFFF
                &&& !descending ==> #[trigger] made_of(text, prefix, number)
                &&& descending ==> made_of(text, prefix, (0xFFFF_FFFF_FFFF - number) as nat)
            },
{
    clock_reads_moments(after.ms);
    let number = id_value(false, after.ms, after.counter);
    ids_are_made_of_their_number(
        text,
        prefix,
        id_value(descending, after.ms, after.counter),
    );
    numbers_hold_the_time(after.ms, after.counter);
    let turns = choose|turns: int| #[trigger]
        (turns * 0x1_0000_0000_0000) + id_value(false, after.ms, after.counter) == after.ms * 4096
            + after.counter;
    assert((turns * 0x1_0000_0000_0000) + number == after.ms * 4096 + after.counter);
    let _ = made_of(text, prefix, number);
}

/// States are in order exactly if the later one is later in full milliseconds and counts,
/// 4096 to the millisecond, within one turn of 48 bits.
pub proof fn states_in_order(before: IdState, after: IdState)
    ensures
        in_order(before, after) <==> {
            let a = before.ms * 4096 + before.counter;
            let b = after.ms * 4096 + after.counter;
            a < b && a / 0x1_0000_0000_0000 == b / 0x1_0000_0000_0000
        },
{
}

} // verus!
