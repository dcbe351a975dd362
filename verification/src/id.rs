//! Identifiers of sessions, messages and parts.
//!
//! An identifier is a prefix, `_`, 12 hexadecimal digits that hold a time stamp, and
//! 14 random base-62 digits. The identifiers of messages and parts ascend with time,
//! those of sessions descend.
use crate::clock::now_millis;
use crate::text::{base62, hex, hex_text_keeps_order, lemma_hex_len};
use vstd::prelude::*;
#[allow(unused_imports)]
use crate::clock::clock_reads;
#[allow(unused_imports)]
use crate::text::{base62_text, differs_first, hex_span, hex_text, is_base62, text_before};

verus! {

/// How many values 12 hexadecimal digits hold, less one.
pub const MASK_48: u64 = 0xFFFF_FFFF_FFFF;

/// How many random digits end an identifier.
pub const RANDOM_DIGITS: usize = 14;

/// The clock reading of the identifier made last, and how many were made at it.
#[derive(Debug, Clone, Copy, PartialEq, Eq, Structural)]
pub struct IdState {
    pub ms: u64,
    pub counter: u64,
}

/// The state after one more identifier, made at the clock reading `ms`: the count goes
/// on at the same reading and starts over at another. It wraps at the end of `u64`.
pub open spec fn ticked(state: IdState, ms: u64) -> IdState {
    IdState {
        ms,
        counter: if ms != state.ms {
            1
        } else if state.counter == u64::MAX {
            0
        } else {
            (state.counter + 1) as u64
        },
    }
}

/// The time stamp that stands behind an identifier: 4096 steps to the millisecond.
pub open spec fn stamp(ms: u64, counter: u64) -> nat {
    (ms * 4096 + counter) as nat
}

/// The number that an identifier's hexadecimal digits write: the low 48 bits of the time
/// stamp, or their complement where identifiers descend.
pub open spec fn id_value(descending: bool, ms: u64, counter: u64) -> nat {
    let low = stamp(ms, counter) % 0x1_0000_0000_0000;
    if descending {
        (0xFFFF_FFFF_FFFF - low) as nat
    } else {
        low
    }
}

/// The part of an identifier that is not random.
pub open spec fn id_head(prefix: Seq<char>, value: nat) -> Seq<char> {
    prefix + seq!['_'] + hex_text(value, 12)
}

/// The 12 hexadecimal digits of an identifier.
pub open spec fn id_digits(prefix: Seq<char>, text: Seq<char>) -> Seq<char> {
    text.subrange(prefix.len() as int + 1, prefix.len() as int + 13)
}

/// `text` is an identifier with the given prefix and number.
pub open spec fn is_id(text: Seq<char>, prefix: Seq<char>, value: nat) -> bool {
    let head = id_head(prefix, value);
    &&& text.len() == head.len() + 14
    &&& text.take(head.len() as int) == head
    &&& forall|i: int| head.len() <= i < text.len() ==> is_base62(#[trigger] text[i])
}

/// `text` is an identifier that takes the state from `before` to `after`, at a clock
/// reading.
pub open spec fn issued(
    before: IdState,
    prefix: Seq<char>,
    descending: bool,
    text: Seq<char>,
    after: IdState,
) -> bool {
    &&& clock_reads(after.ms)
    &&& after == ticked(before, after.ms)
    &&& is_id(text, prefix, id_value(descending, after.ms, after.counter))
}

/// Any byte, by `fastrand::u8` over all of `u8`. Nothing is said of which.
#[verifier::external_body]
fn random_byte() -> u8 {
    fastrand::u8(..)
}

impl IdState {
    /// The state before the first identifier.
    pub fn new() -> (state: IdState)
        ensures
            state == (IdState { ms: 0, counter: 0 }),
    {
        IdState { ms: 0, counter: 0 }
    }

    /// Counts one more identifier, made at the clock reading `ms`. Gives the reading and
    /// the count.
    pub fn advance(&mut self, ms: u64) -> (at: (u64, u64))
        ensures
            *final(self) == ticked(*old(self), ms),
            at == (final(self).ms, final(self).counter),
    {
        if ms != self.ms {
            self.ms = ms;
            self.counter = 0;
        }
        self.counter = self.counter.wrapping_add(1);
        (self.ms, self.counter)
    }
}

/// The number that an identifier's hexadecimal digits write.
pub fn id_number(descending: bool, ms: u64, counter: u64) -> (value: u64)
    ensures
        value == id_value(descending, ms, counter),
        value <= MASK_48,
{
    let wide: u64 = ms.wrapping_mul(4096).wrapping_add(counter);
    proof {
        let whole = stamp(ms, counter);
        assert(whole % 0x1_0000_0000_0000_0000 == wide);
        assert(whole % 0x1_0000_0000_0000 == (wide as nat) % 0x1_0000_0000_0000);
        assert(wide & 0xFFFF_FFFF_FFFF == wide % 0x1_0000_0000_0000) by (bit_vector);
        assert(!wide & 0xFFFF_FFFF_FFFF == 0xFFFF_FFFF_FFFF - (wide % 0x1_0000_0000_0000))
            by (bit_vector);
    }
    if descending {
        !wide & MASK_48
    } else {
        wide & MASK_48
    }
}

/// Puts an identifier together from a time and random bytes.
pub fn compose_id(
    prefix: &str,
    descending: bool,
    ms: u64,
    counter: u64,
    random: &[u8],
) -> (text: String)
    ensures
        text@ == id_head(prefix@, id_value(descending, ms, counter)) + base62_text(random@),
{
    let value: u64 = id_number(descending, ms, counter);
    let mut text = prefix.to_string();
    text.push('_');
    text.append(hex(value, 12).as_str());
    text.append(base62(random).as_str());
    proof {
        assert(prefix@.push('_') =~= prefix@ + seq!['_']);
    }
    text
}

/// Makes an identifier for a time, with random digits at its end.
pub fn encode_id(prefix: &str, descending: bool, ms: u64, counter: u64) -> (text: String)
    ensures
        is_id(text@, prefix@, id_value(descending, ms, counter)),
{
    let mut random: Vec<u8> = Vec::new();
    while random.len() < RANDOM_DIGITS
        invariant
            random@.len() <= 14,
        decreases 14 - random@.len(),
    {
        random.push(random_byte());
    }
    let text = compose_id(prefix, descending, ms, counter, random.as_slice());
    proof {
        let head = id_head(prefix@, id_value(descending, ms, counter));
        assert(text@.take(head.len() as int) =~= head);
        assert forall|i: int| head.len() <= i < text@.len() implies is_base62(
            #[trigger] text@[i],
        ) by {
            assert(text@[i] == base62_text(random@)[i - head.len()]);
        }
    }
    text
}

/// Makes the next identifier, at the time the clock shows.
pub fn generate_id(ids: &mut IdState, prefix: &str, descending: bool) -> (text: String)
    ensures
        issued(*old(ids), prefix@, descending, text@, *final(ids)),
{
    let ms = now_millis();
    let at = ids.advance(ms);
    encode_id(prefix, descending, at.0, at.1)
}

/// The low 48 bits of two time stamps are in the order of the stamps as long as no
/// multiple of 2^48 lies between them.
proof fn lemma_low_bits_keep_order(a: nat, b: nat)
    requires
        a < b,
        a / 0x1_0000_0000_0000 == b / 0x1_0000_0000_0000,
    ensures
        a % 0x1_0000_0000_0000 < b % 0x1_0000_0000_0000,
{
}

/// Identifiers with one prefix sort in the order of their numbers, by their 12 digits and as
/// whole texts.
pub proof fn ids_follow_numbers(
    prefix: Seq<char>,
    a: nat,
    b: nat,
    first: Seq<char>,
    second: Seq<char>,
)
    requires
        a < b <= 0xFFFF_FFFF_FFFF,
        is_id(first, prefix, a),
        is_id(second, prefix, b),
    ensures
        text_before(first, second),
        text_before(id_digits(prefix, first), id_digits(prefix, second)),
{
    reveal_with_fuel(hex_span, 13);
    hex_text_keeps_order(a, b, 12);
    lemma_hex_len(a, 12);
    lemma_hex_len(b, 12);
    let x = hex_text(a, 12);
    let y = hex_text(b, 12);
    let i = choose|i: int| #[trigger] differs_first(x, y, i);
    let start = prefix.len() as int + 1;
    let head_x = id_head(prefix, a);
    let head_y = id_head(prefix, b);
    assert(first.take(head_x.len() as int) == head_x);
    assert(second.take(head_y.len() as int) == head_y);
    assert forall|k: int| 0 <= k < 12 implies #[trigger] first[start + k] == x[k] by {
        assert(first.take(head_x.len() as int)[start + k] == head_x[start + k]);
    }
    assert forall|k: int| 0 <= k < 12 implies #[trigger] second[start + k] == y[k] by {
        assert(second.take(head_y.len() as int)[start + k] == head_y[start + k]);
    }
    assert(id_digits(prefix, first) =~= x) by {
        assert forall|k: int| 0 <= k < 12 implies id_digits(prefix, first)[k] == x[k] by {
            assert(first[start + k] == x[k]);
        }
    }
    assert(id_digits(prefix, second) =~= y) by {
        assert forall|k: int| 0 <= k < 12 implies id_digits(prefix, second)[k] == y[k] by {
            assert(second[start + k] == y[k]);
        }
    }
    assert(first.take(start + i) =~= second.take(start + i)) by {
        assert forall|k: int| 0 <= k < start + i implies first[k] == second[k] by {
            if k < start {
                assert(first.take(head_x.len() as int)[k] == head_x[k]);
                assert(second.take(head_y.len() as int)[k] == head_y[k]);
            } else {
                assert(first[start + (k - start)] == x[k - start]);
                assert(second[start + (k - start)] == y[k - start]);
                assert(x.take(i)[k - start] == y.take(i)[k - start]);
            }
        }
    }
    assert(first[start + i] == x[i]);
    assert(second[start + i] == y[i]);
    assert(differs_first(first, second, start + i));
}

/// An identifier is its prefix, `_`, 12 lowercase hexadecimal digits and 14 base-62
/// digits: 26 characters behind the `_`.
pub proof fn id_format(prefix: Seq<char>, value: nat, text: Seq<char>)
    requires
        is_id(text, prefix, value),
    ensures
        text.len() == prefix.len() + 1 + 26,
        text.take(prefix.len() as int + 1) == prefix + seq!['_'],
        forall|i: int|
            prefix.len() + 1 <= i < prefix.len() + 13 ==> '0' <= #[trigger] text[i] <= '9' || 'a'
                <= text[i] <= 'f',
        forall|i: int| prefix.len() + 13 <= i < text.len() ==> is_base62(#[trigger] text[i]),
{
    let head = id_head(prefix, value);
    lemma_hex_len(value, 12);
    assert(text.take(prefix.len() as int + 1) =~= prefix + seq!['_']) by {
        assert forall|i: int| 0 <= i < prefix.len() + 1 implies text[i] == head[i] by {
            assert(text.take(head.len() as int)[i] == head[i]);
        }
    }
    assert forall|i: int| prefix.len() + 1 <= i < prefix.len() + 13 implies '0'
        <= #[trigger] text[i] <= '9' || 'a' <= text[i] <= 'f' by {
        assert(text.take(head.len() as int)[i] == head[i]);
        let k = i - prefix.len() - 1;
        assert(head[i] == hex_text(value, 12)[k]);
        lemma_hex_digits(value, 12, k);
    }
}

proof fn lemma_hex_digits(value: nat, digits: nat, i: int)
    requires
        0 <= i < digits,
    ensures
        '0' <= hex_text(value, digits)[i] <= '9' || 'a' <= hex_text(value, digits)[i] <= 'f',
    decreases digits,
{
    lemma_hex_len(value / 16, (digits - 1) as nat);
    if i < digits - 1 {
        lemma_hex_digits(value / 16, (digits - 1) as nat, i);
    }
}

/// An identifier that ascends and one that descends, made at the same time, have
/// complementary numbers.
pub proof fn descending_numbers_mirror_ascending_ones(ms: u64, counter: u64)
    ensures
        id_value(true, ms, counter) + id_value(false, ms, counter) == MASK_48,
{
}

/// Ascending identifiers sort in the order of their time stamps, by their 12 digits and
/// as whole texts, as long as no multiple of 2^48 lies between the stamps.
pub proof fn ascending_ids_sort_by_time(
    prefix: Seq<char>,
    ms: u64,
    counter: u64,
    first: Seq<char>,
    later_ms: u64,
    later_counter: u64,
    second: Seq<char>,
)
    requires
        is_id(first, prefix, id_value(false, ms, counter)),
        is_id(second, prefix, id_value(false, later_ms, later_counter)),
        stamp(ms, counter) < stamp(later_ms, later_counter),
        stamp(ms, counter) / 0x1_0000_0000_0000 == stamp(later_ms, later_counter)
            / 0x1_0000_0000_0000,
    ensures
        text_before(first, second),
        text_before(id_digits(prefix, first), id_digits(prefix, second)),
{
    lemma_low_bits_keep_order(stamp(ms, counter), stamp(later_ms, later_counter));
    ids_follow_numbers(
        prefix,
        id_value(false, ms, counter),
        id_value(false, later_ms, later_counter),
        first,
        second,
    );
}

/// Descending identifiers sort against the order of their time stamps, by their 12 digits
/// and as whole texts, as long as no multiple of 2^48 lies between the stamps.
pub proof fn descending_ids_sort_against_time(
    prefix: Seq<char>,
    ms: u64,
    counter: u64,
    first: Seq<char>,
    later_ms: u64,
    later_counter: u64,
    second: Seq<char>,
)
    requires
        is_id(first, prefix, id_value(true, ms, counter)),
        is_id(second, prefix, id_value(true, later_ms, later_counter)),
        stamp(ms, counter) < stamp(later_ms, later_counter),
        stamp(ms, counter) / 0x1_0000_0000_0000 == stamp(later_ms, later_counter)
            / 0x1_0000_0000_0000,
    ensures
        text_before(second, first),
        text_before(id_digits(prefix, second), id_digits(prefix, first)),
{
    lemma_low_bits_keep_order(stamp(ms, counter), stamp(later_ms, later_counter));
    ids_follow_numbers(
        prefix,
        id_value(true, later_ms, later_counter),
        id_value(true, ms, counter),
        second,
        first,
    );
}

/// The time stamp grew from `before` to `after`, and no multiple of 2^48 lies between the two.
pub open spec fn in_order(before: IdState, after: IdState) -> bool {
    &&& stamp(before.ms, before.counter) < stamp(after.ms, after.counter)
    &&& stamp(before.ms, before.counter) / 0x1_0000_0000_0000 == stamp(after.ms, after.counter)
        / 0x1_0000_0000_0000
}

/// The time stamp of the next identifier is later exactly if the clock still shows the same
/// reading and the count has not wrapped, or the clock went on and no more than 4096
/// identifiers for each millisecond that passed were made at the reading that it left.
pub proof fn time_stamps_grow_with_the_clock(before: IdState, after: IdState)
    requires
        after == ticked(before, after.ms),
    ensures
        stamp(before.ms, before.counter) < stamp(after.ms, after.counter) <==> {
            ||| before.ms == after.ms && before.counter < u64::MAX
            ||| before.ms < after.ms && before.counter <= 4096 * (after.ms - before.ms)
        },
{
}

/// Of two ascending identifiers made in turn, the second sorts behind the first, where the
/// time stamps are in order.
pub proof fn ascending_ids_sort_in_generation_order(
    start: IdState,
    prefix: Seq<char>,
    first: Seq<char>,
    between: IdState,
    second: Seq<char>,
    end: IdState,
)
    requires
        issued(start, prefix, false, first, between),
        issued(between, prefix, false, second, end),
        in_order(between, end),
    ensures
        text_before(first, second),
        text_before(id_digits(prefix, first), id_digits(prefix, second)),
{
    ascending_ids_sort_by_time(
        prefix,
        between.ms,
        between.counter,
        first,
        end.ms,
        end.counter,
        second,
    );
}

/// Of two descending identifiers made in turn, the second sorts before the first, where the
/// time stamps are in order.
pub proof fn descending_ids_sort_in_reverse_generation_order(
    start: IdState,
    prefix: Seq<char>,
    first: Seq<char>,
    between: IdState,
    second: Seq<char>,
    end: IdState,
)
    requires
        issued(start, prefix, true, first, between),
        issued(between, prefix, true, second, end),
        in_order(between, end),
    ensures
        text_before(second, first),
        text_before(id_digits(prefix, second), id_digits(prefix, first)),
{
    descending_ids_sort_against_time(
        prefix,
        between.ms,
        between.counter,
        first,
        end.ms,
        end.counter,
        second,
    );
}

} // verus!
