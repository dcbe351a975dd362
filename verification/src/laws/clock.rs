//! What holds of the clock.
#[allow(unused_imports)]
use std::time::SystemTime;
use vstd::prelude::*;
#[allow(unused_imports)]
use crate::clock::{clock_reads, elapsed_millis, reading, since_epoch, whole_millis};

verus! {

/// The reading is the time that has passed, wherever a `u64` holds it, and 0 before the
/// epoch.
pub proof fn reading_is_the_time_passed(millis: u128, ms: u64)
    requires
        ms == reading(Some(millis)),
    ensures
        millis <= u64::MAX ==> ms == millis,
        exists|turns: int| #[trigger] (turns * 0x1_0000_0000_0000_0000) + ms == millis,
        reading(None) == 0,
{
    let turns = millis as int / 0x1_0000_0000_0000_0000;
    assert((turns * 0x1_0000_0000_0000_0000) + ms == millis);
}

/// The clock does not stand still or go back: at a later time it reads no less, and more if
/// a millisecond has passed.
pub proof fn later_times_read_more(millis: u128, later: u128)
    requires
        millis <= later <= u64::MAX,
    ensures
        reading(Some(millis)) <= reading(Some(later)),
        millis < later ==> reading(Some(millis)) < reading(Some(later)),
        reading(Some(later)) - reading(Some(millis)) == later - millis,
{
}

/// The reading at a moment is the whole milliseconds since the epoch, wherever a `u64` holds
/// them, and 0 at a moment before it.
pub proof fn moments_read_as_millis(moment: SystemTime, ms: u64)
    requires
        ms == reading(elapsed_millis(moment)),
    ensures
        match since_epoch(moment) {
            Some(duration) => whole_millis(duration) <= u64::MAX ==> ms == whole_millis(duration),
            None => ms == 0,
        },
        match since_epoch(moment) {
            Some(duration) => ms == whole_millis(duration) % 0x1_0000_0000_0000_0000,
            None => true,
        },
{
}

/// What the clock reads, it reads at some moment: the milliseconds since the epoch, or 0
/// before it. At every moment it reads something.
pub proof fn clock_reads_moments(ms: u64)
    ensures
        clock_reads(ms) <==> exists|moment: SystemTime|
            match #[trigger] since_epoch(moment) {
                Some(duration) => ms == whole_millis(duration) % 0x1_0000_0000_0000_0000,
                None => ms == 0,
            },
{
    if clock_reads(ms) {
        let moment = choose|moment: SystemTime| ms == reading(#[trigger] elapsed_millis(moment));
        let _ = since_epoch(moment);
    }
    if exists|moment: SystemTime|
        match #[trigger] since_epoch(moment) {
            Some(duration) => ms == whole_millis(duration) % 0x1_0000_0000_0000_0000,
            None => ms == 0,
        } {
        let moment = choose|moment: SystemTime|
            match #[trigger] since_epoch(moment) {
                Some(duration) => ms == whole_millis(duration) % 0x1_0000_0000_0000_0000,
                None => ms == 0,
            };
        assert(ms == reading(elapsed_millis(moment)));
    }
}

} // verus!
