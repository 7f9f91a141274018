//! The map read from an `.omap` file: its elements, symbols and colors, and
//! the reporting of how long each step of the reading took.

use vstd::prelude::*;
use crate::text::{decimal_text, push_char, push_decimal, push_zero_padded, zero_padded};

pub mod colors;
pub mod elements;
pub mod symbols;
pub mod yaml_encoding;

verus! {

/// A duration in microseconds written as seconds with six decimals
/// (`{}.{:06}`); the seconds are taken as a `u32`, as the reports do.
pub open spec fn micros_text(micros: u64) -> Seq<char> {
    decimal_text(((micros / 1_000_000) as u32) as nat) + seq!['.'] + zero_padded(
        decimal_text((micros % 1_000_000) as nat),
        6,
    )
}

/// Writes a duration in microseconds as seconds with six decimals.
pub fn format_micros(micros: u64) -> (r: String)
    ensures
        r@ == micros_text(micros),
{
    let seconds: u32 = (micros / 1_000_000) as u32;
    let remaining_us: u64 = micros % 1_000_000;
    let mut r = String::new();
    push_decimal(&mut r, seconds as u64);
    push_char(&mut r, '.');
    push_zero_padded(&mut r, remaining_us, 6);
    r
}

/// Adds the duration of a step, in microseconds, to the running total, and
/// writes it as seconds with six decimals.
pub fn stop_timer_and_get_formatted_time(elapsed_micros: u64, total_time: &mut u64) -> (r: String)
    requires
        *old(total_time) + elapsed_micros <= u64::MAX,
    ensures
        *final(total_time) == *old(total_time) + elapsed_micros,
        r@ == micros_text(elapsed_micros),
{
    *total_time = *total_time + elapsed_micros;
    format_micros(elapsed_micros)
}

} // verus!
