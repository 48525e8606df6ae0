//! Rendering of a duration in milliseconds as days, hours, minutes,
//! seconds and milliseconds.
use vstd::prelude::*;
use vstd::string::StringExecFns;
use crate::decimal::{decimal, push_decimal};

verus! {

/// `"{days}d {hh}:{mm}:{ss}.{mmm}"` for a duration of `ms` milliseconds.
pub open spec fn time_text(ms: nat) -> Seq<char> {
    decimal(ms / 86_400_000, 1) + seq!['d', ' ']
        + decimal((ms / 3_600_000) % 24, 2) + seq![':']
        + decimal((ms / 60_000) % 60, 2) + seq![':']
        + decimal((ms / 1000) % 60, 2) + seq!['.']
        + decimal(ms % 1000, 3)
}

/// Formats a duration given in milliseconds as `"{d}d {hh}:{mm}:{ss}.{mmm}"`.
pub fn format_time(milis: u128) -> (r: String)
    ensures
        r@ == time_text(milis as nat),
{
    let mut v = milis;
    let mil = v % 1000;
    v = v / 1000;
    let sec = v % 60;
    v = v / 60;
    let min = v % 60;
    v = v / 60;
    let hours = v % 24;
    let days = v / 24;
    proof {
        let ms = milis as nat;
        assert(ms / 1000 / 60 == ms / 60_000) by {
            vstd::arithmetic::div_mod::lemma_div_denominator(ms as int, 1000, 60);
        }
        assert(ms / 60_000 / 60 == ms / 3_600_000) by {
            vstd::arithmetic::div_mod::lemma_div_denominator(ms as int, 60_000, 60);
        }
        assert(ms / 3_600_000 / 24 == ms / 86_400_000) by {
            vstd::arithmetic::div_mod::lemma_div_denominator(ms as int, 3_600_000, 24);
        }
        reveal_strlit("d ");
        reveal_strlit(":");
        reveal_strlit(".");
    }
    let mut out = String::new();
    push_decimal(&mut out, days, 1);
    out.append("d ");
    push_decimal(&mut out, hours, 2);
    out.append(":");
    push_decimal(&mut out, min, 2);
    out.append(":");
    push_decimal(&mut out, sec, 2);
    out.append(".");
    push_decimal(&mut out, mil, 3);
    out
}

} // verus!
