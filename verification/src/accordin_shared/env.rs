//! Values of environment settings. The caller reads the variable and hands its
//! text over, or `None` where it is not set.
use vstd::prelude::*;

use crate::text;

verus! {

/// Whether a setting is switched on: `"1"`, `"true"`, `"yes"` or `"on"`,
/// without regard to case or to white space around it.
pub fn env_flag(value: Option<&str>) -> (r: bool)
    ensures
        r == match value {
            Some(value) => text::is_truthy(value@),
            None => false,
        },
{
    text::flag(value)
}

/// The unsigned number that a setting holds, white space around it left out.
pub open spec fn number_setting(value: Option<Seq<char>>, max: int) -> Option<int> {
    match value {
        Some(value) => text::unsigned(text::trim(value), max),
        None => None,
    }
}

/// The view of an optional text.
pub open spec fn text_of(value: Option<&str>) -> Option<Seq<char>> {
    match value {
        Some(value) => Some(value@),
        None => None,
    }
}

/// Reads a trimmed unsigned number of at most `max`.
pub fn number(value: &str, max: u64) -> (r: Option<u64>)
    ensures
        match r {
            Some(number) => text::unsigned(text::trim(value@), max as int) == Some(number as int),
            None => text::unsigned(text::trim(value@), max as int) is None,
        },
{
    let chars: Vec<char> = text::chars_of(value);
    let range: (usize, usize) = text::trim_range(&chars, 0, chars.len());
    proof {
        assert(chars@.subrange(0, chars@.len() as int) =~= value@);
    }
    text::parse_unsigned(&chars, range.0, range.1, max)
}

/// A number setting confined to `min..=max`, or `default` in its place where
/// the setting is absent or does not read as a number.
pub open spec fn clamped_setting(
    value: Option<Seq<char>>,
    default: u32,
    min: u32,
    max: u32,
) -> u32 {
    let wanted = match number_setting(value, u32::MAX as int) {
        Some(number) => number as u32,
        None => default,
    };
    if wanted < min {
        min
    } else if wanted > max {
        max
    } else {
        wanted
    }
}

pub fn env_u32_clamped(value: Option<&str>, default: u32, min: u32, max: u32) -> (r: u32)
    requires
        min <= max,
    ensures
        r == clamped_setting(text_of(value), default, min, max),
{
    let wanted: u32 = match value {
        Some(value) => match number(value, u32::MAX as u64) {
            Some(number) => number as u32,
            None => default,
        },
        None => default,
    };
    wanted.max(min).min(max)
}

/// A setting that holds a number, with any white space around it, is that number, brought
/// within its bounds. One that is absent, or that holds anything else, is the default
/// value, within the same bounds.
pub proof fn law_a_setting_is_its_number_within_bounds(
    before: Seq<char>,
    n: nat,
    after: Seq<char>,
    default: u32,
    min: u32,
    max: u32,
)
    requires
        text::is_blank(before),
        text::is_blank(after),
        min <= max,
    ensures
        n <= u32::MAX ==> {
            let r = clamped_setting(Some(before + text::decimal(n) + after), default, min, max);
            &&& min <= r <= max
            &&& min <= n <= max ==> r == n
            &&& n < min ==> r == min
            &&& n > max ==> r == max
        },
        n > u32::MAX ==> clamped_setting(Some(before + text::decimal(n) + after), default, min, max)
            == clamped_setting(None, default, min, max),
        clamped_setting(Some(before), default, min, max) == clamped_setting(None, default, min, max),
        min <= clamped_setting(None, default, min, max) <= max,
        min <= default <= max ==> clamped_setting(None, default, min, max) == default,
        default < min ==> clamped_setting(None, default, min, max) == min,
        default > max ==> clamped_setting(None, default, min, max) == max,
{
    text::lemma_decimal(n);
    text::law_trimming_leaves_the_text(before, text::decimal(n), after);
    text::law_a_number_reads_as_it_was_written(n, u32::MAX as int);
    text::law_trimming_leaves_the_text(before, Seq::empty(), Seq::empty());
    assert(before + Seq::<char>::empty() + Seq::<char>::empty() =~= before);
}

} // verus!
