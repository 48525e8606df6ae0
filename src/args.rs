//! The search bounds from the command line: `[lower] upper`, with `_` allowed
//! as a digit separator; what does not parse falls back to a default.
use vstd::prelude::*;
use vstd::string::{StringExecFns, StrSliceExecFns};

verus! {

/// The lower bound used when none is given.
pub const DEFAULT_LOWER: u32 = 2;

/// The upper bound used when none is given.
pub const DEFAULT_UPPER: u32 = 1000;

/// `c` is one of `0` to `9`.
pub open spec fn is_digit(c: char) -> bool {
    '0' <= c && c <= '9'
}

/// The number that the decimal digits `s` spell.
pub open spec fn digits_value(s: Seq<char>) -> nat
    decreases s.len(),
{
    if s.len() == 0 {
        0
    } else {
        digits_value(s.drop_last()) * 10 + ((s.last() as u32) - ('0' as u32)) as nat
    }
}

/// `s` without a leading `+`.
pub open spec fn without_plus(s: Seq<char>) -> Seq<char> {
    if s.len() > 0 && s[0] == '+' {
        s.drop_first()
    } else {
        s
    }
}

/// Every character of `s` is a decimal digit.
pub open spec fn all_digits(s: Seq<char>) -> bool {
    forall|i: int| 0 <= i < s.len() ==> is_digit(#[trigger] s[i])
}

/// What parsing `s` as a `u32` gives: an optional `+`, then one or more
/// decimal digits whose value fits.
pub open spec fn parsed_u32(s: Seq<char>) -> Option<u32> {
    let d = without_plus(s);
    if d.len() > 0 && all_digits(d) && digits_value(d) <= u32::MAX {
        Some(digits_value(d) as u32)
    } else {
        None
    }
}

/// The value of an argument: the number it spells once every `_` is taken
/// out, or `default`.
pub open spec fn argument_value(arg: Option<Seq<char>>, default: u32) -> u32 {
    match arg {
        Some(s) => match parsed_u32(s.filter(|c: char| c != '_')) {
            Some(v) => v,
            None => default,
        },
        None => default,
    }
}

/// The bounds that the argument list (program name first) asks for.
pub open spec fn bounds_of(args: Seq<Seq<char>>) -> (u32, u32) {
    if args.len() > 2 {
        (
            argument_value(Some(args[1]), DEFAULT_LOWER),
            argument_value(Some(args[2]), DEFAULT_UPPER),
        )
    } else {
        (
            DEFAULT_LOWER,
            argument_value(if args.len() > 1 { Some(args[1]) } else { None }, DEFAULT_UPPER),
        )
    }
}

fn contains_char(s: &str, c: char) -> (r: bool)
    ensures
        r == s@.contains(c),
{
    let n = s.unicode_len();
    let mut i: usize = 0;
    while i < n
        invariant
            n == s@.len(),
            i <= n,
            forall|k: int| 0 <= k < i ==> s@[k] != c,
        decreases n - i,
    {
        if s.get_char(i) == c {
            return true;
        }
        i = i + 1;
    }
    false
}

/// `text` without the characters that occur in `to_strip`.
pub fn strip_characters(text: &str, to_strip: &str) -> (r: String)
    ensures
        r@ == text@.filter(|c: char| !to_strip@.contains(c)),
{
    let n = text.unicode_len();
    let ghost keep = |c: char| !to_strip@.contains(c);
    let mut out = String::new();
    let mut i: usize = 0;
    while i < n
        invariant
            n == text@.len(),
            i <= n,
            keep == (|c: char| !to_strip@.contains(c)),
            out@ == text@.subrange(0, i as int).filter(keep),
        decreases n - i,
    {
        let c = text.get_char(i);
        let ghost next = text@.subrange(0, i as int + 1);
        proof {
            assert(next.drop_last() =~= text@.subrange(0, i as int));
            assert(next.last() == c);
        }
        if !contains_char(to_strip, c) {
            let piece = text.substring_char(i, i + 1);
            out.append(piece);
            assert(piece@ =~= seq![c]);
            assert(out@ =~= text@.subrange(0, i as int).filter(keep).push(c));
        }
        proof {
            assert(keep(c) == !to_strip@.contains(c));
            assert(next =~= text@.subrange(0, i as int).push(c));
            text@.subrange(0, i as int).lemma_filter_push(c, keep);
        }
        i = i + 1;
    }
    assert(text@.subrange(0, n as int) =~= text@);
    out
}

/// `v`, or one past `u32::MAX` when it is larger.
spec fn capped(v: nat) -> nat {
    if v <= u32::MAX {
        v
    } else {
        u32::MAX as nat + 1
    }
}

proof fn lemma_capped_step(prefix: Seq<char>, value: nat, digit: nat)
    requires
        prefix.len() > 0,
        value == capped(digits_value(prefix.drop_last())),
        digit == ((prefix.last() as u32) - ('0' as u32)),
        digit < 10,
    ensures
        capped(value * 10 + digit) == capped(digits_value(prefix)),
{
    assert(digits_value(prefix) == digits_value(prefix.drop_last()) * 10 + digit);
}

/// Parses `s` as a `u32`: an optional `+`, then decimal digits.
pub fn parse_u32(s: &str) -> (r: Option<u32>)
    ensures
        r == parsed_u32(s@),
{
    let n = s.unicode_len();
    let start: usize = if n > 0 && s.get_char(0) == '+' { 1 } else { 0 };
    let ghost d = without_plus(s@);
    assert(d =~= s@.subrange(start as int, n as int));
    if start == n {
        return None;
    }
    // `value` is the value of the digits read so far, capped just above
    // `u32::MAX`.
    let mut value: u64 = 0;
    let mut i: usize = start;
    while i < n
        invariant
            n == s@.len(),
            start <= i <= n,
            d == s@.subrange(start as int, n as int),
            d == without_plus(s@),
            forall|k: int| start <= k < i ==> is_digit(#[trigger] s@[k]),
            value as nat == capped(digits_value(s@.subrange(start as int, i as int))),
        decreases n - i,
    {
        let c = s.get_char(i);
        if !('0' <= c && c <= '9') {
            proof {
                assert(d[i - start] == c);
                assert(!is_digit(d[i - start]));
            }
            return None;
        }
        let digit = (c as u32 - '0' as u32) as u64;
        proof {
            let prefix = s@.subrange(start as int, i as int + 1);
            assert(prefix.drop_last() =~= s@.subrange(start as int, i as int));
            lemma_capped_step(prefix, value as nat, digit as nat);
        }
        let next = value * 10 + digit;
        value = if next > u32::MAX as u64 { u32::MAX as u64 + 1 } else { next };
        i = i + 1;
    }
    proof {
        assert forall|k: int| 0 <= k < d.len() implies is_digit(#[trigger] d[k]) by {
            assert(d[k] == s@[start + k]);
        }
    }
    if value > u32::MAX as u64 {
        None
    } else {
        Some(value as u32)
    }
}

/// The value of one argument: its number with every `_` taken out, or
/// `default` when it is missing or does not parse.
pub fn get_and_parse(arg: Option<&String>, default: u32) -> (r: u32)
    ensures
        r == argument_value(
            match arg {
                Some(s) => Some(s@),
                None => None,
            },
            default,
        ),
{
    match arg {
        Some(s) => {
            proof {
                reveal_strlit("_");
                assert forall|c: char| (!"_"@.contains(c)) == (c != '_') by {
                    if c == '_' {
                        assert("_"@[0] == c);
                    }
                }
                assert((|c: char| !"_"@.contains(c)) =~= (|c: char| c != '_'));
            }
            let stripped = strip_characters(s.as_str(), "_");
            match parse_u32(stripped.as_str()) {
                Some(v) => v,
                None => default,
            }
        },
        None => default,
    }
}

/// The bounds `(lower, upper)` from the argument list, program name first:
/// two arguments give both bounds, one gives the upper bound; a missing or
/// unparsable one takes its default (2 and 1000).
pub fn parse_cmd_args(args: &Vec<String>) -> (r: (u32, u32))
    ensures
        r == bounds_of(args@.map_values(|a: String| a@)),
{
    let ghost views = args@.map_values(|a: String| a@);
    if args.len() > 2 {
        let lower_bound = get_and_parse(Some(&args[1]), DEFAULT_LOWER);
        let upper_bound = get_and_parse(Some(&args[2]), DEFAULT_UPPER);
        (lower_bound, upper_bound)
    } else {
        let upper_bound = if args.len() > 1 {
            get_and_parse(Some(&args[1]), DEFAULT_UPPER)
        } else {
            get_and_parse(None, DEFAULT_UPPER)
        };
        (DEFAULT_LOWER, upper_bound)
    }
}

} // verus!
