//! Renders an ordered 3-D point path as a 2-D raster seen from an orbiting
//! camera.
//!
//! The crate holds the exact, integer-valued parts of the pipeline: the
//! orbit camera's parameter state, the depth-buffered Bresenham rasterizer,
//! the frame renderer that walks a point sequence and connects projected
//! pixels, the prime sieve and the lattice walks that generate trajectories,
//! and the color argument parser. Projection itself works on real-valued
//! coordinates and is left to the host, which hands the renderer one
//! projection outcome per path point.

pub mod camera;
pub mod cube;
pub mod primes;
pub mod prime_walk;
pub mod raster;
pub mod render;
pub mod space;

use vstd::prelude::*;

use vstd::string::StrSliceExecFns;
use vstd::string::StringExecFns;

verus! {

/// Numeric value of a run of decimal digits, most significant first.
pub open spec fn digits_value(ds: Seq<char>) -> int
    decreases ds.len(),
{
    if ds.len() == 0 {
        0
    } else {
        digits_value(ds.drop_last()) * 10 + (ds.last() as int - '0' as int)
    }
}

/// Every character of `ds` is a decimal digit.
pub open spec fn all_digits(ds: Seq<char>) -> bool {
    forall|m: int| 0 <= m < ds.len() ==> '0' <= #[trigger] ds[m] <= '9'
}

/// The digit characters of a number: everything after an optional leading
/// plus sign.
pub open spec fn digits_of(cs: Seq<char>) -> Seq<char> {
    if cs.len() > 0 && cs[0] == '+' {
        cs.skip(1)
    } else {
        cs
    }
}

/// Whether `cs` is accepted by the standard parser for `u8`: an optional
/// leading plus sign, then one or more decimal digits, with a value of at
/// most 255.
pub open spec fn is_u8_string(cs: Seq<char>) -> bool {
    let ds = digits_of(cs);
    &&& ds.len() > 0
    &&& all_digits(ds)
    &&& digits_value(ds) <= 255
}

/// The value a valid numeric string denotes.
pub open spec fn u8_string_value(cs: Seq<char>) -> int {
    digits_value(digits_of(cs))
}

/// Index of the first comma of `cs` at or after `from`, or the length when
/// no comma follows.
pub open spec fn find_comma(cs: Seq<char>, from: int) -> int
    decreases
            (if from <= cs.len() {
                cs.len() - from
            } else {
                0
            }),
{
    if from < 0 || from >= cs.len() {
        cs.len() as int
    } else if cs[from] == ',' {
        from
    } else {
        find_comma(cs, from + 1)
    }
}

/// What parsing a color argument yields: the three channel values when the
/// text is three comma-separated numbers, the exact complaint otherwise.
pub open spec fn parse_color_spec(cs: Seq<char>) -> Result<(u8, u8, u8), Seq<char>> {
    let i = find_comma(cs, 0);
    let j = find_comma(cs, i + 1);
    let k = find_comma(cs, j + 1);
    if !(i < cs.len() && j < cs.len() && k == cs.len()) {
        Err("Color must be in R,G,B format, got: "@ + cs)
    } else {
        let red = cs.subrange(0, i);
        let green = cs.subrange(i + 1, j);
        let blue = cs.subrange(j + 1, cs.len() as int);
        if !is_u8_string(red) {
            Err("Invalid red value: "@ + red)
        } else if !is_u8_string(green) {
            Err("Invalid green value: "@ + green)
        } else if !is_u8_string(blue) {
            Err("Invalid blue value: "@ + blue)
        } else {
            Ok(
                (
                    u8_string_value(red) as u8,
                    u8_string_value(green) as u8,
                    u8_string_value(blue) as u8,
                ),
            )
        }
    }
}

/// Digit runs are worth at least zero.
proof fn lemma_digits_value_nonneg(ds: Seq<char>)
    requires
        all_digits(ds),
    ensures
        digits_value(ds) >= 0,
    decreases ds.len(),
{
    if ds.len() > 0 {
        assert(all_digits(ds.drop_last()));
        lemma_digits_value_nonneg(ds.drop_last());
        assert(digits_value(ds.drop_last()) * 10 >= 0) by (nonlinear_arith)
            requires
                digits_value(ds.drop_last()) >= 0,
        ;
    }
}

/// A run of digits is worth no less than any of its prefixes.
proof fn lemma_digits_value_bounds(ds: Seq<char>, k: int)
    requires
        all_digits(ds),
        0 <= k <= ds.len(),
    ensures
        0 <= digits_value(ds.take(k)) <= digits_value(ds),
    decreases ds.len() - k,
{
    if k == ds.len() {
        assert(ds.take(k) =~= ds);
        lemma_digits_value_nonneg(ds);
        assert(all_digits(ds.take(k)));
        lemma_digits_value_nonneg(ds.take(k));
    } else {
        lemma_digits_value_bounds(ds, k + 1);
        assert(ds.take(k + 1).drop_last() =~= ds.take(k));
        assert(digits_value(ds.take(k + 1)) == digits_value(ds.take(k)) * 10 + (ds[k] as int
            - '0' as int));
        assert(all_digits(ds.take(k)));
        lemma_digits_value_nonneg(ds.take(k));
        assert(digits_value(ds.take(k)) <= digits_value(ds.take(k)) * 10) by (nonlinear_arith)
            requires
                digits_value(ds.take(k)) >= 0,
        ;
    }
}

/// Finds the first comma of `s` at or after `from`.
fn find_comma_at(s: &str, from: usize) -> (idx: usize)
    requires
        from <= s@.len(),
    ensures
        idx == find_comma(s@, from as int),
        from <= idx <= s@.len(),
{
    let n = s.unicode_len();
    let mut cur = from;
    while cur < n
        invariant
            from <= cur <= n,
            n == s@.len(),
            find_comma(s@, from as int) == find_comma(s@, cur as int),
        decreases n - cur,
    {
        if s.get_char(cur) == ',' {
            return cur;
        }
        cur = cur + 1;
    }
    cur
}

/// Parses the characters of `s` in `[start, end)` as the standard parser
/// for `u8` would: an optional plus sign, then digits, value at most 255.
fn parse_u8_part(s: &str, start: usize, end: usize) -> (parsed: Option<u8>)
    requires
        start <= end <= s@.len(),
    ensures
        match parsed {
            Some(v) => is_u8_string(s@.subrange(start as int, end as int)) && v
                == u8_string_value(s@.subrange(start as int, end as int)),
            None => !is_u8_string(s@.subrange(start as int, end as int)),
        },
{
    let mut idx = start;
    if idx < end && s.get_char(idx) == '+' {
        idx = idx + 1;
    }
    let ghost dstart = idx as int;
    proof {
        assert(digits_of(s@.subrange(start as int, end as int)) =~= s@.subrange(
            dstart,
            end as int,
        ));
    }
    if idx == end {
        return None;
    }
    let mut acc: u32 = 0;
    while idx < end
        invariant
            start <= dstart <= idx <= end <= s@.len(),
            dstart < end,
            acc <= 255,
            all_digits(s@.subrange(dstart, idx as int)),
            acc == digits_value(s@.subrange(dstart, idx as int)),
            digits_of(s@.subrange(start as int, end as int)) == s@.subrange(dstart, end as int),
        decreases end - idx,
    {
        let c = s.get_char(idx);
        if c < '0' || c > '9' {
            proof {
                assert(s@.subrange(dstart, end as int)[idx - dstart] == c);
            }
            return None;
        }
        let digit = c as u32 - '0' as u32;
        proof {
            assert(s@.subrange(dstart, idx + 1).drop_last() =~= s@.subrange(dstart, idx as int));
            assert(s@.subrange(dstart, idx + 1).last() == c);
        }
        acc = acc * 10 + digit;
        if acc > 255 {
            proof {
                let ds = s@.subrange(dstart, end as int);
                assert(ds.take(idx + 1 - dstart) =~= s@.subrange(dstart, idx + 1));
                if all_digits(ds) {
                    lemma_digits_value_bounds(ds, idx + 1 - dstart);
                }
            }
            return None;
        }
        idx = idx + 1;
    }
    proof {
        assert(s@.subrange(dstart, end as int) =~= s@.subrange(dstart, idx as int));
    }
    Some(acc as u8)
}

/// Parses a color argument of the form `R,G,B`, each channel a decimal
/// `u8`; any other shape earns the exact complaint `parse_color_spec`
/// spells out.
pub fn parse_color(s: &str) -> (result: Result<(u8, u8, u8), String>)
    ensures
        (match result {
            Ok(v) => Ok(v),
            Err(e) => Err::<(u8, u8, u8), Seq<char>>(e@),
        }) == parse_color_spec(s@),
{
    let n = s.unicode_len();
    let first = find_comma_at(s, 0);
    let second = if first < n {
        find_comma_at(s, first + 1)
    } else {
        n
    };
    let third = if second < n {
        find_comma_at(s, second + 1)
    } else {
        n
    };
    if !(first < n && second < n && third == n) {
        let mut message = String::from_str("Color must be in R,G,B format, got: ");
        message.append(s);
        return Err(message);
    }
    let red = match parse_u8_part(s, 0, first) {
        Some(v) => v,
        None => {
            let mut message = String::from_str("Invalid red value: ");
            message.append(s.substring_char(0, first));
            return Err(message);
        },
    };
    let green = match parse_u8_part(s, first + 1, second) {
        Some(v) => v,
        None => {
            let mut message = String::from_str("Invalid green value: ");
            message.append(s.substring_char(first + 1, second));
            return Err(message);
        },
    };
    let blue = match parse_u8_part(s, second + 1, third) {
        Some(v) => v,
        None => {
            let mut message = String::from_str("Invalid blue value: ");
            message.append(s.substring_char(second + 1, third));
            return Err(message);
        },
    };
    Ok((red, green, blue))
}

} // verus!
