//! The score of a template: how much of the pool it matched, times how long
//! it is beside the anchor.

use crate::template::Template;
use vstd::arithmetic::div_mod::{lemma_div_is_ordered, lemma_fundamental_div_mod_converse};
use vstd::prelude::*;
use vstd::string::StringSliceAdditionalSpecFns;

verus! {

/// The fewest samples that a template must match to score at all.
pub const MATCHED_FLOOR: usize = 2;

/// The length of `text` in bytes of UTF-8, as `str::len` gives it.
pub open spec fn byte_len(text: Seq<char>) -> usize {
    vstd::utf8::encode_utf8(text).len() as usize
}

/// `numerator / denominator` rounded to the nearest integer, halves upwards.
pub open spec fn rounded_ratio(numerator: nat, denominator: nat) -> nat {
    ((2 * numerator + denominator) / (2 * denominator)) as nat
}

/// The score of a template of `template_len` bytes that matched `matched` of
/// `total` samples, for an anchor of `anchor_len` bytes:
/// `100 * (matched / total) * (template_len / anchor_len)`, rounded.
/// A template that matched fewer than `MATCHED_FLOOR` samples scores 0. The
/// score stops at `i32::MAX`, which is also what an empty pool or an empty
/// anchor gives, where the ratio has no bound.
pub open spec fn score_of(anchor_len: nat, template_len: nat, matched: nat, total: nat) -> int {
    if matched < MATCHED_FLOOR {
        0
    } else if total * anchor_len == 0 {
        i32::MAX as int
    } else {
        let exact = rounded_ratio(100 * (matched * template_len), total * anchor_len);
        if exact > i32::MAX {
            i32::MAX as int
        } else {
            exact as int
        }
    }
}

/// `times * part / whole`, rounded down, for a `part` below `whole`: `part`
/// is added `times` times, and each time the sum passes `whole` one is
/// counted. No step leaves the range of `u128`.
pub fn scaled_quotient(part: u128, whole: u128, times: u32) -> (quotient: u32)
    requires
        part < whole,
    ensures
        quotient == (times * part) / (whole as int),
        quotient <= times,
{
    let mut quotient: u32 = 0;
    let mut rest: u128 = 0;
    let mut i: u32 = 0;
    while i < times
        invariant
            part < whole,
            0 <= i <= times,
            quotient <= i,
            rest < whole,
            i * part == quotient * whole + rest,
        decreases times - i,
    {
        if rest >= whole - part {
            rest = rest - (whole - part);
            assert((quotient + 1) * whole == quotient * whole + whole) by (nonlinear_arith);
            quotient = quotient + 1;
        } else {
            rest = rest + part;
        }
        assert((i + 1) * part == i * part + part) by (nonlinear_arith);
        i = i + 1;
    }
    proof {
        lemma_fundamental_div_mod_converse(
            times * part,
            whole as int,
            quotient as int,
            rest as int,
        );
    }
    quotient
}

/// Rates `template` for the anchor `example`, given that it matched
/// `matched` of the `total` samples of the pool.
pub fn score_regex(example: &str, template: &Template, matched: usize, total: usize) -> (score:
    i32)
    ensures
        score == score_of(
            byte_len(example@) as nat,
            byte_len(template@) as nat,
            matched as nat,
            total as nat,
        ),
{
    if matched < MATCHED_FLOOR {
        return 0;
    }
    let anchor_len = example.len();
    let template_len = template.as_str().len();
    assert(matched * template_len <= u128::MAX && total * anchor_len <= u128::MAX)
        by (nonlinear_arith)
        requires
            matched <= u64::MAX,
            template_len <= u64::MAX,
            total <= u64::MAX,
            anchor_len <= u64::MAX,
    ;
    let gain: u128 = matched as u128 * template_len as u128;
    let cost: u128 = total as u128 * anchor_len as u128;
    if cost == 0 {
        return i32::MAX;
    }
    let whole: u128 = gain / cost;
    let part: u128 = gain % cost;
    let ghost exact = rounded_ratio(100 * (gain as nat), cost as nat);
    assert(gain == whole * cost + part) by (nonlinear_arith)
        requires
            cost > 0,
            whole == gain / cost,
            part == gain % cost,
    ;
    if whole > 21474836 {
        proof {
            let low: int = 2147483700 * (2 * cost);
            assert(low <= 2 * (100 * gain) + cost) by (nonlinear_arith)
                requires
                    gain == whole * cost + part,
                    whole >= 21474837,
                    cost > 0,
                    part >= 0,
                    low == 2147483700 * (2 * cost),
            ;
            lemma_fundamental_div_mod_converse(low, 2 * cost, 2147483700, 0);
            lemma_div_is_ordered(low, 2 * (100 * gain) + cost, 2 * cost);
        }
        return i32::MAX;
    }
    let twice: u32 = scaled_quotient(part, cost, 200);
    let score: u128 = 100 * whole + ((twice + 1) / 2) as u128;
    proof {
        let half: int = (twice + 1) / 2;
        let odd: int = (twice + 1) % 2;
        let rest: int = (200 * part) % (cost as int);
        assert(200 * part == twice * cost + rest && 0 <= rest < cost) by {
            vstd::arithmetic::div_mod::lemma_fundamental_div_mod(200 * part, cost as int);
            vstd::arithmetic::div_mod::lemma_mod_bound(200 * part, cost as int);
            assert(cost * twice == twice * cost) by (nonlinear_arith);
        }
        assert(2 * (100 * gain) + cost == (100 * whole + half) * (2 * cost) + (odd * cost + rest))
            by (nonlinear_arith)
            requires
                gain == whole * cost + part,
                200 * part == twice * cost + rest,
                twice + 1 == 2 * half + odd,
        ;
        assert(0 <= odd * cost + rest < 2 * cost) by (nonlinear_arith)
            requires
                0 <= odd <= 1,
                0 <= rest < cost,
        ;
        lemma_fundamental_div_mod_converse(
            2 * (100 * gain) + cost,
            2 * cost,
            100 * whole + half,
            odd * cost + rest,
        );
        assert(exact == score);
    }
    if score > i32::MAX as u128 {
        i32::MAX
    } else {
        score as i32
    }
}

} // verus!
