//! Notifications for the visualization subscribers.
//!
//! One publisher socket broadcasts strings tagged by their first character:
//! `t:` UAV types, `l:` active links, `p:` prompts.  This module builds the
//! frames; the socket that carries them lives outside.

use vstd::prelude::*;

use crate::geom::{norm, spec_dot_raw, Vec3};
use crate::text::{dec_digits, fmt_u64, int_text, fmt_i64};

verus! {

/// Builder of notification frames.
pub struct Notification {
}

/// Category of a prompt event.
pub enum PromptCategory {
    TEST,
    OVERLOAD,
    COLLISION,
}

impl PromptCategory {
    /// The category's numeric name on the wire.
    pub fn to_usize(&self) -> (r: usize)
        ensures
            r == spec_category_code(*self),
    {
        match self {
            PromptCategory::TEST => 0,
            PromptCategory::OVERLOAD => 1,
            PromptCategory::COLLISION => 2,
        }
    }
}

/// Numeric code of a category.
pub open spec fn spec_category_code(c: PromptCategory) -> int {
    match c {
        PromptCategory::TEST => 0,
        PromptCategory::OVERLOAD => 1,
        PromptCategory::COLLISION => 2,
    }
}

/// Color of a prompt.
pub enum PromptColor {
    BLACK,
    WHITE,
    RED,
    GREEN,
    BLUE,
    ORANGE,
}

/// Hex text of a color.
pub open spec fn spec_color_hex(c: PromptColor) -> Seq<u8> {
    match c {
        PromptColor::BLACK => seq![48u8, 48u8, 48u8, 48u8, 48u8, 48u8],
        PromptColor::WHITE => seq![70u8, 70u8, 70u8, 70u8, 70u8, 70u8],
        PromptColor::RED => seq![70u8, 70u8, 48u8, 48u8, 48u8, 48u8],
        PromptColor::GREEN => seq![48u8, 48u8, 70u8, 70u8, 48u8, 48u8],
        PromptColor::BLUE => seq![48u8, 48u8, 48u8, 48u8, 70u8, 70u8],
        PromptColor::ORANGE => seq![70u8, 70u8, 56u8, 48u8, 48u8, 48u8],
    }
}

impl PromptColor {
    /// The color's RGB hex text; every color has one.
    pub fn to_hex(&self) -> (r: Option<Vec<u8>>)
        ensures
            match r {
                Some(v) => v@ == spec_color_hex(*self),
                None => false,
            },
    {
        let mut v: Vec<u8> = Vec::new();
        match self {
            PromptColor::BLACK => {
                v.push(48);
                v.push(48);
                v.push(48);
                v.push(48);
                v.push(48);
                v.push(48);
            },
            PromptColor::WHITE => {
                v.push(70);
                v.push(70);
                v.push(70);
                v.push(70);
                v.push(70);
                v.push(70);
            },
            PromptColor::RED => {
                v.push(70);
                v.push(70);
                v.push(48);
                v.push(48);
                v.push(48);
                v.push(48);
            },
            PromptColor::GREEN => {
                v.push(48);
                v.push(48);
                v.push(70);
                v.push(70);
                v.push(48);
                v.push(48);
            },
            PromptColor::BLUE => {
                v.push(48);
                v.push(48);
                v.push(48);
                v.push(48);
                v.push(70);
                v.push(70);
            },
            PromptColor::ORANGE => {
                v.push(70);
                v.push(70);
                v.push(56);
                v.push(48);
                v.push(48);
                v.push(48);
            },
        }
        proof {
            assert(v@ =~= spec_color_hex(*self));
        }
        Some(v)
    }
}

/// The prompt frame: `p:TARGET,CATEGORY,COLOR,SHOW_TIME,MESSAGE;`.  A
/// negative target means broadcast; a zero show time means until replaced.
pub open spec fn spec_prompt_frame(target_id: int, category: PromptCategory, color: PromptColor,
    show_time_ms: int, message: Seq<u8>) -> Seq<u8> {
    seq![112u8, 58u8] + int_text(target_id) + seq![44u8] + dec_digits(
        spec_category_code(category) as nat,
    ) + seq![44u8] + spec_color_hex(color) + seq![44u8] + dec_digits(show_time_ms as nat) + seq![
        44u8,
    ] + message + seq![59u8]
}

impl Notification {
    /// Builds a prompt frame.
    pub fn sendPrompt(target_id: i64, category: PromptCategory, color: PromptColor,
        show_time_ms: usize, message: &[u8]) -> (r: Vec<u8>)
        requires
            target_id > i64::MIN,
        ensures
            r@ == spec_prompt_frame(
                target_id as int,
                category,
                color,
                show_time_ms as int,
                message@,
            ),
    {
        let mut out: Vec<u8> = Vec::new();
        out.push(112);
        out.push(58);
        let mut t = fmt_i64(target_id);
        out.append(&mut t);
        out.push(44);
        let mut c = fmt_u64(category.to_usize() as u64);
        out.append(&mut c);
        out.push(44);
        let hexv = color.to_hex();
        match hexv {
            Some(mut h) => {
                out.append(&mut h);
            },
            None => {},
        }
        out.push(44);
        let mut st = fmt_u64(show_time_ms as u64);
        out.append(&mut st);
        out.push(44);
        let mut msg = vstd::slice::slice_to_vec(message);
        out.append(&mut msg);
        out.push(59);
        proof {
            assert(out@ =~= spec_prompt_frame(
                target_id as int,
                category,
                color,
                show_time_ms as int,
                message@,
            ));
        }
        out
    }
}

/// The overload check of the state publisher: when the reported
/// acceleration exceeds four standard gravities, a prompt is due, orange up
/// to six gravities and red above.  The comparisons run on the squared
/// magnitude against the squared thresholds, so no root is rounded.
pub fn check_acceleration(acc: Vec3) -> (r: Option<(bool, i64)>)
    requires
        crate::geom::vec3_in_range(acc),
    ensures
        ({
            let g4 = 4 * crate::atmosphere::GRAVITY_ACCELERATION_FIX as int;
            let g6 = 6 * crate::atmosphere::GRAVITY_ACCELERATION_FIX as int;
            match r {
                None => spec_dot_raw(acc, acc) < g4 * g4,
                Some((red, mag)) => {
                    &&& spec_dot_raw(acc, acc) >= g4 * g4
                    &&& crate::geom::is_isqrt(spec_dot_raw(acc, acc), mag as int)
                    &&& red == (spec_dot_raw(acc, acc) >= g6 * g6)
                },
            }
        }),
{
    let mag = norm(acc);
    let g4: i64 = 4 * crate::atmosphere::GRAVITY_ACCELERATION_FIX;
    let g6: i64 = 6 * crate::atmosphere::GRAVITY_ACCELERATION_FIX;
    proof {
        lemma_square_monotone(mag as int, g4 as int);
        lemma_square_monotone(mag as int, g6 as int);
        lemma_square_monotone(g4 as int, mag as int + 1);
        lemma_square_monotone(g6 as int, mag as int + 1);
    }
    if mag < g4 {
        None
    } else {
        Some((mag >= g6, mag))
    }
}

/// Comparing a value with a threshold is the same as comparing their
/// squares, for non-negative values.
proof fn lemma_square_monotone(n: int, t: int)
    requires
        0 <= n,
        0 <= t,
    ensures
        n < t ==> n * n < t * t,
        n >= t ==> n * n >= t * t,
{
    assert(n < t ==> n * n < t * t) by (nonlinear_arith)
        requires
            0 <= n,
            0 <= t,
    ;
    assert(n >= t ==> n * n >= t * t) by (nonlinear_arith)
        requires
            0 <= n,
            0 <= t,
    ;
}

} // verus!
