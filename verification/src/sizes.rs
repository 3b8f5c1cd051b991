//! Standard creative sizes and slot pricing.
//!
//! A fixed table maps the standard IEC ad sizes to a CPM price in cents.
//! Any other size is priced by area: a base of 1.50 plus an area bonus of
//! at most 3.00, rounded half-up to whole cents.

use vstd::prelude::*;

verus! {

/// CPM in cents for each standard creative size; `None` for any other size.
pub open spec fn spec_standard_cpm(w: int, h: int) -> Option<int> {
    if w == 300 && h == 250 {
        Some(250)
    } else if w == 336 && h == 280 {
        Some(265)
    } else if w == 728 && h == 90 {
        Some(300)
    } else if w == 970 && h == 90 {
        Some(320)
    } else if w == 970 && h == 250 {
        Some(420)
    } else if w == 160 && h == 600 {
        Some(280)
    } else if w == 300 && h == 600 {
        Some(375)
    } else if w == 468 && h == 60 {
        Some(150)
    } else if w == 320 && h == 50 {
        Some(180)
    } else if w == 300 && h == 50 {
        Some(160)
    } else if w == 320 && h == 100 {
        Some(200)
    } else if w == 320 && h == 480 {
        Some(390)
    } else if w == 480 && h == 320 {
        Some(385)
    } else {
        None
    }
}

pub open spec fn spec_is_standard(w: int, h: int) -> bool {
    spec_standard_cpm(w, h) is Some
}

/// Price in cents for a non-standard size: 150 cents plus the area bonus
/// `min(w*h / 100000 dollars, 3.00)`, rounded half-up to cents.  A
/// non-positive area contributes no bonus.
pub open spec fn spec_fallback_price(w: int, h: int) -> int {
    let area = if w * h < 0 {
        0int
    } else {
        w * h
    };
    let bonus = (area + 500) / 1000;
    150 + if bonus > 300 {
        300int
    } else {
        bonus
    }
}

/// Price in cents for any size: the table value for standard sizes, the
/// area formula for everything else.
pub open spec fn spec_price_for(w: int, h: int) -> int {
    match spec_standard_cpm(w, h) {
        Some(c) => c,
        None => spec_fallback_price(w, h),
    }
}

/// True exactly for the sizes in the standard table.
pub fn is_standard_size(w: i64, h: i64) -> (r: bool)
    ensures
        r == spec_is_standard(w as int, h as int),
{
    (w == 300 && h == 250) || (w == 336 && h == 280) || (w == 728 && h == 90) || (w == 970 && h
        == 90) || (w == 970 && h == 250) || (w == 160 && h == 600) || (w == 300 && h == 600) || (w
        == 468 && h == 60) || (w == 320 && h == 50) || (w == 300 && h == 50) || (w == 320 && h
        == 100) || (w == 320 && h == 480) || (w == 480 && h == 320)
}

/// Keeps a standard size as it is and snaps anything else to 300x250.
pub fn standard_or_default(w: i64, h: i64) -> (r: (i64, i64))
    ensures
        spec_is_standard(w as int, h as int) ==> r == (w, h),
        !spec_is_standard(w as int, h as int) ==> r == (300i64, 250i64),
{
    if is_standard_size(w, h) {
        (w, h)
    } else {
        (300, 250)
    }
}

/// CPM in cents for a slot of the given size.
pub fn price_for_size(w: i64, h: i64) -> (r: i64)
    ensures
        r == spec_price_for(w as int, h as int),
{
    if w == 300 && h == 250 {
        250
    } else if w == 336 && h == 280 {
        265
    } else if w == 728 && h == 90 {
        300
    } else if w == 970 && h == 90 {
        320
    } else if w == 970 && h == 250 {
        420
    } else if w == 160 && h == 600 {
        280
    } else if w == 300 && h == 600 {
        375
    } else if w == 468 && h == 60 {
        150
    } else if w == 320 && h == 50 {
        180
    } else if w == 300 && h == 50 {
        160
    } else if w == 320 && h == 100 {
        200
    } else if w == 320 && h == 480 {
        390
    } else if w == 480 && h == 320 {
        385
    } else {
        match w.checked_mul(h) {
            Some(area) => {
                let clamped = if area < 0 {
                    0
                } else {
                    area
                };
                if clamped >= 299500 {
                    450
                } else {
                    150 + (clamped + 500) / 1000
                }
            },
            None => {
                // The product overflowed an i64; its sign still follows
                // from the factors' signs.
                if (w > 0) == (h > 0) {
                    proof {
                        assert(w * h > 0) by (nonlinear_arith)
                            requires
                                ((w > 0) == (h > 0)),
                                w * h > i64::MAX || w * h < i64::MIN,
                        ;
                    }
                    450
                } else {
                    proof {
                        assert(w * h < 0) by (nonlinear_arith)
                            requires
                                ((w > 0) != (h > 0)),
                                w * h > i64::MAX || w * h < i64::MIN,
                        ;
                    }
                    150
                }
            },
        }
    }
}

/// The membership predicate and the pricing function stay in lock step:
/// a standard size is priced from the table, any other size by the area
/// formula.
pub proof fn lemma_price_lockstep(w: int, h: int)
    ensures
        spec_is_standard(w, h) ==> spec_price_for(w, h) == spec_standard_cpm(w, h)->Some_0,
        !spec_is_standard(w, h) ==> spec_price_for(w, h) == spec_fallback_price(w, h),
{
}

} // verus!
