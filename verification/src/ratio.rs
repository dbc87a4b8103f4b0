//! Aspect-ratio buckets: classify a width/height pair into one of 15 named
//! standard ratios, and convert between width and height for a bucket.
use vstd::prelude::*;

verus! {

use vstd::arithmetic::div_mod::{lemma_fundamental_div_mod, lemma_mod_bound};

/// One of the 15 standard aspect-ratio buckets.
#[derive(Debug, Clone, Copy, PartialEq, Eq, Structural)]
pub enum ImageRatio {
    Is1By1,
    Is5By4,
    Is4By3,
    Is3By2,
    Is5By3,
    Is16By9,
    Is2By1,
    Is3By1,
    Is4by5,
    Is3By4,
    Is2By3,
    Is3By5,
    Is9By16,
    Is1By2,
    Is1By3,
}

/// Width units of the bucket's width:height pair (the 16 of 16:9).
pub open spec fn width_units(r: ImageRatio) -> int {
    match r {
        ImageRatio::Is1By1 => 1,
        ImageRatio::Is5By4 => 5,
        ImageRatio::Is4By3 => 4,
        ImageRatio::Is3By2 => 3,
        ImageRatio::Is5By3 => 5,
        ImageRatio::Is16By9 => 16,
        ImageRatio::Is2By1 => 2,
        ImageRatio::Is3By1 => 3,
        ImageRatio::Is4by5 => 4,
        ImageRatio::Is3By4 => 3,
        ImageRatio::Is2By3 => 2,
        ImageRatio::Is3By5 => 3,
        ImageRatio::Is9By16 => 9,
        ImageRatio::Is1By2 => 1,
        ImageRatio::Is1By3 => 1,
    }
}

/// Height units of the bucket's width:height pair (the 9 of 16:9).
pub open spec fn height_units(r: ImageRatio) -> int {
    match r {
        ImageRatio::Is1By1 => 1,
        ImageRatio::Is5By4 => 4,
        ImageRatio::Is4By3 => 3,
        ImageRatio::Is3By2 => 2,
        ImageRatio::Is5By3 => 3,
        ImageRatio::Is16By9 => 9,
        ImageRatio::Is2By1 => 1,
        ImageRatio::Is3By1 => 1,
        ImageRatio::Is4by5 => 5,
        ImageRatio::Is3By4 => 4,
        ImageRatio::Is2By3 => 3,
        ImageRatio::Is3By5 => 5,
        ImageRatio::Is9By16 => 16,
        ImageRatio::Is1By2 => 2,
        ImageRatio::Is1By3 => 3,
    }
}

/// The bucket whose open interval contains the real ratio width/height.
/// Thresholds descend from widest to narrowest; each test is strict, so a
/// ratio exactly at a threshold selects the narrower bucket below it.
/// `100 * w > t * h` decides `w / h > t / 100` exactly.
pub open spec fn best_fitting_spec(w: int, h: int) -> ImageRatio {
    if 100 * w > 250 * h {
        ImageRatio::Is3By1
    } else if 100 * w > 188 * h {
        ImageRatio::Is2By1
    } else if 100 * w > 172 * h {
        ImageRatio::Is16By9
    } else if 100 * w > 158 * h {
        ImageRatio::Is5By3
    } else if 100 * w > 142 * h {
        ImageRatio::Is3By2
    } else if 100 * w > 129 * h {
        ImageRatio::Is4By3
    } else if 100 * w > 113 * h {
        ImageRatio::Is5By4
    } else if 100 * w > 90 * h {
        ImageRatio::Is1By1
    } else if 100 * w > 78 * h {
        ImageRatio::Is4by5
    } else if 100 * w > 71 * h {
        ImageRatio::Is3By4
    } else if 100 * w > 63 * h {
        ImageRatio::Is2By3
    } else if 100 * w > 58 * h {
        ImageRatio::Is3By5
    } else if 100 * w > 53 * h {
        ImageRatio::Is9By16
    } else if 100 * w > 42 * h {
        ImageRatio::Is1By2
    } else {
        ImageRatio::Is1By3
    }
}

/// Height that matches the bucket for a given width, truncating division.
pub open spec fn height_of(r: ImageRatio, width: int) -> int {
    width * height_units(r) / width_units(r)
}

/// Width that matches the bucket for a given height, truncating division.
pub open spec fn width_of(r: ImageRatio, height: int) -> int {
    height * width_units(r) / height_units(r)
}

/// The Bulma CSS class that names the bucket.
pub open spec fn css_class_spec(r: ImageRatio) -> Seq<char> {
    match r {
        ImageRatio::Is1By1 => "is-1by1"@,
        ImageRatio::Is5By4 => "is-5by4"@,
        ImageRatio::Is4By3 => "is-4by3"@,
        ImageRatio::Is3By2 => "is-3by2"@,
        ImageRatio::Is5By3 => "is-5by3"@,
        ImageRatio::Is16By9 => "is-16by9"@,
        ImageRatio::Is2By1 => "is-2by1"@,
        ImageRatio::Is3By1 => "is-3by1"@,
        ImageRatio::Is4by5 => "is-4by5"@,
        ImageRatio::Is3By4 => "is-3by4"@,
        ImageRatio::Is2By3 => "is-2by3"@,
        ImageRatio::Is3By5 => "is-3by5"@,
        ImageRatio::Is9By16 => "is-9by16"@,
        ImageRatio::Is1By2 => "is-1by2"@,
        ImageRatio::Is1By3 => "is-1by3"@,
    }
}

impl ImageRatio {
    /// The bucket whose interval contains width/height; total over all
    /// positive pairs.
    pub fn best_fitting(width: u32, height: u32) -> (r: ImageRatio)
        requires
            width >= 1,
            height >= 1,
        ensures
            r == best_fitting_spec(width as int, height as int),
    {
        let w: u64 = (width as u64) * 100;
        let h: u64 = height as u64;
        if w > 250 * h {
            ImageRatio::Is3By1
        } else if w > 188 * h {
            ImageRatio::Is2By1
        } else if w > 172 * h {
            ImageRatio::Is16By9
        } else if w > 158 * h {
            ImageRatio::Is5By3
        } else if w > 142 * h {
            ImageRatio::Is3By2
        } else if w > 129 * h {
            ImageRatio::Is4By3
        } else if w > 113 * h {
            ImageRatio::Is5By4
        } else if w > 90 * h {
            ImageRatio::Is1By1
        } else if w > 78 * h {
            ImageRatio::Is4by5
        } else if w > 71 * h {
            ImageRatio::Is3By4
        } else if w > 63 * h {
            ImageRatio::Is2By3
        } else if w > 58 * h {
            ImageRatio::Is3By5
        } else if w > 53 * h {
            ImageRatio::Is9By16
        } else if w > 42 * h {
            ImageRatio::Is1By2
        } else {
            ImageRatio::Is1By3
        }
    }

    /// Height matching this bucket for the given width, rounding down.
    pub fn get_height(&self, width: u32) -> (r: u32)
        requires
            (width as int) * height_units(*self) <= u32::MAX as int,
        ensures
            r == height_of(*self, width as int),
    {
        match self {
            ImageRatio::Is1By1 => width,
            ImageRatio::Is5By4 => width * 4 / 5,
            ImageRatio::Is4By3 => width * 3 / 4,
            ImageRatio::Is3By2 => width * 2 / 3,
            ImageRatio::Is5By3 => width * 3 / 5,
            ImageRatio::Is16By9 => width * 9 / 16,
            ImageRatio::Is2By1 => width / 2,
            ImageRatio::Is3By1 => width / 3,
            ImageRatio::Is4by5 => width * 5 / 4,
            ImageRatio::Is3By4 => width * 4 / 3,
            ImageRatio::Is2By3 => width * 3 / 2,
            ImageRatio::Is3By5 => width * 5 / 3,
            ImageRatio::Is9By16 => width * 16 / 9,
            ImageRatio::Is1By2 => width * 2,
            ImageRatio::Is1By3 => width * 3,
        }
    }

    /// Width matching this bucket for the given height, rounding down.
    pub fn get_width(&self, height: u32) -> (r: u32)
        requires
            (height as int) * width_units(*self) <= u32::MAX as int,
        ensures
            r == width_of(*self, height as int),
    {
        match self {
            ImageRatio::Is1By1 => height,
            ImageRatio::Is5By4 => height * 5 / 4,
            ImageRatio::Is4By3 => height * 4 / 3,
            ImageRatio::Is3By2 => height * 3 / 2,
            ImageRatio::Is5By3 => height * 5 / 3,
            ImageRatio::Is16By9 => height * 16 / 9,
            ImageRatio::Is2By1 => height * 2,
            ImageRatio::Is3By1 => height * 3,
            ImageRatio::Is4by5 => height * 4 / 5,
            ImageRatio::Is3By4 => height * 3 / 4,
            ImageRatio::Is2By3 => height * 2 / 3,
            ImageRatio::Is3By5 => height * 3 / 5,
            ImageRatio::Is9By16 => height * 9 / 16,
            ImageRatio::Is1By2 => height / 2,
            ImageRatio::Is1By3 => height / 3,
        }
    }

    /// The CSS class naming this bucket.
    pub fn to_css_class(&self) -> (r: &'static str)
        ensures
            r@ == css_class_spec(*self),
    {
        match self {
            ImageRatio::Is1By1 => "is-1by1",
            ImageRatio::Is5By4 => "is-5by4",
            ImageRatio::Is4By3 => "is-4by3",
            ImageRatio::Is3By2 => "is-3by2",
            ImageRatio::Is5By3 => "is-5by3",
            ImageRatio::Is16By9 => "is-16by9",
            ImageRatio::Is2By1 => "is-2by1",
            ImageRatio::Is3By1 => "is-3by1",
            ImageRatio::Is4by5 => "is-4by5",
            ImageRatio::Is3By4 => "is-3by4",
            ImageRatio::Is2By3 => "is-2by3",
            ImageRatio::Is3By5 => "is-3by5",
            ImageRatio::Is9By16 => "is-9by16",
            ImageRatio::Is1By2 => "is-1by2",
            ImageRatio::Is1By3 => "is-1by3",
        }
    }
}

/// A pair exactly at a classification threshold selects the bucket below the
/// threshold: every threshold test is strict.
pub proof fn lemma_best_fitting_threshold_strict(w: int, h: int)
    requires
        w >= 1,
        h >= 1,
    ensures
        100 * w == 250 * h ==> best_fitting_spec(w, h) == ImageRatio::Is2By1,
        100 * w == 188 * h ==> best_fitting_spec(w, h) == ImageRatio::Is16By9,
        100 * w == 172 * h ==> best_fitting_spec(w, h) == ImageRatio::Is5By3,
        100 * w == 158 * h ==> best_fitting_spec(w, h) == ImageRatio::Is3By2,
        100 * w == 142 * h ==> best_fitting_spec(w, h) == ImageRatio::Is4By3,
        100 * w == 129 * h ==> best_fitting_spec(w, h) == ImageRatio::Is5By4,
        100 * w == 113 * h ==> best_fitting_spec(w, h) == ImageRatio::Is1By1,
        100 * w == 90 * h ==> best_fitting_spec(w, h) == ImageRatio::Is4by5,
        100 * w == 78 * h ==> best_fitting_spec(w, h) == ImageRatio::Is3By4,
        100 * w == 71 * h ==> best_fitting_spec(w, h) == ImageRatio::Is2By3,
        100 * w == 63 * h ==> best_fitting_spec(w, h) == ImageRatio::Is3By5,
        100 * w == 58 * h ==> best_fitting_spec(w, h) == ImageRatio::Is9By16,
        100 * w == 53 * h ==> best_fitting_spec(w, h) == ImageRatio::Is1By2,
        100 * w == 42 * h ==> best_fitting_spec(w, h) == ImageRatio::Is1By3,
{
}

/// Round trip through a bucket's two conversions: converting a width to the
/// bucket's height and back recovers the width up to the truncation of the
/// two divisions. The loss, scaled by the height units, is below the sum of
/// the units; whenever the bucket is no wider than 2:1 the loss is at most 1.
pub proof fn lemma_ratio_round_trip(r: ImageRatio, w: int)
    requires
        w >= 0,
    ensures
        ({
            let w2 = width_of(r, height_of(r, w));
            &&& 0 <= w2 <= w
            &&& (w - w2) * height_units(r) <= width_units(r) + height_units(r) - 2
            &&& width_units(r) <= height_units(r) + 1 ==> w - w2 <= 1
        }),
{
    let a = width_units(r);
    let b = height_units(r);
    let h = height_of(r, w);
    let w2 = width_of(r, h);
    assert(a >= 1 && b >= 1);
    lemma_fundamental_div_mod(w * b, a);
    lemma_mod_bound(w * b, a);
    let r1 = (w * b) % a;
    assert(w * b == a * h + r1);
    assert(h >= 0) by (nonlinear_arith)
        requires
            a >= 1,
            b >= 1,
            w >= 0,
            w * b == a * h + r1,
            0 <= r1 < a,
    ;
    lemma_fundamental_div_mod(h * a, b);
    lemma_mod_bound(h * a, b);
    let r2 = (h * a) % b;
    assert(h * a == b * w2 + r2);
    assert(0 <= w2 <= w && (w - w2) * b == r1 + r2) by (nonlinear_arith)
        requires
            a >= 1,
            b >= 1,
            w >= 0,
            h >= 0,
            w * b == a * h + r1,
            0 <= r1 < a,
            h * a == b * w2 + r2,
            0 <= r2 < b,
    ;
    if a <= b + 1 {
        assert(w - w2 <= 1) by (nonlinear_arith)
            requires
                b >= 1,
                (w - w2) * b <= a + b - 2,
                a <= b + 1,
                w2 <= w,
        ;
    }
}

} // verus!
