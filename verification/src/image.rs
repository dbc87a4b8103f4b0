//! The responsive image pipeline's planning core: classify a source image's
//! aspect ratio, compute the center-crop box, crop raw pixels, select the
//! breakpoint variants to materialize, and derive their output paths and the
//! `srcset`/`src` metadata.
//!
//! Decoding a source file, resizing pixels and encoding the target codec are
//! the caller's business: they are driven by the plan this module computes.
use vstd::prelude::*;

use crate::errors::ImageError;
use crate::ratio::{ImageRatio, best_fitting_spec, height_of, width_of, width_units, height_units};
use crate::strutil::{dec_digits, last_index_of, rfind_char, opt_view};

verus! {

use vstd::arithmetic::div_mod::{lemma_fundamental_div_mod, lemma_mod_bound};

/// The largest source dimension the planner accepts: every ratio conversion
/// multiplies by at most 16, which must stay within `u32`.
pub open spec fn max_dimension() -> int {
    0xffff_ffffint / 16
}

/// The fixed descending table of (width, quality) breakpoints.
pub open spec fn breakpoints_spec() -> Seq<(u32, u32)> {
    seq![
        (1972u32, 75u32),
        (1479u32, 75u32),
        (986u32, 75u32),
        (632u32, 75u32),
        (425u32, 75u32),
        (318u32, 75u32),
        (159u32, 40u32),
    ]
}

/// The contiguous suffix of the breakpoint table whose largest width fits
/// within `w`; when even the smallest breakpoint exceeds `w`, one synthetic
/// breakpoint of `w` itself at quality 90. Never upscales.
pub open spec fn all_widths_spec(w: u32) -> Seq<(u32, u32)> {
    if w >= 1972 {
        breakpoints_spec()
    } else if w >= 1479 {
        breakpoints_spec().skip(1)
    } else if w >= 986 {
        breakpoints_spec().skip(2)
    } else if w >= 632 {
        breakpoints_spec().skip(3)
    } else if w >= 425 {
        breakpoints_spec().skip(4)
    } else if w >= 318 {
        breakpoints_spec().skip(5)
    } else if w >= 159 {
        breakpoints_spec().skip(6)
    } else {
        seq![(w, 90u32)]
    }
}

/// The breakpoints applicable to a cropped width, largest first.
pub fn all_widths(width: u32) -> (r: Vec<(u32, u32)>)
    ensures
        r@ == all_widths_spec(width),
        r@.len() >= 1,
        forall|i: int| 0 <= i < r@.len() ==> (#[trigger] r@[i]).0 <= width,
        forall|i: int, j: int| 0 <= i < j < r@.len() ==> r@[i].0 > r@[j].0,
{
    let mut r: Vec<(u32, u32)> = Vec::new();
    if width >= 1972 {
        r.push((1972, 75));
    }
    if width >= 1479 {
        r.push((1479, 75));
    }
    if width >= 986 {
        r.push((986, 75));
    }
    if width >= 632 {
        r.push((632, 75));
    }
    if width >= 425 {
        r.push((425, 75));
    }
    if width >= 318 {
        r.push((318, 75));
    }
    if width >= 159 {
        r.push((159, 40));
    }
    if width < 159 {
        r.push((width, 90));
    }
    proof {
        assert(r@ =~= all_widths_spec(width));
    }
    r
}

/// A crop window within a source image.
pub struct CropBox {
    pub x: u32,
    pub y: u32,
    pub width: u32,
    pub height: u32,
}

/// The center-crop window for a ratio: the ratio's width for the source
/// height and its height for the source width; whichever overflows the
/// source is clamped to it and the crop centered on the other axis.
pub open spec fn crop_box_spec(ratio: ImageRatio, sw: int, sh: int) -> (int, int, int, int) {
    let w0 = width_of(ratio, sh);
    let h0 = height_of(ratio, sw);
    if w0 > sw {
        (0int, (sh - h0) / 2, sw, h0)
    } else if h0 > sh {
        ((sw - w0) / 2, 0int, w0, sh)
    } else {
        (0int, 0int, w0, h0)
    }
}

/// The two ratio conversions cannot both overflow the source: if the
/// ratio's width for the source height exceeds the source width, then its
/// height for the source width stays below the source height, and the other
/// way round.
proof fn lemma_crop_no_double_clamp(ratio: ImageRatio, sw: int, sh: int)
    requires
        sw >= 1,
        sh >= 1,
    ensures
        width_of(ratio, sh) > sw ==> height_of(ratio, sw) < sh,
        height_of(ratio, sw) > sh ==> width_of(ratio, sh) < sw,
{
    let a = width_units(ratio);
    let b = height_units(ratio);
    let w0 = width_of(ratio, sh);
    let h0 = height_of(ratio, sw);
    assert(a >= 1 && b >= 1);
    lemma_fundamental_div_mod(sh * a, b);
    lemma_mod_bound(sh * a, b);
    lemma_fundamental_div_mod(sw * b, a);
    lemma_mod_bound(sw * b, a);
    let r1 = (sh * a) % b;
    let r2 = (sw * b) % a;
    assert(sh * a == b * w0 + r1);
    assert(sw * b == a * h0 + r2);
    if w0 > sw {
        assert(h0 < sh) by (nonlinear_arith)
            requires
                a >= 1,
                b >= 1,
                sw >= 1,
                sh >= 1,
                sh * a == b * w0 + r1,
                sw * b == a * h0 + r2,
                0 <= r1 < b,
                0 <= r2 < a,
                w0 > sw,
        ;
    }
    if h0 > sh {
        assert(w0 < sw) by (nonlinear_arith)
            requires
                a >= 1,
                b >= 1,
                sw >= 1,
                sh >= 1,
                sh * a == b * w0 + r1,
                sw * b == a * h0 + r2,
                0 <= r1 < b,
                0 <= r2 < a,
                h0 > sh,
        ;
    }
}

/// A crop dimension computed from a source dimension of at least 3 is at
/// least 1: every ratio's units stay within a factor of 3 of one another.
proof fn lemma_crop_dims_positive(ratio: ImageRatio, sw: int, sh: int)
    requires
        sw >= 3,
        sh >= 3,
    ensures
        width_of(ratio, sh) >= 1,
        height_of(ratio, sw) >= 1,
{
    let a = width_units(ratio);
    let b = height_units(ratio);
    assert(a <= 3 * b && b <= 3 * a);
    assert(sh * a >= b) by (nonlinear_arith)
        requires
            sh >= 3,
            a >= 1,
            b >= 1,
            a <= 3 * b && b <= 3 * a,
    ;
    assert(sw * b >= a) by (nonlinear_arith)
        requires
            sw >= 3,
            a >= 1,
            b >= 1,
            a <= 3 * b && b <= 3 * a,
    ;
    lemma_fundamental_div_mod(sh * a, b);
    lemma_mod_bound(sh * a, b);
    lemma_fundamental_div_mod(sw * b, a);
    lemma_mod_bound(sw * b, a);
    assert(width_of(ratio, sh) >= 1) by (nonlinear_arith)
        requires
            a >= 1,
            b >= 1,
            sh * a >= b,
            sh * a == b * width_of(ratio, sh) + (sh * a) % b,
            0 <= (sh * a) % b < b,
    ;
    assert(height_of(ratio, sw) >= 1) by (nonlinear_arith)
        requires
            a >= 1,
            b >= 1,
            sw * b >= a,
            sw * b == a * height_of(ratio, sw) + (sw * b) % a,
            0 <= (sw * b) % a < a,
    ;
}

/// The center-crop window of a source image for a target ratio. It never
/// exceeds the source and matches the target ratio on at least one axis.
pub fn crop_box(ratio: ImageRatio, src_width: u32, src_height: u32) -> (r: CropBox)
    requires
        3 <= src_width <= max_dimension(),
        3 <= src_height <= max_dimension(),
    ensures
        ({
            let (x, y, w, h) = crop_box_spec(ratio, src_width as int, src_height as int);
            r.x == x && r.y == y && r.width == w && r.height == h
        }),
        r.x + r.width <= src_width,
        r.y + r.height <= src_height,
        1 <= r.width,
        1 <= r.height,
    {
        proof {
            lemma_crop_no_double_clamp(ratio, src_width as int, src_height as int);
            lemma_crop_dims_positive(ratio, src_width as int, src_height as int);
            assert(1 <= width_units(ratio) <= 16 && 1 <= height_units(ratio) <= 16);
            assert((src_height as int) * width_units(ratio) <= u32::MAX as int)
                by (nonlinear_arith)
                requires
                    3 <= src_height as int <= 0xffff_ffffint / 16,
                    1 <= width_units(ratio) <= 16,
            ;
            assert((src_width as int) * height_units(ratio) <= u32::MAX as int)
                by (nonlinear_arith)
                requires
                    3 <= src_width as int <= 0xffff_ffffint / 16,
                    1 <= height_units(ratio) <= 16,
            ;
        }
        let mut width = ratio.get_width(src_height);
        let mut height = ratio.get_height(src_width);
        let mut x: u32 = 0;
        let mut y: u32 = 0;
        if width > src_width {
            width = src_width;
            let height_dif = src_height - height;
            y = height_dif / 2;
        } else if height > src_height {
            height = src_height;
            let width_dif = src_width - width;
            x = width_dif / 2;
        }
        CropBox { x, y, width, height }
    }

} // verus!

verus! {

/// The flat offset of one channel of one pixel in a row-major RGBA buffer
/// of the given row width.
pub open spec fn pixel_index(w: int, row: int, col: int, ch: int) -> int {
    (row * w + col) * 4 + ch
}

/// Extract the crop window from a row-major RGBA pixel buffer, byte for
/// byte.
pub fn crop_rgba(pixels: &Vec<u8>, src_width: u32, src_height: u32, bx: &CropBox) -> (r: Vec<u8>)
    requires
        pixels@.len() == (src_width as int) * (src_height as int) * 4,
        bx.x + bx.width <= src_width,
        bx.y + bx.height <= src_height,
        1 <= bx.width,
        1 <= bx.height,
    ensures
        r@.len() == (bx.width as int) * (bx.height as int) * 4,
        forall|row: int, col: int, ch: int|
            #![trigger pixel_index(bx.width as int, row, col, ch)]
            0 <= row < bx.height && 0 <= col < bx.width && 0 <= ch < 4 ==> r@[pixel_index(
                bx.width as int,
                row,
                col,
                ch,
            )] == pixels@[pixel_index(
                src_width as int,
                bx.y + row,
                bx.x + col,
                ch,
            )],
{
    let w = bx.width;
    let h = bx.height;
    let sw = src_width;
    let ghost wi = w as int;
    let ghost swi = sw as int;
    proof {
        assert((swi * (src_height as int)) * 4 == pixels@.len());
    }
    let mut r: Vec<u8> = Vec::new();
    let mut row: u32 = 0;
    while row < h
        invariant
            row <= h,
            wi == bx.width as int,
            swi == src_width as int,
            w == bx.width,
            h == bx.height,
            sw == src_width,
            pixels@.len() == swi * (src_height as int) * 4,
            bx.x + bx.width <= src_width,
            bx.y + bx.height <= src_height,
            r@.len() == (row as int) * wi * 4,
            forall|rr: int, cc: int, ch: int|
                #![trigger pixel_index(wi, rr, cc, ch)]
                0 <= rr < row && 0 <= cc < wi && 0 <= ch < 4 ==> r@[pixel_index(wi, rr, cc, ch)]
                    == pixels@[pixel_index(swi, bx.y + rr, bx.x + cc, ch)],
        decreases h - row,
    {
        let mut col: u32 = 0;
        while col < w
            invariant
                row < h,
                col <= w,
                wi == bx.width as int,
                swi == src_width as int,
                w == bx.width,
                h == bx.height,
                sw == src_width,
                pixels@.len() == swi * (src_height as int) * 4,
                bx.x + bx.width <= src_width,
                bx.y + bx.height <= src_height,
                r@.len() == (row as int) * wi * 4 + (col as int) * 4,
                forall|rr: int, cc: int, ch: int|
                    #![trigger pixel_index(wi, rr, cc, ch)]
                    (0 <= rr < row && 0 <= cc < wi && 0 <= ch < 4) || (rr == row && 0 <= cc < col
                        && 0 <= ch < 4) ==> r@[pixel_index(wi, rr, cc, ch)] == pixels@[pixel_index(
                        swi,
                        bx.y + rr,
                        bx.x + cc,
                        ch,
                    )],
            decreases w - col,
        {
            let pl = pixels.len();
            proof {
                assert(pixel_index(swi, bx.y + row, bx.x + col, 0) + 3 < pixels@.len())
                    by (nonlinear_arith)
                    requires
                        pixels@.len() == swi * (src_height as int) * 4,
                        0 <= bx.y + row < src_height as int,
                        0 <= bx.x + col < swi,
                        swi >= 1,
                ;
                assert(pixels@.len() <= usize::MAX as int);
            }
            let src_row = (bx.y + row) as u64;
            let src_col = (bx.x + col) as u64;
            let base64: u64 = (src_row * (sw as u64) + src_col) * 4;
            proof {
                assert(base64 as int == pixel_index(swi, bx.y + row, bx.x + col, 0));
                assert(r@.len() == pixel_index(wi, row as int, col as int, 0)) by (nonlinear_arith)
                    requires
                        r@.len() == (row as int) * wi * 4 + (col as int) * 4,
                ;
            }
            let base = base64 as usize;
            let ghost old_r = r@;
            let ghost old_len = r@.len() as int;
            r.push(pixels[base]);
            r.push(pixels[base + 1]);
            r.push(pixels[base + 2]);
            r.push(pixels[base + 3]);
            proof {
                assert forall|rr: int, cc: int, ch: int|
                    #![trigger pixel_index(wi, rr, cc, ch)]
                    (0 <= rr < row && 0 <= cc < wi && 0 <= ch < 4) || (rr == row && 0 <= cc
                        < col + 1 && 0 <= ch < 4) implies r@[pixel_index(wi, rr, cc, ch)]
                    == pixels@[pixel_index(swi, bx.y + rr, bx.x + cc, ch)] by {
                    if rr == row as int && cc == col as int {
                        assert(pixel_index(wi, rr, cc, ch) == old_len + ch);
                        assert(r@[old_len + ch] == pixels@[base as int + ch]);
                        assert(pixel_index(swi, bx.y + rr, bx.x + cc, ch) == base as int + ch);
                    } else {
                        assert(pixel_index(wi, rr, cc, ch) < old_len) by (nonlinear_arith)
                            requires
                                old_len == (row as int) * wi * 4 + (col as int) * 4,
                                (0 <= rr < row as int && 0 <= cc < wi && 0 <= ch < 4) || (rr
                                    == row as int && 0 <= cc < col as int && 0 <= ch < 4),
                                wi >= 1,
                        ;
                        assert(r@[pixel_index(wi, rr, cc, ch)] == old_r[pixel_index(
                            wi,
                            rr,
                            cc,
                            ch,
                        )]);
                    }
                }
            }
            col = col + 1;
        }
        proof {
            assert((row as int) * wi * 4 + wi * 4 == ((row as int) + 1) * wi * 4) by (nonlinear_arith);
            assert forall|rr: int, cc: int, ch: int|
                #![trigger pixel_index(wi, rr, cc, ch)]
                0 <= rr < row + 1 && 0 <= cc < wi && 0 <= ch < 4 implies r@[pixel_index(
                wi,
                rr,
                cc,
                ch,
            )] == pixels@[pixel_index(swi, bx.y + rr, bx.x + cc, ch)] by {
            }
        }
        row = row + 1;
    }
    proof {
        assert((h as int) * wi * 4 == wi * (h as int) * 4) by (nonlinear_arith);
    }
    r
}

} // verus!

verus! {

/// One responsive variant to reference, and to encode unless its output
/// file already exists.
pub struct PlannedVariant {
    pub path: String,
    pub width: u32,
    pub height: u32,
    pub quality: u32,
}

/// The metadata a page needs to reference a processed image.
pub struct ProcessedImage {
    pub title: String,
    pub alt: String,
    pub ratio: ImageRatio,
    pub srcset: String,
    pub src: String,
}

/// Everything the pipeline derives for one image reference: the crop
/// window, the variants in ascending width order, and the page metadata.
pub struct ImagePlan {
    pub base_path: String,
    pub ratio: ImageRatio,
    pub crop: CropBox,
    pub variants: Vec<PlannedVariant>,
    pub image: ProcessedImage,
}

/// The output path of one variant:
/// `/img<path-start>/<file-base>-w<width>.webp`.
pub open spec fn variant_path_spec(ps: Seq<char>, base: Seq<char>, w: int) -> Seq<char> {
    "/img"@ + ps + "/"@ + base + "-w"@ + dec_digits(w) + ".webp"@
}

/// One `srcset` descriptor: the variant path and its width.
pub open spec fn srcset_entry_spec(ps: Seq<char>, base: Seq<char>, w: int) -> Seq<char> {
    variant_path_spec(ps, base, w) + " "@ + dec_digits(w) + "w"@
}

/// The `srcset` value over ascending widths, comma-joined.
pub open spec fn srcset_join(ws: Seq<u32>, ps: Seq<char>, base: Seq<char>) -> Seq<char>
    decreases ws.len(),
{
    if ws.len() == 0 {
        Seq::empty()
    } else if ws.len() == 1 {
        srcset_entry_spec(ps, base, ws[0] as int)
    } else {
        srcset_join(ws.drop_last(), ps, base) + ", "@ + srcset_entry_spec(
            ps,
            base,
            ws.last() as int,
        )
    }
}

/// The widths of the applicable breakpoints in ascending order.
pub open spec fn ascending_widths(w: u32) -> Seq<u32> {
    let t = all_widths_spec(w);
    Seq::new(t.len(), |i: int| t[t.len() - 1 - i].0)
}

/// What a plan promises for one reference: the ratio is the source's best
/// fit; the crop is the center-crop window; the variants are the applicable
/// breakpoints ascending, each with its derived output path and the
/// ratio-matched height; and the metadata joins them into `srcset`, with
/// `src` the largest variant's path.
pub open spec fn plan_matches(
    plan: ImagePlan,
    ps: Seq<char>,
    reference: ImageReferenceView,
    sw: int,
    sh: int,
) -> bool {
    let ratio = best_fitting_spec(sw, sh);
    let base = reference.file_name.subrange(0, last_index_of(reference.file_name, '.'));
    let cb = crop_box_spec(ratio, sw, sh);
    let ws = ascending_widths(cb.2 as u32);
    &&& plan.ratio == ratio
    &&& plan.crop.x == cb.0 && plan.crop.y == cb.1 && plan.crop.width == cb.2 && plan.crop.height
        == cb.3
    &&& plan.base_path@ == (if ps.len() == 0 {
        "/"@ + base
    } else {
        ps + "/"@ + base
    })
    &&& plan.variants@.len() == ws.len()
    &&& forall|i: int|
        0 <= i < ws.len() ==> {
            let v = #[trigger] plan.variants@[i];
            &&& v.width == ws[i]
            &&& v.quality == all_widths_spec(cb.2 as u32)[ws.len() - 1 - i].1
            &&& v.height as int == height_of(ratio, ws[i] as int)
            &&& v.path@ == variant_path_spec(ps, base, ws[i] as int)
        }
    &&& plan.image.ratio == ratio
    &&& plan.image.alt@ == reference.alt_text
    &&& plan.image.title@ == (match reference.title {
        Some(t) => t,
        None => base,
    })
    &&& plan.image.srcset@ == srcset_join(ws, ps, base)
    &&& plan.image.src@ == variant_path_spec(ps, base, ws.last() as int)
}

/// The view of an image reference: its three fields as plain sequences.
pub struct ImageReferenceView {
    pub file_name: Seq<char>,
    pub title: Option<Seq<char>>,
    pub alt_text: Seq<char>,
}

/// The view of a reference value.
pub open spec fn reference_view(r: crate::config_files::ImageReference) -> ImageReferenceView {
    ImageReferenceView {
        file_name: r.file_name@,
        title: opt_view(r.title),
        alt_text: r.alt_text@,
    }
}

/// The plan for one image reference of a source image with the given
/// dimensions. A file name without a period is a recoverable error: no
/// output name can be derived, the reference is skipped.
pub fn plan_reference(
    path_start: &str,
    reference: &crate::config_files::ImageReference,
    src_width: u32,
    src_height: u32,
) -> (r: Result<ImagePlan, ImageError>)
    requires
        3 <= src_width <= max_dimension(),
        3 <= src_height <= max_dimension(),
    ensures
        r is Err <==> last_index_of(reference.file_name@, '.') < 0,
        r matches Err(e) ==> e matches ImageError::NoFileExtension(s) && s@
            == reference.file_name@,
        r matches Ok(plan) ==> plan_matches(
            plan,
            path_start@,
            reference_view(*reference),
            src_width as int,
            src_height as int,
        ),
{
    let dot = match rfind_char(reference.file_name.as_str(), '.') {
        None => {
            return Err(ImageError::NoFileExtension(reference.file_name.clone()));
        },
        Some(i) => i,
    };
    let file_base = String::from_str(reference.file_name.as_str().substring_char(0, dot));
    let ratio = ImageRatio::best_fitting(src_width, src_height);
    let cb = crop_box(ratio, src_width, src_height);
    let table = all_widths(cb.width);
    let ghost ws = ascending_widths(cb.width);
    proof {
        assert(ws.len() == table@.len());
        assert(forall|i: int| 0 <= i < ws.len() ==> ws[i] == table@[ws.len() - 1 - i].0);
    }
    let n = table.len();
    let mut variants: Vec<PlannedVariant> = Vec::new();
    let mut srcset = String::new();
    let mut k: usize = 0;
    while k < n
        invariant
            3 <= src_width <= max_dimension(),
            3 <= src_height <= max_dimension(),
            n == table@.len(),
            k <= n,
            table@ == all_widths_spec(cb.width),
            ws == ascending_widths(cb.width),
            ws.len() == n,
            forall|i: int| 0 <= i < n ==> ws[i] == table@[n - 1 - i].0,
            forall|i: int| 0 <= i < n ==> (#[trigger] table@[i]).0 <= cb.width,
            cb.width <= src_width,
            variants@.len() == k,
            forall|i: int|
                0 <= i < k ==> {
                    let v = #[trigger] variants@[i];
                    &&& v.width == ws[i]
                    &&& v.quality == table@[n - 1 - i].1
                    &&& v.height as int == height_of(
                        best_fitting_spec(src_width as int, src_height as int),
                        ws[i] as int,
                    )
                    &&& v.path@ == variant_path_spec(path_start@, file_base@, ws[i] as int)
                },
            srcset@ == srcset_join(ws.take(k as int), path_start@, file_base@),
            ratio == best_fitting_spec(src_width as int, src_height as int),
        decreases n - k,
    {
        let (w, q) = table[n - 1 - k];
        let mut path = String::from_str("/img");
        path.append(path_start);
        path.append("/");
        path.append(file_base.as_str());
        path.append("-w");
        let dec = crate::strutil::u32_to_string(w);
        path.append(dec.as_str());
        path.append(".webp");
        proof {
            assert(path@ == variant_path_spec(path_start@, file_base@, w as int));
            assert(w == ws[k as int]);
            assert(1 <= height_units(ratio) <= 16);
            assert((w as int) * height_units(ratio) <= u32::MAX as int) by (nonlinear_arith)
                requires
                    0 <= w as int <= 0xffff_ffffint / 16,
                    1 <= height_units(ratio) <= 16,
            ;
        }
        let height = ratio.get_height(w);
        variants.push(PlannedVariant { path: path.clone(), width: w, height, quality: q });
        if k > 0 {
            srcset.append(", ");
        }
        srcset.append(path.as_str());
        srcset.append(" ");
        srcset.append(dec.as_str());
        srcset.append("w");
        proof {
            assert(ws.take(k + 1).drop_last() =~= ws.take(k as int));
            assert(ws.take(k + 1).last() == ws[k as int]);
            if k == 0 {
                assert(srcset@ =~= srcset_entry_spec(path_start@, file_base@, w as int));
                assert(ws.take(1).len() == 1);
            } else {
                assert(srcset@ =~= srcset_join(ws.take(k as int), path_start@, file_base@) + ", "@
                    + srcset_entry_spec(path_start@, file_base@, w as int));
            }
            assert(srcset@ == srcset_join(ws.take(k + 1), path_start@, file_base@));
        }
        k = k + 1;
    }
    proof {
        assert(ws.take(n as int) =~= ws);
    }
    let src = variants[variants.len() - 1].path.clone();
    let title = match reference.title.as_ref() {
        Some(t) => t.clone(),
        None => file_base.clone(),
    };
    let mut base_path = if path_start.unicode_len() == 0 {
        String::from_str("/")
    } else {
        String::from_str(path_start)
    };
    if path_start.unicode_len() != 0 {
        base_path.append("/");
    }
    base_path.append(file_base.as_str());
    proof {
        if path_start@.len() == 0 {
            assert(base_path@ =~= "/"@ + file_base@);
        } else {
            assert(base_path@ =~= path_start@ + "/"@ + file_base@);
        }
    }
    let image = ProcessedImage {
        title,
        alt: reference.alt_text.clone(),
        ratio,
        srcset,
        src,
    };
    Ok(ImagePlan { base_path, ratio, crop: cb, variants, image })
}

/// The variant positions whose output file does not exist yet: only these
/// are encoded and written; an existing file is never regenerated, even
/// when the source pixels have changed.
pub fn variants_to_encode(plan: &ImagePlan, existing: &Vec<bool>) -> (r: Vec<usize>)
    requires
        existing@.len() == plan.variants@.len(),
    ensures
        forall|t: int|
            0 <= t < r@.len() ==> (#[trigger] r@[t] as int) < existing@.len() && !existing@[r@[
                t] as int],
        forall|i: int| 0 <= i < existing@.len() && !existing@[i] ==> r@.contains(i as usize),
        forall|t: int, u: int| 0 <= t < u < r@.len() ==> r@[t] < r@[u],
    {
        let mut r: Vec<usize> = Vec::new();
        let mut i: usize = 0;
        while i < existing.len()
            invariant
                i <= existing@.len(),
                forall|t: int|
                    0 <= t < r@.len() ==> (#[trigger] r@[t] as int) < i && !existing@[r@[t] as int],
                forall|j: int| 0 <= j < i && !existing@[j] ==> r@.contains(j as usize),
                forall|t: int, u: int| 0 <= t < u < r@.len() ==> r@[t] < r@[u],
            decreases existing@.len() - i,
        {
            if !existing[i] {
                let ghost old_r = r@;
                r.push(i);
                proof {
                    assert(forall|j: int|
                        0 <= j < i && !existing@[j] ==> old_r.contains(j as usize));
                    assert forall|j: int| 0 <= j < i + 1 && !existing@[j] implies r@.contains(
                        j as usize,
                    ) by {
                        if j < i {
                            let t = choose|t: int| 0 <= t < old_r.len() && old_r[t] == j as usize;
                            assert(r@[t] == j as usize);
                        } else {
                            assert(r@[r@.len() - 1] == i);
                        }
                    }
                }
            }
            i = i + 1;
        }
        r
    }

/// Running the pipeline twice over an unchanged source and destination
/// writes nothing the second time: after the first run every planned output
/// path exists, and a selection drawn from all-existing outputs is empty.
pub proof fn lemma_pipeline_idempotent(existing: Seq<bool>, pending: Seq<usize>)
    requires
        forall|i: int| 0 <= i < existing.len() ==> existing[i],
        forall|t: int|
            0 <= t < pending.len() ==> (#[trigger] pending[t] as int) < existing.len()
                && !existing[pending[t] as int],
    ensures
        pending.len() == 0,
{
    if pending.len() > 0 {
        assert(existing[pending[0] as int]);
    }
}

} // verus!

verus! {

use crate::dashes::{PathIndexMap, index_map_contents, index_map_new, index_map_insert,
    index_map_get};

/// The path-keyed cache of processed image metadata: transcoding workers
/// fill it, page assembly reads it.
pub struct ImageCatalog {
    by_path: PathIndexMap,
    images: Vec<ProcessedImage>,
}

impl ImageCatalog {
    spec fn contents(&self) -> Map<Seq<char>, usize> {
        index_map_contents(self.by_path)
    }

    /// The processed images by logical base path.
    pub closed spec fn image_map(&self) -> Map<Seq<char>, ProcessedImage> {
        Map::new(
            |k: Seq<char>| self.contents().contains_key(k),
            |k: Seq<char>| self.images@[self.contents()[k] as int],
        )
    }

    /// Every cached index points into the image arena.
    pub closed spec fn wf(&self) -> bool {
        forall|k: Seq<char>| #[trigger]
            self.contents().contains_key(k) ==> (self.contents()[k] as int) < self.images@.len()
    }

    /// An empty catalog.
    pub fn new() -> (r: ImageCatalog)
        ensures
            r.wf(),
            r.image_map() == Map::<Seq<char>, ProcessedImage>::empty(),
    {
        let r = ImageCatalog { by_path: index_map_new(), images: Vec::new() };
        proof {
            assert(r.image_map() =~= Map::<Seq<char>, ProcessedImage>::empty());
        }
        r
    }

    /// Cache the metadata of one processed reference under its base path.
    pub fn insert(&mut self, path: String, image: ProcessedImage)
        requires
            old(self).wf(),
        ensures
            final(self).wf(),
            final(self).image_map() == old(self).image_map().insert(path@, image),
    {
        let ghost old_self = *self;
        let ghost iview = image;
        let idx = self.images.len();
        self.images.push(image);
        index_map_insert(&mut self.by_path, path, idx);
        proof {
            assert forall|k: Seq<char>| #[trigger]
                self.contents().contains_key(k) implies (self.contents()[k] as int)
                < self.images@.len() by {
                if k != path@ {
                    assert(old_self.contents().contains_key(k));
                }
            }
            assert(self.image_map() =~= old_self.image_map().insert(path@, iview));
        }
    }

    /// The cached metadata of a base path, if the reference was processed.
    pub fn get(&self, path: &str) -> (r: Option<&ProcessedImage>)
        requires
            self.wf(),
        ensures
            match r {
                Some(img) => self.image_map().contains_key(path@) && *img == self.image_map()[
                    path@],
                None => !self.image_map().contains_key(path@),
            },
    {
        match index_map_get(&self.by_path, path) {
            Some(idx) => Some(&self.images[idx]),
            None => None,
        }
    }
}

/// The path fragment of a source directory below the image-source root:
/// its path with the root prefix removed.
pub fn path_start_of(img_source: &str, source: &str) -> (r: String)
    requires
        img_source@.len() <= source@.len(),
    ensures
        r@ == source@.skip(img_source@.len() as int),
{
    let n = img_source.unicode_len();
    let m = source.unicode_len();
    if n == m {
        let r = String::new();
        proof {
            assert(r@ =~= source@.skip(n as int));
        }
        r
    } else {
        String::from_str(source.substring_char(n, m))
    }
}

} // verus!
