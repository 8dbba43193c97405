//! Decisions of the caption compositor: which rows are measured for
//! brightness, their average brightness, the caption colours that follow from
//! it, and the metadata file written beside the picture.
use vstd::prelude::*;
use vstd::arithmetic::div_mod::lemma_fundamental_div_mod;
use crate::text::{
    occurs_at, lemma_replace_at_end, contains_seq, contains_str, lemma_replace_grows, lemma_replace_without_occurrence, replace_all,
    replace_str,
};

verus! {

/// An RGBA colour with 8 bits per channel.
#[derive(Clone, Copy, Debug, PartialEq, Eq, Structural)]
pub struct Rgba8 {
    pub r: u8,
    pub g: u8,
    pub b: u8,
    pub a: u8,
}

/// The colours of the caption and of its shadow.
#[derive(Clone, Copy, Debug, PartialEq, Eq, Structural)]
pub struct CaptionColors {
    pub text: Rgba8,
    pub shadow: Rgba8,
}

/// Average brightness above which the picture counts as bright.
pub const BRIGHT_THRESHOLD: u64 = 140;

/// Brightness assumed for a picture with no measured pixel.
pub const NEUTRAL_LUMA: u64 = 128;

/// The first row of the bottom third of a picture `height` rows high.
pub open spec fn spec_band_start(height: u32) -> int {
    height - height / 3
}

/// The sum of the brightness values.
pub open spec fn luma_sum(lumas: Seq<u8>) -> int
    decreases lumas.len(),
{
    if lumas.len() == 0 {
        0
    } else {
        luma_sum(lumas.drop_last()) + lumas.last()
    }
}

/// The average brightness, rounded down, or `NEUTRAL_LUMA` when nothing was measured.
pub open spec fn spec_average_luma(lumas: Seq<u8>) -> int {
    if lumas.len() == 0 {
        NEUTRAL_LUMA as int
    } else {
        luma_sum(lumas) / (lumas.len() as int)
    }
}

/// Dark caption with a light shadow on a bright picture, light caption with a
/// dark shadow otherwise.
pub open spec fn spec_caption_colors(avg_luma: int) -> CaptionColors {
    if avg_luma > BRIGHT_THRESHOLD {
        CaptionColors {
            text: Rgba8 { r: 30, g: 30, b: 30, a: 255 },
            shadow: Rgba8 { r: 255, g: 255, b: 255, a: 180 },
        }
    } else {
        CaptionColors {
            text: Rgba8 { r: 245, g: 245, b: 245, a: 255 },
            shadow: Rgba8 { r: 0, g: 0, b: 0, a: 180 },
        }
    }
}

/// The path of the metadata file of the picture saved at `out`: when `.jpg` or
/// `.png` occurs in it, each `.jpg`, then each `.png`, replaced by
/// `_metadata.tsv`; otherwise `out` with `_metadata.tsv` appended.
pub open spec fn spec_metadata_path(out: Seq<char>) -> Seq<char> {
    if contains_seq(out, ".jpg"@) || contains_seq(out, ".png"@) {
        replace_all(replace_all(out, ".jpg"@, "_metadata.tsv"@), ".png"@, "_metadata.tsv"@)
    } else {
        out + "_metadata.tsv"@
    }
}

/// The metadata file: a header line and one tab-separated line with the date,
/// the caption and the source picture.
pub open spec fn spec_metadata_tsv(date: Seq<char>, caption: Seq<char>, source: Seq<char>) -> Seq<
    char,
> {
    "Date\tScripture_Content\tSource_Image\n"@ + date + "\t"@ + caption + "\t"@ + source + "\n"@
}

/// The first row of the bottom third of the picture, where the caption goes and
/// whose brightness is measured.
pub fn band_start(height: u32) -> (y: u32)
    ensures
        y == spec_band_start(height),
        y <= height,
{
    height - height / 3
}

proof fn lemma_luma_sum_bound(lumas: Seq<u8>)
    ensures
        0 <= luma_sum(lumas) <= 255 * lumas.len(),
    decreases lumas.len(),
{
    if lumas.len() > 0 {
        lemma_luma_sum_bound(lumas.drop_last());
    }
}

/// The average brightness of the measured pixels (see `spec_average_luma`).
pub fn average_luma(lumas: &Vec<u8>) -> (avg: u64)
    ensures
        avg == spec_average_luma(lumas@),
        avg <= 255,
{
    let mut total: u128 = 0;
    let mut i: usize = 0;
    while i < lumas.len()
        invariant
            i <= lumas.len(),
            total == luma_sum(lumas@.take(i as int)),
        decreases lumas.len() - i,
    {
        proof {
            lemma_luma_sum_bound(lumas@.take(i as int));
            assert(lumas@.take(i + 1).drop_last() =~= lumas@.take(i as int));
            assert(lumas@.take(i as int).len() == i);
            assert(255 * i <= 255 * 0xffff_ffff_ffff_ffffu128) by (nonlinear_arith)
                requires
                    i <= 0xffff_ffff_ffff_ffffu128,
            ;
        }
        total = total + lumas[i] as u128;
        i = i + 1;
    }
    assert(lumas@.take(lumas.len() as int) =~= lumas@);
    if lumas.len() == 0 {
        NEUTRAL_LUMA
    } else {
        proof {
            lemma_luma_sum_bound(lumas@);
            let n = lumas.len() as int;
            assert(luma_sum(lumas@) / n <= 255) by (nonlinear_arith)
                requires
                    0 <= luma_sum(lumas@) <= 255 * n,
                    n > 0,
            ;
        }
        (total / (lumas.len() as u128)) as u64
    }
}

/// The caption colours for the average brightness of the bottom band.
pub fn caption_colors(avg_luma: u64) -> (c: CaptionColors)
    ensures
        c == spec_caption_colors(avg_luma as int),
{
    if avg_luma > BRIGHT_THRESHOLD {
        CaptionColors {
            text: Rgba8 { r: 30, g: 30, b: 30, a: 255 },
            shadow: Rgba8 { r: 255, g: 255, b: 255, a: 180 },
        }
    } else {
        CaptionColors {
            text: Rgba8 { r: 245, g: 245, b: 245, a: 255 },
            shadow: Rgba8 { r: 0, g: 0, b: 0, a: 180 },
        }
    }
}

/// The path of the metadata file of the picture saved at `out`.
pub fn metadata_path(out: &str) -> (p: String)
    ensures
        p@ == spec_metadata_path(out@),
{
    proof {
        reveal_strlit(".jpg");
        reveal_strlit(".png");
    }
    if contains_str(out, ".jpg") || contains_str(out, ".png") {
        let step = replace_str(out, ".jpg", "_metadata.tsv");
        replace_str(step.as_str(), ".png", "_metadata.tsv")
    } else {
        let mut p = out.to_owned();
        p.append("_metadata.tsv");
        p
    }
}

/// The metadata file never takes the place of the picture: its path differs
/// from the picture's path.
pub proof fn lemma_metadata_path_differs(out: Seq<char>)
    ensures
        spec_metadata_path(out) != out,
{
    reveal_strlit(".jpg");
    reveal_strlit(".png");
    reveal_strlit("_metadata.tsv");
    let jpg = ".jpg"@;
    let png = ".png"@;
    let rep = "_metadata.tsv"@;
    if contains_seq(out, jpg) || contains_seq(out, png) {
        let step = replace_all(out, jpg, rep);
        lemma_replace_grows(out, jpg, rep);
        lemma_replace_grows(step, png, rep);
        if !contains_seq(out, jpg) {
            lemma_replace_without_occurrence(out, jpg, rep);
        }
    } else {
        assert((out + rep).len() > out.len());
    }
}

/// The contents of the metadata file.
pub fn metadata_tsv(date: &str, caption: &str, source: &str) -> (t: String)
    ensures
        t@ == spec_metadata_tsv(date@, caption@, source@),
{
    let mut t = "Date\tScripture_Content\tSource_Image\n".to_owned();
    t.append(date);
    t.append("\t");
    t.append(caption);
    t.append("\t");
    t.append(source);
    t.append("\n");
    t
}

/// The caption is dark exactly when the bottom band is brighter than the
/// threshold, and its shadow always contrasts with it: the shadow is lighter
/// than the text on a bright picture and darker on a dark one.
pub proof fn lemma_caption_contrast(avg_luma: int)
    ensures
        (spec_caption_colors(avg_luma).text.r < 128) == (avg_luma > BRIGHT_THRESHOLD),
        avg_luma > BRIGHT_THRESHOLD ==> spec_caption_colors(avg_luma).shadow.r > spec_caption_colors(
            avg_luma,
        ).text.r,
        avg_luma <= BRIGHT_THRESHOLD ==> spec_caption_colors(avg_luma).shadow.r
            < spec_caption_colors(avg_luma).text.r,
{
}

/// The average brightness lies between the darkest and the brightest value,
/// so it never exceeds 255.
pub proof fn lemma_average_in_range(lumas: Seq<u8>)
    ensures
        0 <= spec_average_luma(lumas) <= 255,
{
    if lumas.len() > 0 {
        lemma_luma_sum_bound(lumas);
        let n = lumas.len() as int;
        assert(luma_sum(lumas) / n <= 255) by (nonlinear_arith)
            requires
                0 <= luma_sum(lumas) <= 255 * n,
                n > 0,
        ;
        assert(luma_sum(lumas) / n >= 0) by (nonlinear_arith)
            requires
                0 <= luma_sum(lumas),
                n > 0,
        ;
    }
}

/// The sum of the brightness values, added up from the first.
pub open spec fn total_brightness(lumas: Seq<u8>) -> int {
    lumas.fold_left(0int, |acc: int, x: u8| acc + x)
}

proof fn lemma_total_is_luma_sum(lumas: Seq<u8>)
    ensures
        total_brightness(lumas) == luma_sum(lumas),
    decreases lumas.len(),
{
    if lumas.len() > 0 {
        lemma_total_is_luma_sum(lumas.drop_last());
    }
}

/// The average brightness counts every measured value: for a non-empty list
/// it is the sum of all values divided by their number, rounded down, so
/// `avg * len <= sum < (avg + 1) * len`; with nothing measured it is the
/// neutral 128.
pub proof fn lemma_average_counts_every_value(lumas: Seq<u8>)
    ensures
        lumas.len() > 0 ==> spec_average_luma(lumas) * lumas.len() <= total_brightness(lumas)
            < (spec_average_luma(lumas) + 1) * lumas.len(),
        lumas.len() == 0 ==> spec_average_luma(lumas) == 128,
{
    lemma_total_is_luma_sum(lumas);
    if lumas.len() > 0 {
        let n = lumas.len() as int;
        let total = luma_sum(lumas);
        lemma_fundamental_div_mod(total, n);
        assert(total / n * n <= total < (total / n + 1) * n) by (nonlinear_arith)
            requires
                n > 0,
                total == n * (total / n) + total % n,
                0 <= total % n < n,
        ;
    }
}

/// The caption goes on the bottom third of the picture: the band from
/// `band_start(height)` to the bottom is `height / 3` rows, rounded down.
pub proof fn lemma_band_is_bottom_third(height: u32)
    ensures
        0 <= height - spec_band_start(height),
        3 * (height - spec_band_start(height)) <= height < 3 * (height - spec_band_start(height))
            + 3,
{
}

/// The caption is dark (30, 30, 30) with a light shadow exactly when the
/// band's average brightness is above 140, and light (245, 245, 245) with a
/// dark shadow otherwise.
pub proof fn lemma_caption_follows_brightness(avg_luma: int)
    ensures
        avg_luma > 140 ==> spec_caption_colors(avg_luma).text == (Rgba8 { r: 30, g: 30, b: 30, a: 255 }),
        avg_luma <= 140 ==> spec_caption_colors(avg_luma).text == (Rgba8 {
            r: 245,
            g: 245,
            b: 245,
            a: 255,
        }),
        avg_luma > 140 ==> spec_caption_colors(avg_luma).shadow.r == 255,
        avg_luma <= 140 ==> spec_caption_colors(avg_luma).shadow.r == 0,
{
}

/// The metadata file of a picture named with one `.jpg` or `.png` extension
/// and no other dot takes the extension's place: `p.jpg` and `p.png` both
/// give `p_metadata.tsv`.
#[verifier::spinoff_prover]
#[verifier::rlimit(30)]
pub proof fn lemma_metadata_path_replaces_extension(p: Seq<char>, ext: Seq<char>)
    requires
        ext == ".jpg"@ || ext == ".png"@,
        forall|k: int| 0 <= k < p.len() ==> p[k] != '.',
    ensures
        spec_metadata_path(p + ext) == p + "_metadata.tsv"@,
{
    reveal_strlit(".jpg");
    reveal_strlit(".png");
    reveal_strlit("_metadata.tsv");
    let jpg = ".jpg"@;
    let png = ".png"@;
    let rep = "_metadata.tsv"@;
    let out = p + ext;
    assert(out.subrange(p.len() as int, out.len() as int) =~= ext);
    assert(occurs_at(out, ext, p.len() as int));
    let result = p + rep;
    assert forall|k: int| 0 <= k < result.len() && result[k] == '.' implies k == p.len() + 9 by {
        if k >= p.len() {
            assert(result[k] == rep[k - p.len()]);
        }
    }
    if ext == jpg {
        lemma_replace_at_end(p, jpg, rep);
        assert forall|i: int| !occurs_at(result, png, i) by {
            if occurs_at(result, png, i) {
                assert(result.subrange(i, i + 4)[0] == result[i]);
                assert(result.subrange(i, i + 4)[1] == result[i + 1]);
                assert(result[i + 1] == rep[10]);
            }
        }
        lemma_replace_without_occurrence(result, png, rep);
    } else {
        assert forall|i: int| !occurs_at(out, jpg, i) by {
            if occurs_at(out, jpg, i) {
                assert(out.subrange(i, i + 4)[0] == out[i]);
                assert(out.subrange(i, i + 4)[1] == out[i + 1]);
                if i < p.len() {
                    assert(out[i] == p[i]);
                }
                assert(out[i + 1] == ext[1]);
            }
        }
        lemma_replace_without_occurrence(out, jpg, rep);
        lemma_replace_at_end(p, png, rep);
    }
}

} // verus!
