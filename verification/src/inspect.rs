//! The `inspect` command: annotate a file and lay out what its output
//! directory holds.

use vstd::prelude::*;
use crate::annotator::{
    annotate_file, channel_count_fits, is_basic_layout, is_frames_info, is_image_info, opt_text_is,
    spec_hex_bytes, spec_sha256, AnnotateOptions, AnnotationResult, ImageSummary,
};
use crate::model::Checkpoint;
use crate::output::{is_segment_ref, with_segment_files};
use crate::stats::VarDctStats;
use crate::text::{decimal, push_decimal};
use crate::info::has_line;

verus! {

/// The options of an `inspect` run.
pub fn inspect_options(
    include_ans: bool,
    include_checkpoints: bool,
    max_depth: usize,
    frame_filter: Option<&[u32]>,
) -> (r: AnnotateOptions)
    ensures
        r.include_ans == include_ans,
        r.include_checkpoints == include_checkpoints,
        r.max_depth == max_depth,
        match frame_filter {
            Some(f) => r.frame_filter matches Some(v) && v@ == f@,
            None => r.frame_filter is None,
        },
{
    let frame_filter = match frame_filter {
        Some(f) => Some(vstd::slice::slice_to_vec(f)),
        None => None,
    };
    AnnotateOptions { include_ans, include_checkpoints, max_depth, frame_filter }
}

/// Run the inspect command on a file, given its path, its bytes and what was
/// parsed of it: the annotation of the file, with the manifest listing the
/// file of each segment as the output directory holds them.
pub fn run_inspect(
    source_file: String,
    data: &[u8],
    image: &ImageSummary,
    include_ans: bool,
    include_checkpoints: bool,
    max_depth: usize,
    frame_filter: Option<&[u32]>,
    tool_version: &str,
) -> (r: AnnotationResult)
    requires
        channel_count_fits(*image),
    ensures
        r.manifest.version == 1,
        r.manifest.tool@ == "jxl-annotate "@ + tool_version@,
        r.manifest.source_file == source_file,
        r.manifest.source_size == data@.len(),
        opt_text_is(r.manifest.source_sha256, spec_hex_bytes(spec_sha256(data@))),
        is_image_info(r.manifest.image, *image),
        is_frames_info(r.manifest.frames@, *image),
        is_basic_layout(r.segments@, *image),
        r.manifest.segment_files@.len() == r.segments@.len(),
        forall|i: int| 0 <= i < r.segments@.len() ==>
            is_segment_ref(#[trigger] r.manifest.segment_files@[i], r.segments@[i]),
        r.manifest.source_sha256 matches Some(h) && h@.len() == 64,
        r.checkpoints@ == (if include_checkpoints {
            image.decoded_checkpoints@
        } else {
            Seq::<Checkpoint>::empty()
        }),
        r.vardct_annotations@.len() == 0,
{
    let options = inspect_options(include_ans, include_checkpoints, max_depth, frame_filter);
    let result = annotate_file(source_file, data, image, &options, tool_version);
    with_segment_files(result)
}

/// The share of `count` in `total`, in percent, rounded to the nearest
/// whole number (halves up).
pub open spec fn share_percent(count: nat, total: nat) -> nat {
    (200 * count + total) / (2 * total)
}

/// The `Nf` part of a summary: the number of frames, when there are several.
pub open spec fn frames_text(frames: nat) -> Seq<char> {
    if frames > 1 { " "@ + decimal(frames) + "f"@ } else { Seq::empty() }
}

/// The most frequent DCT type and its share, when there are blocks.
pub open spec fn top_type_text(stats: VarDctStats) -> Seq<char> {
    if stats.dct_types@.len() > 0 && stats.total_blocks > 0 {
        " "@ + stats.dct_types@[0].dct_type@ + ":"@
            + decimal(share_percent(stats.dct_types@[0].count as nat, stats.total_blocks as nat)) + "%"@
    } else {
        Seq::empty()
    }
}

/// The encoding of the first keyframe, when there is one.
pub open spec fn encoding_text(image: ImageSummary) -> Seq<char> {
    match image.first_keyframe {
        Some(f) => if f.vardct { " VarDCT"@ } else { " Modular"@ },
        None => Seq::empty(),
    }
}

/// The one-line summary of a file, such as
/// `photo.jxl: 2048x2560 8bit color VarDCT 30136blk Dct8:30% 388268B`.
pub open spec fn summary_text(file: Seq<char>, image: ImageSummary, frames: nat, stats: VarDctStats, size: nat) -> Seq<char> {
    file + ": "@ + decimal(image.width as nat) + "x"@ + decimal(image.height as nat) + " "@
        + decimal(image.bits_per_sample as nat) + "bit "@ + (if image.grayscale { "gray"@ } else { "color"@ })
        + encoding_text(image) + frames_text(frames) + " "@ + decimal(stats.total_blocks as nat) + "blk"@
        + top_type_text(stats) + " "@ + decimal(size) + "B"@
}

/// The one-line summary of a file for scripting: its name, dimensions, bit
/// depth, colour, encoding, number of frames (when several), number of
/// VarDCT blocks, most frequent DCT type with its share, and size in bytes.
pub fn summary_line(file: &str, image: &ImageSummary, frames: usize, stats: &VarDctStats, size: u64) -> (r: String)
    ensures
        r@ == summary_text(file@, *image, frames as nat, *stats, size as nat),
{
    let mut out = String::from_str(file);
    out.append(": ");
    push_decimal(&mut out, image.width as u64);
    out.append("x");
    push_decimal(&mut out, image.height as u64);
    out.append(" ");
    push_decimal(&mut out, image.bits_per_sample as u64);
    out.append("bit ");
    if image.grayscale {
        out.append("gray");
    } else {
        out.append("color");
    }
    let ghost before_encoding = out@;
    match &image.first_keyframe {
        Some(f) => {
            if f.vardct {
                out.append(" VarDCT");
            } else {
                out.append(" Modular");
            }
        },
        None => {},
    }
    assert(out@ =~= before_encoding + encoding_text(*image));
    let ghost before_frames = out@;
    if frames > 1 {
        out.append(" ");
        push_decimal(&mut out, frames as u64);
        out.append("f");
    }
    assert(out@ =~= before_frames + frames_text(frames as nat));
    out.append(" ");
    push_decimal(&mut out, stats.total_blocks as u64);
    out.append("blk");
    let ghost before_top = out@;
    if stats.dct_types.len() > 0 && stats.total_blocks > 0 {
        let top = &stats.dct_types[0];
        let count = top.count as u64;
        let total = stats.total_blocks as u64;
        assert(200 * count + total <= u64::MAX) by (nonlinear_arith)
            requires count <= u32::MAX, total <= u32::MAX;
        let pct = (200 * count + total) / (2 * total);
        out.append(" ");
        out.append(top.dct_type.as_str());
        out.append(":");
        push_decimal(&mut out, pct);
        out.append("%");
    }
    assert(out@ =~= before_top + top_type_text(*stats));
    out.append(" ");
    push_decimal(&mut out, size);
    out.append("B");
    out
}


/// A share in percent is the whole number nearest to `100 * count / total`
/// (halves rounded up): twice the distance from the exact share is at most
/// one, and exactly one only when rounding up.
pub proof fn lemma_share_percent_nearest(count: nat, total: nat)
    requires
        total > 0,
    ensures
        2 * total * share_percent(count, total) <= 200 * count + total,
        200 * count + total < 2 * total * share_percent(count, total) + 2 * total,
        count <= total ==> share_percent(count, total) <= 100,
{
    let x = 200 * count + total;
    let d = 2 * total;
    let q = x / d;
    assert(q == share_percent(count, total));
    assert(x == d * q + x % d && 0 <= x % d < d) by (nonlinear_arith)
        requires d > 0, q == x / d;
    if count <= total {
        assert(q <= 100) by (nonlinear_arith)
            requires x == d * q + x % d, 0 <= x % d, x == 200 * count + total, d == 2 * total, count <= total, total > 0;
    }
}

proof fn lemma_text_infix(p: Seq<char>, x: Seq<char>, q: Seq<char>)
    ensures
        has_line(p + x + q, x),
{
    let t = p + x + q;
    assert(t.subrange(p.len() as int, p.len() + x.len() as int) =~= x);
}

/// The one-line summary begins with the file's name, its dimensions, bit
/// depth and colour, ends with its size in bytes, and shows its number of
/// blocks, the first keyframe's encoding, the number of frames when there
/// are several, and the most frequent DCT type with its share.
pub proof fn lemma_summary_fields(file: Seq<char>, image: ImageSummary, frames: nat, stats: VarDctStats, size: nat)
    ensures
        ({
            let r = summary_text(file, image, frames, stats, size);
            let head = file + ": "@ + decimal(image.width as nat) + "x"@ + decimal(image.height as nat) + " "@
                + decimal(image.bits_per_sample as nat) + "bit "@ + (if image.grayscale { "gray"@ } else { "color"@ });
            let tail = " "@ + decimal(size) + "B"@;
            &&& r.len() >= head.len() + tail.len()
            &&& r.take(head.len() as int) == head
            &&& r.skip(r.len() - tail.len()) == tail
            &&& has_line(r, " "@ + decimal(stats.total_blocks as nat) + "blk"@)
            &&& frames > 1 ==> has_line(r, " "@ + decimal(frames) + "f"@)
            &&& image.first_keyframe matches Some(f) ==> has_line(r, if f.vardct { " VarDCT"@ } else { " Modular"@ })
            &&& stats.dct_types@.len() > 0 && stats.total_blocks > 0 ==> has_line(
                r,
                " "@ + stats.dct_types@[0].dct_type@ + ":"@ + decimal(
                    share_percent(stats.dct_types@[0].count as nat, stats.total_blocks as nat),
                ) + "%"@,
            )
        }),
{
    let r = summary_text(file, image, frames, stats, size);
    let head = file + ": "@ + decimal(image.width as nat) + "x"@ + decimal(image.height as nat) + " "@
        + decimal(image.bits_per_sample as nat) + "bit "@ + (if image.grayscale { "gray"@ } else { "color"@ });
    let enc = encoding_text(image);
    let fr = frames_text(frames);
    let blk = " "@ + decimal(stats.total_blocks as nat) + "blk"@;
    let top = top_type_text(stats);
    let tail = " "@ + decimal(size) + "B"@;
    assert(r =~= head + (enc + fr + blk + top) + tail);
    assert(r.take(head.len() as int) =~= head);
    assert(r.skip(r.len() - tail.len()) =~= tail);
    assert(r =~= (head + enc + fr) + blk + (top + tail));
    lemma_text_infix(head + enc + fr, blk, top + tail);
    if frames > 1 {
        assert(r =~= (head + enc) + fr + (blk + top + tail));
        lemma_text_infix(head + enc, fr, blk + top + tail);
    }
    if image.first_keyframe is Some {
        assert(r =~= head + enc + (fr + blk + top + tail));
        lemma_text_infix(head, enc, fr + blk + top + tail);
    }
    if stats.dct_types@.len() > 0 && stats.total_blocks > 0 {
        assert(r =~= (head + enc + fr + blk) + top + tail);
        lemma_text_infix(head + enc + fr + blk, top, tail);
    }
}

} // verus!
