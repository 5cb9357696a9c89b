//! The text report of the `info` command: the file, the image header, the
//! animation, the first frame and the number of frames.

use vstd::prelude::*;
use crate::text::{decimal, push_decimal};

verus! {

/// The animation parameters of an image.
#[derive(Debug)]
pub struct AnimationSummary {
    pub tps_numerator: u32,
    pub tps_denominator: u32,
    pub num_loops: u32,
}

/// What the report shows of the first frame's header.
#[derive(Debug)]
pub struct FrameHeaderSummary {
    pub vardct: bool,
    pub width: u32,
    pub height: u32,
    pub num_passes: u32,
    pub num_lf_groups: u32,
    pub num_groups: u32,
    pub x_qm_scale: u32,
    pub b_qm_scale: u32,
}

/// What the report shows of a parsed image.
#[derive(Debug)]
pub struct InfoSummary {
    pub width: u32,
    pub height: u32,
    pub bits_per_sample: u32,
    pub grayscale: bool,
    pub xyb_encoded: bool,
    pub orientation: u32,
    pub extra_channels: u64,
    pub animation: Option<AnimationSummary>,
    pub first_frame: Option<FrameHeaderSummary>,
    pub total_frames: u64,
}

/// `"{label}{n}\n"`.
pub open spec fn number_line(label: Seq<char>, n: nat) -> Seq<char> {
    label + decimal(n) + "\n"@
}

/// The file's name and size and the heading of the image part.
pub open spec fn file_lines(file: Seq<char>, size: nat) -> Seq<char> {
    "File: "@ + file + "\n"@ + "Size: "@ + decimal(size) + " bytes\n"@ + "\n"@ + "Image:\n"@
}

/// The image's dimensions and bit depth.
pub open spec fn size_lines(info: InfoSummary) -> Seq<char> {
    "  Dimensions: "@ + decimal(info.width as nat) + "x"@ + decimal(info.height as nat) + "\n"@
        + "  Bit depth: "@ + decimal(info.bits_per_sample as nat) + " bits\n"@
}

/// The image's colour, whether it is XYB-encoded, its orientation and its
/// number of extra channels.
pub open spec fn colour_lines(info: InfoSummary) -> Seq<char> {
    "  Color: "@ + (if info.grayscale { "Grayscale"@ } else { "Color"@ }) + "\n"@
        + "  XYB encoded: "@ + (if info.xyb_encoded { "Yes"@ } else { "No"@ }) + "\n"@
        + number_line("  Orientation: "@, info.orientation as nat)
        + number_line("  Extra channels: "@, info.extra_channels as nat)
}

/// The file and image part of the report.
pub open spec fn image_section(file: Seq<char>, size: nat, info: InfoSummary) -> Seq<char> {
    file_lines(file, size) + size_lines(info) + colour_lines(info)
}

/// The animation part of the report, when the image is animated.
pub open spec fn animation_section(animation: Option<AnimationSummary>) -> Seq<char> {
    match animation {
        Some(a) => "\n"@ + "Animation:\n"@ + "  TPS: "@ + decimal(a.tps_numerator as nat) + "/"@
            + decimal(a.tps_denominator as nat) + "\n"@ + number_line("  Loops: "@, a.num_loops as nat),
        None => Seq::empty(),
    }
}

/// The first-frame part of the report, when there is a first keyframe.
pub open spec fn frame_section(frame: Option<FrameHeaderSummary>) -> Seq<char> {
    match frame {
        Some(f) => "\n"@ + "Frame 0:\n"@ + "  Encoding: "@ + (if f.vardct { "VarDCT"@ } else { "Modular"@ })
            + "\n"@ + "  Size: "@ + decimal(f.width as nat) + "x"@ + decimal(f.height as nat) + "\n"@
            + number_line("  Passes: "@, f.num_passes as nat) + number_line("  LF groups: "@, f.num_lf_groups as nat)
            + number_line("  Groups: "@, f.num_groups as nat) + if f.vardct {
            number_line("  X QM scale: "@, f.x_qm_scale as nat) + number_line("  B QM scale: "@, f.b_qm_scale as nat)
        } else {
            Seq::empty()
        },
        None => Seq::empty(),
    }
}

/// The frame count of the report, when there are several frames.
pub open spec fn total_section(total_frames: nat) -> Seq<char> {
    if total_frames > 1 { "\n"@ + number_line("Total frames: "@, total_frames) } else { Seq::empty() }
}

/// The text report of a file of `size` bytes.
pub open spec fn info_report(file: Seq<char>, size: nat, info: InfoSummary) -> Seq<char> {
    image_section(file, size, info) + animation_section(info.animation) + frame_section(info.first_frame)
        + total_section(info.total_frames as nat)
}

fn push_number_line(out: &mut String, label: &str, n: u64)
    ensures
        final(out)@ == old(out)@ + number_line(label@, n as nat),
{
    out.append(label);
    push_decimal(out, n);
    out.append("\n");
    assert(out@ =~= old(out)@ + number_line(label@, n as nat));
}

fn push_file_lines(out: &mut String, file: &str, size: u64)
    ensures
        final(out)@ == old(out)@ + file_lines(file@, size as nat),
{
    out.append("File: ");
    out.append(file);
    out.append("\n");
    out.append("Size: ");
    push_decimal(out, size);
    out.append(" bytes\n");
    out.append("\n");
    out.append("Image:\n");
    assert(out@ =~= old(out)@ + file_lines(file@, size as nat));
}

fn push_size_lines(out: &mut String, info: &InfoSummary)
    ensures
        final(out)@ == old(out)@ + size_lines(*info),
{
    out.append("  Dimensions: ");
    push_decimal(out, info.width as u64);
    out.append("x");
    push_decimal(out, info.height as u64);
    out.append("\n");
    out.append("  Bit depth: ");
    push_decimal(out, info.bits_per_sample as u64);
    out.append(" bits\n");
    assert(out@ =~= old(out)@ + size_lines(*info));
}

fn push_colour_lines(out: &mut String, info: &InfoSummary)
    ensures
        final(out)@ == old(out)@ + colour_lines(*info),
{
    out.append("  Color: ");
    if info.grayscale {
        out.append("Grayscale");
    } else {
        out.append("Color");
    }
    out.append("\n");
    out.append("  XYB encoded: ");
    if info.xyb_encoded {
        out.append("Yes");
    } else {
        out.append("No");
    }
    out.append("\n");
    push_number_line(out, "  Orientation: ", info.orientation as u64);
    push_number_line(out, "  Extra channels: ", info.extra_channels);
    assert(out@ =~= old(out)@ + colour_lines(*info));
}

fn push_image_section(out: &mut String, file: &str, size: u64, info: &InfoSummary)
    ensures
        final(out)@ == old(out)@ + image_section(file@, size as nat, *info),
{
    push_file_lines(out, file, size);
    push_size_lines(out, info);
    push_colour_lines(out, info);
    assert(out@ =~= old(out)@ + image_section(file@, size as nat, *info));
}

fn push_animation_section(out: &mut String, animation: &Option<AnimationSummary>)
    ensures
        final(out)@ == old(out)@ + animation_section(*animation),
{
    match animation {
        Some(a) => {
            out.append("\n");
            out.append("Animation:\n");
            out.append("  TPS: ");
            push_decimal(out, a.tps_numerator as u64);
            out.append("/");
            push_decimal(out, a.tps_denominator as u64);
            out.append("\n");
            push_number_line(out, "  Loops: ", a.num_loops as u64);
        },
        None => {},
    }
    assert(out@ =~= old(out)@ + animation_section(*animation));
}

fn push_frame_section(out: &mut String, frame: &Option<FrameHeaderSummary>)
    ensures
        final(out)@ == old(out)@ + frame_section(*frame),
{
    match frame {
        Some(f) => {
            out.append("\n");
            out.append("Frame 0:\n");
            out.append("  Encoding: ");
            if f.vardct {
                out.append("VarDCT");
            } else {
                out.append("Modular");
            }
            out.append("\n");
            out.append("  Size: ");
            push_decimal(out, f.width as u64);
            out.append("x");
            push_decimal(out, f.height as u64);
            out.append("\n");
            push_number_line(out, "  Passes: ", f.num_passes as u64);
            push_number_line(out, "  LF groups: ", f.num_lf_groups as u64);
            push_number_line(out, "  Groups: ", f.num_groups as u64);
            let ghost before_scales = out@;
            if f.vardct {
                push_number_line(out, "  X QM scale: ", f.x_qm_scale as u64);
                push_number_line(out, "  B QM scale: ", f.b_qm_scale as u64);
            }
            assert(out@ =~= before_scales + if f.vardct {
                number_line("  X QM scale: "@, f.x_qm_scale as nat) + number_line("  B QM scale: "@, f.b_qm_scale as nat)
            } else {
                Seq::empty()
            });
        },
        None => {},
    }
    assert(out@ =~= old(out)@ + frame_section(*frame));
}

/// The text report of the `info` command for a file of `size` bytes, up to
/// the VarDCT statistics: the file and its size, the image header, the
/// animation when there is one, the first keyframe's header (with its
/// quantisation scales when it is VarDCT) and the number of frames when
/// there are several.
pub fn info_text(file: &str, size: u64, info: &InfoSummary) -> (r: String)
    ensures
        r@ == info_report(file@, size as nat, *info),
{
    let mut out = String::new();
    push_image_section(&mut out, file, size, info);
    push_animation_section(&mut out, &info.animation);
    push_frame_section(&mut out, &info.first_frame);
    let ghost before_total = out@;
    if info.total_frames > 1 {
        out.append("\n");
        push_number_line(&mut out, "Total frames: ", info.total_frames);
    }
    assert(out@ =~= before_total + total_section(info.total_frames as nat));
    assert(out@ =~= info_report(file@, size as nat, *info));
    out
}


/// `line` stands somewhere in `text`.
pub open spec fn has_line(text: Seq<char>, line: Seq<char>) -> bool {
    exists|i: int| 0 <= i && i + line.len() <= text.len() && #[trigger] text.subrange(i, i + line.len()) == line
}

proof fn lemma_infix(p: Seq<char>, x: Seq<char>, q: Seq<char>)
    ensures
        has_line(p + x + q, x),
{
    let t = p + x + q;
    assert(t.subrange(p.len() as int, p.len() + x.len() as int) =~= x);
}

/// A line of a part stands in any text around that part.
proof fn lemma_line_within(p: Seq<char>, x: Seq<char>, q: Seq<char>, line: Seq<char>)
    requires
        has_line(x, line),
    ensures
        has_line(p + x + q, line),
{
    let i = choose|i: int| 0 <= i && i + line.len() <= x.len() && #[trigger] x.subrange(i, i + line.len()) == line;
    let t = p + x + q;
    assert(t.subrange(p.len() + i, p.len() + i + line.len()) =~= x.subrange(i, i + line.len()));
}

proof fn lemma_frame_section_lines(f: FrameHeaderSummary)
    ensures
        ({
            let r = frame_section(Some(f));
            &&& has_line(r, "  Size: "@ + decimal(f.width as nat) + "x"@ + decimal(f.height as nat) + "\n"@)
            &&& has_line(r, number_line("  Passes: "@, f.num_passes as nat))
            &&& has_line(r, number_line("  LF groups: "@, f.num_lf_groups as nat))
            &&& has_line(r, number_line("  Groups: "@, f.num_groups as nat))
            &&& f.vardct ==> has_line(r, number_line("  X QM scale: "@, f.x_qm_scale as nat))
            &&& f.vardct ==> has_line(r, number_line("  B QM scale: "@, f.b_qm_scale as nat))
        }),
{
    let r = frame_section(Some(f));
    let intro = "\n"@ + "Frame 0:\n"@ + "  Encoding: "@ + (if f.vardct { "VarDCT"@ } else { "Modular"@ }) + "\n"@;
    let size_line = "  Size: "@ + decimal(f.width as nat) + "x"@ + decimal(f.height as nat) + "\n"@;
    let passes = number_line("  Passes: "@, f.num_passes as nat);
    let lf = number_line("  LF groups: "@, f.num_lf_groups as nat);
    let groups = number_line("  Groups: "@, f.num_groups as nat);
    let xq = number_line("  X QM scale: "@, f.x_qm_scale as nat);
    let bq = number_line("  B QM scale: "@, f.b_qm_scale as nat);
    let scales = if f.vardct { xq + bq } else { Seq::empty() };
    assert(r =~= intro + size_line + (passes + lf + groups + scales));
    lemma_infix(intro, size_line, passes + lf + groups + scales);
    assert(r =~= (intro + size_line) + passes + (lf + groups + scales));
    lemma_infix(intro + size_line, passes, lf + groups + scales);
    assert(r =~= (intro + size_line + passes) + lf + (groups + scales));
    lemma_infix(intro + size_line + passes, lf, groups + scales);
    assert(r =~= (intro + size_line + passes + lf) + groups + scales);
    lemma_infix(intro + size_line + passes + lf, groups, scales);
    if f.vardct {
        let pre = intro + size_line + passes + lf + groups;
        assert(r =~= pre + xq + bq);
        lemma_infix(pre, xq, bq);
        assert(r =~= (pre + xq) + bq + Seq::<char>::empty());
        lemma_infix(pre + xq, bq, Seq::<char>::empty());
    }
}

/// The report of an image with a first keyframe shows that frame's own
/// numbers, each on its labelled line: its size, passes, LF groups and
/// groups, and for a VarDCT frame its two quantisation scales.
pub proof fn lemma_frame_lines(file: Seq<char>, size: nat, info: InfoSummary)
    requires
        info.first_frame is Some,
    ensures
        ({
            let r = info_report(file, size, info);
            let f = info.first_frame->0;
            &&& has_line(r, "  Size: "@ + decimal(f.width as nat) + "x"@ + decimal(f.height as nat) + "\n"@)
            &&& has_line(r, "  Passes: "@ + decimal(f.num_passes as nat) + "\n"@)
            &&& has_line(r, "  LF groups: "@ + decimal(f.num_lf_groups as nat) + "\n"@)
            &&& has_line(r, "  Groups: "@ + decimal(f.num_groups as nat) + "\n"@)
            &&& f.vardct ==> has_line(r, "  X QM scale: "@ + decimal(f.x_qm_scale as nat) + "\n"@)
            &&& f.vardct ==> has_line(r, "  B QM scale: "@ + decimal(f.b_qm_scale as nat) + "\n"@)
        }),
{
    let f = info.first_frame->0;
    let head = image_section(file, size, info) + animation_section(info.animation);
    let fs = frame_section(info.first_frame);
    let tail = total_section(info.total_frames as nat);
    lemma_frame_section_lines(f);
    let lines = seq![
        "  Size: "@ + decimal(f.width as nat) + "x"@ + decimal(f.height as nat) + "\n"@,
        number_line("  Passes: "@, f.num_passes as nat),
        number_line("  LF groups: "@, f.num_lf_groups as nat),
        number_line("  Groups: "@, f.num_groups as nat),
        number_line("  X QM scale: "@, f.x_qm_scale as nat),
        number_line("  B QM scale: "@, f.b_qm_scale as nat),
    ];
    assert forall|k: int| 0 <= k < 6 && (k < 4 || f.vardct) implies has_line(head + fs + tail, #[trigger] lines[k]) by {
        lemma_line_within(head, fs, tail, lines[k]);
    }
    assert(has_line(head + fs + tail, lines[0]));
    assert(has_line(head + fs + tail, lines[1]));
    assert(has_line(head + fs + tail, lines[2]));
    assert(has_line(head + fs + tail, lines[3]));
    if f.vardct {
        assert(has_line(head + fs + tail, lines[4]));
        assert(has_line(head + fs + tail, lines[5]));
    }
}


proof fn lemma_image_section_lines(file: Seq<char>, size: nat, info: InfoSummary)
    ensures
        ({
            let r = image_section(file, size, info);
            &&& has_line(r, "File: "@ + file + "\n"@)
            &&& has_line(r, "Size: "@ + decimal(size) + " bytes\n"@)
            &&& has_line(r, "  Dimensions: "@ + decimal(info.width as nat) + "x"@ + decimal(info.height as nat) + "\n"@)
            &&& has_line(r, "  Bit depth: "@ + decimal(info.bits_per_sample as nat) + " bits\n"@)
            &&& has_line(r, "  Color: "@ + (if info.grayscale { "Grayscale"@ } else { "Color"@ }) + "\n"@)
            &&& has_line(r, "  XYB encoded: "@ + (if info.xyb_encoded { "Yes"@ } else { "No"@ }) + "\n"@)
            &&& has_line(r, number_line("  Orientation: "@, info.orientation as nat))
            &&& has_line(r, number_line("  Extra channels: "@, info.extra_channels as nat))
        }),
{
    let e = Seq::<char>::empty();
    let f1 = "File: "@ + file + "\n"@;
    let f2 = "Size: "@ + decimal(size) + " bytes\n"@;
    let f3 = "\n"@ + "Image:\n"@;
    let s1 = "  Dimensions: "@ + decimal(info.width as nat) + "x"@ + decimal(info.height as nat) + "\n"@;
    let s2 = "  Bit depth: "@ + decimal(info.bits_per_sample as nat) + " bits\n"@;
    let c1 = "  Color: "@ + (if info.grayscale { "Grayscale"@ } else { "Color"@ }) + "\n"@;
    let c2 = "  XYB encoded: "@ + (if info.xyb_encoded { "Yes"@ } else { "No"@ }) + "\n"@;
    let c3 = number_line("  Orientation: "@, info.orientation as nat);
    let c4 = number_line("  Extra channels: "@, info.extra_channels as nat);
    let fl = file_lines(file, size);
    let sl = size_lines(info);
    let cl = colour_lines(info);
    assert(fl =~= e + f1 + (f2 + f3));
    lemma_infix(e, f1, f2 + f3);
    assert(fl =~= f1 + f2 + f3);
    lemma_infix(f1, f2, f3);
    assert(sl =~= e + s1 + s2);
    lemma_infix(e, s1, s2);
    assert(sl =~= s1 + s2 + e);
    lemma_infix(s1, s2, e);
    assert(cl =~= e + c1 + (c2 + c3 + c4));
    lemma_infix(e, c1, c2 + c3 + c4);
    assert(cl =~= c1 + c2 + (c3 + c4));
    lemma_infix(c1, c2, c3 + c4);
    assert(cl =~= (c1 + c2) + c3 + c4);
    lemma_infix(c1 + c2, c3, c4);
    assert(cl =~= (c1 + c2 + c3) + c4 + e);
    lemma_infix(c1 + c2 + c3, c4, e);
    let r = image_section(file, size, info);
    assert(r == e + fl + (sl + cl));
    lemma_line_within(e, fl, sl + cl, f1);
    lemma_line_within(e, fl, sl + cl, f2);
    assert(r =~= fl + sl + cl);
    lemma_line_within(fl, sl, cl, s1);
    lemma_line_within(fl, sl, cl, s2);
    assert(r =~= (fl + sl) + cl + e);
    lemma_line_within(fl + sl, cl, e, c1);
    lemma_line_within(fl + sl, cl, e, c2);
    lemma_line_within(fl + sl, cl, e, c3);
    lemma_line_within(fl + sl, cl, e, c4);
}

/// The report shows the file, its size and the image header's own values,
/// each on its labelled line: dimensions, bit depth, colour, XYB encoding,
/// orientation and number of extra channels; for an animation its ticks per
/// second and loops; and the number of frames when there are several.
pub proof fn lemma_image_lines(file: Seq<char>, size: nat, info: InfoSummary)
    ensures
        ({
            let r = info_report(file, size, info);
            &&& has_line(r, "File: "@ + file + "\n"@)
            &&& has_line(r, "Size: "@ + decimal(size) + " bytes\n"@)
            &&& has_line(r, "  Dimensions: "@ + decimal(info.width as nat) + "x"@ + decimal(info.height as nat) + "\n"@)
            &&& has_line(r, "  Bit depth: "@ + decimal(info.bits_per_sample as nat) + " bits\n"@)
            &&& has_line(r, "  Color: "@ + (if info.grayscale { "Grayscale"@ } else { "Color"@ }) + "\n"@)
            &&& has_line(r, "  XYB encoded: "@ + (if info.xyb_encoded { "Yes"@ } else { "No"@ }) + "\n"@)
            &&& has_line(r, "  Orientation: "@ + decimal(info.orientation as nat) + "\n"@)
            &&& has_line(r, "  Extra channels: "@ + decimal(info.extra_channels as nat) + "\n"@)
            &&& info.animation matches Some(a) ==> has_line(
                r,
                "  TPS: "@ + decimal(a.tps_numerator as nat) + "/"@ + decimal(a.tps_denominator as nat) + "\n"@,
            )
            &&& info.animation matches Some(a) ==> has_line(r, "  Loops: "@ + decimal(a.num_loops as nat) + "\n"@)
            &&& info.total_frames > 1 ==> has_line(r, "Total frames: "@ + decimal(info.total_frames as nat) + "\n"@)
        }),
{
    let e = Seq::<char>::empty();
    let is = image_section(file, size, info);
    let an = animation_section(info.animation);
    let fs = frame_section(info.first_frame);
    let tt = total_section(info.total_frames as nat);
    let r = info_report(file, size, info);
    lemma_image_section_lines(file, size, info);
    assert(r == e + is + (an + fs + tt));
    let lines = seq![
        "File: "@ + file + "\n"@,
        "Size: "@ + decimal(size) + " bytes\n"@,
        "  Dimensions: "@ + decimal(info.width as nat) + "x"@ + decimal(info.height as nat) + "\n"@,
        "  Bit depth: "@ + decimal(info.bits_per_sample as nat) + " bits\n"@,
        "  Color: "@ + (if info.grayscale { "Grayscale"@ } else { "Color"@ }) + "\n"@,
        "  XYB encoded: "@ + (if info.xyb_encoded { "Yes"@ } else { "No"@ }) + "\n"@,
        number_line("  Orientation: "@, info.orientation as nat),
        number_line("  Extra channels: "@, info.extra_channels as nat),
    ];
    assert forall|k: int| 0 <= k < 8 implies has_line(r, #[trigger] lines[k]) by {
        lemma_line_within(e, is, an + fs + tt, lines[k]);
    }
    assert(has_line(r, lines[0]) && has_line(r, lines[1]) && has_line(r, lines[2]) && has_line(r, lines[3]));
    assert(has_line(r, lines[4]) && has_line(r, lines[5]) && has_line(r, lines[6]) && has_line(r, lines[7]));
    if info.animation is Some {
        let a = info.animation->0;
        let tps = "  TPS: "@ + decimal(a.tps_numerator as nat) + "/"@ + decimal(a.tps_denominator as nat) + "\n"@;
        let loops = number_line("  Loops: "@, a.num_loops as nat);
        let intro = "\n"@ + "Animation:\n"@;
        assert(an =~= intro + tps + loops);
        lemma_infix(intro, tps, loops);
        assert(an =~= (intro + tps) + loops + e);
        lemma_infix(intro + tps, loops, e);
        assert(r =~= is + an + (fs + tt));
        lemma_line_within(is, an, fs + tt, tps);
        lemma_line_within(is, an, fs + tt, loops);
    }
    if info.total_frames > 1 {
        let line = number_line("Total frames: "@, info.total_frames as nat);
        assert(tt =~= "\n"@ + line + e);
        lemma_infix("\n"@, line, e);
        assert(r =~= (is + an + fs) + tt + e);
        lemma_line_within(is + an + fs, tt, e, line);
    }
}

} // verus!
