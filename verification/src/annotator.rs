//! Core annotation logic for JXL bitstreams: the manifest of a file, its
//! basic segment structure, and the digest that identifies it.

use vstd::prelude::*;
use sha2::Digest;
use crate::model::{
    AnnotatedValue, Annotation, AnnotationManifest, Checkpoint, CheckpointStats, EncodingType, FrameInfo,
    HfMetadataAnnotation, ImageInfo, Segment, SegmentKind, VarBlockAnnotation,
};
use crate::text::hex_digit_char;

verus! {

/// The SHA-256 digest of a byte sequence.
pub uninterp spec fn spec_sha256(data: Seq<u8>) -> Seq<u8>;

/// Calls `sha2::Sha256::digest`; the digest is named by `spec_sha256`, a
/// function of the bytes alone, and has the 32 bytes of a SHA-256 output.
#[verifier::external_body]
fn sha256_digest(data: &[u8]) -> (r: Vec<u8>)
    ensures
        r@ == spec_sha256(data@),
        r@.len() == 32,
{
    sha2::Sha256::digest(data).to_vec()
}

/// Lowercase hexadecimal text of bytes, two digits per byte, high digit
/// first.
pub open spec fn spec_hex_bytes(data: Seq<u8>) -> Seq<char>
    decreases data.len(),
{
    if data.len() == 0 {
        Seq::empty()
    } else {
        spec_hex_bytes(data.drop_last()) + seq![
            hex_digit_char((data.last() / 16) as nat),
            hex_digit_char((data.last() % 16) as nat),
        ]
    }
}

/// Two hexadecimal digits per byte.
proof fn lemma_hex_bytes_len(data: Seq<u8>)
    ensures
        spec_hex_bytes(data).len() == 2 * data.len(),
    decreases data.len(),
{
    if data.len() > 0 {
        lemma_hex_bytes_len(data.drop_last());
    }
}

/// Calls `hex::encode`, which writes each byte as two lowercase hexadecimal
/// digits, high digit first.
#[verifier::external_body]
fn hex_encode(data: &[u8]) -> (r: String)
    ensures
        r@ == spec_hex_bytes(data@),
{
    hex::encode(data)
}

/// Options for annotation.
#[derive(Debug)]
pub struct AnnotateOptions {
    pub include_ans: bool,
    pub include_checkpoints: bool,
    pub max_depth: usize,
    pub frame_filter: Option<Vec<u32>>,
}

impl Default for AnnotateOptions {
    fn default() -> (r: Self)
        ensures
            !r.include_ans,
            !r.include_checkpoints,
            r.max_depth == 10,
            r.frame_filter is None,
    {
        Self { include_ans: false, include_checkpoints: false, max_depth: 10, frame_filter: None }
    }
}

/// What annotation reads of a frame header.
#[derive(Debug)]
pub struct FrameSummary {
    /// Whether the frame is VarDCT-encoded (otherwise Modular)
    pub vardct: bool,
    pub width: u32,
    pub height: u32,
    pub num_lf_groups: u32,
    pub num_passes: u32,
    pub num_groups: u32,
}

/// The per-block VarDCT data of one keyframe, as far as the decoder
/// exposes it.
#[derive(Debug)]
pub struct KeyframeBlocks {
    /// Whether the keyframe is VarDCT-encoded
    pub vardct: bool,
    /// Its varblocks, in decoding order
    pub varblocks: Vec<VarBlockAnnotation>,
}

/// What annotation reads of a parsed image: its header, the header of its
/// first keyframe, if it has one, the block data of each keyframe, and the
/// values that decoding captured at the checkpoints of its pipeline.
#[derive(Debug)]
pub struct ImageSummary {
    pub width: u32,
    pub height: u32,
    pub bits_per_sample: u32,
    pub grayscale: bool,
    /// For each extra channel, whether it is an alpha channel
    pub extra_channel_is_alpha: Vec<bool>,
    pub first_keyframe: Option<FrameSummary>,
    /// For each keyframe, in order, its block data
    pub keyframe_blocks: Vec<KeyframeBlocks>,
    /// The checkpoints captured while decoding, in order
    pub decoded_checkpoints: Vec<Checkpoint>,
}

/// Result of annotating a JXL file.
#[derive(Debug)]
pub struct AnnotationResult {
    pub manifest: AnnotationManifest,
    pub segments: Vec<Segment>,
    pub checkpoints: Vec<Checkpoint>,
    pub vardct_annotations: Vec<HfMetadataAnnotation>,
}

/// An optional string holding exactly the given characters.
pub open spec fn opt_text_is(s: Option<String>, t: Seq<char>) -> bool {
    s matches Some(x) && x@ == t
}

/// The signature annotation: the 16 bits `0x0AFF` at the start.
pub open spec fn is_signature_annotation(a: Annotation) -> bool {
    &&& a.bit_start == 0
    &&& a.bit_length == 16
    &&& a.path@ == Seq::<char>::empty()
    &&& a.field_name@ == "signature"@
    &&& a.value == AnnotatedValue::U32(0x0AFF)
    &&& a.encoding == EncodingType::Bits { n: 16 }
    &&& opt_text_is(a.spec_ref, "ISO 18181-1:2022 A.4.1"@)
    &&& a.decoder_location is None
}

/// The first image header annotation: the `div8` bit of the size.
pub open spec fn is_div8_annotation(a: Annotation) -> bool {
    &&& a.bit_start == 16
    &&& a.bit_length == 1
    &&& a.path@ == "ImageHeader.size"@
    &&& a.field_name@ == "div8"@
    &&& a.value == AnnotatedValue::Bool(false)
    &&& a.encoding == EncodingType::Bool
    &&& opt_text_is(a.spec_ref, "ISO 18181-1:2022 A.4.2"@)
    &&& a.decoder_location is None
}

/// A segment with the given ranges and no annotations or children.
pub open spec fn is_bare_segment(s: Segment, byte_range: (u64, u64), bit_range: (u64, u64)) -> bool {
    &&& s.byte_range == byte_range
    &&& s.bit_range == bit_range
    &&& s.annotations@.len() == 0
    &&& s.children@.len() == 0
}

/// The name of a frame encoding.
pub open spec fn encoding_name(vardct: bool) -> Seq<char> {
    if vardct { "VarDct"@ } else { "Modular"@ }
}

/// Number of segments that `create_basic_segments` lays out for an image.
pub open spec fn basic_segment_count(image: ImageSummary) -> nat {
    2 + match image.first_keyframe {
        None => 0,
        Some(f) => 1 + if f.vardct {
            f.num_lf_groups as nat + f.num_passes as nat * f.num_groups as nat
        } else {
            0
        },
    }
}

/// The basic segment structure of an image: the signature with its
/// annotation, the image header with its first annotation, then for the
/// first keyframe its header, and, when it is VarDCT, the metadata segment of
/// each LF group and the coefficient segment of each group in each pass
/// (pass by pass).
pub open spec fn is_basic_layout(r: Seq<Segment>, image: ImageSummary) -> bool {
    &&& r.len() == basic_segment_count(image)
    &&& r[0].kind == SegmentKind::Signature
    &&& r[0].byte_range == (0u64, 2u64)
    &&& r[0].bit_range == (0u64, 16u64)
    &&& r[0].annotations@.len() == 1
    &&& is_signature_annotation(r[0].annotations@[0])
    &&& r[0].children@.len() == 0
    &&& r[1].kind == SegmentKind::ImageHeader
    &&& r[1].byte_range == (2u64, 0u64)
    &&& r[1].bit_range == (16u64, 0u64)
    &&& r[1].annotations@.len() == 1
    &&& is_div8_annotation(r[1].annotations@[0])
    &&& r[1].children@.len() == 0
    &&& image.first_keyframe matches Some(f) ==> {
        &&& r[2].kind matches SegmentKind::FrameHeader { frame_idx, encoding }
            && frame_idx == 0 && encoding@ == encoding_name(f.vardct)
        &&& is_bare_segment(r[2], (0, 0), (0, 0))
        &&& f.vardct ==> forall|i: int| 0 <= i < f.num_lf_groups ==> {
            &&& #[trigger] r[3 + i].kind == SegmentKind::HfMetadata { frame_idx: 0, lf_group_idx: i as u32 }
            &&& is_bare_segment(r[3 + i], (0, 0), (0, 0))
        }
        &&& f.vardct ==> forall|k: int| 0 <= k < f.num_passes as nat * f.num_groups as nat ==> {
            &&& #[trigger] r[3 + f.num_lf_groups + k].kind == SegmentKind::HfCoeff {
                frame_idx: 0,
                pass_idx: (k / f.num_groups as int) as u32,
                group_idx: (k % f.num_groups as int) as u32,
                ans_symbols_file: None,
            }
            &&& is_bare_segment(r[3 + f.num_lf_groups + k], (0, 0), (0, 0))
        }
    }
}

/// A segment of the given kind with empty ranges, annotations and children.
fn bare_segment(kind: SegmentKind) -> (r: Segment)
    ensures
        r.kind == kind,
        is_bare_segment(r, (0, 0), (0, 0)),
{
    Segment { kind, byte_range: (0, 0), bit_range: (0, 0), annotations: Vec::new(), children: Vec::new() }
}

/// Create basic segment structure from parsed image.
pub fn create_basic_segments(image: &ImageSummary, _options: &AnnotateOptions) -> (r: Vec<Segment>)
    ensures
        is_basic_layout(r@, *image),
{
    let mut segments: Vec<Segment> = Vec::new();

    // Signature segment
    let mut sig_annotations: Vec<Annotation> = Vec::new();
    sig_annotations.push(Annotation {
        bit_start: 0,
        bit_length: 16,
        path: String::new(),
        field_name: String::from_str("signature"),
        value: AnnotatedValue::U32(0x0AFF),
        encoding: EncodingType::Bits { n: 16 },
        spec_ref: Some(String::from_str("ISO 18181-1:2022 A.4.1")),
        decoder_location: None,
    });
    segments.push(Segment {
        kind: SegmentKind::Signature,
        byte_range: (0, 2),
        bit_range: (0, 16),
        annotations: sig_annotations,
        children: Vec::new(),
    });

    // ImageHeader segment
    let mut header_annotations: Vec<Annotation> = Vec::new();
    header_annotations.push(Annotation {
        bit_start: 16,
        bit_length: 1,
        path: String::from_str("ImageHeader.size"),
        field_name: String::from_str("div8"),
        value: AnnotatedValue::Bool(false),
        encoding: EncodingType::Bool,
        spec_ref: Some(String::from_str("ISO 18181-1:2022 A.4.2")),
        decoder_location: None,
    });
    segments.push(Segment {
        kind: SegmentKind::ImageHeader,
        byte_range: (2, 0),
        bit_range: (16, 0),
        annotations: header_annotations,
        children: Vec::new(),
    });

    // Frame segments
    if let Some(frame) = &image.first_keyframe {
        let encoding = if frame.vardct {
            String::from_str("VarDct")
        } else {
            String::from_str("Modular")
        };
        segments.push(bare_segment(SegmentKind::FrameHeader { frame_idx: 0, encoding }));

        // If VarDCT, add HfMetadata segments
        if frame.vardct {
            let nl = frame.num_lf_groups;
            let mut lf_group_idx: u32 = 0;
            while lf_group_idx < nl
                invariant
                    nl == frame.num_lf_groups,
                    image.first_keyframe == Some(*frame),
                    frame.vardct,
                    lf_group_idx <= nl,
                    segments@.len() == 3 + lf_group_idx,
                    is_basic_prefix(segments@, *image),
                    forall|i: int| 0 <= i < lf_group_idx ==> {
                        &&& #[trigger] segments@[3 + i].kind == SegmentKind::HfMetadata { frame_idx: 0, lf_group_idx: i as u32 }
                        &&& is_bare_segment(segments@[3 + i], (0, 0), (0, 0))
                    },
                decreases nl - lf_group_idx,
            {
                segments.push(bare_segment(SegmentKind::HfMetadata { frame_idx: 0, lf_group_idx }));
                lf_group_idx = lf_group_idx + 1;
            }

            // Add HfCoeff segments for each pass/group
            let np = frame.num_passes;
            let ng = frame.num_groups;
            let ghost base: int = 3 + nl;
            let ghost meta = segments@;
            let mut pass_idx: u32 = 0;
            while pass_idx < np
                invariant
                    nl == frame.num_lf_groups,
                    np == frame.num_passes,
                    ng == frame.num_groups,
                    image.first_keyframe == Some(*frame),
                    frame.vardct,
                    base == 3 + nl,
                    pass_idx <= np,
                    segments@.len() == base + pass_idx as nat * ng as nat,
                    segments@.take(base) == meta,
                    meta.len() == base,
                    is_basic_prefix(meta, *image),
                    forall|i: int| 0 <= i < nl ==> {
                        &&& #[trigger] meta[3 + i].kind == SegmentKind::HfMetadata { frame_idx: 0, lf_group_idx: i as u32 }
                        &&& is_bare_segment(meta[3 + i], (0, 0), (0, 0))
                    },
                    forall|k: int| 0 <= k < pass_idx as nat * ng as nat ==> is_coeff_at(segments@, base, k, ng),
                decreases np - pass_idx,
            {
                let mut group_idx: u32 = 0;
                while group_idx < ng
                    invariant
                        ng == frame.num_groups,
                        pass_idx < np,
                        group_idx <= ng,
                        segments@.len() == base + pass_idx as nat * ng as nat + group_idx,
                        segments@.take(base) == meta,
                        meta.len() == base,
                        forall|k: int| 0 <= k < pass_idx as nat * ng as nat + group_idx ==> is_coeff_at(segments@, base, k, ng),
                    decreases ng - group_idx,
                {
                    let ghost k = pass_idx as nat * ng as nat + group_idx;
                    proof {
                        vstd::arithmetic::div_mod::lemma_fundamental_div_mod_converse(
                            k as int, ng as int, pass_idx as int, group_idx as int);
                    }
                    let ghost before = segments@;
                    segments.push(bare_segment(SegmentKind::HfCoeff {
                        frame_idx: 0,
                        pass_idx,
                        group_idx,
                        ans_symbols_file: None,
                    }));
                    assert(segments@.take(base) =~= meta);
                    assert(is_coeff_at(segments@, base, k as int, ng));
                    assert forall|j: int| 0 <= j < k implies is_coeff_at(segments@, base, j, ng) by {
                        assert(segments@[base + j] == before[base + j]);
                        assert(is_coeff_at(before, base, j, ng));
                    }
                    group_idx = group_idx + 1;
                }
                proof {
                    assert((pass_idx as nat + 1) * ng as nat == pass_idx as nat * ng as nat + ng as nat) by (nonlinear_arith);
                }
                pass_idx = pass_idx + 1;
            }
            proof {
                assert forall|i: int| 0 <= i < nl implies {
                    &&& #[trigger] segments@[3 + i].kind == SegmentKind::HfMetadata { frame_idx: 0, lf_group_idx: i as u32 }
                    &&& is_bare_segment(segments@[3 + i], (0, 0), (0, 0))
                } by {
                    assert(segments@[3 + i] == segments@.take(base)[3 + i]);
                }
                assert(segments@[0] == meta[0] && segments@[1] == meta[1] && segments@[2] == meta[2]);
                assert forall|k: int| 0 <= k < np as nat * ng as nat implies {
                    &&& #[trigger] segments@[3 + nl + k].kind == SegmentKind::HfCoeff {
                        frame_idx: 0,
                        pass_idx: (k / ng as int) as u32,
                        group_idx: (k % ng as int) as u32,
                        ans_symbols_file: None,
                    }
                    &&& is_bare_segment(segments@[3 + nl + k], (0, 0), (0, 0))
                } by {
                    assert(is_coeff_at(segments@, base, k, ng));
                }
            }
        }
    }
    segments
}

/// The signature, image header and (when there is a keyframe) frame header
/// segments stand first.
pub open spec fn is_basic_prefix(r: Seq<Segment>, image: ImageSummary) -> bool {
    &&& r.len() >= 2
    &&& r[0].kind == SegmentKind::Signature
    &&& r[0].byte_range == (0u64, 2u64)
    &&& r[0].bit_range == (0u64, 16u64)
    &&& r[0].annotations@.len() == 1
    &&& is_signature_annotation(r[0].annotations@[0])
    &&& r[0].children@.len() == 0
    &&& r[1].kind == SegmentKind::ImageHeader
    &&& r[1].byte_range == (2u64, 0u64)
    &&& r[1].bit_range == (16u64, 0u64)
    &&& r[1].annotations@.len() == 1
    &&& is_div8_annotation(r[1].annotations@[0])
    &&& r[1].children@.len() == 0
    &&& image.first_keyframe matches Some(f) ==> {
        &&& r.len() >= 3
        &&& r[2].kind matches SegmentKind::FrameHeader { frame_idx, encoding }
            && frame_idx == 0 && encoding@ == encoding_name(f.vardct)
        &&& is_bare_segment(r[2], (0, 0), (0, 0))
    }
}

/// The coefficient segment number `k` (group `k % ng` of pass `k / ng`)
/// stands at `base + k`.
pub open spec fn is_coeff_at(r: Seq<Segment>, base: int, k: int, ng: u32) -> bool {
    &&& r[base + k].kind == SegmentKind::HfCoeff {
        frame_idx: 0,
        pass_idx: (k / ng as int) as u32,
        group_idx: (k % ng as int) as u32,
        ans_symbols_file: None,
    }
    &&& is_bare_segment(r[base + k], (0, 0), (0, 0))
}

/// Whether any extra channel is an alpha channel.
pub open spec fn any_alpha(ec: Seq<bool>) -> bool {
    exists|i: int| 0 <= i < ec.len() && ec[i]
}

/// The image information of the manifest.
pub open spec fn is_image_info(info: ImageInfo, image: ImageSummary) -> bool {
    &&& info.width == image.width
    &&& info.height == image.height
    &&& info.bit_depth == image.bits_per_sample
    &&& info.num_channels == (if image.grayscale { 1int } else { 3int })
        + (image.extra_channel_is_alpha@.len() as u32)
    &&& info.has_alpha == any_alpha(image.extra_channel_is_alpha@)
    &&& info.color_space is None
}

/// The frame information of the manifest: one entry, for the first
/// keyframe, when there is one.
pub open spec fn is_frames_info(frames: Seq<FrameInfo>, image: ImageSummary) -> bool {
    match image.first_keyframe {
        None => frames.len() == 0,
        Some(f) => {
            &&& frames.len() == 1
            &&& frames[0].index == 0
            &&& frames[0].encoding@ == encoding_name(f.vardct)
            &&& frames[0].width == f.width
            &&& frames[0].height == f.height
            &&& frames[0].num_lf_groups == f.num_lf_groups
            &&& frames[0].num_passes == f.num_passes
        },
    }
}

/// The channel count of an image fits in a `u32`.
pub open spec fn channel_count_fits(image: ImageSummary) -> bool {
    (if image.grayscale { 1int } else { 3int }) + (image.extra_channel_is_alpha@.len() as u32) <= u32::MAX
}

/// Whether some extra channel is an alpha channel.
fn has_alpha_channel(ec: &Vec<bool>) -> (r: bool)
    ensures
        r == any_alpha(ec@),
{
    let n = ec.len();
    let mut i: usize = 0;
    while i < n
        invariant
            n == ec@.len(),
            i <= n,
            forall|j: int| 0 <= j < i ==> !ec@[j],
        decreases n - i,
    {
        if ec[i] {
            return true;
        }
        i = i + 1;
    }
    false
}

/// Annotate a JXL file, given its path, its bytes, what was parsed of it,
/// and the version of this tool: the manifest (format version 1, the tool,
/// the source's path, size and SHA-256 digest in lowercase hex, the image and
/// frame information, no segment files yet), the basic segments, and the
/// decoded checkpoints (none are captured yet).
pub fn annotate_file(
    source_file: String,
    data: &[u8],
    image: &ImageSummary,
    options: &AnnotateOptions,
    tool_version: &str,
) -> (r: AnnotationResult)
    requires
        channel_count_fits(*image),
    ensures
        r.manifest.version == 1,
        r.manifest.tool@ == "jxl-annotate "@ + tool_version@,
        r.manifest.source_file == source_file,
        r.manifest.source_size == data@.len(),
        opt_text_is(r.manifest.source_sha256, spec_hex_bytes(spec_sha256(data@))),
        is_image_info(r.manifest.image, *image),
        is_frames_info(r.manifest.frames@, *image),
        r.manifest.segment_files@.len() == 0,
        is_basic_layout(r.segments@, *image),
        r.manifest.source_sha256 matches Some(h) && h@.len() == 64,
        r.checkpoints@ == (if options.include_checkpoints {
            image.decoded_checkpoints@
        } else {
            Seq::<Checkpoint>::empty()
        }),
        r.vardct_annotations@.len() == 0,
{
    let file_size = data.len() as u64;

    // Compute SHA256
    let digest = sha256_digest(data);
    let hash = hex_encode(digest.as_slice());
    proof {
        lemma_hex_bytes_len(digest@);
    }

    let base: u32 = if image.grayscale { 1 } else { 3 };
    let image_info = ImageInfo {
        width: image.width,
        height: image.height,
        bit_depth: image.bits_per_sample,
        num_channels: base + image.extra_channel_is_alpha.len() as u32,
        has_alpha: has_alpha_channel(&image.extra_channel_is_alpha),
        color_space: None,
    };

    // Collect frame info
    let mut frames: Vec<FrameInfo> = Vec::new();
    if let Some(frame) = &image.first_keyframe {
        frames.push(FrameInfo {
            index: 0,
            encoding: if frame.vardct {
                String::from_str("VarDct")
            } else {
                String::from_str("Modular")
            },
            width: frame.width,
            height: frame.height,
            num_lf_groups: frame.num_lf_groups,
            num_passes: frame.num_passes,
        });
    }

    // Create segments (basic structure for now)
    let segments = create_basic_segments(image, options);

    // Create checkpoints if requested
    let checkpoints = if options.include_checkpoints {
        collect_checkpoints(image, options)
    } else {
        Vec::new()
    };

    let mut tool = String::from_str("jxl-annotate ");
    tool.append(tool_version);

    let manifest = AnnotationManifest {
        version: 1,
        tool,
        source_file,
        source_size: file_size,
        source_sha256: Some(hash),
        image: image_info,
        frames,
        segment_files: Vec::new(),
    };

    AnnotationResult { manifest, segments, checkpoints, vardct_annotations: Vec::new() }
}

/// A copy of a checkpoint.
fn copy_checkpoint(c: &Checkpoint) -> (r: Checkpoint)
    ensures
        r == *c,
{
    Checkpoint {
        stage: c.stage,
        frame_idx: c.frame_idx,
        group_idx: c.group_idx,
        channel: c.channel,
        stats: CheckpointStats {
            min: c.stats.min,
            max: c.stats.max,
            mean: c.stats.mean,
            stddev: c.stats.stddev,
            nonzero_count: c.stats.nonzero_count,
            total_count: c.stats.total_count,
        },
    }
}

/// A copy of a varblock annotation.
fn copy_block(b: &VarBlockAnnotation) -> (r: VarBlockAnnotation)
    ensures
        r == *b,
{
    VarBlockAnnotation {
        block_x: b.block_x,
        block_y: b.block_y,
        dct_select: b.dct_select.clone(),
        size_blocks: b.size_blocks,
        size_pixels: b.size_pixels,
        hf_mul: b.hf_mul,
        x_from_y: b.x_from_y,
        b_from_y: b.b_from_y,
        epf_sigma: b.epf_sigma,
    }
}

/// Collect decoded value checkpoints from the rendering pipeline: those
/// that decoding the image captured, in order.
pub fn collect_checkpoints(image: &ImageSummary, _options: &AnnotateOptions) -> (r: Vec<Checkpoint>)
    ensures
        r@ == image.decoded_checkpoints@,
{
    let mut out: Vec<Checkpoint> = Vec::new();
    let n = image.decoded_checkpoints.len();
    let mut i: usize = 0;
    while i < n
        invariant
            n == image.decoded_checkpoints@.len(),
            i <= n,
            out@ == image.decoded_checkpoints@.take(i as int),
        decreases n - i,
    {
        out.push(copy_checkpoint(&image.decoded_checkpoints[i]));
        assert(image.decoded_checkpoints@.take(i + 1) =~= image.decoded_checkpoints@.take(i as int).push(
            image.decoded_checkpoints@[i as int],
        ));
        i = i + 1;
    }
    assert(image.decoded_checkpoints@.take(n as int) =~= image.decoded_checkpoints@);
    out
}

/// The varblocks of keyframe `frame_idx`: one entry per varblock, in order,
/// when that keyframe exists and is VarDCT-encoded; none otherwise.
pub open spec fn keyframe_varblocks(image: ImageSummary, frame_idx: int) -> Seq<VarBlockAnnotation> {
    if 0 <= frame_idx < image.keyframe_blocks@.len() && image.keyframe_blocks@[frame_idx].vardct {
        image.keyframe_blocks@[frame_idx].varblocks@
    } else {
        Seq::empty()
    }
}

/// Get VarDCT block info for a frame: the varblocks of keyframe
/// `frame_idx`, empty when there is no such keyframe or it is not VarDCT.
pub fn get_vardct_block_info(image: &ImageSummary, frame_idx: usize) -> (r: Vec<VarBlockAnnotation>)
    ensures
        r@ == keyframe_varblocks(*image, frame_idx as int),
{
    let mut out: Vec<VarBlockAnnotation> = Vec::new();
    if frame_idx >= image.keyframe_blocks.len() || !image.keyframe_blocks[frame_idx].vardct {
        return out;
    }
    let blocks = &image.keyframe_blocks[frame_idx].varblocks;
    let n = blocks.len();
    let mut i: usize = 0;
    while i < n
        invariant
            n == blocks@.len(),
            i <= n,
            out@ == blocks@.take(i as int),
        decreases n - i,
    {
        out.push(copy_block(&blocks[i]));
        assert(blocks@.take(i + 1) =~= blocks@.take(i as int).push(blocks@[i as int]));
        i = i + 1;
    }
    assert(blocks@.take(n as int) =~= blocks@);
    out
}


/// The manifest's entry for the first keyframe describes that frame: its
/// index is 0, it has the frame's size, LF groups and passes, and it names
/// the frame's encoding, `VarDct` exactly when the frame is VarDCT and
/// `Modular` otherwise, as the frame header segment does.
pub proof fn lemma_frame_entry_describes_keyframe(frames: Seq<FrameInfo>, segments: Seq<Segment>, image: ImageSummary)
    requires
        is_frames_info(frames, image),
        is_basic_layout(segments, image),
        image.first_keyframe is Some,
    ensures
        frames.len() == 1,
        frames[0].index == 0,
        frames[0].width == image.first_keyframe->0.width,
        frames[0].height == image.first_keyframe->0.height,
        frames[0].num_lf_groups == image.first_keyframe->0.num_lf_groups,
        frames[0].num_passes == image.first_keyframe->0.num_passes,
        image.first_keyframe->0.vardct ==> frames[0].encoding@ == "VarDct"@,
        !image.first_keyframe->0.vardct ==> frames[0].encoding@ == "Modular"@,
        segments[2].kind matches SegmentKind::FrameHeader { encoding, .. } && encoding@ == frames[0].encoding@,
{
}

/// Without a keyframe the manifest lists no frame and the layout stops after
/// the image header.
pub proof fn lemma_no_keyframe_no_frame(frames: Seq<FrameInfo>, segments: Seq<Segment>, image: ImageSummary)
    requires
        is_frames_info(frames, image),
        is_basic_layout(segments, image),
        image.first_keyframe is None,
    ensures
        frames.len() == 0,
        segments.len() == 2,
{
}


/// In the layout of a VarDCT keyframe, each group of each pass has its own
/// coefficient segment, pass by pass: the one of group `g` in pass `p` stands
/// after the frame header, the metadata of every LF group, and the `p` whole
/// passes before it.
pub proof fn lemma_coeff_segment_of(segments: Seq<Segment>, image: ImageSummary, p: u32, g: u32)
    requires
        is_basic_layout(segments, image),
        image.first_keyframe matches Some(f) && f.vardct && p < f.num_passes && g < f.num_groups,
    ensures
        ({
            let f = image.first_keyframe->0;
            let i = 3 + f.num_lf_groups + p * f.num_groups + g;
            &&& i < segments.len()
            &&& segments[i].kind == (SegmentKind::HfCoeff { frame_idx: 0, pass_idx: p, group_idx: g, ans_symbols_file: None })
        }),
{
    let f = image.first_keyframe->0;
    let ng = f.num_groups as int;
    let np = f.num_passes as int;
    let k = p * ng + g;
    assert(k / ng == p as int && k % ng == g as int) by (nonlinear_arith)
        requires k == p * ng + g, 0 <= g < ng, p >= 0;
    assert(0 <= k < np * ng) by (nonlinear_arith)
        requires k == p * ng + g, 0 <= g < ng, 0 <= p < np;
    assert(segments[3 + f.num_lf_groups + k].kind == SegmentKind::HfCoeff {
        frame_idx: 0,
        pass_idx: (k / ng) as u32,
        group_idx: (k % ng) as u32,
        ans_symbols_file: None,
    });
}

/// In the layout of a VarDCT keyframe, LF group `l` has its metadata segment
/// right after the frame header and the metadata of the groups before it.
pub proof fn lemma_metadata_segment_of(segments: Seq<Segment>, image: ImageSummary, l: u32)
    requires
        is_basic_layout(segments, image),
        image.first_keyframe matches Some(f) && f.vardct && l < f.num_lf_groups,
    ensures
        3 + l < segments.len(),
        segments[3 + l].kind == (SegmentKind::HfMetadata { frame_idx: 0, lf_group_idx: l }),
{
    let i = l as int;
    assert(segments[3 + i].kind == SegmentKind::HfMetadata { frame_idx: 0, lf_group_idx: i as u32 });
}


/// The manifest's image information is the image's: its size and bit
/// depth, one channel for grey or three for colour plus one per extra
/// channel, and alpha exactly when some extra channel is an alpha channel.
pub proof fn lemma_image_info_of(info: ImageInfo, image: ImageSummary)
    requires
        is_image_info(info, image),
        image.extra_channel_is_alpha@.len() <= u32::MAX - 3,
    ensures
        info.width == image.width,
        info.height == image.height,
        info.bit_depth == image.bits_per_sample,
        image.grayscale ==> info.num_channels == 1 + image.extra_channel_is_alpha@.len(),
        !image.grayscale ==> info.num_channels == 3 + image.extra_channel_is_alpha@.len(),
        info.has_alpha <==> exists|i: int| 0 <= i < image.extra_channel_is_alpha@.len() && image.extra_channel_is_alpha@[i],
{
}

} // verus!
