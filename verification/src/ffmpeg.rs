//! The FFmpeg side of the converter: the transcoding arguments for each
//! encoder family and preset, the vendor behind an encoder name, the test
//! encodes that find working hardware encoders and the report made of them,
//! and the ffprobe arguments and the summary of what ffprobe reports.
use vstd::prelude::*;

use crate::text;
use crate::text::{
    chars_of, decimal_text, find_char_in, parse_u64_in, sub_string, text_contains,
    text_ends_with, text_eq, trim_bounds,
};

verus! {

/// The texts of a list of strings.
pub open spec fn texts(v: Seq<String>) -> Seq<Seq<char>> {
    v.map_values(|s: String| s@)
}

/// What the caller asks to have built.
#[derive(Clone, Debug)]
pub struct BuildCommandInput {
    pub input_path: String,
    pub output_path: String,
    pub target_codec: String,
    pub preset: String,
    pub encoder: String,
    /// The quality value that the user entered (CRF, CQ or QP, by encoder),
    /// which takes the place of the preset's own value.
    pub custom_crf: Option<u32>,
}

/// A built command line, with the encoder and preset it was built for.
#[derive(Clone, Debug)]
pub struct BuiltCommand {
    pub args: Vec<String>,
    pub encoder: String,
    pub estimated_quality: String,
}

// ========================= Specification =========================

/// The preset-dependent choice among three values: `fast`, `quality`, and
/// every other preset.
pub open spec fn by_preset<T>(preset: Seq<char>, fast: T, quality: T, other: T) -> T {
    if preset == "fast"@ {
        fast
    } else if preset == "quality"@ {
        quality
    } else {
        other
    }
}

/// The quality value given to the encoder: the user's own where there is
/// one, else the preset's `default`.
pub open spec fn quality_text(custom: Option<u32>, default: nat) -> Seq<char> {
    match custom {
        Some(c) => text::decimal(c as nat),
        None => text::decimal(default),
    }
}

/// Software quality for a preset: the CRF value and the x264/x265 preset
/// name.
pub open spec fn software_quality_spec(preset: Seq<char>) -> (u32, Seq<char>) {
    by_preset(preset, (28u32, "ultrafast"@), (20u32, "slow"@), (24u32, "medium"@))
}

/// The video encoder arguments for encoder `enc`, preset `preset`, and the
/// user's own quality value `custom`, if any.
pub open spec fn video_args(enc: Seq<char>, preset: Seq<char>, custom: Option<u32>) -> Seq<
    Seq<char>,
> {
    let (crf, sw_preset) = software_quality_spec(preset);
    if text::contains(enc, "nvenc"@) {
        seq![
            "-c:v"@, enc,
            "-preset"@, by_preset(preset, "p4"@, "p7"@, "p5"@),
            "-rc"@, "vbr"@,
            "-cq"@, quality_text(custom, by_preset(preset, 30nat, 22nat, 26nat)),
            "-b:v"@, "0"@,
            "-spatial-aq"@, "1"@,
        ]
    } else if text::contains(enc, "qsv"@) {
        seq![
            "-c:v"@, enc,
            "-preset"@, by_preset(preset, "very_fast"@, "slow"@, "medium"@),
            "-global_quality"@, quality_text(custom, crf as nat),
        ]
    } else if text::contains(enc, "amf"@) {
        seq![
            "-c:v"@, enc,
            "-quality"@, by_preset(preset, "speed"@, "quality"@, "balanced"@),
            "-rc"@, "cqp"@,
            "-qp_i"@, quality_text(custom, crf as nat),
            "-qp_p"@, quality_text(custom, crf as nat),
        ]
    } else if text::ends_with(enc, "_mf"@) {
        seq!["-c:v"@, enc, "-quality"@, preset]
    } else if enc == "libx265"@ {
        seq![
            "-c:v"@, "libx265"@,
            "-preset"@, sw_preset,
            "-crf"@, quality_text(custom, crf as nat),
            "-x265-params"@, "log-level=error"@,
        ]
    } else if enc == "libx264"@ {
        seq![
            "-c:v"@, "libx264"@,
            "-preset"@, sw_preset,
            "-crf"@, quality_text(custom, crf as nat),
        ]
    } else if enc == "libsvtav1"@ {
        seq![
            "-c:v"@, "libsvtav1"@,
            "-preset"@, by_preset(preset, "8"@, "3"@, "5"@),
            "-crf"@, quality_text(custom, by_preset(preset, 32nat, 24nat, 28nat)),
        ]
    } else {
        seq!["-c:v"@, enc]
    }
}

/// The arguments before the encoder's: global options and the input.
pub open spec fn leading_args(input_path: Seq<char>) -> Seq<Seq<char>> {
    seq![
        "-hide_banner"@, "-nostdin"@, "-nostats"@,
        "-loglevel"@, "error"@, "-y"@,
        "-i"@, input_path,
    ]
}

/// The arguments after the encoder's: audio copy, progress to stdout, and
/// the output path last.
pub open spec fn trailing_args(output_path: Seq<char>) -> Seq<Seq<char>> {
    seq!["-c:a"@, "copy"@, "-progress"@, "pipe:1"@, output_path]
}

/// The full FFmpeg argument list for a transcoding job.
pub open spec fn transcode_args(
    input_path: Seq<char>,
    output_path: Seq<char>,
    preset: Seq<char>,
    enc: Seq<char>,
    custom: Option<u32>,
) -> Seq<Seq<char>> {
    leading_args(input_path) + video_args(enc, preset, custom) + trailing_args(output_path)
}

/// The GPU vendor that an encoder name points to.
pub open spec fn vendor_spec(enc: Seq<char>) -> Seq<char> {
    if text::contains(enc, "nvenc"@) {
        "nvidia"@
    } else if text::contains(enc, "qsv"@) {
        "intel"@
    } else if text::contains(enc, "amf"@) {
        "amd"@
    } else if text::contains(enc, "videotoolbox"@) {
        "apple"@
    } else {
        "cpu"@
    }
}

// ========================= Implementation =========================

/// Appends the text `t` to `args`.
fn push_text(args: &mut Vec<String>, t: &str)
    ensures
        texts(final(args)@) == texts(old(args)@).push(t@),
{
    args.push(String::from_str(t));
    assert(texts(args@) =~= texts(old(args)@).push(t@));
}

/// Appends the string `s` to `args`.
fn push_string(args: &mut Vec<String>, s: String)
    ensures
        texts(final(args)@) == texts(old(args)@).push(s@),
{
    args.push(s);
    assert(texts(args@) =~= texts(old(args)@).push(s@));
}

/// Picks by preset among three texts.
fn pick(preset: &str, fast: &'static str, quality: &'static str, other: &'static str) -> (r:
    &'static str)
    ensures
        r@ == by_preset(preset@, fast@, quality@, other@),
{
    if text_eq(preset, "fast") {
        fast
    } else if text_eq(preset, "quality") {
        quality
    } else {
        other
    }
}

/// Picks by preset among three numbers.
fn pick_number(preset: &str, fast: u64, quality: u64, other: u64) -> (r: u64)
    ensures
        r == by_preset(preset@, fast, quality, other),
{
    if text_eq(preset, "fast") {
        fast
    } else if text_eq(preset, "quality") {
        quality
    } else {
        other
    }
}

/// The software encoding quality of a preset: the CRF value and the x265
/// preset name.
pub fn software_quality(preset: &str) -> (r: (u32, &'static str))
    ensures
        r.0 == software_quality_spec(preset@).0,
        r.1@ == software_quality_spec(preset@).1,
{
    if text_eq(preset, "fast") {
        (28, "ultrafast")
    } else if text_eq(preset, "quality") {
        (20, "slow")
    } else {
        (24, "medium")
    }
}

/// The quality value given to the encoder: `custom` where there is one,
/// else `default`.
fn quality_value(custom: Option<u32>, default: u64) -> (r: String)
    ensures
        r@ == quality_text(custom, default as nat),
{
    match custom {
        Some(c) => decimal_text(c as u64),
        None => decimal_text(default),
    }
}

/// Appends the video encoder arguments for `enc`, `preset` and the user's
/// own quality value `custom`.
fn push_video_args(args: &mut Vec<String>, enc: &str, preset: &str, custom: Option<u32>)
    ensures
        texts(final(args)@) == texts(old(args)@) + video_args(enc@, preset@, custom),
{
    let ghost start = texts(args@);
    let (crf, sw_preset) = software_quality(preset);
    if text_contains(enc, "nvenc") {
        push_text(args, "-c:v");
        push_text(args, enc);
        push_text(args, "-preset");
        push_text(args, pick(preset, "p4", "p7", "p5"));
        push_text(args, "-rc");
        push_text(args, "vbr");
        push_text(args, "-cq");
        push_string(args, quality_value(custom, pick_number(preset, 30, 22, 26)));
        push_text(args, "-b:v");
        push_text(args, "0");
        push_text(args, "-spatial-aq");
        push_text(args, "1");
    } else if text_contains(enc, "qsv") {
        push_text(args, "-c:v");
        push_text(args, enc);
        push_text(args, "-preset");
        push_text(args, pick(preset, "very_fast", "slow", "medium"));
        push_text(args, "-global_quality");
        push_string(args, quality_value(custom, crf as u64));
    } else if text_contains(enc, "amf") {
        push_text(args, "-c:v");
        push_text(args, enc);
        push_text(args, "-quality");
        push_text(args, pick(preset, "speed", "quality", "balanced"));
        push_text(args, "-rc");
        push_text(args, "cqp");
        push_text(args, "-qp_i");
        push_string(args, quality_value(custom, crf as u64));
        push_text(args, "-qp_p");
        push_string(args, quality_value(custom, crf as u64));
    } else if text_ends_with(enc, "_mf") {
        push_text(args, "-c:v");
        push_text(args, enc);
        push_text(args, "-quality");
        push_text(args, preset);
    } else if text_eq(enc, "libx265") {
        push_text(args, "-c:v");
        push_text(args, "libx265");
        push_text(args, "-preset");
        push_text(args, sw_preset);
        push_text(args, "-crf");
        push_string(args, quality_value(custom, crf as u64));
        push_text(args, "-x265-params");
        push_text(args, "log-level=error");
    } else if text_eq(enc, "libx264") {
        push_text(args, "-c:v");
        push_text(args, "libx264");
        push_text(args, "-preset");
        push_text(args, sw_preset);
        push_text(args, "-crf");
        push_string(args, quality_value(custom, crf as u64));
    } else if text_eq(enc, "libsvtav1") {
        push_text(args, "-c:v");
        push_text(args, "libsvtav1");
        push_text(args, "-preset");
        push_text(args, pick(preset, "8", "3", "5"));
        push_text(args, "-crf");
        push_string(args, quality_value(custom, pick_number(preset, 32, 24, 28)));
    } else {
        push_text(args, "-c:v");
        push_text(args, enc);
    }
    assert(texts(args@) =~= start + video_args(enc@, preset@, custom));
}

/// The full FFmpeg argument list for a transcoding job: global options that
/// silence the human-readable statistics, the input, the encoder's own
/// arguments, a copy of the audio, machine-readable progress on stdout, and
/// the output path as the last argument.
pub fn build_args(input: &BuildCommandInput) -> (r: Vec<String>)
    ensures
        texts(r@) == transcode_args(
            input.input_path@,
            input.output_path@,
            input.preset@,
            input.encoder@,
            input.custom_crf,
        ),
{
    let preset = input.preset.as_str();
    let enc = input.encoder.as_str();
    let mut args: Vec<String> = Vec::new();
    assert(texts(args@) =~= Seq::<Seq<char>>::empty());
    push_text(&mut args, "-hide_banner");
    push_text(&mut args, "-nostdin");
    push_text(&mut args, "-nostats");
    push_text(&mut args, "-loglevel");
    push_text(&mut args, "error");
    push_text(&mut args, "-y");
    push_text(&mut args, "-i");
    push_string(&mut args, input.input_path.clone());
    assert(texts(args@) =~= leading_args(input.input_path@));
    push_video_args(&mut args, enc, preset, input.custom_crf);
    let ghost mid = texts(args@);
    push_text(&mut args, "-c:a");
    push_text(&mut args, "copy");
    push_text(&mut args, "-progress");
    push_text(&mut args, "pipe:1");
    push_string(&mut args, input.output_path.clone());
    assert(texts(args@) =~= mid + trailing_args(input.output_path@));
    assert(texts(args@) =~= transcode_args(
        input.input_path@,
        input.output_path@,
        input.preset@,
        input.encoder@,
        input.custom_crf,
    ));
    args
}

/// The command line for a job, with the encoder and the preset it was built
/// for.
pub fn build_command(input: BuildCommandInput) -> (r: Result<BuiltCommand, String>)
    ensures
        r is Ok,
        r matches Ok(c) ==> {
            &&& texts(c.args@) == transcode_args(
                input.input_path@,
                input.output_path@,
                input.preset@,
                input.encoder@,
                input.custom_crf,
            )
            &&& c.encoder@ == input.encoder@
            &&& c.estimated_quality@ == input.preset@
        },
{
    let encoder = input.encoder.clone();
    let estimated_quality = input.preset.clone();
    let args = build_args(&input);
    Ok(BuiltCommand { args, encoder, estimated_quality })
}

// ========================= Laws =========================

/// Every argument list starts with the same global options, names the input
/// right after `-i`, passes the requested encoder right after `-c:v`, copies
/// the audio, sends progress to stdout, and ends with the output path.
pub proof fn lemma_transcode_args_layout(
    input_path: Seq<char>,
    output_path: Seq<char>,
    preset: Seq<char>,
    enc: Seq<char>,
    custom: Option<u32>,
)
    ensures
        ({
            let a = transcode_args(input_path, output_path, preset, enc, custom);
            let n: int = a.len() as int;
            &&& n >= 15
            &&& a.take(6) == seq![
                "-hide_banner"@,
                "-nostdin"@,
                "-nostats"@,
                "-loglevel"@,
                "error"@,
                "-y"@,
            ]
            &&& a[6] == "-i"@
            &&& a[7] == input_path
            &&& a[8] == "-c:v"@
            &&& a[9] == enc
            &&& a[n - 5] == "-c:a"@
            &&& a[n - 4] == "copy"@
            &&& a[n - 3] == "-progress"@
            &&& a[n - 2] == "pipe:1"@
            &&& a[n - 1] == output_path
        }),
{
    let v = video_args(enc, preset, custom);
    let a = transcode_args(input_path, output_path, preset, enc, custom);
    assert(v.len() >= 2 && v[0] == "-c:v"@ && v[1] == enc);
    assert(a.take(6) =~= seq![
        "-hide_banner"@,
        "-nostdin"@,
        "-nostats"@,
        "-loglevel"@,
        "error"@,
        "-y"@,
    ]);
}


/// A quality value that the user entered replaces the preset's: it follows
/// `-crf` for the software encoders, `-cq` for NVENC, `-global_quality` for
/// QSV, and both `-qp_i` and `-qp_p` for AMF.
pub proof fn lemma_custom_quality_used(enc: Seq<char>, preset: Seq<char>, c: u32)
    ensures
        ({
            let v = video_args(enc, preset, Some(c));
            let q = text::decimal(c as nat);
            &&& text::contains(enc, "nvenc"@) ==> v[6] == "-cq"@ && v[7] == q
            &&& (!text::contains(enc, "nvenc"@) && text::contains(enc, "qsv"@)) ==> v[4]
                == "-global_quality"@ && v[5] == q
            &&& (!text::contains(enc, "nvenc"@) && !text::contains(enc, "qsv"@) && text::contains(
                enc,
                "amf"@,
            )) ==> v[6] == "-qp_i"@ && v[7] == q && v[8] == "-qp_p"@ && v[9] == q
            &&& (!text::contains(enc, "nvenc"@) && !text::contains(enc, "qsv"@)
                && !text::contains(enc, "amf"@) && !text::ends_with(enc, "_mf"@) && (enc
                == "libx265"@ || enc == "libx264"@ || enc == "libsvtav1"@)) ==> v[4] == "-crf"@
                && v[5] == q
        }),
{
}

/// The quality presets tell the encoders apart: for every encoder but
/// MediaFoundation's own and unknown ones, `fast` and `quality` give
/// different arguments.
pub proof fn lemma_presets_differ(enc: Seq<char>)
    requires
        text::contains(enc, "nvenc"@) || text::contains(enc, "qsv"@) || text::contains(
            enc,
            "amf"@,
        ) || enc == "libx265"@ || enc == "libx264"@ || enc == "libsvtav1"@,
    ensures
        video_args(enc, "fast"@, None) != video_args(enc, "quality"@, None),
{
    reveal_strlit("fast");
    reveal_strlit("quality");
    reveal_strlit("p4");
    reveal_strlit("p7");
    reveal_strlit("very_fast");
    reveal_strlit("slow");
    reveal_strlit("speed");
    reveal_strlit("ultrafast");
    reveal_strlit("8");
    reveal_strlit("3");
    reveal_strlit("libx265");
    reveal_strlit("libx264");
    reveal_strlit("libsvtav1");
    reveal_strlit("_mf");
    assert("fast"@.len() == 4 && "quality"@.len() == 7);
    assert("p4"@[1] == '4' && "p7"@[1] == '7');
    assert("very_fast"@.len() == 9 && "slow"@.len() == 4);
    assert("speed"@.len() == 5 && "quality"@.len() == 7);
    assert("ultrafast"@.len() == 9);
    assert("8"@[0] == '8' && "3"@[0] == '3');
    let f = video_args(enc, "fast"@, None);
    let q = video_args(enc, "quality"@, None);
    if text::contains(enc, "nvenc"@) {
        assert(f[3] != q[3]);
    } else if text::contains(enc, "qsv"@) {
        assert(f[3] != q[3]);
    } else if text::contains(enc, "amf"@) {
        assert(f[3] != q[3]);
    } else {
        assert(!text::ends_with(enc, "_mf"@)) by {
            if text::ends_with(enc, "_mf"@) {
                assert(enc.skip(enc.len() - 3)[2] == 'f');
                assert(enc[enc.len() - 1] == 'f');
                assert(enc.last() == '5' || enc.last() == '4' || enc.last() == '1');
            }
        }
        assert(f[3] != q[3]);
    }
}

/// The preset and quality value every encoder family is given, read back
/// from the whole argument list: the quality value is the user's own where
/// there is one, else the preset's. The software CRF of a preset (28 for
/// `fast`, 20 for `quality`, 24 otherwise) is what libx265 and libx264 get
/// after `-crf`, QSV after `-global_quality`, and AMF after both `-qp_i`
/// and `-qp_p`; NVENC's CQ is 30, 22 or 26, and SVT-AV1's CRF 32, 24 or 28.
pub proof fn lemma_quality_values(
    input_path: Seq<char>,
    output_path: Seq<char>,
    preset: Seq<char>,
    enc: Seq<char>,
    custom: Option<u32>,
)
    ensures
        ({
            let a = transcode_args(input_path, output_path, preset, enc, custom);
            let fast = preset == "fast"@;
            let quality = !fast && preset == "quality"@;
            let chosen = |f: u64, q: u64, o: u64|
                match custom {
                    Some(c) => c as u64,
                    None => if fast {
                        f
                    } else if quality {
                        q
                    } else {
                        o
                    },
                };
            let named = |f: Seq<char>, q: Seq<char>, o: Seq<char>|
                if fast {
                    f
                } else if quality {
                    q
                } else {
                    o
                };
            let nvenc = text::contains(enc, "nvenc"@);
            let qsv = !nvenc && text::contains(enc, "qsv"@);
            let amf = !nvenc && !text::contains(enc, "qsv"@) && text::contains(enc, "amf"@);
            let plain = !nvenc && !text::contains(enc, "qsv"@) && !text::contains(enc, "amf"@)
                && !text::ends_with(enc, "_mf"@);
            &&& nvenc ==> {
                &&& a[10] == "-preset"@ && a[11] == named("p4"@, "p7"@, "p5"@)
                &&& a[14] == "-cq"@ && text::parse_u64(a[15]) == Some(chosen(30, 22, 26))
            }
            &&& qsv ==> {
                &&& a[10] == "-preset"@ && a[11] == named("very_fast"@, "slow"@, "medium"@)
                &&& a[12] == "-global_quality"@ && text::parse_u64(a[13]) == Some(
                    chosen(28, 20, 24),
                )
            }
            &&& amf ==> {
                &&& a[10] == "-quality"@ && a[11] == named("speed"@, "quality"@, "balanced"@)
                &&& a[14] == "-qp_i"@ && text::parse_u64(a[15]) == Some(chosen(28, 20, 24))
                &&& a[16] == "-qp_p"@ && text::parse_u64(a[17]) == Some(chosen(28, 20, 24))
            }
            &&& (plain && (enc == "libx265"@ || enc == "libx264"@)) ==> {
                &&& a[10] == "-preset"@ && a[11] == named("ultrafast"@, "slow"@, "medium"@)
                &&& a[12] == "-crf"@ && text::parse_u64(a[13]) == Some(chosen(28, 20, 24))
            }
            &&& (plain && enc == "libsvtav1"@) ==> {
                &&& a[10] == "-preset"@ && a[11] == named("8"@, "3"@, "5"@)
                &&& a[12] == "-crf"@ && text::parse_u64(a[13]) == Some(chosen(32, 24, 28))
            }
        }),
{
    let fast = preset == "fast"@;
    let quality = !fast && preset == "quality"@;
    let chosen = |f: u64, q: u64, o: u64|
        match custom {
            Some(c) => c as u64,
            None => if fast {
                f
            } else if quality {
                q
            } else {
                o
            },
        };
    reveal_strlit("libx265");
    reveal_strlit("libx264");
    reveal_strlit("libsvtav1");
    text::lemma_decimal_reads_back(chosen(30, 22, 26));
    text::lemma_decimal_reads_back(chosen(28, 20, 24));
    text::lemma_decimal_reads_back(chosen(32, 24, 28));
    let v = video_args(enc, preset, custom);
    let a = transcode_args(input_path, output_path, preset, enc, custom);
    assert forall|k: int| 0 <= k < v.len() implies a[8 + k] == #[trigger] v[k] by {}
    let sw = software_quality_spec(preset);
    assert(sw.0 as u64 == (if fast { 28u64 } else if quality { 20u64 } else { 24u64 }));
    assert(quality_text(custom, sw.0 as nat) == text::decimal(chosen(28, 20, 24) as nat));
    assert(quality_text(custom, by_preset(preset, 30nat, 22nat, 26nat)) == text::decimal(
        chosen(30, 22, 26) as nat,
    ));
    assert(quality_text(custom, by_preset(preset, 32nat, 24nat, 28nat)) == text::decimal(
        chosen(32, 24, 28) as nat,
    ));
}

/// The GPU vendor that an encoder name points to.
pub fn vendor_of(encoder: &str) -> (r: &'static str)
    ensures
        r@ == vendor_spec(encoder@),
{
    if text_contains(encoder, "nvenc") {
        "nvidia"
    } else if text_contains(encoder, "qsv") {
        "intel"
    } else if text_contains(encoder, "amf") {
        "amd"
    } else if text_contains(encoder, "videotoolbox") {
        "apple"
    } else {
        "cpu"
    }
}

// ========================= Hardware detection =========================

/// Hardware H.265 encoders, most preferred first: NVIDIA, Intel, AMD,
/// MediaFoundation.
pub open spec fn h265_candidates_spec() -> Seq<Seq<char>> {
    seq!["hevc_nvenc"@, "hevc_qsv"@, "hevc_amf"@, "hevc_mf"@]
}

/// Hardware AV1 encoders, most preferred first: NVIDIA, Intel, AMD,
/// MediaFoundation.
pub open spec fn av1_candidates_spec() -> Seq<Seq<char>> {
    seq!["av1_nvenc"@, "av1_qsv"@, "av1_amf"@, "av1_mf"@]
}

/// The arguments of the one-frame test encode that shows whether `enc`
/// initializes on this machine. The 320x240 frame stays above the minimum
/// size that hardware encoders accept.
pub open spec fn encoder_test_args_spec(enc: Seq<char>) -> Seq<Seq<char>> {
    seq![
        "-hide_banner"@, "-nostdin"@, "-loglevel"@, "error"@,
        "-f"@, "lavfi"@, "-i"@, "testsrc2=size=320x240:rate=1"@,
        "-frames:v"@, "1"@,
        "-pix_fmt"@, "yuv420p"@,
        "-c:v"@, enc,
        "-f"@, "null"@, "-"@,
    ]
}

/// The H.265 hardware encoder candidates, most preferred first.
pub fn h265_hw_candidates() -> (r: Vec<String>)
    ensures
        texts(r@) == h265_candidates_spec(),
{
    let mut r: Vec<String> = Vec::new();
    assert(texts(r@) =~= Seq::<Seq<char>>::empty());
    push_text(&mut r, "hevc_nvenc");
    push_text(&mut r, "hevc_qsv");
    push_text(&mut r, "hevc_amf");
    push_text(&mut r, "hevc_mf");
    assert(texts(r@) =~= h265_candidates_spec());
    r
}

/// The AV1 hardware encoder candidates, most preferred first.
pub fn av1_hw_candidates() -> (r: Vec<String>)
    ensures
        texts(r@) == av1_candidates_spec(),
{
    let mut r: Vec<String> = Vec::new();
    assert(texts(r@) =~= Seq::<Seq<char>>::empty());
    push_text(&mut r, "av1_nvenc");
    push_text(&mut r, "av1_qsv");
    push_text(&mut r, "av1_amf");
    push_text(&mut r, "av1_mf");
    assert(texts(r@) =~= av1_candidates_spec());
    r
}

/// The arguments of the test encode for `encoder`.
pub fn encoder_test_args(encoder: &str) -> (r: Vec<String>)
    ensures
        texts(r@) == encoder_test_args_spec(encoder@),
{
    let mut r: Vec<String> = Vec::new();
    assert(texts(r@) =~= Seq::<Seq<char>>::empty());
    push_text(&mut r, "-hide_banner");
    push_text(&mut r, "-nostdin");
    push_text(&mut r, "-loglevel");
    push_text(&mut r, "error");
    push_text(&mut r, "-f");
    push_text(&mut r, "lavfi");
    push_text(&mut r, "-i");
    push_text(&mut r, "testsrc2=size=320x240:rate=1");
    push_text(&mut r, "-frames:v");
    push_text(&mut r, "1");
    push_text(&mut r, "-pix_fmt");
    push_text(&mut r, "yuv420p");
    push_text(&mut r, "-c:v");
    push_text(&mut r, encoder);
    push_text(&mut r, "-f");
    push_text(&mut r, "null");
    push_text(&mut r, "-");
    assert(texts(r@) =~= encoder_test_args_spec(encoder@));
    r
}

/// Where probing a list of candidates stands: test the candidate at an
/// index, or done, with the first candidate that works or with none.
#[derive(Clone, Copy, Debug)]
pub enum ProbeStep {
    Test(usize),
    Found(usize),
    Exhausted,
}

/// The first step of probing `count` candidates.
pub open spec fn first_probe_spec(count: nat) -> ProbeStep {
    if count == 0 {
        ProbeStep::Exhausted
    } else {
        ProbeStep::Test(0)
    }
}

/// The step after the candidate `tested` of `count` was tested.
pub open spec fn next_probe_spec(count: nat, tested: nat, works: bool) -> ProbeStep {
    if works {
        ProbeStep::Found(tested as usize)
    } else if tested + 1 < count {
        ProbeStep::Test((tested + 1) as usize)
    } else {
        ProbeStep::Exhausted
    }
}

/// Where probing ends when the candidates from `from` on test as `results`
/// says.
pub open spec fn probe_outcome(results: Seq<bool>, from: int) -> ProbeStep
    decreases results.len() - from,
{
    if from < 0 || from >= results.len() {
        ProbeStep::Exhausted
    } else if results[from] {
        ProbeStep::Found(from as usize)
    } else {
        probe_outcome(results, from + 1)
    }
}

/// Where probing ends from `step` when the candidates test as `results`.
pub open spec fn probe_from(results: Seq<bool>, step: ProbeStep) -> ProbeStep {
    match step {
        ProbeStep::Test(i) => probe_outcome(results, i as int),
        other => other,
    }
}

/// The first step of probing `count` candidates.
pub fn first_probe(count: usize) -> (r: ProbeStep)
    ensures
        r == first_probe_spec(count as nat),
{
    if count == 0 {
        ProbeStep::Exhausted
    } else {
        ProbeStep::Test(0)
    }
}

/// The step after the candidate `tested` of `count` was tested and found
/// working or not.
pub fn next_probe(count: usize, tested: usize, works: bool) -> (r: ProbeStep)
    requires
        tested < count,
    ensures
        r == next_probe_spec(count as nat, tested as nat, works),
{
    if works {
        ProbeStep::Found(tested)
    } else if tested + 1 < count {
        ProbeStep::Test(tested + 1)
    } else {
        ProbeStep::Exhausted
    }
}

/// What hardware detection reports.
#[derive(Clone, Debug)]
pub struct HardwareInfo {
    pub available_encoders: Vec<String>,
    pub recommended_h265: String,
    pub recommended_av1: String,
    pub gpu_vendor: String,
}

/// The text of an optional string.
pub open spec fn opt_text(o: Option<String>) -> Option<Seq<char>> {
    match o {
        Some(s) => Some(s@),
        None => None,
    }
}

/// The working hardware encoders, each once: the H.265 one, then the AV1 one.
pub open spec fn available_spec(h265: Option<Seq<char>>, av1: Option<Seq<char>>) -> Seq<
    Seq<char>,
> {
    let first = match h265 {
        Some(e) => seq![e],
        None => Seq::empty(),
    };
    match av1 {
        Some(e) => if first.contains(e) {
            first
        } else {
            first.push(e)
        },
        None => first,
    }
}

/// The report for the working H.265 and AV1 hardware encoders found, if any:
/// the software encoders stand in for missing ones, and the vendor follows
/// the H.265 result.
pub fn hardware_info(h265_hw: Option<String>, av1_hw: Option<String>) -> (r: HardwareInfo)
    ensures
        texts(r.available_encoders@) == available_spec(opt_text(h265_hw), opt_text(av1_hw)),
        r.recommended_h265@ == (match h265_hw {
            Some(e) => e@,
            None => "libx265"@,
        }),
        r.recommended_av1@ == (match av1_hw {
            Some(e) => e@,
            None => "libsvtav1"@,
        }),
        r.gpu_vendor@ == (match h265_hw {
            Some(e) => vendor_spec(e@),
            None => "cpu"@,
        }),
{
    let mut available: Vec<String> = Vec::new();
    assert(texts(available@) =~= Seq::<Seq<char>>::empty());
    match &h265_hw {
        Some(e) => push_string(&mut available, e.clone()),
        None => {},
    }
    let ghost first = texts(available@);
    match &av1_hw {
        Some(e) => {
            let seen = match &h265_hw {
                Some(h) => text_eq(h.as_str(), e.as_str()),
                None => false,
            };
            proof {
                if h265_hw is Some {
                    assert(first[0] == opt_text(h265_hw)->0);
                }
            }
            if !seen {
                push_string(&mut available, e.clone());
            }
        },
        None => {},
    }
    let recommended_h265 = match &h265_hw {
        Some(e) => e.clone(),
        None => String::from_str("libx265"),
    };
    let recommended_av1 = match &av1_hw {
        Some(e) => e.clone(),
        None => String::from_str("libsvtav1"),
    };
    let gpu_vendor = match &h265_hw {
        Some(e) => String::from_str(vendor_of(e.as_str())),
        None => String::from_str("cpu"),
    };
    HardwareInfo { available_encoders: available, recommended_h265, recommended_av1, gpu_vendor }
}

proof fn lemma_probe_outcome_first(results: Seq<bool>, from: int)
    requires
        0 <= from,
        results.len() <= usize::MAX,
    ensures
        match probe_outcome(results, from) {
            ProbeStep::Found(k) => from <= k < results.len() && results[k as int] && forall|j: int|
                from <= j < k ==> !results[j],
            ProbeStep::Exhausted => forall|j: int| from <= j < results.len() ==> !results[j],
            ProbeStep::Test(_) => false,
        },
    decreases results.len() - from,
{
    if from < results.len() && !results[from] {
        lemma_probe_outcome_first(results, from + 1);
    }
}

/// Probing tests the candidates in order of preference and settles on the
/// first one that works, or on none when none works: each step of
/// [`first_probe`] and [`next_probe`] keeps that outcome in reach.
pub proof fn lemma_probe_settles_on_first_working(results: Seq<bool>)
    requires
        results.len() <= usize::MAX,
    ensures
        probe_from(results, first_probe_spec(results.len())) == probe_outcome(results, 0),
        forall|i: int|
            0 <= i < results.len() ==> probe_from(
                results,
                #[trigger] next_probe_spec(results.len(), i as nat, results[i]),
            ) == probe_outcome(results, i),
        match probe_outcome(results, 0) {
            ProbeStep::Found(k) => k < results.len() && results[k as int] && forall|j: int|
                0 <= j < k ==> !results[j],
            ProbeStep::Exhausted => forall|j: int| 0 <= j < results.len() ==> !results[j],
            ProbeStep::Test(_) => false,
        },
{
    lemma_probe_outcome_first(results, 0);
    assert forall|i: int| 0 <= i < results.len() implies probe_from(
        results,
        #[trigger] next_probe_spec(results.len(), i as nat, results[i]),
    ) == probe_outcome(results, i) by {
        if results[i] {
            assert((i as nat) as usize == i as usize);
        } else if i + 1 < results.len() {
            assert(((i + 1) as usize) as int == i + 1);
        } else {
            assert(probe_outcome(results, i + 1) == ProbeStep::Exhausted);
        }
    }
}

/// The reported encoders hold no duplicate, and each is one that was found
/// working.
pub proof fn lemma_available_distinct(h265: Option<Seq<char>>, av1: Option<Seq<char>>)
    ensures
        ({
            let a = available_spec(h265, av1);
            &&& forall|i: int, j: int| 0 <= i < j < a.len() ==> a[i] != a[j]
            &&& forall|i: int|
                0 <= i < a.len() ==> h265 == Some(#[trigger] a[i]) || av1 == Some(a[i])
        }),
{
    let first = match h265 {
        Some(e) => seq![e],
        None => Seq::<Seq<char>>::empty(),
    };
    match av1 {
        Some(e) => {
            if !first.contains(e) {
                assert(forall|i: int| 0 <= i < first.len() ==> first[i] != e);
            }
        },
        None => {},
    }
}

/// Every hardware encoder found working is reported available, the H.265
/// one first, and nothing else is: no encoder found means none reported.
pub proof fn lemma_available_complete(h265: Option<Seq<char>>, av1: Option<Seq<char>>)
    ensures
        ({
            let a = available_spec(h265, av1);
            &&& a.len() <= 2
            &&& h265 matches Some(e) ==> a.len() > 0 && a[0] == e
            &&& av1 matches Some(e) ==> a.contains(e)
            &&& (h265 is None && av1 is None) ==> a.len() == 0
        }),
{
    match (h265, av1) {
        (Some(h), Some(e)) => {
            if !seq![h].contains(e) {
                assert(seq![h].push(e)[1] == e);
            }
        },
        (None, Some(e)) => {
            assert(Seq::<Seq<char>>::empty().push(e)[0] == e);
        },
        _ => {},
    }
}

// ========================= File probing =========================

/// The ffprobe arguments that print the streams and the format of `path` as
/// JSON.
pub open spec fn probe_args_spec(path: Seq<char>) -> Seq<Seq<char>> {
    seq![
        "-v"@, "error"@,
        "-print_format"@, "json"@,
        "-show_format"@, "-show_streams"@,
        path,
    ]
}

/// The ffprobe arguments for `path`.
pub fn probe_args(path: &str) -> (r: Vec<String>)
    ensures
        texts(r@) == probe_args_spec(path@),
{
    let mut r: Vec<String> = Vec::new();
    assert(texts(r@) =~= Seq::<Seq<char>>::empty());
    push_text(&mut r, "-v");
    push_text(&mut r, "error");
    push_text(&mut r, "-print_format");
    push_text(&mut r, "json");
    push_text(&mut r, "-show_format");
    push_text(&mut r, "-show_streams");
    push_text(&mut r, path);
    assert(texts(r@) =~= probe_args_spec(path@));
    r
}

/// One stream as ffprobe describes it.
#[derive(Clone, Debug)]
pub struct ProbeStream {
    pub codec_name: Option<String>,
    pub codec_type: Option<String>,
    pub width: Option<u32>,
    pub height: Option<u32>,
    pub avg_frame_rate: Option<String>,
    pub r_frame_rate: Option<String>,
    pub duration: Option<String>,
}

/// The container as ffprobe describes it.
#[derive(Clone, Debug)]
pub struct ProbeFormat {
    pub duration: Option<String>,
    pub size: Option<String>,
}

/// What ffprobe reports of a file.
#[derive(Clone, Debug)]
pub struct ProbeOutput {
    pub streams: Vec<ProbeStream>,
    pub format: Option<ProbeFormat>,
}

/// What the file information takes from a probe: the first video stream's
/// size and codec, the file size, and the texts from which the duration and
/// the frame rate are read.
#[derive(Clone, Debug)]
pub struct ProbeSummary {
    pub width: u32,
    pub height: u32,
    pub codec: String,
    pub size: u64,
    /// The duration of the video stream, preferred where it reads as a number.
    pub stream_duration: Option<String>,
    /// The duration of the container, the fallback.
    pub format_duration: Option<String>,
    /// The average frame rate, or else the base frame rate.
    pub frame_rate: Option<String>,
}

pub open spec fn is_video(st: ProbeStream) -> bool {
    opt_text(st.codec_type) == Some("video"@)
}

/// The index of the first video stream from `from` on.
pub open spec fn first_video_from(streams: Seq<ProbeStream>, from: int) -> Option<int>
    decreases streams.len() - from,
{
    if from < 0 || from >= streams.len() {
        None
    } else if is_video(streams[from]) {
        Some(from)
    } else {
        first_video_from(streams, from + 1)
    }
}

/// The file size that the format reports, 0 where it reports none that
/// reads as a number.
pub open spec fn probe_size(format: Option<ProbeFormat>) -> u64 {
    match format {
        Some(f) => match f.size {
            Some(t) => text::parse_u64_or_zero(t@),
            None => 0,
        },
        None => 0,
    }
}

/// `s` summarizes the video stream `st` of a file whose format is `format`.
pub open spec fn summarizes(s: ProbeSummary, st: ProbeStream, format: Option<ProbeFormat>) -> bool {
    &&& s.width == (match st.width {
        Some(w) => w,
        None => 0,
    })
    &&& s.height == (match st.height {
        Some(h) => h,
        None => 0,
    })
    &&& s.codec@ == (match st.codec_name {
        Some(c) => c@,
        None => "unknown"@,
    })
    &&& s.size == probe_size(format)
    &&& opt_text(s.stream_duration) == opt_text(st.duration)
    &&& opt_text(s.format_duration) == (match format {
        Some(f) => opt_text(f.duration),
        None => None,
    })
    &&& opt_text(s.frame_rate) == (match st.avg_frame_rate {
        Some(a) => Some(a@),
        None => opt_text(st.r_frame_rate),
    })
}

/// A stream that ffprobe marks as video.
pub open spec fn marked_video(st: ProbeStream) -> bool {
    st.codec_type matches Some(t) && t@ == "video"@
}

proof fn lemma_first_video_from(streams: Seq<ProbeStream>, from: int)
    requires
        0 <= from,
    ensures
        match first_video_from(streams, from) {
            Some(i) => from <= i < streams.len() && marked_video(streams[i]) && forall|j: int|
                from <= j < i ==> !marked_video(#[trigger] streams[j]),
            None => forall|j: int| from <= j < streams.len() ==> !marked_video(#[trigger] streams[j]),
        },
    decreases streams.len() - from,
{
    if from < streams.len() && !is_video(streams[from]) {
        lemma_first_video_from(streams, from + 1);
    }
}

/// The stream that a probe is summarized from is the first one marked as
/// video: every stream before it is something else (audio, subtitles), and
/// a probe is refused only when no stream at all is marked as video.
pub proof fn lemma_summary_from_first_video(streams: Seq<ProbeStream>)
    ensures
        match first_video_from(streams, 0) {
            Some(i) => 0 <= i < streams.len() && marked_video(streams[i]) && forall|j: int|
                0 <= j < i ==> !marked_video(#[trigger] streams[j]),
            None => forall|j: int| 0 <= j < streams.len() ==> !marked_video(#[trigger] streams[j]),
        },
{
    lemma_first_video_from(streams, 0);
}

/// A summary reports the file size that the format's size text reads as, in
/// full for every `u64` (0 where there is no such text or it does not read
/// as a number), the stream's own width, height and codec (0, 0 and
/// `unknown` where ffprobe gives none), and the stream's average frame rate,
/// or its base frame rate where there is no average.
pub proof fn lemma_summary_reads_stream_and_format(
    s: ProbeSummary,
    st: ProbeStream,
    format: Option<ProbeFormat>,
    n: u64,
)
    requires
        summarizes(s, st, format),
    ensures
        s.size == (match format {
            Some(f) => match f.size {
                Some(t) => match text::parse_u64(t@) {
                    Some(v) => v,
                    None => 0,
                },
                None => 0,
            },
            None => 0,
        }),
        format matches Some(f) ==> (f.size matches Some(t) ==> (t@ == text::decimal(n as nat)
            ==> s.size == n)),
        st.width matches Some(w) ==> s.width == w,
        st.height matches Some(h) ==> s.height == h,
        st.codec_name matches Some(c) ==> s.codec@ == c@,
        st.avg_frame_rate matches Some(a) ==> (s.frame_rate matches Some(r) && r@ == a@),
        st.avg_frame_rate is None ==> (st.r_frame_rate matches Some(b) ==> (
        s.frame_rate matches Some(r) && r@ == b@)),
{
    text::lemma_decimal_reads_back(n);
}

fn clone_text(o: &Option<String>) -> (r: Option<String>)
    ensures
        opt_text(r) == opt_text(*o),
{
    match o {
        Some(s) => Some(s.clone()),
        None => None,
    }
}

/// Summarizes the first video stream of a probe; a file without one is
/// refused.
pub fn summarize_probe(probe: &ProbeOutput) -> (r: Result<ProbeSummary, String>)
    ensures
        match first_video_from(probe.streams@, 0) {
            Some(i) => r matches Ok(s) && summarizes(s, probe.streams@[i], probe.format),
            None => r matches Err(m) && m@ == "未找到视频流"@,
        },
{
    let mut i: usize = 0;
    while i < probe.streams.len()
        invariant
            0 <= i <= probe.streams.len(),
            first_video_from(probe.streams@, 0) == first_video_from(probe.streams@, i as int),
        decreases probe.streams.len() - i,
    {
        let st = &probe.streams[i];
        let video = match &st.codec_type {
            Some(t) => text_eq(t.as_str(), "video"),
            None => false,
        };
        if video {
            let size: u64 = match &probe.format {
                Some(f) => match &f.size {
                    Some(t) => {
                        let cs = chars_of(t.as_str());
                        assert(cs@.subrange(0, cs@.len() as int) =~= t@);
                        match parse_u64_in(&cs, 0, cs.len()) {
                            Some(v) => v,
                            None => 0,
                        }
                    },
                    None => 0,
                },
                None => 0,
            };
            let format_duration = match &probe.format {
                Some(f) => clone_text(&f.duration),
                None => None,
            };
            let frame_rate = match &st.avg_frame_rate {
                Some(a) => Some(a.clone()),
                None => clone_text(&st.r_frame_rate),
            };
            let codec = match &st.codec_name {
                Some(c) => c.clone(),
                None => String::from_str("unknown"),
            };
            let width: u32 = match st.width {
                Some(w) => w,
                None => 0,
            };
            let height: u32 = match st.height {
                Some(h) => h,
                None => 0,
            };
            return Ok(
                ProbeSummary {
                    width,
                    height,
                    codec,
                    size,
                    stream_duration: clone_text(&st.duration),
                    format_duration,
                    frame_rate,
                },
            );
        }
        i = i + 1;
    }
    Err(String::from_str("未找到视频流"))
}

/// The message of a failed probe: what ffprobe wrote on stderr, trimmed.
pub fn probe_failure_message(stderr: &str) -> (r: String)
    ensures
        r@ == "ffprobe 执行失败: "@ + text::trim(stderr@),
{
    let cs = chars_of(stderr);
    assert(cs@.subrange(0, cs@.len() as int) =~= stderr@);
    let (a, b) = trim_bounds(&cs, 0, cs.len());
    let mut r = String::from_str("ffprobe 执行失败: ");
    r.append(sub_string(stderr, a, b).as_str());
    r
}

/// How a frame rate is written: as a fraction `num/den`, or as one number.
#[derive(Clone, Debug)]
pub enum FrameRate {
    Fraction(String, String),
    Whole(String),
}

/// The parts of a frame rate: two texts where it has exactly one `/`, the
/// whole text otherwise.
pub open spec fn split_frame_rate_spec(rate: Seq<char>) -> (bool, Seq<char>, Seq<char>) {
    match text::find_char(rate, '/') {
        Some(i) => if text::find_char(rate.skip(i + 1), '/') is None {
            (true, rate.take(i), rate.skip(i + 1))
        } else {
            (false, rate, Seq::empty())
        },
        None => (false, rate, Seq::empty()),
    }
}

/// Splits a frame rate such as `30000/1001` into its numerator and
/// denominator texts.
pub fn split_frame_rate(rate: &str) -> (r: FrameRate)
    ensures
        match r {
            FrameRate::Fraction(n, d) => split_frame_rate_spec(rate@) == (true, n@, d@),
            FrameRate::Whole(w) => split_frame_rate_spec(rate@) == (false, w@, Seq::<char>::empty()),
        },
{
    let cs = chars_of(rate);
    let n: usize = cs.len();
    assert(cs@.subrange(0, n as int) =~= rate@);
    match find_char_in(&cs, 0, n, '/') {
        Some(i) => {
            assert(rate@.skip(i + 1) =~= cs@.subrange(i + 1, n as int));
            match find_char_in(&cs, i + 1, n, '/') {
                None => {
                    assert(rate@.take(i as int) =~= cs@.subrange(0, i as int));
                    FrameRate::Fraction(sub_string(rate, 0, i), sub_string(rate, i + 1, n))
                },
                Some(_) => FrameRate::Whole(String::from_str(rate)),
            }
        },
        None => FrameRate::Whole(String::from_str(rate)),
    }
}

/// A frame rate splits at its one `/`: `n/d` gives the numerator `n` and
/// the denominator `d`, put back together they are the rate again, and a
/// rate without `/`, or with more than one, stays whole.
pub proof fn lemma_frame_rate_parts(rate: Seq<char>, n: Seq<char>, d: Seq<char>)
    requires
        forall|j: int| 0 <= j < n.len() ==> n[j] != '/',
        forall|j: int| 0 <= j < d.len() ==> d[j] != '/',
    ensures
        split_frame_rate_spec(n + "/"@ + d) == (true, n, d),
        split_frame_rate_spec(rate).0 ==> rate == split_frame_rate_spec(rate).1 + "/"@
            + split_frame_rate_spec(rate).2,
        !split_frame_rate_spec(rate).0 ==> split_frame_rate_spec(rate).1 == rate,
        (forall|j: int| 0 <= j < rate.len() ==> rate[j] != '/') ==> !split_frame_rate_spec(rate).0,
{
    reveal_strlit("/");
    let tail = "/"@ + d;
    assert(n + "/"@ + d =~= n + tail);
    assert(tail[0] == '/');
    text::lemma_find_char_after(n, tail, '/');
    assert((n + tail).take(n.len() as int) =~= n);
    assert((n + tail).skip(n.len() as int + 1) =~= d);
    text::lemma_find_char(d, '/');
    text::lemma_find_char(rate, '/');
    if let Some(i) = text::find_char(rate, '/') {
        assert(rate =~= rate.take(i) + "/"@ + rate.skip(i + 1));
    }
}

/// The GPU vendor follows the encoder family named in the encoder: NVENC is
/// NVIDIA's, QSV Intel's, AMF AMD's, VideoToolbox Apple's, and anything
/// else runs on the CPU.
pub proof fn lemma_vendor_names(enc: Seq<char>)
    ensures
        text::contains(enc, "nvenc"@) ==> vendor_spec(enc) == "nvidia"@,
        (!text::contains(enc, "nvenc"@) && text::contains(enc, "qsv"@)) ==> vendor_spec(enc)
            == "intel"@,
        (!text::contains(enc, "nvenc"@) && !text::contains(enc, "qsv"@) && text::contains(
            enc,
            "amf"@,
        )) ==> vendor_spec(enc) == "amd"@,
        (!text::contains(enc, "nvenc"@) && !text::contains(enc, "qsv"@) && !text::contains(
            enc,
            "amf"@,
        ) && text::contains(enc, "videotoolbox"@)) ==> vendor_spec(enc) == "apple"@,
        (!text::contains(enc, "nvenc"@) && !text::contains(enc, "qsv"@) && !text::contains(
            enc,
            "amf"@,
        ) && !text::contains(enc, "videotoolbox"@)) ==> vendor_spec(enc) == "cpu"@,
{
}

/// The one-frame test encode reads a 320x240 test pattern, encodes one
/// frame with the encoder under test, and throws the result away.
pub proof fn lemma_test_encode_shape(enc: Seq<char>)
    ensures
        ({
            let a = encoder_test_args_spec(enc);
            &&& a.len() == 17
            &&& a[6] == "-i"@ && a[7] == "testsrc2=size=320x240:rate=1"@
            &&& a[8] == "-frames:v"@ && a[9] == "1"@
            &&& a[12] == "-c:v"@ && a[13] == enc
            &&& a[14] == "-f"@ && a[15] == "null"@ && a[16] == "-"@
        }),
{
}

} // verus!
