use vct::ffmpeg::{
    build_args, build_command, split_frame_rate, vendor_of, BuildCommandInput, FrameRate,
};

fn input(encoder: &str, preset: &str) -> BuildCommandInput {
    BuildCommandInput {
        input_path: "in.mp4".into(),
        output_path: "out.mp4".into(),
        target_codec: if encoder.contains("av1") { "av1" } else { "h265" }.into(),
        preset: preset.into(),
        encoder: encoder.into(),
        custom_crf: None,
    }
}

fn custom(encoder: &str, value: u32) -> BuildCommandInput {
    BuildCommandInput { preset: "custom".into(), custom_crf: Some(value), ..input(encoder, "custom") }
}

/// Asserts that `kv` stands in `args` as consecutive arguments.
fn assert_has(args: &[String], kv: &[&str]) {
    for i in 0..=args.len().saturating_sub(kv.len()) {
        let window = &args[i..i + kv.len()];
        if window.iter().zip(kv.iter()).all(|(a, k)| a.as_str() == *k) {
            return;
        }
    }
    panic!("{:?} not found in {:?}", kv, args);
}

#[test]
fn build_args_global_options() {
    let args = build_args(&input("libx265", "balanced"));
    assert!(args.contains(&"-hide_banner".into()));
    assert!(args.contains(&"-nostdin".into()));
    assert!(args.contains(&"-nostats".into()));
    assert!(args.contains(&"-y".into()));
    assert!(args.contains(&"-i".into()));
    assert!(args.contains(&"-c:a".into()));
    assert!(args.contains(&"copy".into()));
    assert!(args.contains(&"-progress".into()));
    assert!(args.contains(&"pipe:1".into()));
}

#[test]
fn build_args_nvenc() {
    let args = build_args(&input("hevc_nvenc", "balanced"));
    assert_has(&args, &["-c:v", "hevc_nvenc"]);
    assert_has(&args, &["-preset", "p5"]);
    assert_has(&args, &["-rc", "vbr"]);
    assert_has(&args, &["-cq", "26"]);
    assert_has(&args, &["-b:v", "0"]);
}

#[test]
fn build_args_qsv() {
    let args = build_args(&input("hevc_qsv", "quality"));
    assert_has(&args, &["-c:v", "hevc_qsv"]);
    assert_has(&args, &["-preset", "slow"]);
    assert_has(&args, &["-global_quality", "20"]);
}

#[test]
fn build_args_amf() {
    let args = build_args(&input("av1_amf", "fast"));
    assert_has(&args, &["-c:v", "av1_amf"]);
    assert_has(&args, &["-quality", "speed"]);
    assert_has(&args, &["-rc", "cqp"]);
}

#[test]
fn build_args_libx265() {
    let args = build_args(&input("libx265", "quality"));
    assert_has(&args, &["-c:v", "libx265"]);
    assert_has(&args, &["-preset", "slow"]);
    assert_has(&args, &["-crf", "20"]);
    assert!(args.contains(&"-x265-params".into()));
}

#[test]
fn build_args_libsvtav1() {
    let args = build_args(&input("libsvtav1", "fast"));
    assert_has(&args, &["-c:v", "libsvtav1"]);
    assert_has(&args, &["-preset", "8"]);
    assert_has(&args, &["-crf", "32"]);
}

#[test]
fn vendor_detection() {
    assert_eq!(vendor_of("hevc_nvenc"), "nvidia");
    assert_eq!(vendor_of("av1_qsv"), "intel");
    assert_eq!(vendor_of("hevc_amf"), "amd");
    assert_eq!(vendor_of("libx265"), "cpu");
}

#[test]
fn vendor_detection_apple() {
    assert_eq!(vendor_of("h264_videotoolbox"), "apple");
    assert_eq!(vendor_of(""), "cpu");
}

#[test]
fn build_args_full_list_nvenc_fast() {
    let args = build_args(&input("hevc_nvenc", "fast"));
    let expected = [
        "-hide_banner", "-nostdin", "-nostats", "-loglevel", "error", "-y", "-i", "in.mp4",
        "-c:v", "hevc_nvenc", "-preset", "p4", "-rc", "vbr", "-cq", "30", "-b:v", "0",
        "-spatial-aq", "1", "-c:a", "copy", "-progress", "pipe:1", "out.mp4",
    ];
    assert_eq!(args, expected);
}

#[test]
fn build_args_nvenc_quality_cq() {
    let args = build_args(&input("av1_nvenc", "quality"));
    assert_has(&args, &["-preset", "p7", "-rc", "vbr", "-cq", "22"]);
}

#[test]
fn build_args_qsv_balanced_and_fast() {
    let args = build_args(&input("av1_qsv", "balanced"));
    assert_has(&args, &["-preset", "medium", "-global_quality", "24"]);
    let args = build_args(&input("av1_qsv", "fast"));
    assert_has(&args, &["-preset", "very_fast", "-global_quality", "28"]);
}

#[test]
fn build_args_amf_quantizers() {
    let args = build_args(&input("hevc_amf", "quality"));
    assert_has(&args, &["-quality", "quality", "-rc", "cqp", "-qp_i", "20", "-qp_p", "20"]);
    let args = build_args(&input("hevc_amf", "custom"));
    assert_has(&args, &["-quality", "balanced", "-rc", "cqp", "-qp_i", "24", "-qp_p", "24"]);
}

#[test]
fn build_args_media_foundation_passes_preset() {
    let args = build_args(&input("hevc_mf", "quality"));
    assert_has(&args, &["-c:v", "hevc_mf", "-quality", "quality", "-c:a"]);
}

#[test]
fn build_args_libx265_fast_and_default() {
    let args = build_args(&input("libx265", "fast"));
    assert_has(&args, &["-preset", "ultrafast", "-crf", "28", "-x265-params", "log-level=error"]);
    let args = build_args(&input("libx265", "balanced"));
    assert_has(&args, &["-preset", "medium", "-crf", "24"]);
}

#[test]
fn build_args_libsvtav1_quality_and_default() {
    let args = build_args(&input("libsvtav1", "quality"));
    assert_has(&args, &["-preset", "3", "-crf", "24", "-c:a"]);
    let args = build_args(&input("libsvtav1", "balanced"));
    assert_has(&args, &["-preset", "5", "-crf", "28", "-c:a"]);
}

#[test]
fn build_args_unknown_encoder_passes_through() {
    let args = build_args(&input("h264_v4l2m2m", "fast"));
    assert_has(&args, &["-i", "in.mp4", "-c:v", "h264_v4l2m2m", "-c:a", "copy"]);
    assert_eq!(args.len(), 15);
}

#[test]
fn build_args_output_path_last() {
    for enc in ["hevc_nvenc", "av1_qsv", "hevc_amf", "av1_mf", "libx265", "libsvtav1", "x"] {
        let args = build_args(&input(enc, "balanced"));
        assert_eq!(args.last().unwrap(), "out.mp4");
        assert_eq!(args[args.len() - 3], "-progress");
        assert_eq!(args[args.len() - 2], "pipe:1");
        assert_eq!(args[6], "-i");
        assert_eq!(args[7], "in.mp4");
        assert_eq!(args[8], "-c:v");
        assert_eq!(args[9], enc);
    }
}

#[test]
fn build_command_echoes_encoder_and_preset() {
    let built = build_command(input("hevc_qsv", "fast")).unwrap();
    assert_eq!(built.encoder, "hevc_qsv");
    assert_eq!(built.estimated_quality, "fast");
    assert_eq!(built.args, build_args(&input("hevc_qsv", "fast")));
}

#[test]
fn frame_rate_parts() {
    match split_frame_rate("30000/1001") {
        FrameRate::Fraction(n, d) => assert_eq!((n.as_str(), d.as_str()), ("30000", "1001")),
        FrameRate::Whole(_) => panic!("expected a fraction"),
    }
    match split_frame_rate("24") {
        FrameRate::Whole(w) => assert_eq!(w, "24"),
        FrameRate::Fraction(..) => panic!("expected one number"),
    }
    match split_frame_rate("1/2/3") {
        FrameRate::Whole(w) => assert_eq!(w, "1/2/3"),
        FrameRate::Fraction(..) => panic!("expected one number"),
    }
    match split_frame_rate("0/0") {
        FrameRate::Fraction(n, d) => assert_eq!((n.as_str(), d.as_str()), ("0", "0")),
        FrameRate::Whole(_) => panic!("expected a fraction"),
    }
}

#[test]
fn build_args_libx264_presets() {
    let fast = build_args(&input("libx264", "fast"));
    assert_has(&fast, &["-c:v", "libx264", "-preset", "ultrafast", "-crf", "28", "-c:a"]);
    let quality = build_args(&input("libx264", "quality"));
    assert_has(&quality, &["-c:v", "libx264", "-preset", "slow", "-crf", "20", "-c:a"]);
    assert_ne!(fast, quality);
    let balanced = build_args(&input("libx264", "balanced"));
    assert_has(&balanced, &["-preset", "medium", "-crf", "24"]);
}

#[test]
fn build_args_custom_quality() {
    assert_has(&build_args(&custom("libx265", 18)), &["-preset", "medium", "-crf", "18"]);
    assert_has(&build_args(&custom("libx264", 0)), &["-crf", "0"]);
    assert_has(&build_args(&custom("libsvtav1", 45)), &["-preset", "5", "-crf", "45"]);
    assert_has(&build_args(&custom("hevc_nvenc", 19)), &["-preset", "p5", "-rc", "vbr", "-cq", "19"]);
    assert_has(&build_args(&custom("hevc_qsv", 23)), &["-global_quality", "23"]);
    assert_has(&build_args(&custom("av1_amf", 31)), &["-qp_i", "31", "-qp_p", "31"]);
    assert_has(&build_args(&custom("hevc_mf", 31)), &["-c:v", "hevc_mf", "-quality", "custom", "-c:a"]);
    assert_has(&build_args(&custom("libx265", 4294967295)), &["-crf", "4294967295"]);
}
