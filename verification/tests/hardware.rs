use vct::ffmpeg::{
    av1_hw_candidates, encoder_test_args, first_probe, h265_hw_candidates, hardware_info,
    next_probe, probe_args, probe_failure_message, summarize_probe, ProbeFormat, ProbeOutput,
    ProbeStep, ProbeStream,
};

/// Runs the probing steps over known test results.
fn probe(results: &[bool]) -> Option<usize> {
    let mut step = first_probe(results.len());
    loop {
        match step {
            ProbeStep::Test(i) => step = next_probe(results.len(), i, results[i]),
            ProbeStep::Found(i) => return Some(i),
            ProbeStep::Exhausted => return None,
        }
    }
}

#[test]
fn candidates_in_priority_order() {
    assert_eq!(h265_hw_candidates(), ["hevc_nvenc", "hevc_qsv", "hevc_amf", "hevc_mf"]);
    assert_eq!(av1_hw_candidates(), ["av1_nvenc", "av1_qsv", "av1_amf", "av1_mf"]);
}

#[test]
fn probing_takes_first_working() {
    assert_eq!(probe(&[false, true, true]), Some(1));
    assert_eq!(probe(&[true, true]), Some(0));
    assert_eq!(probe(&[false, false]), None);
    assert_eq!(probe(&[]), None);
}

#[test]
fn test_encode_arguments() {
    let args = encoder_test_args("hevc_qsv");
    assert_eq!(
        args,
        [
            "-hide_banner", "-nostdin", "-loglevel", "error", "-f", "lavfi", "-i",
            "testsrc2=size=320x240:rate=1", "-frames:v", "1", "-pix_fmt", "yuv420p", "-c:v",
            "hevc_qsv", "-f", "null", "-",
        ]
    );
}

#[test]
fn hardware_info_with_gpu() {
    let info = hardware_info(Some("hevc_nvenc".into()), Some("av1_nvenc".into()));
    assert_eq!(info.available_encoders, ["hevc_nvenc", "av1_nvenc"]);
    assert_eq!(info.recommended_h265, "hevc_nvenc");
    assert_eq!(info.recommended_av1, "av1_nvenc");
    assert_eq!(info.gpu_vendor, "nvidia");
}

#[test]
fn hardware_info_software_fallback() {
    let info = hardware_info(None, None);
    assert!(info.available_encoders.is_empty());
    assert_eq!(info.recommended_h265, "libx265");
    assert_eq!(info.recommended_av1, "libsvtav1");
    assert_eq!(info.gpu_vendor, "cpu");
}

#[test]
fn hardware_info_vendor_follows_h265() {
    let info = hardware_info(None, Some("av1_qsv".into()));
    assert_eq!(info.available_encoders, ["av1_qsv"]);
    assert_eq!(info.recommended_h265, "libx265");
    assert_eq!(info.gpu_vendor, "cpu");
    let info = hardware_info(Some("x".into()), Some("x".into()));
    assert_eq!(info.available_encoders, ["x"]);
}

fn stream(kind: Option<&str>) -> ProbeStream {
    ProbeStream {
        codec_name: Some("h264".into()),
        codec_type: kind.map(|k| k.to_string()),
        width: Some(1920),
        height: Some(1080),
        avg_frame_rate: Some("30000/1001".into()),
        r_frame_rate: Some("30/1".into()),
        duration: Some("12.5".into()),
    }
}

#[test]
fn probe_summary_takes_first_video_stream() {
    let mut audio = stream(Some("audio"));
    audio.width = Some(1);
    let mut video = stream(Some("video"));
    video.avg_frame_rate = None;
    video.codec_name = None;
    video.height = None;
    let probe = ProbeOutput {
        streams: vec![audio, video],
        format: Some(ProbeFormat { duration: Some("13.0".into()), size: Some("1048576".into()) }),
    };
    let s = summarize_probe(&probe).unwrap();
    assert_eq!(s.width, 1920);
    assert_eq!(s.height, 0);
    assert_eq!(s.codec, "unknown");
    assert_eq!(s.size, 1_048_576);
    assert_eq!(s.frame_rate.as_deref(), Some("30/1"));
    assert_eq!(s.stream_duration.as_deref(), Some("12.5"));
    assert_eq!(s.format_duration.as_deref(), Some("13.0"));
}

#[test]
fn probe_summary_without_video() {
    let probe = ProbeOutput { streams: vec![stream(Some("audio")), stream(None)], format: None };
    assert_eq!(summarize_probe(&probe).err().unwrap(), "未找到视频流");
}

#[test]
fn probe_summary_bad_size_reads_zero() {
    let probe = ProbeOutput {
        streams: vec![stream(Some("video"))],
        format: Some(ProbeFormat { duration: None, size: Some("big".into()) }),
    };
    let s = summarize_probe(&probe).unwrap();
    assert_eq!(s.size, 0);
    assert_eq!(s.format_duration, None);
    assert_eq!(s.frame_rate.as_deref(), Some("30000/1001"));
    assert_eq!(s.codec, "h264");
}

#[test]
fn probe_arguments_and_failure() {
    assert_eq!(
        probe_args("a b.mp4"),
        ["-v", "error", "-print_format", "json", "-show_format", "-show_streams", "a b.mp4"]
    );
    assert_eq!(probe_failure_message("  bad file \n"), "ffprobe 执行失败: bad file");
}

#[test]
fn ping_answers() {
    assert_eq!(vct::ping(), "VCT backend ready");
}
