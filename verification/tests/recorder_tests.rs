use hlusra::recorder::{
    encoder_bitrate_kbps, encoder_element_names, fallback_backends, probe_available,
    AudioConfig, EncoderBackend, VideoCodec, VideoConfig, recording_tracks,
};

#[test]
fn test_encoder_element_names() {
    assert_eq!(EncoderBackend::Vaapi.gst_element_name(&VideoCodec::H265), "vaapih265enc");
    assert_eq!(EncoderBackend::Cuda.gst_element_name(&VideoCodec::H264), "nvh264enc");
    assert_eq!(EncoderBackend::Software.gst_element_name(&VideoCodec::Av1), "svtav1enc");
    assert_eq!(EncoderBackend::Vulkan.gst_element_name(&VideoCodec::Av1), "vulkanav1enc");
}

#[test]
fn element_names_are_listed_backend_by_backend() {
    let names = encoder_element_names();
    assert_eq!(names.len(), 12);
    assert_eq!(names[0], "vaapih264enc");
    assert_eq!(names[4], "nvh265enc");
    assert_eq!(names[11], "svtav1enc");
}

#[test]
fn availability_groups_found_encoders() {
    let mut found = vec![false; 12];
    found[1] = true; // vaapi h265
    found[9] = true; // software h264
    found[10] = true; // software h265
    let available = probe_available(&found);
    assert_eq!(available.len(), 2);
    assert_eq!(available[0].0, EncoderBackend::Vaapi);
    assert_eq!(available[0].1, vec![VideoCodec::H265]);
    assert_eq!(available[1].0, EncoderBackend::Software);
    assert_eq!(available[1].1, vec![VideoCodec::H264, VideoCodec::H265]);

    let order = fallback_backends(EncoderBackend::Cuda, VideoCodec::H265, &available);
    assert_eq!(order, vec![EncoderBackend::Cuda, EncoderBackend::Vaapi, EncoderBackend::Software]);
    let order = fallback_backends(EncoderBackend::Software, VideoCodec::Av1, &available);
    assert_eq!(order, vec![EncoderBackend::Software]);
}

#[test]
fn encoder_defaults_and_bitrates() {
    let v = VideoConfig::default();
    assert_eq!((v.codec, v.backend, v.bitrate, v.fps, v.width, v.height), (VideoCodec::H265, EncoderBackend::Vaapi, 2_000_000, 15, 1280, 720));
    assert_eq!(AudioConfig::default().bitrate, 64_000);
    assert_eq!(encoder_bitrate_kbps(EncoderBackend::Vaapi, 2_000_000), Some(2000));
    assert_eq!(encoder_bitrate_kbps(EncoderBackend::Vulkan, 2_000_000), None);
}

#[test]
fn every_recording_has_mic_and_system_tracks() {
    let tracks = recording_tracks();
    let described: Vec<(usize, &str, &str)> =
        tracks.iter().map(|t| (t.index, t.label.as_str(), t.codec.as_str())).collect();
    assert_eq!(described, vec![(0, "mic", "opus"), (1, "system", "opus")]);
}

#[test]
fn backend_and_codec_keys_are_lower_case_names() {
    let keys: Vec<&str> = [EncoderBackend::Vaapi, EncoderBackend::Cuda, EncoderBackend::Vulkan, EncoderBackend::Software]
        .iter()
        .map(|b| b.key())
        .collect();
    assert_eq!(keys, vec!["vaapi", "cuda", "vulkan", "software"]);
    assert_eq!((VideoCodec::H264.key(), VideoCodec::H265.key(), VideoCodec::Av1.key()), ("h264", "h265", "av1"));
}
