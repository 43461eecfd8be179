use ingst::metadata::video_info_from_probe;
use ingst::scan::HostOs;
use ingst::video::{backend, candidates, ffmpeg_path, ffprobe_path, frame_from_output, probe_args, thumbnail_args, VideoBackendKind};

#[test]
fn selected_backend_is_stable() {
    let available = vec![true; candidates().len()];
    assert_eq!(backend(&available).name(), backend(&available).name());
}

#[test]
fn an_unavailable_backend_is_still_returned_last() {
    let none = vec![false; candidates().len()];
    assert_eq!(backend(&none), VideoBackendKind::Ffmpeg);
    assert_eq!(backend(&none).name(), "ffmpeg-sidecar");
}

#[test]
fn bundled_programs_are_found_beside_the_executable() {
    let exists = |p: &str| p == "/app/bin/ffprobe-aarch64-apple-darwin";
    assert_eq!(ffprobe_path(HostOs::MacOs, Some("/app/bin"), &exists), "/app/bin/ffprobe-aarch64-apple-darwin");
    assert_eq!(ffmpeg_path(HostOs::MacOs, Some("/app/bin"), &exists), "ffmpeg", "falls back to the search path");
    assert_eq!(ffmpeg_path(HostOs::Windows, None, &exists), "ffmpeg.exe");
    let linux = |p: &str| p == "/opt/ingst/ffmpeg";
    assert_eq!(ffmpeg_path(HostOs::Other, Some("/opt/ingst"), &linux), "/opt/ingst/ffmpeg");
}

#[test]
fn what_the_programs_are_asked() {
    assert_eq!(probe_args("/c/a.mp4"), vec!["-v", "quiet", "-print_format", "json", "-show_format", "/c/a.mp4"]);
    assert_eq!(
        thumbnail_args("/c/a.mp4", 160),
        vec!["-ss", "1", "-i", "/c/a.mp4", "-vframes", "1", "-vf", "scale=160:-2", "-f", "mjpeg", "-loglevel", "error", "pipe:1"]
    );
    assert_eq!(frame_from_output(vec![]), None);
    assert_eq!(frame_from_output(vec![0xFF, 0xD8]), Some(vec![0xFF, 0xD8]));
}

#[test]
fn backend_returns_none_for_junk_input() {
    // On a file that is not a video the probe prints nothing, or an empty
    // JSON object, and the frame grab prints nothing.
    for stdout in [&b""[..], &b"{\n\n}\n"[..], &b"this is not a video file"[..]] {
        let info = video_info_from_probe(stdout);
        assert!(info.is_none() || info.unwrap().is_empty());
    }
    assert!(frame_from_output(vec![]).is_none());
}
