use bootanim::command::{
    encode_all_args, encode_segment_args, extract_audio_block_args, extract_frames_args,
    frame_pattern_name, merge_list_text, merge_videos_args, resolution_text, video_property_args,
    ProbeField,
};
use bootanim::frames::{ImageFormat, CUT_DIGITS, RUN_DIGITS};

fn strs(v: &[&str]) -> Vec<String> {
    v.iter().map(|s| s.to_string()).collect()
}

#[test]
fn a_piece_with_sound_is_encoded() {
    let args = encode_segment_args(
        "/w/frames/%05d.png",
        Some("/w/part1/audio.wav"),
        "/w/part1.mp4",
        "1080x1920",
        30,
        301,
        150,
    );
    assert_eq!(
        args,
        strs(&[
            "-hide_banner", "-y", "-start_number", "301", "-framerate", "30", "-i",
            "/w/frames/%05d.png", "-i", "/w/part1/audio.wav", "-frames:v", "150", "-shortest",
            "-c:v", "libx264", "-pix_fmt", "yuv420p", "-s", "1080x1920", "-c:a", "aac",
            "/w/part1.mp4",
        ])
    );
}

#[test]
fn a_piece_without_sound_is_encoded() {
    let args = encode_segment_args("f/%05d.jpg", None, "out.mp4", "2x3", 10, 1, 0);
    assert_eq!(
        args,
        strs(&[
            "-hide_banner", "-y", "-start_number", "1", "-framerate", "10", "-i", "f/%05d.jpg",
            "-frames:v", "0", "-c:v", "libx264", "-pix_fmt", "yuv420p", "-s", "2x3", "out.mp4",
        ])
    );
}

#[test]
fn the_whole_run_is_encoded() {
    assert_eq!(
        encode_all_args("f/%05d.png", "out.mp4", "720x1280", 24),
        strs(&[
            "-hide_banner", "-y", "-framerate", "24", "-i", "f/%05d.png", "-c:v", "libx264",
            "-pix_fmt", "yuv420p", "-s", "720x1280", "out.mp4",
        ])
    );
}

#[test]
fn pieces_are_joined_by_copying() {
    assert_eq!(
        merge_videos_args("/w/concat_list.txt", "out.mp4"),
        strs(&[
            "-hide_banner", "-y", "-f", "concat", "-safe", "0", "-i", "/w/concat_list.txt", "-c",
            "copy", "out.mp4",
        ])
    );
}

#[test]
fn the_list_names_every_piece_on_a_line() {
    assert_eq!(merge_list_text(&Vec::new()), "");
    assert_eq!(
        merge_list_text(&strs(&["/w/part0.mp4", "/w/part1.mp4"])),
        "file '/w/part0.mp4'\nfile '/w/part1.mp4'\n"
    );
}

#[test]
fn a_video_is_cut_into_frames() {
    assert_eq!(
        extract_frames_args("in.mp4", 1080, 1920, "/w/frames/%06d.jpg"),
        strs(&["-hide_banner", "-i", "in.mp4", "-vf", "scale=1080:1920", "/w/frames/%06d.jpg"])
    );
}

#[test]
fn a_block_of_sound_is_cut_out() {
    assert_eq!(
        extract_audio_block_args("in.mp4", "13.333333333333334", "13.333333333333334", "/w/audio/audio1.wav"),
        strs(&[
            "-hide_banner", "-y", "-i", "in.mp4", "-ss", "13.333333333333334", "-t",
            "13.333333333333334", "-vn", "-acodec", "pcm_s16le", "-ar", "44100", "-ac", "2",
            "/w/audio/audio1.wav",
        ])
    );
}

#[test]
fn the_probe_is_asked_one_thing_at_a_time() {
    assert_eq!(
        video_property_args(ProbeField::Width, "in.mp4"),
        strs(&[
            "-hide_banner", "-v", "error", "-select_streams", "v:0", "-show_entries",
            "stream=width", "-of", "csv=p=0", "in.mp4",
        ])
    );
    assert_eq!(
        video_property_args(ProbeField::Height, "in.mp4"),
        strs(&[
            "-hide_banner", "-v", "error", "-select_streams", "v:0", "-show_entries",
            "stream=height", "-of", "csv=p=0", "in.mp4",
        ])
    );
    assert_eq!(
        video_property_args(ProbeField::FrameRate, "in.mp4"),
        strs(&[
            "-hide_banner", "-v", "error", "-select_streams", "v:0", "-show_entries",
            "stream=r_frame_rate", "-of", "csv=p=0", "in.mp4",
        ])
    );
    assert_eq!(
        video_property_args(ProbeField::Duration, "in.mp4"),
        strs(&[
            "-hide_banner", "-v", "error", "-show_entries", "format=duration", "-of", "csv=p=0",
            "in.mp4",
        ])
    );
    assert_eq!(
        video_property_args(ProbeField::AudioStreams, "in.mp4"),
        strs(&[
            "-hide_banner", "-v", "error", "-show_entries", "stream=codec_type",
            "-select_streams", "a", "-of", "csv=p=0", "in.mp4",
        ])
    );
}

#[test]
fn resolutions_and_patterns_are_written() {
    assert_eq!(resolution_text(1080, 1920), "1080x1920");
    assert_eq!(resolution_text(0, 4294967295), "0x4294967295");
    assert_eq!(frame_pattern_name(RUN_DIGITS, ImageFormat::Png), "%05d.png");
    assert_eq!(frame_pattern_name(CUT_DIGITS, ImageFormat::Jpg), "%06d.jpg");
    assert_eq!(frame_pattern_name(12, ImageFormat::Jpg), "%012d.jpg");
}
