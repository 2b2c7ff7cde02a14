//! The arguments with which the encoder and the probe are called. Calling
//! them is left to the caller; so are the paths, which come in as texts.

use vstd::prelude::*;
use vstd::string::*;
use crate::frames::{format_extension, ImageFormat};
use crate::text::{decimal_digits, push_decimal};

verus! {

/// Appends one argument.
fn push_arg(args: &mut Vec<String>, arg: &str)
    ensures
        final(args).deep_view() == old(args).deep_view().push(arg@),
{
    args.push(arg.to_owned());
}

/// Appends a number as an argument.
fn push_number_arg(args: &mut Vec<String>, n: u32)
    ensures
        final(args).deep_view() == old(args).deep_view().push(decimal_digits(n as nat)),
{
    let mut s = String::new();
    push_decimal(&mut s, n as u64);
    args.push(s);
}

/// A resolution as the encoder takes it: the width, an `x`, the height.
pub open spec fn resolution(width: u32, height: u32) -> Seq<char> {
    decimal_digits(width as nat) + seq!['x'] + decimal_digits(height as nat)
}

/// A resolution as the encoder takes it, such as `1080x1920`.
pub fn resolution_text(width: u32, height: u32) -> (s: String)
    ensures
        s@ == resolution(width, height),
{
    let mut s = String::new();
    push_decimal(&mut s, width as u64);
    s.push('x');
    push_decimal(&mut s, height as u64);
    s
}

/// The pattern that names the frames of a run: `%05d.png` names them with
/// five digits.
pub open spec fn frame_pattern(digits: u8, format: ImageFormat) -> Seq<char> {
    seq!['%', '0'] + decimal_digits(digits as nat) + seq!['d', '.'] + format_extension(format)
}

/// The pattern of the file names of the frames of a run: numbers of `digits`
/// digits, with zeros in front, and the extension of the format.
pub fn frame_pattern_name(digits: u8, format: ImageFormat) -> (s: String)
    ensures
        s@ == frame_pattern(digits, format),
{
    let mut s = String::new();
    s.push('%');
    s.push('0');
    push_decimal(&mut s, digits as u64);
    s.push('d');
    s.push('.');
    s.append(format.extension());
    s
}

/// The arguments that encode the frames from `start_frame` on, `frame_count`
/// of them, into one piece of video, with the sound of `audio` where there is
/// one.
pub open spec fn segment_args(
    pattern: Seq<char>,
    audio: Option<Seq<char>>,
    output: Seq<char>,
    resolution: Seq<char>,
    fps: u32,
    start_frame: u32,
    frame_count: u32,
) -> Seq<Seq<char>> {
    let head = seq![
        "-hide_banner"@,
        "-y"@,
        "-start_number"@,
        decimal_digits(start_frame as nat),
        "-framerate"@,
        decimal_digits(fps as nat),
        "-i"@,
        pattern,
    ];
    let video = seq!["-c:v"@, "libx264"@, "-pix_fmt"@, "yuv420p"@, "-s"@, resolution];
    match audio {
        Some(a) => head + seq!["-i"@, a, "-frames:v"@, decimal_digits(frame_count as nat), "-shortest"@]
            + video + seq!["-c:a"@, "aac"@, output],
        None => head + seq!["-frames:v"@, decimal_digits(frame_count as nat)] + video + seq![output],
    }
}

/// The arguments for the encoder that turn the frames of one part into a
/// piece of video: the frames named by `pattern`, from the number
/// `start_frame` on, `frame_count` of them, at `fps` frames a second and in
/// the given resolution, with the sound of the file `audio` where the part
/// has one, cut to the shorter of the two.
pub fn encode_segment_args(
    pattern: &str,
    audio: Option<&str>,
    output: &str,
    resolution: &str,
    fps: u32,
    start_frame: u32,
    frame_count: u32,
) -> (args: Vec<String>)
    ensures
        args.deep_view() == segment_args(
            pattern@,
            match audio {
                Some(a) => Some(a@),
                None => None,
            },
            output@,
            resolution@,
            fps,
            start_frame,
            frame_count,
        ),
{
    let mut args: Vec<String> = Vec::new();
    push_arg(&mut args, "-hide_banner");
    push_arg(&mut args, "-y");
    push_arg(&mut args, "-start_number");
    push_number_arg(&mut args, start_frame);
    push_arg(&mut args, "-framerate");
    push_number_arg(&mut args, fps);
    push_arg(&mut args, "-i");
    push_arg(&mut args, pattern);
    match audio {
        Some(a) => {
            push_arg(&mut args, "-i");
            push_arg(&mut args, a);
        },
        None => {},
    }
    push_arg(&mut args, "-frames:v");
    push_number_arg(&mut args, frame_count);
    if audio.is_some() {
        push_arg(&mut args, "-shortest");
    }
    push_arg(&mut args, "-c:v");
    push_arg(&mut args, "libx264");
    push_arg(&mut args, "-pix_fmt");
    push_arg(&mut args, "yuv420p");
    push_arg(&mut args, "-s");
    push_arg(&mut args, resolution);
    if audio.is_some() {
        push_arg(&mut args, "-c:a");
        push_arg(&mut args, "aac");
    }
    push_arg(&mut args, output);
    args
}

/// The arguments that encode all frames of a run into one video without
/// sound.
pub open spec fn whole_args(pattern: Seq<char>, output: Seq<char>, resolution: Seq<char>, fps: u32) -> Seq<
    Seq<char>,
> {
    seq![
        "-hide_banner"@,
        "-y"@,
        "-framerate"@,
        decimal_digits(fps as nat),
        "-i"@,
        pattern,
        "-c:v"@,
        "libx264"@,
        "-pix_fmt"@,
        "yuv420p"@,
        "-s"@,
        resolution,
        output,
    ]
}

/// The arguments for the encoder that turn all frames named by `pattern`
/// into one video without sound.
pub fn encode_all_args(pattern: &str, output: &str, resolution: &str, fps: u32) -> (args: Vec<String>)
    ensures
        args.deep_view() == whole_args(pattern@, output@, resolution@, fps),
{
    let mut args: Vec<String> = Vec::new();
    push_arg(&mut args, "-hide_banner");
    push_arg(&mut args, "-y");
    push_arg(&mut args, "-framerate");
    push_number_arg(&mut args, fps);
    push_arg(&mut args, "-i");
    push_arg(&mut args, pattern);
    push_arg(&mut args, "-c:v");
    push_arg(&mut args, "libx264");
    push_arg(&mut args, "-pix_fmt");
    push_arg(&mut args, "yuv420p");
    push_arg(&mut args, "-s");
    push_arg(&mut args, resolution);
    push_arg(&mut args, output);
    args
}

/// The arguments that join the pieces named in a list without encoding them
/// again.
pub open spec fn join_args(list: Seq<char>, output: Seq<char>) -> Seq<Seq<char>> {
    seq![
        "-hide_banner"@,
        "-y"@,
        "-f"@,
        "concat"@,
        "-safe"@,
        "0"@,
        "-i"@,
        list,
        "-c"@,
        "copy"@,
        output,
    ]
}

/// The arguments for the encoder that join the pieces named in the file
/// `list` into one video, copying their streams.
pub fn merge_videos_args(list: &str, output: &str) -> (args: Vec<String>)
    ensures
        args.deep_view() == join_args(list@, output@),
{
    let mut args: Vec<String> = Vec::new();
    push_arg(&mut args, "-hide_banner");
    push_arg(&mut args, "-y");
    push_arg(&mut args, "-f");
    push_arg(&mut args, "concat");
    push_arg(&mut args, "-safe");
    push_arg(&mut args, "0");
    push_arg(&mut args, "-i");
    push_arg(&mut args, list);
    push_arg(&mut args, "-c");
    push_arg(&mut args, "copy");
    push_arg(&mut args, output);
    args
}

/// The list of pieces to join: for each piece a line `file '...'` with its
/// path, in the order of the pieces.
pub open spec fn join_list(videos: Seq<Seq<char>>) -> Seq<char>
    decreases videos.len(),
{
    if videos.len() == 0 {
        Seq::empty()
    } else {
        join_list(videos.drop_last()) + "file '"@ + videos.last() + "'\n"@
    }
}

/// The text of the list of pieces to join, in their order.
pub fn merge_list_text(videos: &Vec<String>) -> (text: String)
    ensures
        text@ == join_list(videos.deep_view()),
{
    let ghost all = videos.deep_view();
    let mut text = String::new();
    let mut i: usize = 0;
    while i < videos.len()
        invariant
            i <= videos.len(),
            all == videos.deep_view(),
            text@ == join_list(all.take(i as int)),
        decreases videos.len() - i,
    {
        text.append("file '");
        text.append(videos[i].as_str());
        text.append("'\n");
        proof {
            let t = all.take(i + 1);
            assert(t.drop_last() =~= all.take(i as int));
        }
        i += 1;
    }
    assert(all.take(videos.len() as int) =~= all);
    text
}

/// The arguments that cut a video into frames of the given size.
pub open spec fn frames_args(input: Seq<char>, width: u32, height: u32, pattern: Seq<char>) -> Seq<
    Seq<char>,
> {
    seq![
        "-hide_banner"@,
        "-i"@,
        input,
        "-vf"@,
        "scale="@ + decimal_digits(width as nat) + seq![':'] + decimal_digits(height as nat),
        pattern,
    ]
}

/// The arguments for the encoder that cut the video `input` into frames of
/// the given size, named by `pattern`.
pub fn extract_frames_args(input: &str, width: u32, height: u32, pattern: &str) -> (args: Vec<String>)
    ensures
        args.deep_view() == frames_args(input@, width, height, pattern@),
{
    let mut args: Vec<String> = Vec::new();
    push_arg(&mut args, "-hide_banner");
    push_arg(&mut args, "-i");
    push_arg(&mut args, input);
    push_arg(&mut args, "-vf");
    let mut scale = String::new();
    scale.append("scale=");
    push_decimal(&mut scale, width as u64);
    scale.push(':');
    push_decimal(&mut scale, height as u64);
    assert(scale@ =~= "scale="@ + decimal_digits(width as nat) + seq![':'] + decimal_digits(
        height as nat,
    ));
    push_arg(&mut args, scale.as_str());
    push_arg(&mut args, pattern);
    args
}

/// The arguments that cut one block of sound out of a video.
pub open spec fn block_args(input: Seq<char>, start: Seq<char>, length: Seq<char>, output: Seq<char>) -> Seq<
    Seq<char>,
> {
    seq![
        "-hide_banner"@,
        "-y"@,
        "-i"@,
        input,
        "-ss"@,
        start,
        "-t"@,
        length,
        "-vn"@,
        "-acodec"@,
        "pcm_s16le"@,
        "-ar"@,
        "44100"@,
        "-ac"@,
        "2"@,
        output,
    ]
}

/// The arguments for the encoder that cut out of the video `input` the sound
/// that starts at `start` seconds and lasts `length` seconds, as 16-bit
/// stereo PCM at 44.1 kHz.
pub fn extract_audio_block_args(input: &str, start: &str, length: &str, output: &str) -> (args: Vec<
    String,
>)
    ensures
        args.deep_view() == block_args(input@, start@, length@, output@),
{
    let mut args: Vec<String> = Vec::new();
    push_arg(&mut args, "-hide_banner");
    push_arg(&mut args, "-y");
    push_arg(&mut args, "-i");
    push_arg(&mut args, input);
    push_arg(&mut args, "-ss");
    push_arg(&mut args, start);
    push_arg(&mut args, "-t");
    push_arg(&mut args, length);
    push_arg(&mut args, "-vn");
    push_arg(&mut args, "-acodec");
    push_arg(&mut args, "pcm_s16le");
    push_arg(&mut args, "-ar");
    push_arg(&mut args, "44100");
    push_arg(&mut args, "-ac");
    push_arg(&mut args, "2");
    push_arg(&mut args, output);
    args
}

/// What the probe is asked about a video.
#[derive(Clone, Copy, Debug, PartialEq, Eq, Structural)]
pub enum ProbeField {
    Width,
    Height,
    FrameRate,
    Duration,
    AudioStreams,
}

/// The arguments that ask the probe one thing about a video.
pub open spec fn probe_args(field: ProbeField, input: Seq<char>) -> Seq<Seq<char>> {
    let head = seq!["-hide_banner"@, "-v"@, "error"@];
    let tail = seq!["-of"@, "csv=p=0"@, input];
    match field {
        ProbeField::Width => head + seq!["-select_streams"@, "v:0"@, "-show_entries"@, "stream=width"@]
            + tail,
        ProbeField::Height => head + seq![
            "-select_streams"@,
            "v:0"@,
            "-show_entries"@,
            "stream=height"@,
        ] + tail,
        ProbeField::FrameRate => head + seq![
            "-select_streams"@,
            "v:0"@,
            "-show_entries"@,
            "stream=r_frame_rate"@,
        ] + tail,
        ProbeField::Duration => head + seq!["-show_entries"@, "format=duration"@] + tail,
        ProbeField::AudioStreams => head + seq![
            "-show_entries"@,
            "stream=codec_type"@,
            "-select_streams"@,
            "a"@,
        ] + tail,
    }
}

/// The arguments for the probe that ask one thing about the video `input`.
pub fn video_property_args(field: ProbeField, input: &str) -> (args: Vec<String>)
    ensures
        args.deep_view() == probe_args(field, input@),
{
    let mut args: Vec<String> = Vec::new();
    push_arg(&mut args, "-hide_banner");
    push_arg(&mut args, "-v");
    push_arg(&mut args, "error");
    match field {
        ProbeField::Width => {
            push_arg(&mut args, "-select_streams");
            push_arg(&mut args, "v:0");
            push_arg(&mut args, "-show_entries");
            push_arg(&mut args, "stream=width");
        },
        ProbeField::Height => {
            push_arg(&mut args, "-select_streams");
            push_arg(&mut args, "v:0");
            push_arg(&mut args, "-show_entries");
            push_arg(&mut args, "stream=height");
        },
        ProbeField::FrameRate => {
            push_arg(&mut args, "-select_streams");
            push_arg(&mut args, "v:0");
            push_arg(&mut args, "-show_entries");
            push_arg(&mut args, "stream=r_frame_rate");
        },
        ProbeField::Duration => {
            push_arg(&mut args, "-show_entries");
            push_arg(&mut args, "format=duration");
        },
        ProbeField::AudioStreams => {
            push_arg(&mut args, "-show_entries");
            push_arg(&mut args, "stream=codec_type");
            push_arg(&mut args, "-select_streams");
            push_arg(&mut args, "a");
        },
    }
    push_arg(&mut args, "-of");
    push_arg(&mut args, "csv=p=0");
    push_arg(&mut args, input);
    args
}

} // verus!
