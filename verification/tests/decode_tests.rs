use bootanim::decode::{
    collect_parts, plan_decode, segment_file_name, stitch_mode, PartInfo, PartListing, Stitch,
};
use bootanim::error::Error;
use bootanim::frames::ImageFormat;

fn listing(name: &str, files: Vec<String>) -> PartListing {
    PartListing { name: name.to_string(), files }
}

fn frames(prefix: &str, n: usize, ext: &str) -> Vec<String> {
    // listed from the last to the first, as a directory may be
    (1..=n).rev().map(|i| format!("{}{}.{}", prefix, i, ext)).collect()
}

#[test]
fn parts_come_in_the_order_of_their_names() {
    let listings = vec![
        listing("part1", vec!["a.png".to_string(), "audio.wav".to_string()]),
        listing("part0", vec!["a.png".to_string()]),
        listing("part10", vec!["AUDIO.WAV".to_string()]),
        listing("part2", vec![]),
    ];
    let parts = collect_parts(&listings);
    let got: Vec<(usize, &str, bool)> =
        parts.iter().map(|p| (p.index, p.name.as_str(), p.has_audio)).collect();
    assert_eq!(
        got,
        vec![(1, "part0", false), (0, "part1", true), (2, "part10", false), (3, "part2", false)]
    );
    assert!(collect_parts(&Vec::new()).is_empty());
}

#[test]
fn two_parts_become_one_run_of_frames() {
    // an animation with two parts, of 300 and of 150 PNG frames, without sound
    let listings =
        vec![listing("part1", frames("b", 150, "png")), listing("part0", frames("a", 300, "png"))];
    let parts = collect_parts(&listings);
    let plan = plan_decode(&listings, &parts, true).unwrap();
    assert_eq!(plan.format, ImageFormat::Png);
    assert_eq!(plan.total_frames, 450);
    assert!(!plan.segmented);
    assert_eq!(plan.parts.len(), 2);
    assert_eq!((plan.parts[0].name.as_str(), plan.parts[0].start_frame, plan.parts[0].frame_count), ("part0", 1, 300));
    assert_eq!((plan.parts[1].name.as_str(), plan.parts[1].start_frame, plan.parts[1].frame_count), ("part1", 301, 150));
    let mut targets: Vec<String> = Vec::new();
    let mut sources: Vec<String> = Vec::new();
    for p in &plan.parts {
        for c in &p.copies {
            targets.push(c.target.clone());
            sources.push(c.source.clone());
        }
    }
    let want: Vec<String> = (1..=450).map(|i| format!("{:05}.png", i)).collect();
    assert_eq!(targets, want);
    assert_eq!(sources[0], "a1.png");
    assert_eq!(sources[299], "a300.png");
    assert_eq!(sources[300], "b1.png");
    assert_eq!(sources[449], "b150.png");
}

#[test]
fn frame_counts_add_up_to_the_total() {
    let listings = vec![
        listing("part0", frames("f", 3, "jpg")),
        listing("part1", vec!["audio.wav".to_string()]),
        listing("part2", frames("f", 5, "jpg")),
        listing("part3", frames("f", 1, "jpg")),
    ];
    let parts = collect_parts(&listings);
    let plan = plan_decode(&listings, &parts, false).unwrap();
    let counts: Vec<u32> = plan.parts.iter().map(|p| p.frame_count).collect();
    let starts: Vec<u32> = plan.parts.iter().map(|p| p.start_frame).collect();
    assert_eq!(counts, vec![3, 0, 5, 1]);
    assert_eq!(starts, vec![1, 4, 4, 9]);
    assert_eq!(counts.iter().sum::<u32>(), plan.total_frames);
    assert_eq!(plan.total_frames, 9);
    assert!(!plan.segmented);
}

#[test]
fn sound_in_any_part_cuts_the_encoding_into_pieces() {
    let mut with_sound = frames("f", 2, "png");
    with_sound.push("audio.wav".to_string());
    let listings = vec![listing("part0", frames("f", 2, "png")), listing("part1", with_sound)];
    let parts = collect_parts(&listings);
    let plan = plan_decode(&listings, &parts, true).unwrap();
    assert!(plan.segmented);
    assert_eq!(plan.parts.iter().map(|p| p.has_audio).collect::<Vec<bool>>(), vec![false, true]);
    // sound that was not asked for is left out
    assert!(!plan_decode(&listings, &parts, false).unwrap().segmented);
}

#[test]
fn the_first_part_decides_the_format() {
    let listings = vec![
        listing("part0", vec!["1.jpg".to_string(), "2.jpeg".to_string()]),
        listing("part1", vec!["1.png".to_string(), "2.jpg".to_string()]),
    ];
    let parts = collect_parts(&listings);
    let plan = plan_decode(&listings, &parts, false).unwrap();
    assert_eq!(plan.format, ImageFormat::Jpg);
    assert_eq!(plan.parts[0].frame_count, 1);
    assert_eq!(plan.parts[1].frame_count, 1);
    assert_eq!(plan.parts[1].copies[0].source, "2.jpg");
    assert_eq!(plan.parts[1].copies[0].target, "00002.jpg");
}

#[test]
fn an_animation_without_frames_is_refused() {
    assert_eq!(plan_decode(&Vec::new(), &Vec::new(), false), Err(Error::NoFramesFound));
    let listings = vec![listing("part0", vec!["audio.wav".to_string()]), listing("part1", frames("f", 2, "png"))];
    let parts = collect_parts(&listings);
    assert_eq!(plan_decode(&listings, &parts, true), Err(Error::NoFramesFound));
}

#[test]
fn parts_are_planned_in_the_order_given() {
    let listings = vec![listing("b", frames("f", 2, "png")), listing("a", frames("f", 1, "png"))];
    let parts = vec![
        PartInfo { index: 0, name: "b".to_string(), has_audio: false },
        PartInfo { index: 1, name: "a".to_string(), has_audio: false },
    ];
    let plan = plan_decode(&listings, &parts, false).unwrap();
    assert_eq!(plan.parts[0].index, 0);
    assert_eq!(plan.parts[1].start_frame, 3);
}

#[test]
fn pieces_are_joined_when_there_are_several() {
    assert_eq!(stitch_mode(0), Stitch::Nothing);
    assert_eq!(stitch_mode(1), Stitch::Copy);
    assert_eq!(stitch_mode(2), Stitch::Concat);
    assert_eq!(stitch_mode(usize::MAX), Stitch::Concat);
}

#[test]
fn pieces_are_named_by_position() {
    assert_eq!(segment_file_name(0), "part0.mp4");
    assert_eq!(segment_file_name(27), "part27.mp4");
}
