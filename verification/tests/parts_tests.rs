use bootanim::error::Error;
use bootanim::order::{sort_names, stable_order};
use bootanim::parts::{organize_frames_into_parts, part_dir_name, DEFAULT_MAX_FRAMES};

fn frame_names(n: usize) -> Vec<String> {
    (1..=n).map(|i| format!("{:06}.jpg", i)).collect()
}

fn counts(frames: &[String], max_frames: u32) -> (Vec<usize>, u32) {
    let (moves, num_parts) = organize_frames_into_parts(&frames.to_vec(), max_frames).unwrap();
    let mut per_part = vec![0usize; num_parts as usize + 1];
    for m in &moves {
        per_part[m.part_index as usize] += 1;
    }
    (per_part, num_parts)
}

#[test]
fn frames_fill_the_parts_one_after_the_other() {
    let frames = frame_names(10);
    let (moves, num_parts) = organize_frames_into_parts(&frames, 4).unwrap();
    assert_eq!(num_parts, 2);
    let got: Vec<(&str, u32)> = moves.iter().map(|m| (m.source.as_str(), m.part_index)).collect();
    assert_eq!(
        got,
        vec![
            ("000001.jpg", 0),
            ("000002.jpg", 0),
            ("000003.jpg", 0),
            ("000004.jpg", 0),
            ("000005.jpg", 1),
            ("000006.jpg", 1),
            ("000007.jpg", 1),
            ("000008.jpg", 1),
            ("000009.jpg", 2),
            ("000010.jpg", 2),
        ]
    );
}

#[test]
fn the_number_of_parts_is_the_quotient_rounded_up() {
    for (n, m) in [(1usize, 1u32), (1, 400), (399, 400), (400, 400), (401, 400), (800, 400), (801, 400), (7, 3), (9, 3), (5, 1)] {
        let (per_part, num_parts) = counts(&frame_names(n), m);
        let want = (n + m as usize - 1) / m as usize;
        assert_eq!(num_parts as usize + 1, want, "{} frames, {} a part", n, m);
        for (p, c) in per_part.iter().enumerate() {
            if p + 1 < per_part.len() {
                assert_eq!(*c, m as usize);
            } else {
                assert!(1 <= *c && *c <= m as usize);
            }
        }
        assert_eq!(per_part.iter().sum::<usize>(), n);
    }
}

#[test]
fn a_short_video_is_one_part() {
    // 20 seconds at 10 frames a second are 200 frames: fewer than 400
    assert_eq!(DEFAULT_MAX_FRAMES, 400);
    let (per_part, num_parts) = counts(&frame_names(200), DEFAULT_MAX_FRAMES);
    assert_eq!(num_parts, 0);
    assert_eq!(per_part, vec![200]);
    assert_eq!(part_dir_name(num_parts), "part0");
}

#[test]
fn a_full_last_part_opens_no_part_behind_it() {
    let (per_part, num_parts) = counts(&frame_names(400), 400);
    assert_eq!(num_parts, 0);
    assert_eq!(per_part, vec![400]);
}

#[test]
fn with_no_room_every_frame_is_a_part() {
    let (per_part, num_parts) = counts(&frame_names(3), 0);
    assert_eq!(num_parts, 2);
    assert_eq!(per_part, vec![1, 1, 1]);
}

#[test]
fn no_frames_are_an_error() {
    assert_eq!(organize_frames_into_parts(&Vec::new(), 400), Err(Error::NoFramesToProcess));
    assert_eq!(organize_frames_into_parts(&Vec::new(), 0), Err(Error::NoFramesToProcess));
    assert_eq!(Error::NoFramesToProcess.message(), "No frames found to process");
}

#[test]
fn frames_are_taken_in_the_order_of_their_names() {
    let frames: Vec<String> =
        ["000010.jpg", "000002.jpg", "000001.jpg", "9.jpg", "000002.jpg"].iter().map(|s| s.to_string()).collect();
    let (moves, num_parts) = organize_frames_into_parts(&frames, 2).unwrap();
    let got: Vec<(usize, &str, u32)> =
        moves.iter().map(|m| (m.index, m.source.as_str(), m.part_index)).collect();
    assert_eq!(
        got,
        vec![
            (2, "000001.jpg", 0),
            (1, "000002.jpg", 0),
            (4, "000002.jpg", 1),
            (0, "000010.jpg", 1),
            (3, "9.jpg", 2),
        ]
    );
    assert_eq!(num_parts, 2);
}

#[test]
fn names_sort_as_std_sorts_them() {
    let names: Vec<String> = [
        "part10", "part2", "part1", "", "Part1", "part", "part1", "\u{e9}", "z", "\u{1f600}",
        "\u{ffff}", "part1a",
    ]
    .iter()
    .map(|s| s.to_string())
    .collect();
    let order = sort_names(&names);
    let mut want: Vec<usize> = (0..names.len()).collect();
    want.sort_by(|a, b| names[*a].cmp(&names[*b]));
    assert_eq!(order, want);
}

#[test]
fn numbers_sort_stably() {
    let keys: Vec<u32> = vec![5, 1, 5, 0, 1, 4294967295, 0];
    assert_eq!(stable_order(&keys), vec![3, 6, 1, 4, 0, 2, 5]);
    assert_eq!(stable_order(&Vec::<u32>::new()), Vec::<usize>::new());
}

#[test]
fn part_directories_are_named_by_index() {
    assert_eq!(part_dir_name(0), "part0");
    assert_eq!(part_dir_name(12), "part12");
    assert_eq!(part_dir_name(4294967295), "part4294967295");
}

#[test]
fn cut_frames_sort_by_number() {
    // names with six digits sort as their numbers do
    let numbers = [0u32, 1, 9, 10, 99, 100, 4321, 99999, 100000, 999999];
    let mut names: Vec<String> = numbers.iter().rev().map(|n| format!("{:06}.jpg", n)).collect();
    names.swap(2, 7);
    let order = sort_names(&names);
    let sorted: Vec<&str> = order.iter().map(|i| names[*i].as_str()).collect();
    let want: Vec<String> = numbers.iter().map(|n| format!("{:06}.jpg", n)).collect();
    assert_eq!(sorted, want);
    // a seventh digit breaks the order
    let names = vec!["1000000.jpg".to_string(), "999999.jpg".to_string()];
    assert_eq!(sort_names(&names), vec![0, 1]);
}
