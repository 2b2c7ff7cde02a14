use bootanim::error::Error;
use bootanim::frames::{
    copy_frames_sequential, detect_frame_extension, extract_last_number, frame_file_name,
    frame_order, ImageFormat,
};

fn names(v: &[&str]) -> Vec<String> {
    v.iter().map(|s| s.to_string()).collect()
}

#[test]
fn ordinal_is_the_last_run_of_digits() {
    assert_eq!(extract_last_number("frame007.png"), 7);
    assert_eq!(extract_last_number("img012_2.png"), 2);
    assert_eq!(extract_last_number("noNumbers.png"), 0);
    assert_eq!(extract_last_number("frame012_v2.png"), 2);
    assert_eq!(extract_last_number("00042.jpg"), 42);
    assert_eq!(extract_last_number("12abc"), 12);
    assert_eq!(extract_last_number("a1b22c333d"), 333);
}

#[test]
fn ordinal_looks_at_the_stem_only() {
    assert_eq!(extract_last_number("frame.mp4"), 0);
    assert_eq!(extract_last_number("frame7.mp4"), 7);
    assert_eq!(extract_last_number("frame7.tar.9"), 7);
    assert_eq!(extract_last_number("frame7.8.png"), 8);
    assert_eq!(extract_last_number(".5"), 5);
    assert_eq!(extract_last_number(".hidden9"), 9);
    assert_eq!(extract_last_number("3."), 3);
    assert_eq!(extract_last_number(""), 0);
    assert_eq!(extract_last_number("."), 0);
    assert_eq!(extract_last_number(".."), 0);
    assert_eq!(extract_last_number("..7"), 0);
    assert_eq!(extract_last_number("9..7"), 9);
}

#[test]
fn ordinal_agrees_with_the_path_of_std() {
    for name in [
        "frame007.png", "img012_2.png", "noNumbers.png", ".5", "..", "..7", "a.b.c1.d", "12", "x.",
        ".x.3", "\u{e9}12\u{e9}.png", "\u{663}4.png",
    ] {
        let stem = std::path::Path::new(name).file_stem().and_then(|s| s.to_str()).unwrap_or("");
        let mut last = String::new();
        let mut current = String::new();
        for ch in stem.chars() {
            if ch.is_ascii_digit() {
                current.push(ch);
            } else if !current.is_empty() {
                last = current.clone();
                current.clear();
            }
        }
        if !current.is_empty() {
            last = current;
        }
        assert_eq!(extract_last_number(name), last.parse().unwrap_or(0), "{:?}", name);
    }
}

#[test]
fn an_ordinal_that_is_too_large_counts_as_zero() {
    assert_eq!(extract_last_number("f4294967295.png"), 4294967295);
    assert_eq!(extract_last_number("f4294967296.png"), 0);
    assert_eq!(extract_last_number("f00000000000000000001.png"), 1);
    assert_eq!(extract_last_number("f99999999999999999999999.png"), 0);
}

#[test]
fn png_wins_over_jpg() {
    assert_eq!(detect_frame_extension(&names(&["a.jpg", "b.png", "c.jpg"])), Ok(ImageFormat::Png));
    assert_eq!(detect_frame_extension(&names(&["a.PNG"])), Ok(ImageFormat::Png));
    assert_eq!(detect_frame_extension(&names(&["a.jpg"])), Ok(ImageFormat::Jpg));
    assert_eq!(detect_frame_extension(&names(&["a.JpEg", "audio.wav"])), Ok(ImageFormat::Jpg));
}

#[test]
fn a_part_without_frames_is_reported() {
    assert_eq!(detect_frame_extension(&names(&[])), Err(Error::NoFramesFound));
    assert_eq!(
        detect_frame_extension(&names(&["audio.wav", "png", ".png", "a.pngx", "a.png.bak", "jpg."])),
        Err(Error::NoFramesFound)
    );
    assert_eq!(Error::NoFramesFound.message(), "No valid frames (PNG or JPG) found");
}

#[test]
fn extensions_agree_with_the_path_of_std() {
    for name in ["a.png", "a.PNG", ".png", "..png", "a.b.png", "png", "a.png.", "a.jpeg", ".."] {
        let ext = std::path::Path::new(name)
            .extension()
            .map(|e| e.to_string_lossy().to_lowercase());
        let want = if ext.as_deref() == Some("png") {
            Ok(ImageFormat::Png)
        } else if ext.as_deref() == Some("jpg") || ext.as_deref() == Some("jpeg") {
            Ok(ImageFormat::Jpg)
        } else {
            Err(Error::NoFramesFound)
        };
        assert_eq!(detect_frame_extension(&names(&[name])), want, "{:?}", name);
    }
}

#[test]
fn format_names_its_extension() {
    assert_eq!(ImageFormat::Png.extension(), "png");
    assert_eq!(ImageFormat::Jpg.extension(), "jpg");
}

#[test]
fn frames_are_ordered_by_ordinal() {
    let listing = names(&["f10.png", "f2.png", "audio.wav", "f1.PNG", "f3.jpg", "x.png", "f02.png"]);
    assert_eq!(frame_order(&listing, "png"), vec![5, 3, 1, 6, 0]);
    assert_eq!(frame_order(&listing, "jpg"), vec![4]);
    assert_eq!(frame_order(&listing, "gif"), Vec::<usize>::new());
    assert_eq!(frame_order(&names(&[]), "png"), Vec::<usize>::new());
}

#[test]
fn equal_ordinals_keep_the_order_of_the_listing() {
    let listing = names(&["b7.png", "a007.png", "c.png", "7.png", "d0.png"]);
    assert_eq!(frame_order(&listing, "png"), vec![2, 4, 0, 1, 3]);
}

#[test]
fn jpeg_files_are_no_jpg_frames() {
    let listing = names(&["1.jpeg", "2.jpg"]);
    assert_eq!(frame_order(&listing, "jpg"), vec![1]);
}

#[test]
fn frame_names_have_five_digits() {
    assert_eq!(frame_file_name(1, "png"), "00001.png");
    assert_eq!(frame_file_name(995, "png"), "00995.png");
    assert_eq!(frame_file_name(99999, "jpg"), "99999.jpg");
    assert_eq!(frame_file_name(100000, "jpg"), "100000.jpg");
    assert_eq!(frame_file_name(0, "png"), "00000.png");
    assert_eq!(frame_file_name(4294967295, "png"), "4294967295.png");
}

#[test]
fn frames_of_a_part_are_numbered_in_order() {
    let listing = names(&["frame3.png", "frame1.png", "audio.wav", "frame2.png"]);
    let (copies, next) = copy_frames_sequential(&listing, "png", 1);
    assert_eq!(next, 4);
    let got: Vec<(usize, &str, &str)> =
        copies.iter().map(|c| (c.index, c.source.as_str(), c.target.as_str())).collect();
    assert_eq!(
        got,
        vec![
            (1, "frame1.png", "00001.png"),
            (3, "frame2.png", "00002.png"),
            (0, "frame3.png", "00003.png"),
        ]
    );
}

#[test]
fn numbering_goes_on_where_the_part_before_ended() {
    let first = names(&["a2.jpg", "a1.jpg"]);
    let second = names(&["b1.jpg", "b3.jpg", "b2.jpg"]);
    let (c1, n1) = copy_frames_sequential(&first, "jpg", 1);
    let (c2, n2) = copy_frames_sequential(&second, "jpg", n1);
    assert_eq!(n1, 3);
    assert_eq!(n2, 6);
    let targets: Vec<&str> = c1.iter().chain(c2.iter()).map(|c| c.target.as_str()).collect();
    assert_eq!(targets, vec!["00001.jpg", "00002.jpg", "00003.jpg", "00004.jpg", "00005.jpg"]);
    assert_eq!((c1.len() + c2.len()) as u32, n2 - 1);
}

#[test]
fn a_part_without_frames_leaves_the_counter() {
    let (copies, next) = copy_frames_sequential(&names(&["audio.wav"]), "png", 17);
    assert!(copies.is_empty());
    assert_eq!(next, 17);
}

#[test]
fn renumbered_frames_carry_their_number() {
    for n in [0u32, 1, 42, 99999, 100000, 4294967295] {
        assert_eq!(extract_last_number(&frame_file_name(n, "png")), n);
        assert_eq!(extract_last_number(&frame_file_name(n, "jpg")), n);
    }
}
