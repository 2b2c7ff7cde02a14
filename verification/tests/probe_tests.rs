use bootanim::error::Error;
use bootanim::probe::{parse_frame_rate, parse_probe_number, probe_reports_audio, FrameRate};

fn ratio(n: &str, d: &str) -> FrameRate {
    FrameRate::Ratio { numerator: n.to_string(), denominator: d.to_string() }
}

#[test]
fn numbers_are_read_without_the_space_around_them() {
    assert_eq!(parse_probe_number("1920\n"), Ok(1920));
    assert_eq!(parse_probe_number("  \t1080 \r\n"), Ok(1080));
    assert_eq!(parse_probe_number("+7"), Ok(7));
    assert_eq!(parse_probe_number("4294967295"), Ok(4294967295));
}

#[test]
fn answers_that_are_no_numbers_are_refused() {
    for s in ["", "\n", "N/A\n", "19 20", "1920,\n", "-1", "4294967296", "1.5"] {
        assert_eq!(parse_probe_number(s), Err(Error::InvalidDimension), "{:?}", s);
        assert_eq!(s.trim().parse::<u32>().ok(), None);
    }
    assert_eq!(Error::InvalidDimension.message(), "Invalid width, height or fps");
}

#[test]
fn an_answer_means_sound() {
    assert!(probe_reports_audio("audio\n"));
    assert!(probe_reports_audio("audio\naudio\n"));
    assert!(!probe_reports_audio(""));
    assert!(!probe_reports_audio(" \n\t\r\n"));
}

#[test]
fn whole_frame_rates_are_read() {
    assert_eq!(parse_frame_rate("30\n"), Ok(FrameRate::Whole(30)));
    assert_eq!(parse_frame_rate(" 0 "), Ok(FrameRate::Whole(0)));
    assert_eq!(parse_frame_rate("thirty"), Err(Error::InvalidDimension));
    assert_eq!(parse_frame_rate("29.97"), Err(Error::InvalidDimension));
    assert_eq!(parse_frame_rate(""), Err(Error::InvalidDimension));
}

#[test]
fn quotients_are_split_at_the_slash() {
    assert_eq!(parse_frame_rate("30000/1001\n"), Ok(ratio("30000", "1001")));
    assert_eq!(parse_frame_rate("  25/1  "), Ok(ratio("25", "1")));
    assert_eq!(parse_frame_rate("/"), Ok(ratio("", "")));
    assert_eq!(parse_frame_rate("1/"), Ok(ratio("1", "")));
    assert_eq!(parse_frame_rate("/2"), Ok(ratio("", "2")));
    assert_eq!(parse_frame_rate("1/2/3"), Ok(ratio("1", "2")));
    assert_eq!(parse_frame_rate("1//3"), Ok(ratio("1", "")));
    assert_eq!(parse_frame_rate("a b/c d"), Ok(ratio("a b", "c d")));
    assert_eq!(parse_frame_rate("29.97/1"), Ok(ratio("29.97", "1")));
}

#[test]
fn quotients_are_split_as_std_splits_them() {
    for s in ["30000/1001\n", " 1/2/3 ", "//", "x/", "\t/y\n"] {
        let t = s.trim();
        let parts: Vec<&str> = t.split('/').collect();
        assert_eq!(parse_frame_rate(s), Ok(ratio(parts[0], parts[1])), "{:?}", s);
    }
}
