use bootanim::descriptor::{
    parse_desc, parse_header, Descriptor, Header, LoopMode, PartDirective,
};
use bootanim::error::{ColorFault, Error};

fn directive(kind: LoopMode, count: u32, clock: u32, name: &str, bg: Option<&str>) -> PartDirective {
    PartDirective {
        loop_kind: kind,
        pause_or_count: count,
        clock_flag: clock,
        part_name: name.to_string(),
        background: bg.map(|b| b.to_string()),
    }
}

#[test]
fn standard_header_is_read() {
    assert_eq!(
        parse_header("1080 1920 30\np 1 0 part0\n"),
        Ok(Header::Standard { width: 1080, height: 1920, fps: 30 })
    );
}

#[test]
fn global_header_is_read_with_its_offsets() {
    assert_eq!(
        parse_header("g 1080 1920 4 8 30\nc 0 0 part0\n"),
        Ok(Header::Global { width: 1080, height: 1920, offset_x: 4, offset_y: 8, fps: 30 })
    );
}

#[test]
fn blank_lines_and_comments_are_passed_over() {
    let text = "\n   \n# a comment 1 2 3\n  \t# 4 5 6\n\r\n 720  1280\t24  \r\nrest";
    assert_eq!(parse_header(text), Ok(Header::Standard { width: 720, height: 1280, fps: 24 }));
}

#[test]
fn short_lines_are_passed_over_before_the_header() {
    assert_eq!(
        parse_header("version 2\nx\n100 200 10\n"),
        Ok(Header::Standard { width: 100, height: 200, fps: 10 })
    );
}

#[test]
fn a_short_global_line_is_read_as_standard() {
    // `g` with fewer than six tokens is no global header: its first token is read as a width
    assert_eq!(parse_header("g 1 2 3 4\n"), Err(Error::MalformedDescriptor));
    assert_eq!(parse_header("g 1\n3 4 5\n"), Ok(Header::Standard { width: 3, height: 4, fps: 5 }));
}

#[test]
fn tokens_behind_the_header_numbers_are_not_looked_at() {
    assert_eq!(
        parse_header("10 20 30 forty"),
        Ok(Header::Standard { width: 10, height: 20, fps: 30 })
    );
    assert_eq!(
        parse_header("g 1 2 3 4 5 six seven"),
        Ok(Header::Global { width: 1, height: 2, offset_x: 3, offset_y: 4, fps: 5 })
    );
}

#[test]
fn a_missing_header_is_reported() {
    assert_eq!(parse_header(""), Err(Error::MissingDescriptor));
    assert_eq!(parse_header("\n\n# 1 2 3\n"), Err(Error::MissingDescriptor));
    assert_eq!(parse_header("1080 1920\n"), Err(Error::MissingDescriptor));
    assert_eq!(parse_desc("#\n"), Err(Error::MissingDescriptor));
}

#[test]
fn a_header_with_a_bad_number_is_malformed() {
    assert_eq!(parse_header("1080 x 30\n"), Err(Error::MalformedDescriptor));
    assert_eq!(parse_header("1080 1920 -30\n"), Err(Error::MalformedDescriptor));
    assert_eq!(parse_header("1080 1920 4294967296\n"), Err(Error::MalformedDescriptor));
    assert_eq!(parse_header("g 1080 1920 a 8 30\n"), Err(Error::MalformedDescriptor));
    assert_eq!(parse_header("G 1080 1920 4 8 30\n"), Err(Error::MalformedDescriptor));
    // only the first header line counts
    assert_eq!(parse_header("a b c\n1 2 3\n"), Err(Error::MalformedDescriptor));
}

#[test]
fn numbers_may_carry_a_plus_sign() {
    assert_eq!(
        parse_header("+1080 01920 +030"),
        Ok(Header::Standard { width: 1080, height: 1920, fps: 30 })
    );
}

#[test]
fn directives_are_read() {
    let text = "1080 1920 30\np 1 0 part0\n\n# comment\nc 1 0 part1 #FFF\nc 0 0 part2 abc123 extra\np 0 5 intro\nc 3 7 part4\n";
    let d = parse_desc(text).unwrap();
    assert_eq!(d.header, Header::Standard { width: 1080, height: 1920, fps: 30 });
    assert_eq!(
        d.directives,
        vec![
            directive(LoopMode::StopOnBoot, 1, 0, "part0", None),
            directive(LoopMode::PlayFull, 1, 0, "part1", Some("#FFF")),
            directive(LoopMode::LoopInfinite, 0, 0, "part2", Some("#abc123")),
            directive(LoopMode::StopOnBoot, 0, 5, "intro", None),
            directive(LoopMode::PlayFull, 3, 7, "part4", None),
        ]
    );
}

#[test]
fn a_header_alone_is_a_descriptor() {
    let d = parse_desc("g 1 2 3 4 5").unwrap();
    assert_eq!(d.header, Header::Global { width: 1, height: 2, offset_x: 3, offset_y: 4, fps: 5 });
    assert!(d.directives.is_empty());
}

#[test]
fn bad_directives_are_reported() {
    assert_eq!(parse_desc("1 2 3\np 1 0\n"), Err(Error::MalformedDescriptor));
    assert_eq!(parse_desc("1 2 3\nx 1 0 part0\n"), Err(Error::MalformedDescriptor));
    assert_eq!(parse_desc("1 2 3\npp 1 0 part0\n"), Err(Error::MalformedDescriptor));
    assert_eq!(parse_desc("1 2 3\np one 0 part0\n"), Err(Error::MalformedDescriptor));
    assert_eq!(parse_desc("1 2 3\nc 1 zero part0\n"), Err(Error::MalformedDescriptor));
    assert_eq!(
        parse_desc("1 2 3\np 1 0 part0 #GGGGGG\n"),
        Err(Error::InvalidColor(ColorFault::Digit))
    );
    assert_eq!(
        parse_desc("1 2 3\np 1 0 part0 12345\n"),
        Err(Error::InvalidColor(ColorFault::Length))
    );
    // the first bad line decides
    assert_eq!(
        parse_desc("1 2 3\np 1 0 part0 #12\nbad\n"),
        Err(Error::InvalidColor(ColorFault::Length))
    );
    assert_eq!(parse_desc("1 2 3\nbad\np 1 0 part0 #12\n"), Err(Error::MalformedDescriptor));
    // the header is read first
    assert_eq!(parse_desc("1 x 3\np 1 0 part0 #12\n"), Err(Error::MalformedDescriptor));
}

#[test]
fn a_directive_is_not_a_comment_for_its_background() {
    let d = parse_desc("1 2 3\np 1 0 #name #fff\n").unwrap();
    assert_eq!(d.directives, vec![directive(LoopMode::StopOnBoot, 1, 0, "#name", Some("#fff"))]);
}

#[test]
fn standard_descriptor_is_written() {
    let d = Descriptor::synthesize(
        Header::Standard { width: 1080, height: 1920, fps: 30 },
        2,
        LoopMode::StopOnBoot,
        None,
    );
    assert_eq!(d.serialize(), "1080 1920 30\np 1 0 part0\np 1 0 part1\np 1 0 part2\n");
}

#[test]
fn every_loop_mode_has_its_line() {
    let h = Header::Standard { width: 1, height: 2, fps: 3 };
    assert_eq!(
        Descriptor::synthesize(h, 0, LoopMode::StopOnBoot, Some("#FFF")).serialize(),
        "1 2 3\np 1 0 part0 #FFF\n"
    );
    assert_eq!(
        Descriptor::synthesize(h, 0, LoopMode::PlayFull, None).serialize(),
        "1 2 3\nc 1 0 part0\n"
    );
    assert_eq!(
        Descriptor::synthesize(h, 1, LoopMode::LoopInfinite, Some("#a1b2c3")).serialize(),
        "1 2 3\nc 0 0 part0 #a1b2c3\nc 0 0 part1 #a1b2c3\n"
    );
    assert_eq!(
        Descriptor::synthesize(h, 11, LoopMode::PlayFull, None).directives[11],
        directive(LoopMode::PlayFull, 1, 0, "part11", None)
    );
}

#[test]
fn global_descriptor_keeps_its_offsets() {
    let d = Descriptor::synthesize(
        Header::Global { width: 720, height: 1280, offset_x: 4, offset_y: 8, fps: 24 },
        0,
        LoopMode::PlayFull,
        None,
    );
    assert_eq!(d.serialize(), "g 720 1280 4 8 24\nc 1 0 part0\n");
}

#[test]
fn for_part_builds_the_canonical_directive() {
    assert_eq!(
        PartDirective::for_part(LoopMode::LoopInfinite, 7, Some("#000")),
        directive(LoopMode::LoopInfinite, 0, 0, "part7", Some("#000"))
    );
    assert_eq!(
        PartDirective::for_part(LoopMode::StopOnBoot, 4294967295, None),
        directive(LoopMode::StopOnBoot, 1, 0, "part4294967295", None)
    );
}

#[test]
fn what_is_written_reads_back() {
    let headers = [
        Header::Standard { width: 0, height: 0, fps: 0 },
        Header::Standard { width: 1080, height: 1920, fps: 60 },
        Header::Global { width: 4294967295, height: 1, offset_x: 0, offset_y: 4294967295, fps: 10 },
    ];
    let modes = [LoopMode::StopOnBoot, LoopMode::PlayFull, LoopMode::LoopInfinite];
    for h in headers {
        for m in modes {
            for bg in [None, Some("#FFF"), Some("#09afAF")] {
                for n in [0u32, 1, 12] {
                    let d = Descriptor::synthesize(h, n, m, bg);
                    let text = d.serialize();
                    assert_eq!(parse_desc(&text), Ok(d.clone()));
                    assert_eq!(parse_header(&text), Ok(h));
                }
            }
        }
    }
}

#[test]
fn a_descriptor_made_by_hand_reads_back() {
    let d = Descriptor {
        header: Header::Global { width: 320, height: 240, offset_x: 1, offset_y: 2, fps: 15 },
        directives: vec![
            directive(LoopMode::StopOnBoot, 0, 9, "intro", None),
            directive(LoopMode::PlayFull, 25, 3, "main-loop", Some("#123")),
            directive(LoopMode::LoopInfinite, 0, 1, "\u{e9}nd", Some("#abcdef")),
        ],
    };
    let text = d.serialize();
    assert_eq!(text, "g 320 240 1 2 15\np 0 9 intro\nc 25 3 main-loop #123\nc 0 1 \u{e9}nd #abcdef\n");
    assert_eq!(parse_desc(&text), Ok(d));
}

#[test]
fn header_getters_give_the_numbers() {
    let s = Header::Standard { width: 1, height: 2, fps: 3 };
    let g = Header::Global { width: 4, height: 5, offset_x: 6, offset_y: 7, fps: 8 };
    assert_eq!((s.width(), s.height(), s.fps()), (1, 2, 3));
    assert_eq!((g.width(), g.height(), g.fps()), (4, 5, 8));
}

#[test]
fn descriptor_messages() {
    assert_eq!(Error::MissingDescriptor.message(), "Unable to parse desc.txt");
    assert!(Error::MalformedDescriptor.message().contains("desc.txt"));
}
