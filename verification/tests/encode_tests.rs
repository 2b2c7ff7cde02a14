use bootanim::descriptor::{parse_header, Descriptor, Header, LoopMode};
use bootanim::encode::{
    needs_probe, resolve_settings, EncodeRequest, EncodeSettings, VideoProperties,
};
use bootanim::error::{Error, Setting};

fn request(width: Option<u32>, height: Option<u32>, fps: Option<u32>, with_audio: bool) -> EncodeRequest {
    EncodeRequest { width, height, fps, with_audio }
}

const VIDEO: VideoProperties = VideoProperties { width: 640, height: 480, fps: 25, has_audio: true };
const STANDARD: Header = Header::Standard { width: 1080, height: 1920, fps: 30 };
const GLOBAL: Header = Header::Global { width: 720, height: 1280, offset_x: 4, offset_y: 8, fps: 24 };

#[test]
fn what_was_asked_for_wins() {
    let r = resolve_settings(&request(Some(1), Some(2), Some(3), false), &Some(GLOBAL), &Some(VIDEO));
    assert_eq!(
        r,
        Ok(EncodeSettings {
            header: Header::Global { width: 1, height: 2, offset_x: 4, offset_y: 8, fps: 3 },
            has_audio: false,
        })
    );
}

#[test]
fn an_earlier_descriptor_wins_over_the_video() {
    let r = resolve_settings(&request(None, Some(2), None, true), &Some(STANDARD), &Some(VIDEO));
    assert_eq!(
        r,
        Ok(EncodeSettings {
            header: Header::Standard { width: 1080, height: 2, fps: 30 },
            has_audio: true,
        })
    );
}

#[test]
fn the_video_fills_in_the_rest() {
    let r = resolve_settings(&request(None, None, Some(10), false), &None, &Some(VIDEO));
    assert_eq!(
        r,
        Ok(EncodeSettings {
            header: Header::Standard { width: 640, height: 480, fps: 10 },
            has_audio: false,
        })
    );
}

#[test]
fn a_setting_from_no_source_is_missing() {
    assert_eq!(
        resolve_settings(&request(None, None, None, false), &None, &None),
        Err(Error::MissingRequiredValue(Setting::Width))
    );
    assert_eq!(
        resolve_settings(&request(Some(1), None, None, false), &None, &None),
        Err(Error::MissingRequiredValue(Setting::Height))
    );
    assert_eq!(
        resolve_settings(&request(Some(1), Some(2), None, true), &None, &None),
        Err(Error::MissingRequiredValue(Setting::Fps))
    );
    assert_eq!(
        Error::MissingRequiredValue(Setting::Width).message(),
        "Width not specified and could not be determined from video"
    );
    assert_eq!(
        Error::MissingRequiredValue(Setting::Height).message(),
        "Height not specified and could not be determined from video"
    );
    assert_eq!(
        Error::MissingRequiredValue(Setting::Fps).message(),
        "FPS not specified and could not be determined from video"
    );
}

#[test]
fn sound_needs_a_video_that_has_it() {
    let silent = VideoProperties { has_audio: false, ..VIDEO };
    let all = request(Some(1), Some(2), Some(3), true);
    assert!(resolve_settings(&all, &None, &Some(VIDEO)).unwrap().has_audio);
    assert!(!resolve_settings(&all, &None, &Some(silent)).unwrap().has_audio);
    assert!(!resolve_settings(&all, &None, &None).unwrap().has_audio);
    assert!(!resolve_settings(&request(Some(1), Some(2), Some(3), false), &None, &Some(VIDEO)).unwrap().has_audio);
}

#[test]
fn the_video_is_looked_at_only_when_needed() {
    assert!(!needs_probe(&request(Some(1), Some(2), Some(3), false), &None));
    assert!(!needs_probe(&request(None, None, None, false), &Some(STANDARD)));
    assert!(needs_probe(&request(None, Some(2), Some(3), false), &None));
    assert!(needs_probe(&request(Some(1), None, Some(3), false), &None));
    assert!(needs_probe(&request(Some(1), Some(2), None, false), &None));
    assert!(needs_probe(&request(Some(1), Some(2), Some(3), true), &None));
    assert!(needs_probe(&request(None, None, None, true), &Some(GLOBAL)));
}

#[test]
fn settings_resolve_without_the_video_where_it_is_not_needed() {
    for req in [request(Some(1), Some(2), Some(3), false), request(None, Some(5), None, false)] {
        for seed in [Some(STANDARD), Some(GLOBAL)] {
            assert!(!needs_probe(&req, &seed));
            let without = resolve_settings(&req, &seed, &None);
            assert!(without.is_ok());
            assert_eq!(resolve_settings(&req, &seed, &Some(VIDEO)), without);
        }
    }
}

#[test]
fn a_global_seed_gives_a_global_header() {
    // an earlier animation with the offsets (4, 8) seeds the new one
    let seed = parse_header("g 720 1280 4 8 24\np 1 0 part0\n").unwrap();
    assert!(!needs_probe(&request(None, None, None, false), &Some(seed)));
    let settings = resolve_settings(&request(None, None, None, false), &Some(seed), &None).unwrap();
    let text = Descriptor::synthesize(settings.header, 0, LoopMode::StopOnBoot, None).serialize();
    assert_eq!(text, "g 720 1280 4 8 24\np 1 0 part0\n");
    let settings =
        resolve_settings(&request(Some(100), None, Some(12), false), &Some(seed), &None).unwrap();
    let text = Descriptor::synthesize(settings.header, 1, LoopMode::PlayFull, Some("#fff")).serialize();
    assert_eq!(text, "g 100 1280 4 8 12\nc 1 0 part0 #fff\nc 1 0 part1 #fff\n");
}
