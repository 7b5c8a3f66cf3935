use media_tagger::tv::{
    cap_episode, cap_season, capture_all, try_capture_all, Capture, CaptureError, Context,
    Episodes,
};

const TEST_1: (&str, usize, usize) = ("hello s01 e02 hi.mp4", 2, 1);
const TEST_2: (&str, usize, usize) = ("xs01e20.epc", 20, 1);
const TEST_3: (&str, usize, usize) = ("SEASON3EPISODE4", 4, 3);
const TEST_4: (&str, usize, usize) = ("EPIsode2 and SEASOn 0002.exy", 2, 2);
const TEST_5: (&str, usize, usize) = ("hiS01E04.ex", 4, 1);

#[test]
fn episode_simple() {
    assert_eq!(cap_episode(TEST_1.0), Ok(TEST_1.1));
    assert_eq!(cap_episode(TEST_2.0), Ok(TEST_2.1));
    assert_eq!(cap_episode(TEST_3.0), Ok(TEST_3.1));
    assert_eq!(cap_episode(TEST_4.0), Ok(TEST_4.1));
    assert_eq!(cap_episode(TEST_5.0), Ok(TEST_5.1));
}

#[test]
fn season_simple() {
    assert_eq!(cap_season(TEST_1.0), Ok(TEST_1.2));
    assert_eq!(cap_season(TEST_2.0), Ok(TEST_2.2));
    assert_eq!(cap_season(TEST_3.0), Ok(TEST_3.2));
    assert_eq!(cap_season(TEST_4.0), Ok(TEST_4.2));
    assert_eq!(cap_season(TEST_5.0), Ok(TEST_5.2));
}

#[test]
fn main_episode_simple() {
    assert_eq!(cap_episode(TEST_1.0), Ok(TEST_1.1));
    assert_eq!(cap_episode(TEST_2.0), Ok(TEST_2.1));
    assert_eq!(cap_episode(TEST_3.0), Ok(TEST_3.1));
    assert_eq!(cap_episode(TEST_4.0), Ok(TEST_4.1));
    assert_eq!(cap_episode(TEST_5.0), Ok(TEST_5.1));
}

#[test]
fn main_season_simple() {
    assert_eq!(cap_season(TEST_1.0), Ok(TEST_1.2));
    assert_eq!(cap_season(TEST_2.0), Ok(TEST_2.2));
    assert_eq!(cap_season(TEST_3.0), Ok(TEST_3.2));
    assert_eq!(cap_season(TEST_4.0), Ok(TEST_4.2));
    assert_eq!(cap_season(TEST_5.0), Ok(TEST_5.2));
}

fn empty_context() -> Context {
    Context { episode: None, season: None }
}

#[test]
fn capture_concrete_cases() {
    for (name, episode, season) in [TEST_1, TEST_2, TEST_3, TEST_4, TEST_5] {
        let cap = Capture::new(name.to_string(), &empty_context()).unwrap();
        assert_eq!(cap.episode, episode);
        assert_eq!(cap.season, season);
        assert_eq!(cap.file_path, name);
    }
}

#[test]
fn capture_splits_stem_and_ext() {
    let cap = Capture::new("hello s01 e02 hi.mp4".to_string(), &empty_context()).unwrap();
    assert_eq!(cap.filename, "hello s01 e02 hi");
    assert_eq!(cap.ext, Some(".mp4".to_string()));

    let cap = Capture::new("SEASON3EPISODE4".to_string(), &empty_context()).unwrap();
    assert_eq!(cap.filename, "SEASON3EPISODE4");
    assert_eq!(cap.ext, None);

    // With several dots, only the last segment is the extension.
    let cap = Capture::new("e1 s2.part1.mp4".to_string(), &empty_context()).unwrap();
    assert_eq!(cap.filename, "e1 s2.part1");
    assert_eq!(cap.ext, Some(".mp4".to_string()));
}

#[test]
fn empty_name_fails_on_season() {
    assert_eq!(
        Capture::new(String::new(), &empty_context()),
        Err(CaptureError::NoSeasonRegex)
    );
    assert_eq!(cap_episode(""), Err(CaptureError::NoEpisodeRegex));
    assert_eq!(cap_season(""), Err(CaptureError::NoSeasonRegex));
}

#[test]
fn season_checked_before_episode() {
    assert_eq!(
        Capture::new("plainname".to_string(), &empty_context()),
        Err(CaptureError::NoSeasonRegex)
    );
}

#[test]
fn episode_error_once_season_resolves() {
    assert_eq!(
        Capture::new("s01 only.mp4".to_string(), &empty_context()),
        Err(CaptureError::NoEpisodeRegex)
    );
    assert_eq!(
        Capture::new("plainname".to_string(), &Context { episode: None, season: Some(3) }),
        Err(CaptureError::NoEpisodeRegex)
    );
}

#[test]
fn override_wins_over_markers() {
    let cap = Capture::new(
        "xs01e20.epc".to_string(),
        &Context { episode: Some(7), season: Some(9) },
    )
    .unwrap();
    assert_eq!(cap.episode, 7);
    assert_eq!(cap.season, 9);

    let cap = Capture::new(
        "xs01e20.epc".to_string(),
        &Context { episode: None, season: Some(9) },
    )
    .unwrap();
    assert_eq!(cap.episode, 20);
    assert_eq!(cap.season, 9);

    let cap = Capture::new(
        "plainname".to_string(),
        &Context { episode: Some(2), season: Some(1) },
    )
    .unwrap();
    assert_eq!(cap.episode, 2);
    assert_eq!(cap.season, 1);
}

#[test]
fn leading_zeros_ignored() {
    let cap = Capture::new("s0002e0040.mkv".to_string(), &empty_context()).unwrap();
    assert_eq!(cap.season, 2);
    assert_eq!(cap.episode, 40);
}

#[test]
fn spaces_between_marker_and_number() {
    assert_eq!(cap_season("season   12"), Ok(12));
    assert_eq!(cap_episode("episode 7"), Ok(7));
    assert_eq!(cap_episode("ep  003"), Ok(3));
}

#[test]
fn first_marker_wins() {
    assert_eq!(cap_episode("e1 then e2"), Ok(1));
    assert_eq!(cap_season("s5 and season 9"), Ok(5));
}

#[test]
fn error_messages() {
    assert_eq!(
        CaptureError::NoSeasonRegex.message(),
        "No season number passed as context and it wasn't found in the file name either"
    );
    assert_eq!(
        CaptureError::NoEpisodeRegex.message(),
        "No episode number passed as context and it wasn't found in the file name either"
    );
}

#[test]
fn try_new_reports_oversized_numbers() {
    let huge = "s99999999999999999999999999e1.mp4".to_string();
    assert_eq!(Capture::try_new(huge, &empty_context()), None);

    let huge_episode = "s1e99999999999999999999999999x.mp4".to_string();
    assert_eq!(Capture::try_new(huge_episode, &empty_context()), None);

    // An override bypasses the oversized marker entirely.
    let huge = "s99999999999999999999999999e1.mp4".to_string();
    let cap = Capture::try_new(huge, &Context { episode: None, season: Some(4) })
        .unwrap()
        .unwrap();
    assert_eq!(cap.season, 4);
    assert_eq!(cap.episode, 1);
}

#[test]
fn try_new_agrees_with_new() {
    let cap = Capture::try_new("xs01e20.epc".to_string(), &empty_context())
        .unwrap()
        .unwrap();
    assert_eq!(cap, Capture::new("xs01e20.epc".to_string(), &empty_context()).unwrap());
}

#[test]
fn batch_shares_one_context() {
    let episodes = Episodes {
        names: vec!["ep 1.mp4".to_string(), "etc episode4.mpv".to_string()],
    };
    let context = Context { episode: None, season: Some(4) };
    let caps = capture_all(&episodes, &context).unwrap();
    assert_eq!(caps.len(), 2);
    assert_eq!(caps[0].episode, 1);
    assert_eq!(caps[0].season, 4);
    assert_eq!(caps[1].episode, 4);
    assert_eq!(caps[1].season, 4);
}

#[test]
fn batch_stops_at_first_failure() {
    let episodes = Episodes {
        names: vec![
            "ep 1.mp4".to_string(),
            "plain".to_string(),
            "e2.mp4".to_string(),
        ],
    };
    let context = Context { episode: None, season: Some(4) };
    assert_eq!(
        capture_all(&episodes, &context),
        Err(("plain".to_string(), CaptureError::NoEpisodeRegex))
    );
    assert_eq!(
        try_capture_all(&episodes, &context),
        Some(Err(("plain".to_string(), CaptureError::NoEpisodeRegex)))
    );
}

#[test]
fn batch_reports_oversized_numbers() {
    let episodes = Episodes {
        names: vec!["ep 1.mp4".to_string(), "e99999999999999999999999999.mp4".to_string()],
    };
    let context = Context { episode: None, season: Some(1) };
    assert_eq!(try_capture_all(&episodes, &context), None);
}

#[test]
fn tv_help_endpoints() {
    assert!(media_tagger::tv::help().starts_with("ROUTE /tv\n"));
    assert!(media_tagger::tv::episode_help().starts_with("ENDPOINT POST /tv/episode"));
    assert!(media_tagger::tv::season_help().starts_with("ENDPOINT POST /tv/season"));
}
