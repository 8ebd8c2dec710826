use svoote::app_error::AppError;
use svoote::play::Player;
use svoote::polls::{build_slides, read_poll, start_poll_slides, McAnswerSpec, PersistablePoll, PollSpec, SlideSpec};
use svoote::slide::SlideType;

fn bad_request_text(e: AppError) -> String {
    match e {
        AppError::BadRequest(m) => m,
        _ => panic!("expected BadRequest"),
    }
}

fn mc_slide(question: Option<&str>, answers: Option<Vec<McAnswerSpec>>) -> SlideSpec {
    SlideSpec {
        slide_type: Some("mc".to_string()),
        question: question.map(|q| q.to_string()),
        mc_answers: answers,
        allow_multiple_mc_answers: None,
    }
}

fn ft_slide(question: Option<&str>) -> SlideSpec {
    SlideSpec {
        slide_type: Some("ft".to_string()),
        question: question.map(|q| q.to_string()),
        mc_answers: None,
        allow_multiple_mc_answers: None,
    }
}

#[test]
fn a_poll_without_slides_array_is_refused() {
    let e = build_slides(&PollSpec { slides: None }).err().unwrap();
    assert_eq!(bad_request_text(e), "Poll needs to contain a 'slides' array");
}

#[test]
fn an_empty_poll_starts_with_one_empty_slide() {
    let slides = build_slides(&PollSpec { slides: Some(vec![]) }).ok().unwrap();
    assert_eq!(slides.len(), 1);
    assert_eq!(slides[0].question, "");
    assert!(matches!(slides[0].slide_type, SlideType::Undefined));
}

#[test]
fn slides_are_started_from_their_specs() {
    let answers = vec![
        McAnswerSpec { text: Some("Red".to_string()), is_correct: Some(true) },
        McAnswerSpec { text: None, is_correct: None },
    ];
    let mut mc = mc_slide(Some("Colour?"), Some(answers));
    mc.allow_multiple_mc_answers = Some(true);
    let other = SlideSpec {
        slide_type: Some("quiz".to_string()),
        question: Some("ignored".to_string()),
        mc_answers: None,
        allow_multiple_mc_answers: None,
    };
    let slides = build_slides(&PollSpec { slides: Some(vec![mc, ft_slide(Some("Why?")), other]) }).ok().unwrap();
    assert_eq!(slides.len(), 3);
    assert_eq!(slides[0].question, "Colour?");
    match &slides[0].slide_type {
        SlideType::MultipleChoice(m) => {
            assert_eq!(m.answers, vec![("Red".to_string(), true), ("".to_string(), false)]);
            assert_eq!(m.answer_counts, vec![0, 0]);
            assert!(m.allow_multiple_answers);
            assert!(m.player_answers.is_empty());
        }
        _ => panic!("expected a multiple-choice slide"),
    }
    assert_eq!(slides[1].question, "Why?");
    match &slides[1].slide_type {
        SlideType::FreeText(f) => {
            assert!(f.word_cloud_terms.is_empty());
            assert_eq!(f.max_term_count, 1);
        }
        _ => panic!("expected a free-text slide"),
    }
    assert_eq!(slides[2].question, "");
    assert!(matches!(slides[2].slide_type, SlideType::Undefined));
    assert!(slides.iter().all(|s| s.player_scores.is_empty() && s.player_emojis.is_empty()));
}

#[test]
fn the_first_broken_slide_gives_the_error() {
    let no_type = SlideSpec { slide_type: None, question: None, mc_answers: None, allow_multiple_mc_answers: None };
    let e = build_slides(&PollSpec { slides: Some(vec![ft_slide(Some("ok")), no_type]) }).err().unwrap();
    assert_eq!(bad_request_text(e), "type field needs to be a string");

    let e = build_slides(&PollSpec { slides: Some(vec![mc_slide(None, None)]) }).err().unwrap();
    assert_eq!(bad_request_text(e), "mcAnswers must be an array");

    let e = build_slides(&PollSpec { slides: Some(vec![mc_slide(None, Some(vec![]))]) }).err().unwrap();
    assert_eq!(bad_request_text(e), "Question field missing for slide");

    let e = build_slides(&PollSpec { slides: Some(vec![ft_slide(None), mc_slide(None, None)]) }).err().unwrap();
    assert_eq!(bad_request_text(e), "Question field missing for slide");
}

#[test]
fn a_new_persistable_poll_is_empty() {
    let p = PersistablePoll::new();
    assert!(p.items.is_empty());
    assert_eq!(p.version, 1);
    assert!(!p.leaderboard_enabled);
    assert_eq!(p.question_time_limit_seconds, None);
    assert!(p.allow_custom_names);
    let _player: Player = Player::new(3);
}

#[test]
fn a_request_body_is_read_as_a_poll() {
    let slides = start_poll_slides(r#"{"slides":[]}"#).ok().unwrap();
    assert_eq!(slides.len(), 1);
    assert!(matches!(slides[0].slide_type, SlideType::Undefined));

    let body = r#"{"slides":[{"type":"mc","question":"Q","mcAnswers":[{"text":"a","isCorrect":true},{"text":5}],
        "allowMultipleMCAnswers":true},{"type":"ft","question":"W"},{"type":7}]}"#;
    let e = start_poll_slides(body).err().unwrap();
    assert_eq!(bad_request_text(e), "type field needs to be a string");
    let poll = read_poll(body).ok().unwrap();
    let specs = poll.slides.unwrap();
    assert_eq!(specs.len(), 3);
    assert_eq!(specs[0].slide_type.as_deref(), Some("mc"));
    let answers = specs[0].mc_answers.as_ref().unwrap();
    assert_eq!(answers[0].text.as_deref(), Some("a"));
    assert_eq!(answers[0].is_correct, Some(true));
    assert_eq!(answers[1].text, None);
    assert_eq!(specs[0].allow_multiple_mc_answers, Some(true));
    assert_eq!(specs[2].slide_type, None);

    let ok = r#"{"slides":[{"type":"mc","question":"Q","mcAnswers":[{"text":"a"}]},{"type":"ft","question":"W"}]}"#;
    let slides = start_poll_slides(ok).ok().unwrap();
    assert_eq!(slides.len(), 2);
    assert_eq!(slides[1].question, "W");

    let e = start_poll_slides(r#"{"polls":[]}"#).err().unwrap();
    assert_eq!(bad_request_text(e), "Poll needs to contain a 'slides' array");
    let e = start_poll_slides("not json").err().unwrap();
    let expected = serde_json::from_str::<serde_json::Value>("not json").unwrap_err().to_string();
    assert_eq!(bad_request_text(e), expected);
}
