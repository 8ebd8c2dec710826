use arrayvec::ArrayVec;
use svoote::app_error::AppError;
use svoote::config::LIVE_POLL_PARTICIPANT_LIMIT;
use svoote::live_poll::LivePoll;
use svoote::slide::{FreeTextLiveAnswers, MultipleChoiceLiveAnswers, PlayerSlideView, Slide, SlideStats, SlideType};

fn bad_request_text<T>(r: Result<T, AppError>) -> String {
    match r {
        Err(AppError::BadRequest(m)) => m,
        _ => panic!("expected BadRequest"),
    }
}

fn poll() -> LivePoll {
    let mc = Slide::new(
        "Pick".to_string(),
        SlideType::MultipleChoice(MultipleChoiceLiveAnswers::new(vec![("x".to_string(), false), ("y".to_string(), false)], false)),
    );
    let ft = Slide::new("Say".to_string(), SlideType::FreeText(FreeTextLiveAnswers::new()));
    LivePoll::new(vec![mc, ft], 42, tokio::time::Instant::now())
}

fn one(i: u8) -> ArrayVec<u8, 6> {
    let mut a = ArrayVec::new();
    a.push(i);
    a
}

#[test]
fn a_new_poll_shows_its_first_slide_and_has_no_participants() {
    let p = poll();
    assert_eq!(p.host_session_id, 42);
    assert_eq!(p.current_slide_index, 0);
    assert!(p.players.is_empty());
    assert_eq!(p.get_current_slide().question, "Pick");
    assert_eq!(bad_request_text(p.get_player_index(9)), "Player with this auth token did not join the poll yet");
}

#[test]
fn joining_twice_gives_the_same_participant() {
    let mut p = poll();
    assert_eq!(p.get_or_create_player(100), Some(0));
    assert_eq!(p.get_or_create_player(200), Some(1));
    assert_eq!(p.get_or_create_player(100), Some(0));
    assert_eq!(p.players.len(), 2);
    assert_eq!(p.get_player_index(200).ok(), Some(1));
    assert!(p.slides.iter().all(|s| s.player_scores.len() == 2 && s.player_emojis.len() == 2));
    let _ = p.get_player(1);
}

#[test]
fn a_full_poll_takes_no_more_participants() {
    let mut p = poll();
    for s in 0..LIVE_POLL_PARTICIPANT_LIMIT {
        assert_eq!(p.get_or_create_player(s as u128), Some(s));
    }
    assert_eq!(p.get_or_create_player(100_000), None);
    assert_eq!(p.players.len(), LIVE_POLL_PARTICIPANT_LIMIT);
    // someone who joined before still gets in
    assert_eq!(p.get_or_create_player(5), Some(5));
}

#[test]
fn out_of_range_slide_indices_show_the_first_slide() {
    let mut p = poll();
    let t = tokio::time::Instant::now();
    assert_eq!(p.set_slide_index(1, t), 1);
    assert_eq!(p.current_slide_index, 1);
    assert_eq!(p.get_current_slide_start_time(), t);
    assert_eq!(p.set_slide_index(2, t), 0);
    assert_eq!(p.current_slide_index, 0);
}

#[test]
fn submissions_go_to_the_named_slide() {
    let mut p = poll();
    p.get_or_create_player(7);
    assert_eq!(p.submit_mc_answer(7, 0, one(1)).ok(), Some(0));
    assert_eq!(bad_request_text(p.submit_mc_answer(7, 0, one(0))), "Already submitted an answers");
    assert_eq!(bad_request_text(p.submit_mc_answer(7, 5, one(0))), "slide_index out of bounds");
    assert_eq!(bad_request_text(p.submit_mc_answer(8, 0, one(0))), "Player with this auth token did not join the poll yet");
    assert_eq!(bad_request_text(p.submit_mc_answer(7, 1, one(0))), "This is not a multiple choice item");
    match p.slide_stats(0) {
        Some(SlideStats::MultipleChoice { counts }) => assert_eq!(counts, vec![0, 1]),
        _ => panic!("expected multiple-choice statistics"),
    }
    assert!(p.slide_stats(2).is_none());

    assert!(p.submit_ft_answer(7, 1, "Rust".to_string()).is_ok());
    assert_eq!(bad_request_text(p.submit_ft_answer(7, 0, "x".to_string())), "This is not a free text item");
    assert_eq!(bad_request_text(p.submit_ft_answer(7, 9, "x".to_string())), "slide_index out of bounds");
    assert_eq!(bad_request_text(p.submit_ft_answer(8, 1, "x".to_string())), "Player with this auth token did not join the poll yet");
    match p.slide_stats(1) {
        Some(SlideStats::FreeText { terms, max_count }) => {
            assert_eq!(terms, vec![("Rust".to_string(), 1)]);
            assert_eq!(max_count, 1);
        }
        _ => panic!("expected free-text statistics"),
    }

    assert_eq!(p.submit_emoji(7, 1, "thumbsUp".to_string()).ok(), Some(true));
    assert_eq!(bad_request_text(p.submit_emoji(7, 1, "heart".to_string())), "Emoji already submitted");
    assert_eq!(bad_request_text(p.submit_emoji(7, 0, "kiss".to_string())), "Unknown emoji");
    assert_eq!(bad_request_text(p.submit_emoji(7, 3, "heart".to_string())), "slide_index out of bounds");
    let c = p.slide_emoji_counts(1).unwrap();
    assert_eq!((c.heart, c.thumbs_up), (0, 1));
    assert!(p.slide_emoji_counts(2).is_none());

    let t = tokio::time::Instant::now();
    p.set_slide_index(1, t);
    match p.current_slide_view(0) {
        PlayerSlideView::FreeText { selected_answer, submitted, emoji, .. } => {
            assert_eq!(selected_answer, "Rust");
            assert!(submitted);
            assert_eq!(emoji.as_deref(), Some("thumbsUp"));
        }
        _ => panic!("expected a free-text view"),
    }
}

#[test]
fn every_participant_index_belongs_to_a_session() {
    let mut p = poll();
    for s in [30u128, 10, 20, 10, 30, 40] {
        p.get_or_create_player(s);
    }
    let mut used: Vec<usize> = p.player_indices.values().cloned().collect();
    used.sort();
    assert_eq!(used, (0..p.players.len()).collect::<Vec<_>>());
}
