use arrayvec::ArrayVec;
use svoote::app_error::AppError;
use svoote::slide::{
    FreeTextLiveAnswers, MultipleChoiceLiveAnswers, PlayerSlideView, SelectedAnswer, Slide, SlideStats, SlideType,
};

fn bad_request_text<T>(r: Result<T, AppError>) -> String {
    match r {
        Err(AppError::BadRequest(m)) => m,
        _ => panic!("expected BadRequest"),
    }
}

fn indices(v: &[u8]) -> ArrayVec<u8, 6> {
    let mut a = ArrayVec::new();
    for x in v {
        a.push(*x);
    }
    a
}

fn mc_slide(allow_multiple: bool, players: usize) -> Slide {
    let answers = vec![("A".to_string(), false), ("B".to_string(), true), ("C".to_string(), false)];
    let mut s = Slide::new("Q?".to_string(), SlideType::MultipleChoice(MultipleChoiceLiveAnswers::new(answers, allow_multiple)));
    for _ in 0..players {
        s.add_player();
    }
    s
}

fn ft_slide(players: usize) -> Slide {
    let mut s = Slide::new("Word?".to_string(), SlideType::FreeText(FreeTextLiveAnswers::new()));
    for _ in 0..players {
        s.add_player();
    }
    s
}

fn counts(s: &Slide) -> Vec<usize> {
    match s.stats() {
        SlideStats::MultipleChoice { counts } => counts,
        _ => panic!("expected multiple-choice statistics"),
    }
}

#[test]
fn mc_answers_are_counted() {
    let mut s = mc_slide(true, 3);
    let t = tokio::time::Instant::now();
    assert_eq!(s.submit_mc_answer(0, indices(&[1]), t).ok(), Some(0));
    assert_eq!(s.submit_mc_answer(1, indices(&[0, 1]), t).ok(), Some(0));
    assert_eq!(s.submit_mc_answer(2, indices(&[1, 1]), t).ok(), Some(0));
    assert_eq!(counts(&s), vec![1, 4, 0]);
}

#[test]
fn mc_submission_errors() {
    let mut single = mc_slide(false, 2);
    let t = tokio::time::Instant::now();
    assert_eq!(bad_request_text(single.submit_mc_answer(0, indices(&[]), t)), "Can't submit an empty answer_indices array");
    assert_eq!(
        bad_request_text(single.submit_mc_answer(0, indices(&[0, 1]), t)),
        "Can't submit more than one answer to this MC question"
    );
    assert_eq!(bad_request_text(single.submit_mc_answer(0, indices(&[3]), t)), "Answer index out of bounds");
    assert_eq!(counts(&single), vec![0, 0, 0]);
    assert!(single.submit_mc_answer(0, indices(&[2]), t).is_ok());
    // a participant answers once
    assert_eq!(bad_request_text(single.submit_mc_answer(0, indices(&[1]), t)), "Already submitted an answers");
    assert_eq!(counts(&single), vec![0, 0, 1]);

    let mut ft = ft_slide(1);
    assert_eq!(bad_request_text(ft.submit_mc_answer(0, indices(&[0]), t)), "This is not a multiple choice item");
    let mut mc = mc_slide(false, 1);
    assert_eq!(bad_request_text(mc.submit_ft_answer(0, "x".to_string())), "This is not a free text item");
}

#[test]
fn the_participant_sees_the_submitted_answer() {
    let mut s = mc_slide(false, 2);
    let t = tokio::time::Instant::now();
    s.submit_mc_answer(1, indices(&[2]), t).ok().unwrap();
    match s.player_view(1) {
        PlayerSlideView::MultipleChoice { question, answers, submitted, selected_answer, allow_multiple_answers, emoji } => {
            assert_eq!(question, "Q?");
            assert_eq!(answers, vec!["A", "B", "C"]);
            assert!(submitted);
            assert!(!allow_multiple_answers);
            assert!(emoji.is_none());
            match selected_answer {
                SelectedAnswer::Single(x) => assert_eq!(x, "2"),
                _ => panic!("expected a single answer"),
            }
        }
        _ => panic!("expected a multiple-choice view"),
    }
    match s.player_view(0) {
        PlayerSlideView::MultipleChoice { submitted, selected_answer, .. } => {
            assert!(!submitted);
            match selected_answer {
                SelectedAnswer::Single(x) => assert_eq!(x, ""),
                _ => panic!("expected a single answer"),
            }
        }
        _ => panic!("expected a multiple-choice view"),
    }
    let mut m = mc_slide(true, 1);
    m.submit_mc_answer(0, indices(&[2, 0]), t).ok().unwrap();
    match m.player_view(0) {
        PlayerSlideView::MultipleChoice { selected_answer: SelectedAnswer::Multiple(v), .. } => assert_eq!(v, vec![2, 0]),
        _ => panic!("expected several answers"),
    }
}

#[test]
fn free_text_answers_form_terms() {
    let mut s = ft_slide(4);
    assert!(s.submit_ft_answer(0, "  Hello ".to_string()).is_ok());
    assert!(s.submit_ft_answer(1, "hello".to_string()).is_ok());
    assert!(s.submit_ft_answer(2, "hello".to_string()).is_ok());
    assert!(s.submit_ft_answer(3, "World".to_string()).is_ok());
    assert_eq!(bad_request_text(s.submit_ft_answer(3, "again".to_string())), "Already submitted an answer");
    match &s.slide_type {
        SlideType::FreeText(f) => {
            assert_eq!(f.max_term_count, 3);
            assert_eq!(f.word_cloud_terms.len(), 2);
            let t = &f.word_cloud_terms[0];
            assert_eq!(t.lowercase_text, "hello");
            assert_eq!(t.count, 3);
            // the most frequent spelling is shown
            assert_eq!(t.preferred_spelling, "hello");
            assert_eq!(t.highest_spelling_count, 2);
            assert_eq!(t.spellings, vec![("Hello".to_string(), 1), ("hello".to_string(), 2)]);
            assert_eq!(f.word_cloud_terms[1].lowercase_text, "world");
            assert_eq!(f.word_cloud_terms[1].preferred_spelling, "World");
        }
        _ => panic!("expected a free-text slide"),
    }
    match s.stats() {
        SlideStats::FreeText { terms, max_count } => {
            assert_eq!(terms, vec![("hello".to_string(), 3), ("World".to_string(), 1)]);
            assert_eq!(max_count, 3);
        }
        _ => panic!("expected free-text statistics"),
    }
    match s.player_view(0) {
        PlayerSlideView::FreeText { question, selected_answer, submitted, .. } => {
            assert_eq!(question, "Word?");
            assert_eq!(selected_answer, "  Hello ");
            assert!(submitted);
        }
        _ => panic!("expected a free-text view"),
    }
}

#[test]
fn long_free_text_answers_share_a_term_by_their_first_characters() {
    let mut s = ft_slide(2);
    let a = "A".repeat(40);
    let b = format!("{}{}", "a".repeat(32), "zzz");
    assert!(s.submit_ft_answer(0, a).is_ok());
    assert!(s.submit_ft_answer(1, b).is_ok());
    match &s.slide_type {
        SlideType::FreeText(f) => {
            assert_eq!(f.word_cloud_terms.len(), 1);
            assert_eq!(f.word_cloud_terms[0].lowercase_text, "a".repeat(32));
            assert_eq!(f.word_cloud_terms[0].count, 2);
        }
        _ => panic!("expected a free-text slide"),
    }
}

#[test]
fn emoji_reactions_are_counted_once_per_participant() {
    let mut s = mc_slide(false, 3);
    assert_eq!(s.submit_emoji(0, "heart".to_string()).ok(), Some(true));
    assert_eq!(s.submit_emoji(1, "heart".to_string()).ok(), Some(true));
    assert_eq!(s.submit_emoji(2, "sadFace".to_string()).ok(), Some(true));
    assert_eq!(bad_request_text(s.submit_emoji(0, "thumbsUp".to_string())), "Emoji already submitted");
    assert_eq!(s.submit_emoji(7, "heart".to_string()).ok(), Some(false));
    let mut t = mc_slide(false, 1);
    assert_eq!(bad_request_text(t.submit_emoji(0, "rocket".to_string())), "Unknown emoji");
    let c = s.emoji_counts();
    assert_eq!((c.heart, c.thumbs_up, c.thumbs_down, c.smiley_face, c.sad_face), (2, 0, 0, 0, 1));
    match s.player_view(2) {
        PlayerSlideView::MultipleChoice { emoji, .. } => assert_eq!(emoji.as_deref(), Some("sadFace")),
        _ => panic!("expected a multiple-choice view"),
    }
}

#[test]
fn scores_and_new_participants() {
    let mut s = ft_slide(2);
    s.submit_score(1, 50);
    assert_eq!(s.player_scores, vec![0, 50]);
    s.add_player();
    assert_eq!(s.player_scores, vec![0, 50, 0]);
    assert_eq!(s.player_emojis, vec![None, None, None]);
    let u = Slide::new(String::new(), SlideType::Undefined);
    assert!(matches!(u.stats(), SlideStats::Nothing));
}

#[test]
fn term_and_spelling_counts_add_up() {
    let mut s = ft_slide(6);
    for (p, a) in ["Cat", "cat", " CAT", "dog", "Dog", "cat"].iter().enumerate() {
        assert!(s.submit_ft_answer(p, a.to_string()).is_ok());
    }
    match &s.slide_type {
        SlideType::FreeText(f) => {
            let total: usize = f.word_cloud_terms.iter().map(|t| t.count).sum();
            assert_eq!(total, 6);
            for t in &f.word_cloud_terms {
                let spellings: usize = t.spellings.iter().map(|x| x.1).sum();
                assert_eq!(spellings, t.count);
            }
            assert_eq!(f.word_cloud_terms[0].count, 4);
            assert_eq!(f.word_cloud_terms[0].preferred_spelling, "cat");
            assert_eq!(f.max_term_count, 4);
        }
        _ => panic!("expected a free-text slide"),
    }
}
