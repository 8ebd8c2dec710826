//! Polls as the host's page sends them, and the slides a live poll is started with.

use vstd::prelude::*;
use serde_json::Value;
use crate::app_error::{AppError, bad_request};
use crate::slide::{Slide, SlideType, MultipleChoiceLiveAnswers, FreeTextLiveAnswers};

verus! {

/// One answer of a multiple-choice slide as sent: its `text` and `isCorrect`
/// fields, where they hold a string and a boolean.
pub struct McAnswerSpec {
    pub text: Option<String>,
    pub is_correct: Option<bool>,
}

/// One slide as sent: its `type` and `question` fields where they hold strings,
/// its `mcAnswers` field where it holds an array, and `allowMultipleMCAnswers`
/// where it holds a boolean.
pub struct SlideSpec {
    pub slide_type: Option<String>,
    pub question: Option<String>,
    pub mc_answers: Option<Vec<McAnswerSpec>>,
    pub allow_multiple_mc_answers: Option<bool>,
}

/// A poll as sent: its `slides` field where it holds an array.
pub struct PollSpec {
    pub slides: Option<Vec<SlideSpec>>,
}

/// An answer as sent, as a mathematical value.
pub struct McAnswerSpecView {
    pub text: Option<Seq<char>>,
    pub is_correct: Option<bool>,
}

/// A slide as sent, as a mathematical value.
pub struct SlideSpecView {
    pub slide_type: Option<Seq<char>>,
    pub question: Option<Seq<char>>,
    pub mc_answers: Option<Seq<McAnswerSpecView>>,
    pub allow_multiple_mc_answers: Option<bool>,
}

/// A poll as sent, as a mathematical value.
pub struct PollSpecView {
    pub slides: Option<Seq<SlideSpecView>>,
}

/// The text of an optional string.
pub open spec fn opt_text(o: Option<String>) -> Option<Seq<char>> {
    match o {
        Some(t) => Some(t@),
        None => None,
    }
}

impl View for McAnswerSpec {
    type V = McAnswerSpecView;

    open spec fn view(&self) -> McAnswerSpecView {
        McAnswerSpecView { text: opt_text(self.text), is_correct: self.is_correct }
    }
}

impl View for SlideSpec {
    type V = SlideSpecView;

    open spec fn view(&self) -> SlideSpecView {
        SlideSpecView {
            slide_type: opt_text(self.slide_type),
            question: opt_text(self.question),
            mc_answers: match self.mc_answers {
                Some(a) => Some(a@.map_values(|x: McAnswerSpec| x@)),
                None => None,
            },
            allow_multiple_mc_answers: self.allow_multiple_mc_answers,
        }
    }
}

impl View for PollSpec {
    type V = PollSpecView;

    open spec fn view(&self) -> PollSpecView {
        PollSpecView {
            slides: match self.slides {
                Some(v) => Some(v@.map_values(|x: SlideSpec| x@)),
                None => None,
            },
        }
    }
}

/// A poll that can be saved and loaded again.
pub struct PersistablePoll {
    pub items: Vec<SlideSpec>,
    pub version: usize,
    pub leaderboard_enabled: bool,
    pub question_time_limit_seconds: Option<usize>,
    pub allow_custom_names: bool,
}

impl PersistablePoll {
    /// An empty poll in the current format.
    pub fn new() -> (p: Self)
        ensures
            p.items@.len() == 0,
            p.version == 1,
            !p.leaderboard_enabled,
            p.question_time_limit_seconds is None,
            p.allow_custom_names,
    {
        PersistablePoll {
            items: Vec::new(),
            version: 1,
            leaderboard_enabled: false,
            question_time_limit_seconds: None,
            allow_custom_names: true,
        }
    }
}

/// Whether the slide's type is the string `t`.
pub open spec fn has_type(s: SlideSpecView, t: Seq<char>) -> bool {
    s.slide_type == Some(t)
}

/// Why the slide cannot be started, if it cannot.
pub open spec fn slide_spec_error(s: SlideSpecView) -> Option<Seq<char>> {
    if s.slide_type is None {
        Some("type field needs to be a string"@)
    } else if has_type(s, "mc"@) {
        if s.mc_answers is None {
            Some("mcAnswers must be an array"@)
        } else if s.question is None {
            Some("Question field missing for slide"@)
        } else {
            None
        }
    } else if has_type(s, "ft"@) {
        if s.question is None {
            Some("Question field missing for slide"@)
        } else {
            None
        }
    } else {
        None
    }
}

/// The error of the first slide of `specs` that cannot be started, if any.
pub open spec fn first_slide_error(specs: Seq<SlideSpecView>) -> Option<Seq<char>>
    decreases specs.len(),
{
    if specs.len() == 0 {
        None
    } else {
        match first_slide_error(specs.drop_last()) {
            Some(e) => Some(e),
            None => slide_spec_error(specs.last()),
        }
    }
}

/// The slide started from the answer as sent.
pub open spec fn answer_from(a: McAnswerSpecView) -> (Seq<char>, bool) {
    (
        match a.text {
            Some(t) => t,
            None => Seq::empty(),
        },
        match a.is_correct {
            Some(b) => b,
            None => false,
        },
    )
}

/// `slide` is the slide, without participants, started from `s`.
pub open spec fn started_from(slide: Slide, s: SlideSpecView) -> bool {
    &&& slide.wf()
    &&& slide.player_count() == 0
    &&& if has_type(s, "mc"@) {
        &&& slide.question@ == s.question->0
        &&& slide.slide_type matches SlideType::MultipleChoice(mc) && {
            &&& mc.answers@.map_values(|a: (String, bool)| (a.0@, a.1)) == s.mc_answers->0.map_values(
                |a: McAnswerSpecView| answer_from(a),
            )
            &&& mc.answer_counts@ == Seq::new(mc.answers@.len(), |i: int| 0usize)
            &&& mc.allow_multiple_answers == match s.allow_multiple_mc_answers {
                Some(b) => b,
                None => false,
            }
        }
    } else if has_type(s, "ft"@) {
        &&& slide.question@ == s.question->0
        &&& slide.slide_type matches SlideType::FreeText(ft) && ft.word_cloud_terms@.len() == 0
            && ft.max_term_count == 1
    } else {
        &&& slide.question@.len() == 0
        &&& slide.slide_type is Undefined
    }
}

/// An empty slide of undefined type.
pub open spec fn undefined_slide(slide: Slide) -> bool {
    &&& slide.wf()
    &&& slide.player_count() == 0
    &&& slide.question@.len() == 0
    &&& slide.slide_type is Undefined
}

fn undefined() -> (s: Slide)
    ensures
        undefined_slide(s),
{
    Slide::new(String::new(), SlideType::Undefined)
}

fn answers_from(specs: &Vec<McAnswerSpec>) -> (r: Vec<(String, bool)>)
    ensures
        r@.map_values(|a: (String, bool)| (a.0@, a.1)) == specs@.map_values(|a: McAnswerSpec| answer_from(a@)),
{
    let mut r: Vec<(String, bool)> = Vec::new();
    let mut i: usize = 0;
    while i < specs.len()
        invariant
            i <= specs@.len(),
            r@.len() == i,
            forall|k: int| 0 <= k < i ==> ((#[trigger] r@[k]).0@, r@[k].1) == answer_from(specs@[k]@),
        decreases specs.len() - i,
    {
        let a = &specs[i];
        let text = match &a.text {
            Some(t) => t.clone(),
            None => String::new(),
        };
        let is_correct = match a.is_correct {
            Some(b) => b,
            None => false,
        };
        r.push((text, is_correct));
        i = i + 1;
    }
    assert(r@.map_values(|a: (String, bool)| (a.0@, a.1)) =~= specs@.map_values(|a: McAnswerSpec| answer_from(a@)));
    r
}

/// The slide started from `s`, or why it cannot be.
fn start_slide(s: &SlideSpec) -> (r: Result<Slide, AppError>)
    ensures
        match slide_spec_error(s@) {
            Some(msg) => r matches Err(e) && e.is_bad_request(msg),
            None => r matches Ok(slide) && started_from(slide, s@),
        },
{
    let t = match &s.slide_type {
        Some(t) => t,
        None => {
            return Err(bad_request("type field needs to be a string"));
        },
    };
    if *t == "mc".to_string() {
        let answers = match &s.mc_answers {
            Some(a) => answers_from(a),
            None => {
                return Err(bad_request("mcAnswers must be an array"));
            },
        };
        let question = match &s.question {
            Some(q) => q.clone(),
            None => {
                return Err(bad_request("Question field missing for slide"));
            },
        };
        let allow = match s.allow_multiple_mc_answers {
            Some(b) => b,
            None => false,
        };
        assert(s@.mc_answers->0.map_values(|a: McAnswerSpecView| answer_from(a)) =~= s.mc_answers->0@.map_values(
            |a: McAnswerSpec| answer_from(a@),
        ));
        let mc = MultipleChoiceLiveAnswers::new(answers, allow);
        Ok(Slide::new(question, SlideType::MultipleChoice(mc)))
    } else if *t == "ft".to_string() {
        let question = match &s.question {
            Some(q) => q.clone(),
            None => {
                return Err(bad_request("Question field missing for slide"));
            },
        };
        Ok(Slide::new(question, SlideType::FreeText(FreeTextLiveAnswers::new())))
    } else {
        Ok(undefined())
    }
}

/// `r` is what starting the poll `poll` gives: an error where it has no slides
/// array or where one of its slides cannot be started (the first such slide's
/// error), else one slide started from each slide of the poll, or a single empty
/// slide where the poll has none.
pub open spec fn build_outcome(poll: PollSpecView, r: Result<Vec<Slide>, AppError>) -> bool {
    match poll.slides {
        None => r matches Err(e) && e.is_bad_request("Poll needs to contain a 'slides' array"@),
        Some(specs) => match first_slide_error(specs) {
            Some(msg) => r matches Err(e) && e.is_bad_request(msg),
            None => r matches Ok(slides) && {
                if specs.len() == 0 {
                    slides@.len() == 1 && undefined_slide(slides@[0])
                } else {
                    &&& slides@.len() == specs.len()
                    &&& forall|i: int| 0 <= i < specs.len() ==> started_from(#[trigger] slides@[i], specs[i])
                }
            },
        },
    }
}

/// The slides a live poll is started with: one for each slide of the poll, or a
/// single empty one where the poll has none. Fails with the error of the first
/// slide that cannot be started.
#[verifier::loop_isolation(false)]
pub fn build_slides(poll: &PollSpec) -> (r: Result<Vec<Slide>, AppError>)
    ensures
        build_outcome(poll@, r),
{
    let specs = match &poll.slides {
        Some(s) => s,
        None => {
            return Err(bad_request("Poll needs to contain a 'slides' array"));
        },
    };
    let ghost sv = specs@.map_values(|x: SlideSpec| x@);
    assert(poll@.slides == Some(sv));
    let mut slides: Vec<Slide> = Vec::new();
    let mut i: usize = 0;
    while i < specs.len()
        invariant
            i <= specs@.len(),
            sv.len() == specs@.len(),
            first_slide_error(sv.take(i as int)) is None,
            slides@.len() == i,
            forall|k: int| 0 <= k < i ==> started_from(#[trigger] slides@[k], sv[k]),
        decreases specs.len() - i,
    {
        assert(sv.take(i + 1).drop_last() =~= sv.take(i as int));
        assert(sv.take(i + 1).last() == specs@[i as int]@);
        match start_slide(&specs[i]) {
            Ok(slide) => {
                slides.push(slide);
            },
            Err(e) => {
                proof {
                    lemma_first_error_prefix(sv, i as int + 1);
                }
                return Err(e);
            },
        }
        i = i + 1;
    }
    assert(sv.take(sv.len() as int) =~= sv);
    if slides.len() == 0 {
        slides.push(undefined());
    }
    Ok(slides)
}

/// An error in a prefix is the first error of the whole sequence.
proof fn lemma_first_error_prefix(specs: Seq<SlideSpecView>, k: int)
    requires
        0 <= k <= specs.len(),
        first_slide_error(specs.take(k)) is Some,
    ensures
        first_slide_error(specs) == first_slide_error(specs.take(k)),
    decreases specs.len() - k,
{
    if k < specs.len() {
        assert(specs.take(k + 1).drop_last() =~= specs.take(k));
        lemma_first_error_prefix(specs, k + 1);
    } else {
        assert(specs.take(k) =~= specs);
    }
}

/// What `serde_json` reads from a request body, as the poll the library works on:
/// its `slides` array and, of each slide, its `type`, `question`, `mcAnswers`
/// (each answer's `text` and `isCorrect`) and `allowMultipleMCAnswers`, where they
/// hold a value of the expected JSON type; or the parser's error message.
pub uninterp spec fn spec_poll_json(body: Seq<char>) -> Result<PollSpecView, Seq<char>>;

/// Calls `serde_json::from_str` into a `serde_json::Value` and reads the poll's
/// fields from it with `as_array`, `as_str` and `as_bool`; on a parse error,
/// hands out the error's text. The result is named `spec_poll_json`.
#[verifier::external_body]
fn parse_poll_json(body: &str) -> (r: Result<PollSpec, String>)
    ensures
        match r {
            Ok(p) => spec_poll_json(body@) == Ok::<PollSpecView, Seq<char>>(p@),
            Err(m) => spec_poll_json(body@) == Err::<PollSpecView, Seq<char>>(m@),
        },
{
    let v = serde_json::from_str::<Value>(body).map_err(|e| e.to_string())?;
    let s = |x: &Value| x.as_str().map(String::from);
    Ok(PollSpec { slides: v["slides"].as_array().map(|a| a.iter().map(|x| SlideSpec {
        slide_type: s(&x["type"]), question: s(&x["question"]),
        mc_answers: x["mcAnswers"].as_array().map(|m| m.iter().map(|y| McAnswerSpec {
            text: s(&y["text"]), is_correct: y["isCorrect"].as_bool() }).collect()),
        allow_multiple_mc_answers: x["allowMultipleMCAnswers"].as_bool() }).collect()) })
}

/// The poll a request body holds: a `BadRequest` with the parser's message where
/// the body is not JSON, else the poll read from it.
pub fn read_poll(body: &str) -> (r: Result<PollSpec, AppError>)
    ensures
        match spec_poll_json(body@) {
            Err(m) => r matches Err(e) && e.is_bad_request(m),
            Ok(p) => r matches Ok(q) && q@ == p,
        },
{
    match parse_poll_json(body) {
        Err(m) => Err(AppError::BadRequest(m)),
        Ok(poll) => Ok(poll),
    }
}

/// The slides a live poll is started with, from the request body the host's page
/// sends: a `BadRequest` with the parser's message where the body is not JSON,
/// else what `build_slides` gives for the poll read from it.
pub fn start_poll_slides(body: &str) -> (r: Result<Vec<Slide>, AppError>)
    ensures
        match spec_poll_json(body@) {
            Err(m) => r matches Err(e) && e.is_bad_request(m),
            Ok(p) => build_outcome(p, r),
        },
{
    let poll = match read_poll(body) {
        Err(e) => {
            return Err(e);
        },
        Ok(poll) => poll,
    };
    build_slides(&poll)
}

/// Whether a slide as sent has every field its type needs: a type, and for a
/// multiple-choice slide an answers array and a question, for a free-text slide
/// a question.
pub open spec fn has_needed_fields(s: SlideSpecView) -> bool {
    &&& s.slide_type is Some
    &&& s.slide_type == Some("mc"@) ==> s.mc_answers is Some && s.question is Some
    &&& s.slide_type == Some("ft"@) ==> s.question is Some
}

/// A slide is refused only for a missing or mistyped field, never for its content
/// (how many answers it has, or what they say).
pub proof fn law_slide_refused_only_for_missing_field(s: SlideSpecView)
    ensures
        slide_spec_error(s) is None <==> has_needed_fields(s),
{
}

proof fn lemma_no_first_error(specs: Seq<SlideSpecView>)
    requires
        forall|i: int| 0 <= i < specs.len() ==> has_needed_fields(#[trigger] specs[i]),
    ensures
        first_slide_error(specs) is None,
    decreases specs.len(),
{
    if specs.len() > 0 {
        let d = specs.drop_last();
        assert forall|i: int| 0 <= i < d.len() implies has_needed_fields(#[trigger] d[i]) by {
            assert(d[i] == specs[i]);
        }
        lemma_no_first_error(d);
        assert(has_needed_fields(specs[specs.len() - 1]));
    }
}

/// `slide` is a multiple-choice slide with the question of `s` and every one of
/// its answers, in order, each counted 0 times.
pub open spec fn holds_all_answers(slide: Slide, s: SlideSpecView) -> bool {
    &&& slide.question@ == s.question->0
    &&& match slide.slide_type {
        SlideType::MultipleChoice(mc) => {
            &&& mc.answers@.len() == s.mc_answers->0.len()
            &&& forall|k: int|
                0 <= k < mc.answers@.len() ==> (#[trigger] mc.answers@[k]).0@ == answer_from(s.mc_answers->0[k]).0
                    && mc.answer_counts@[k] == 0
        },
        _ => false,
    }
}

/// A poll whose slides all have the fields their types need starts, with one
/// slide for each: a multiple-choice slide with its question and every one of its
/// answers (any number of them), each counted 0 times, and a free-text slide with
/// its question.
pub proof fn law_complete_poll_starts(poll: PollSpecView, r: Result<Vec<Slide>, AppError>)
    requires
        poll.slides is Some,
        poll.slides->0.len() > 0,
        forall|i: int| 0 <= i < poll.slides->0.len() ==> has_needed_fields(#[trigger] poll.slides->0[i]),
        build_outcome(poll, r),
    ensures
        r is Ok,
        r->Ok_0@.len() == poll.slides->0.len(),
        forall|i: int|
            0 <= i < poll.slides->0.len() && poll.slides->0[i].slide_type == Some("mc"@) ==> holds_all_answers(
                #[trigger] r->Ok_0@[i],
                poll.slides->0[i],
            ),
        forall|i: int|
            0 <= i < poll.slides->0.len() && poll.slides->0[i].slide_type == Some("ft"@) ==> (
            #[trigger] r->Ok_0@[i]).question@ == poll.slides->0[i].question->0 && (r->Ok_0@[i].slide_type is FreeText),
{
    let specs = poll.slides->0;
    lemma_no_first_error(specs);
    let slides = r->Ok_0@;
    assert forall|i: int|
        0 <= i < specs.len() && specs[i].slide_type == Some("mc"@) implies holds_all_answers(
        #[trigger] slides[i],
        specs[i],
    ) by {
        assert(started_from(slides[i], specs[i]));
        assert(has_type(specs[i], "mc"@));
        if let SlideType::MultipleChoice(mc) = slides[i].slide_type {
            let a = mc.answers@.map_values(|a: (String, bool)| (a.0@, a.1));
            let b = specs[i].mc_answers->0.map_values(|a: McAnswerSpecView| answer_from(a));
            assert(a == b);
            assert(a.len() == mc.answers@.len());
            assert forall|k: int| 0 <= k < mc.answers@.len() implies (#[trigger] mc.answers@[k]).0@ == answer_from(
                specs[i].mc_answers->0[k],
            ).0 && mc.answer_counts@[k] == 0 by {
                assert(a[k] == b[k]);
            }
        }
    }
    assert forall|i: int|
        0 <= i < specs.len() && specs[i].slide_type == Some("ft"@) implies (#[trigger] slides[i]).question@
        == specs[i].question->0 && (slides[i].slide_type is FreeText) by {
        assert(started_from(slides[i], specs[i]));
        assert(has_type(specs[i], "ft"@));
        assert(!has_type(specs[i], "mc"@)) by {
            reveal_strlit("mc");
            reveal_strlit("ft");
            assert("mc"@[0] != "ft"@[0]);
        }
    }
}

} // verus!
