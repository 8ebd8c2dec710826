//! Slides of a live poll and the answers submitted to them.

use vstd::prelude::*;
use arrayvec::ArrayVec;
use crate::app_error::{AppError, bad_request};
use crate::config::POLL_MAX_MC_ANSWERS;
use crate::text::{decimal, u8_to_decimal};
pub use crate::free_text::{FreeTextLiveAnswers, WordCloudTerm};
use crate::free_text::{answers_of, TermView, ft_submit_outcome};
use crate::tally::{
    count_some, lemma_count_some_bound, lemma_count_some_push_none, lemma_count_some_update_none,
    sum_some, occurrences, lemma_sum_some_push, lemma_sum_some_update_none, lemma_sum_some_bound,
    lemma_occurrences_bound, lemma_occurrences_take_step, lemma_occurrences_take_le,
};

verus! {

#[verifier::external_type_specification]
#[verifier::external_body]
#[verifier::reject_recursive_types(T)]
pub struct ExArrayVec<T, const CAP: usize>(ArrayVec<T, CAP>);

#[verifier::external_type_specification]
#[verifier::external_body]
pub struct ExInstant(tokio::time::Instant);

/// The answer indices that an `ArrayVec` of answer indices holds, in order.
pub uninterp spec fn answer_indices_of(v: ArrayVec<u8, POLL_MAX_MC_ANSWERS>) -> Seq<u8>;

/// Calls `ArrayVec::as_slice`: the slice of the held indices. The crate keeps at
/// most `CAP` elements, which is stated too.
#[verifier::external_body]
pub(crate) fn answer_indices_slice(v: &ArrayVec<u8, POLL_MAX_MC_ANSWERS>) -> (s: &[u8])
    ensures
        s@ == answer_indices_of(*v),
        s@.len() <= POLL_MAX_MC_ANSWERS,
{
    v.as_slice()
}

/// Answers of a multiple-choice slide and the participants' submissions.
pub struct MultipleChoiceLiveAnswers {
    /// Answer texts, each with whether it is correct.
    pub answers: Vec<(String, bool)>,
    /// For each answer, how often it was chosen.
    pub answer_counts: Vec<usize>,
    /// For each participant, the answer indices submitted, if any.
    pub player_answers: Vec<Option<ArrayVec<u8, POLL_MAX_MC_ANSWERS>>>,
    pub allow_multiple_answers: bool,
}

/// The submitted answer indices of each participant.
pub open spec fn submissions_of(
    pa: Seq<Option<ArrayVec<u8, POLL_MAX_MC_ANSWERS>>>,
) -> Seq<Option<Seq<u8>>> {
    pa.map_values(
        |o: Option<ArrayVec<u8, POLL_MAX_MC_ANSWERS>>|
            match o {
                Some(v) => Some(answer_indices_of(v)),
                None => None,
            },
    )
}

/// How often answer `i` occurs over all submissions.
pub open spec fn answer_tally(subs: Seq<Option<Seq<u8>>>, i: int) -> nat {
    sum_some(subs, |v: Seq<u8>| occurrences(v, i))
}

/// Why a submission of the indices `v` by participant `p` is refused, if it is.
pub open spec fn mc_submit_error(
    answers_len: nat,
    allow_multiple: bool,
    already_submitted: bool,
    v: Seq<u8>,
) -> Option<Seq<char>> {
    if v.len() == 0 {
        Some("Can't submit an empty answer_indices array"@)
    } else if !allow_multiple && v.len() > 1 {
        Some("Can't submit more than one answer to this MC question"@)
    } else if exists|k: int| 0 <= k < v.len() && v[k] >= answers_len {
        Some("Answer index out of bounds"@)
    } else if already_submitted {
        Some("Already submitted an answers"@)
    } else {
        None
    }
}

/// `new` and `r` are what submitting `answer_indices` for participant `p` to
/// `old` gives: the error of `mc_submit_error` with nothing changed, or the
/// submission recorded and each index counted, scoring 0 points.
pub open spec fn mc_submit_outcome(
    old: MultipleChoiceLiveAnswers,
    new: MultipleChoiceLiveAnswers,
    p: int,
    answer_indices: ArrayVec<u8, POLL_MAX_MC_ANSWERS>,
    r: Result<usize, AppError>,
) -> bool {
    let v = answer_indices_of(answer_indices);
    match mc_submit_error(
        old.answers.len() as nat,
        old.allow_multiple_answers,
        old.player_answers@[p] is Some,
        v,
    ) {
        Some(msg) => r matches Err(e) && e.is_bad_request(msg) && new == old,
        None => {
            &&& r == Ok::<usize, AppError>(0)
            &&& new.answers == old.answers
            &&& new.allow_multiple_answers == old.allow_multiple_answers
            &&& new.player_answers@ == old.player_answers@.update(p, Some(answer_indices))
            &&& new.answer_counts@.len() == old.answer_counts@.len()
            &&& forall|i: int|
                0 <= i < old.answer_counts@.len() ==> #[trigger] new.answer_counts@[i]
                    == old.answer_counts@[i] + occurrences(v, i)
        },
    }
}

impl MultipleChoiceLiveAnswers {
    pub open spec fn submissions(&self) -> Seq<Option<Seq<u8>>> {
        submissions_of(self.player_answers@)
    }

    /// A submission that was accepted: non-empty, within the capacity, a single
    /// index unless several are allowed, every index naming an answer.
    pub open spec fn valid_submission(&self, v: Seq<u8>) -> bool {
        &&& 0 < v.len() <= POLL_MAX_MC_ANSWERS
        &&& (!self.allow_multiple_answers ==> v.len() == 1)
        &&& forall|k: int| 0 <= k < v.len() ==> (#[trigger] v[k]) < self.answers.len()
    }

    /// The counts are the tally of the submissions, and every submission is valid.
    pub open spec fn wf(&self) -> bool {
        &&& self.answer_counts.len() == self.answers.len()
        &&& forall|i: int|
            0 <= i < self.answer_counts.len() ==> #[trigger] self.answer_counts@[i] == answer_tally(
                self.submissions(),
                i,
            )
        &&& forall|p: int|
            0 <= p < self.player_answers.len() ==> (#[trigger] self.submissions()[p] matches Some(
                v,
            ) ==> self.valid_submission(v))
    }

    /// The answers of a slide that nobody has answered yet.
    pub fn new(answers: Vec<(String, bool)>, allow_multiple_answers: bool) -> (r: Self)
        ensures
            r.answers@ == answers@,
            r.answer_counts@ == Seq::new(answers@.len(), |i: int| 0usize),
            r.player_answers@.len() == 0,
            r.allow_multiple_answers == allow_multiple_answers,
            r.wf(),
    {
        let mut answer_counts: Vec<usize> = Vec::new();
        let mut i: usize = 0;
        while i < answers.len()
            invariant
                i <= answers@.len(),
                answer_counts@ == Seq::new(i as nat, |k: int| 0usize),
            decreases answers.len() - i,
        {
            answer_counts.push(0);
            i = i + 1;
            assert(answer_counts@ =~= Seq::new(i as nat, |k: int| 0usize));
        }
        let r = MultipleChoiceLiveAnswers {
            answers,
            answer_counts,
            player_answers: Vec::new(),
            allow_multiple_answers,
        };
        assert(r.submissions() =~= Seq::<Option<Seq<u8>>>::empty());
        r
    }

    /// Adds a participant who has not answered.
    pub fn add_player(&mut self)
        requires
            old(self).wf(),
        ensures
            final(self).wf(),
            final(self).answers == old(self).answers,
            final(self).answer_counts == old(self).answer_counts,
            final(self).allow_multiple_answers == old(self).allow_multiple_answers,
            final(self).player_answers@ == old(self).player_answers@.push(None),
    {
        let ghost old_subs = self.submissions();
        self.player_answers.push(None);
        proof {
            assert(self.submissions() =~= old_subs.push(None));
            assert forall|i: int| 0 <= i < self.answer_counts.len() implies #[trigger] self.answer_counts@[i]
                == answer_tally(self.submissions(), i) by {
                lemma_sum_some_push(old_subs, None, |v: Seq<u8>| occurrences(v, i));
            }
            assert forall|p: int| 0 <= p < self.player_answers.len() implies (
            #[trigger] self.submissions()[p] matches Some(v) ==> self.valid_submission(v)) by {
                if p < old_subs.len() {
                    assert(self.submissions()[p] == old_subs[p]);
                }
            }
        }
    }

    /// Submits the answer indices of a participant. Returns the points scored,
    /// which are 0: the multiple-choice slides give no points.
    #[verifier::loop_isolation(false)]
    pub fn submit_answer(
        &mut self,
        player_index: usize,
        answer_indices: ArrayVec<u8, POLL_MAX_MC_ANSWERS>,
        _start_time: tokio::time::Instant,
    ) -> (r: Result<usize, AppError>)
        requires
            old(self).wf(),
            player_index < old(self).player_answers.len(),
            old(self).player_answers.len() * POLL_MAX_MC_ANSWERS <= usize::MAX,
        ensures
            final(self).wf(),
            mc_submit_outcome(*old(self), *final(self), player_index as int, answer_indices, r),
    {
        let s = answer_indices_slice(&answer_indices);
        let ghost v = s@;
        if s.len() == 0 {
            return Err(bad_request("Can't submit an empty answer_indices array"));
        }
        if !self.allow_multiple_answers && s.len() > 1 {
            return Err(bad_request("Can't submit more than one answer to this MC question"));
        }
        let mut k: usize = 0;
        while k < s.len()
            invariant
                k <= v.len(),
                s@ == v,
                forall|j: int| 0 <= j < k ==> v[j] < self.answers@.len(),
            decreases s.len() - k,
        {
            if s[k] as usize >= self.answers.len() {
                return Err(bad_request("Answer index out of bounds"));
            }
            k = k + 1;
        }
        if self.player_answers[player_index].is_some() {
            return Err(bad_request("Already submitted an answers"));
        }
        let ghost old_counts = self.answer_counts@;
        let ghost old_subs = self.submissions();
        let ghost n = self.player_answers@.len();
        let ghost new_subs = old_subs.update(player_index as int, Some(v));
        assert(old_subs[player_index as int] is None);
        proof {
            assert forall|i: int| 0 <= i < new_subs.len() implies (#[trigger] new_subs[i] matches Some(x)
                ==> x.len() <= POLL_MAX_MC_ANSWERS) by {
                if i != player_index {
                    assert(new_subs[i] == old_subs[i]);
                }
            }
        }
        let mut k: usize = 0;
        assert(v.take(0) =~= Seq::<u8>::empty());
        while k < s.len()
            invariant
                k <= v.len(),
                s@ == v,
                n * POLL_MAX_MC_ANSWERS <= usize::MAX,
                v.len() <= POLL_MAX_MC_ANSWERS,
                forall|j: int| 0 <= j < v.len() ==> v[j] < old_counts.len(),
                self.answer_counts@.len() == old_counts.len(),
                self.player_answers@ == old(self).player_answers@,
                self.answers == old(self).answers,
                self.allow_multiple_answers == old(self).allow_multiple_answers,
                forall|i: int|
                    0 <= i < old_counts.len() ==> #[trigger] self.answer_counts@[i] == old_counts[i]
                        + occurrences(v.take(k as int), i),
                forall|i: int|
                    0 <= i < old_counts.len() ==> #[trigger] old_counts[i] == answer_tally(old_subs, i),
                forall|i: int| 0 <= i < new_subs.len() ==> (#[trigger] new_subs[i] matches Some(x)
                    ==> x.len() <= POLL_MAX_MC_ANSWERS),
                new_subs.len() == n,
                new_subs == old_subs.update(player_index as int, Some(v)),
                0 <= player_index < old_subs.len(),
                old_subs[player_index as int] is None,
            decreases s.len() - k,
        {
            let idx = s[k] as usize;
            let c = self.answer_counts[idx];
            proof {
                let w = |x: Seq<u8>| occurrences(x, idx as int);
                lemma_sum_some_update_none(old_subs, player_index as int, v, w);
                assert forall|i: int| 0 <= i < new_subs.len() implies (#[trigger] new_subs[i] matches Some(x)
                    ==> w(x) <= POLL_MAX_MC_ANSWERS) by {
                    if let Some(x) = new_subs[i] {
                        lemma_occurrences_bound(x, idx as int);
                    }
                }
                lemma_sum_some_bound(new_subs, w, POLL_MAX_MC_ANSWERS as nat);
                lemma_occurrences_take_step(v, k as int, idx as int);
                lemma_occurrences_take_le(v, k as int + 1, idx as int);
            }
            self.answer_counts.set(idx, c + 1);
            proof {
                assert forall|i: int| 0 <= i < old_counts.len() implies #[trigger] self.answer_counts@[i]
                    == old_counts[i] + occurrences(v.take(k + 1), i) by {
                    lemma_occurrences_take_step(v, k as int, i);
                }
            }
            k = k + 1;
        }
        assert(v.take(v.len() as int) =~= v);
        self.player_answers.set(player_index, Some(answer_indices));
        proof {
            assert(self.submissions() =~= new_subs);
            assert forall|i: int| 0 <= i < self.answer_counts.len() implies #[trigger] self.answer_counts@[i]
                == answer_tally(self.submissions(), i) by {
                lemma_sum_some_update_none(old_subs, player_index as int, v, |x: Seq<u8>| occurrences(x, i));
            }
            assert forall|p: int| 0 <= p < self.player_answers.len() implies (
            #[trigger] self.submissions()[p] matches Some(x) ==> self.valid_submission(x)) by {
                if p != player_index {
                    assert(self.submissions()[p] == old_subs[p]);
                }
            }
        }
        Ok(0)
    }
}

/// What a slide asks for.
pub enum SlideType {
    Undefined,
    MultipleChoice(MultipleChoiceLiveAnswers),
    FreeText(FreeTextLiveAnswers),
}

/// The emoji reactions a participant can send.
pub open spec fn emoji_names() -> Seq<Seq<char>> {
    seq!["heart"@, "thumbsUp"@, "thumbsDown"@, "smileyFace"@, "sadFace"@]
}

/// The emoji reaction of each participant, as text.
pub open spec fn emojis_of(pe: Seq<Option<String>>) -> Seq<Option<Seq<char>>> {
    pe.map_values(
        |o: Option<String>|
            match o {
                Some(s) => Some(s@),
                None => None,
            },
    )
}

/// Number of participants who reacted with the emoji `name`.
pub open spec fn emoji_tally(pe: Seq<Option<String>>, name: Seq<char>) -> nat {
    count_some(emojis_of(pe), |e: Seq<char>| e == name)
}

/// A slide of a live poll with the participants' submissions.
pub struct Slide {
    pub question: String,
    pub slide_type: SlideType,
    /// For each participant, the points scored on this slide.
    pub player_scores: Vec<usize>,
    /// For each participant, the emoji reaction sent, if any.
    pub player_emojis: Vec<Option<String>>,
    pub heart_emojis: usize,
    pub thumbs_up_emojis: usize,
    pub thumbs_down_emojis: usize,
    pub smiley_face_emojis: usize,
    pub sad_face_emojis: usize,
}

/// The answer a participant selected, as the participant's page shows it.
pub enum SelectedAnswer {
    /// The chosen answer indices, on a slide that allows several answers.
    Multiple(Vec<u8>),
    /// The chosen answer index in decimal, or empty, on a slide with a single answer.
    Single(String),
}

/// What a participant's page shows of a slide.
#[allow(inconsistent_fields)]
pub enum PlayerSlideView {
    Empty,
    MultipleChoice {
        question: String,
        answers: Vec<String>,
        submitted: bool,
        selected_answer: SelectedAnswer,
        allow_multiple_answers: bool,
        emoji: Option<String>,
    },
    FreeText { question: String, selected_answer: String, submitted: bool, emoji: Option<String> },
}

/// The statistics the host's page shows of a slide.
pub enum SlideStats {
    Nothing,
    MultipleChoice { counts: Vec<usize> },
    /// Each term's preferred spelling with its count, and the highest count.
    FreeText { terms: Vec<(String, usize)>, max_count: usize },
}

/// How many participants sent each emoji reaction.
pub struct EmojiCounts {
    pub heart: usize,
    pub thumbs_up: usize,
    pub thumbs_down: usize,
    pub smiley_face: usize,
    pub sad_face: usize,
}

/// `b` is `a` with one more participant, who has not answered.
pub open spec fn added_player(a: SlideType, b: SlideType) -> bool {
    match a {
        SlideType::Undefined => b is Undefined,
        SlideType::MultipleChoice(x) => match b {
            SlideType::MultipleChoice(y) => {
                &&& y.answers == x.answers
                &&& y.answer_counts == x.answer_counts
                &&& y.allow_multiple_answers == x.allow_multiple_answers
                &&& y.player_answers@ == x.player_answers@.push(None)
            },
            _ => false,
        },
        SlideType::FreeText(x) => match b {
            SlideType::FreeText(y) => {
                &&& y.word_cloud_terms@ == x.word_cloud_terms@
                &&& y.max_term_count == x.max_term_count
                &&& y.player_answers@ == x.player_answers@.push(None)
            },
            _ => false,
        },
    }
}

/// The emoji names, and that they differ from each other.
pub proof fn lemma_emoji_names()
    ensures
        emoji_names()[0] == "heart"@,
        emoji_names()[1] == "thumbsUp"@,
        emoji_names()[2] == "thumbsDown"@,
        emoji_names()[3] == "smileyFace"@,
        emoji_names()[4] == "sadFace"@,
        forall|i: int, j: int| 0 <= i < j < 5 ==> emoji_names()[i] != emoji_names()[j],
{
    reveal_strlit("heart");
    reveal_strlit("thumbsUp");
    reveal_strlit("thumbsDown");
    reveal_strlit("smileyFace");
    reveal_strlit("sadFace");
    let n = emoji_names();
    assert(n[0].len() == 5 && n[1].len() == 8 && n[2].len() == 10 && n[3].len() == 10 && n[4].len() == 7);
    assert(n[2][0] != n[3][0]);
    assert forall|i: int, j: int| 0 <= i < j < 5 implies emoji_names()[i] != emoji_names()[j] by {
        if i == 2 && j == 3 {
            assert(n[2][0] != n[3][0]);
        }
    }
}

/// The position of the emoji named `emoji` in `emoji_names()`, if it is one.
pub fn emoji_index(emoji: &String) -> (r: Option<usize>)
    ensures
        match r {
            Some(k) => k < 5 && emoji_names()[k as int] == emoji@,
            None => !emoji_names().contains(emoji@),
        },
{
    if *emoji == "heart".to_string() {
        Some(0)
    } else if *emoji == "thumbsUp".to_string() {
        Some(1)
    } else if *emoji == "thumbsDown".to_string() {
        Some(2)
    } else if *emoji == "smileyFace".to_string() {
        Some(3)
    } else if *emoji == "sadFace".to_string() {
        Some(4)
    } else {
        proof {
            assert(!emoji_names().contains(emoji@)) by {
                if emoji_names().contains(emoji@) {
                    let k = choose|k: int| 0 <= k < 5 && emoji_names()[k] == emoji@;
                    assert(k == 0 || k == 1 || k == 2 || k == 3 || k == 4);
                }
            }
        }
        None
    }
}

/// `v` is what the page of participant `p` shows of `slide`: the question, the
/// answers, whether and what the participant submitted, and the reaction sent.
pub open spec fn is_player_view(slide: Slide, p: int, v: PlayerSlideView) -> bool {
    match slide.slide_type {
        SlideType::MultipleChoice(mc) => v matches PlayerSlideView::MultipleChoice {
            question,
            answers,
            submitted,
            selected_answer,
            allow_multiple_answers,
            emoji,
        } && question@ == slide.question@
            && answers@.map_values(|a: String| a@) == mc.answers@.map_values(|a: (String, bool)| a.0@)
            && submitted == mc.player_answers@[p] is Some
            && allow_multiple_answers == mc.allow_multiple_answers
            && emojis_of(slide.player_emojis@)[p] == match emoji {
                Some(e) => Some(e@),
                None => None,
            } && match mc.player_answers@[p] {
                Some(a) => if mc.allow_multiple_answers {
                    selected_answer matches SelectedAnswer::Multiple(s) && s@ == answer_indices_of(a)
                } else {
                    selected_answer matches SelectedAnswer::Single(s) && s@ == decimal(
                        if answer_indices_of(a).len() > 0 { answer_indices_of(a)[0] as nat } else { 0 },
                    )
                },
                None => if mc.allow_multiple_answers {
                    selected_answer matches SelectedAnswer::Multiple(s) && s@.len() == 0
                } else {
                    selected_answer matches SelectedAnswer::Single(s) && s@.len() == 0
                },
            },
        SlideType::FreeText(ft) => v matches PlayerSlideView::FreeText {
            question,
            selected_answer,
            submitted,
            emoji,
        } && question@ == slide.question@
            && submitted == ft.player_answers@[p] is Some
            && selected_answer@ == match ft.player_answers@[p] {
                Some(a) => a@,
                None => Seq::<char>::empty(),
            } && emojis_of(slide.player_emojis@)[p] == match emoji {
                Some(e) => Some(e@),
                None => None,
            },
        SlideType::Undefined => v is Empty,
    }
}

/// `st` are the statistics of `slide`: the answer counts, or each term's preferred
/// spelling with its count and the highest count.
pub open spec fn is_stats_of(slide: Slide, st: SlideStats) -> bool {
    match slide.slide_type {
        SlideType::MultipleChoice(mc) => st matches SlideStats::MultipleChoice { counts }
            && counts@ == mc.answer_counts@,
        SlideType::FreeText(ft) => st matches SlideStats::FreeText { terms, max_count }
            && max_count == ft.max_term_count
            && terms@.map_values(|t: (String, usize)| (t.0@, t.1 as nat))
                == ft.word_cloud_terms@.map_values(|t: WordCloudTerm| (t.preferred_spelling@, t.count as nat)),
        SlideType::Undefined => st is Nothing,
    }
}

/// `b` is the slide `a` with one more participant, who has no score, answer or reaction.
pub open spec fn with_new_player(a: Slide, b: Slide) -> bool {
    &&& b.question == a.question
    &&& b.player_scores@ == a.player_scores@.push(0)
    &&& b.player_emojis@ == a.player_emojis@.push(None)
    &&& forall|name: Seq<char>| #[trigger] b.emoji_counter(name) == a.emoji_counter(name)
    &&& added_player(a.slide_type, b.slide_type)
}

/// `b` is the slide `a` with only the answers of its type changed to `t`.
pub open spec fn with_answers(a: Slide, b: Slide, t: SlideType) -> bool {
    &&& b.question == a.question
    &&& b.player_scores == a.player_scores
    &&& b.player_emojis == a.player_emojis
    &&& forall|name: Seq<char>| #[trigger] b.emoji_counter(name) == a.emoji_counter(name)
    &&& b.slide_type == t
}

impl SlideType {
    /// Well-formed for `n` participants.
    pub open spec fn wf(&self, n: nat) -> bool {
        match self {
            SlideType::Undefined => true,
            SlideType::MultipleChoice(mc) => mc.wf() && mc.player_answers@.len() == n,
            SlideType::FreeText(ft) => ft.wf() && ft.player_answers@.len() == n,
        }
    }
}

impl Slide {
    pub open spec fn player_count(&self) -> nat {
        self.player_scores@.len()
    }

    /// The counter of the emoji `name`.
    pub open spec fn emoji_counter(&self, name: Seq<char>) -> nat {
        if name == "heart"@ {
            self.heart_emojis as nat
        } else if name == "thumbsUp"@ {
            self.thumbs_up_emojis as nat
        } else if name == "thumbsDown"@ {
            self.thumbs_down_emojis as nat
        } else if name == "smileyFace"@ {
            self.smiley_face_emojis as nat
        } else if name == "sadFace"@ {
            self.sad_face_emojis as nat
        } else {
            0
        }
    }

    /// All per-participant records have one entry per participant, every emoji
    /// counter is the number of participants who sent that emoji, and the answers
    /// are well-formed.
    pub open spec fn wf(&self) -> bool {
        &&& self.player_emojis@.len() == self.player_count()
        &&& forall|k: int| 0 <= k < 5 ==> self.emoji_counter(#[trigger] emoji_names()[k]) == emoji_tally(self.player_emojis@, emoji_names()[k])
        &&& forall|p: int|
            0 <= p < self.player_emojis@.len() ==> (#[trigger] emojis_of(self.player_emojis@)[p] matches Some(e)
                ==> emoji_names().contains(e))
        &&& self.slide_type.wf(self.player_count())
    }

    /// A slide without participants.
    pub fn new(question: String, slide_type: SlideType) -> (s: Slide)
        requires
            slide_type.wf(0),
        ensures
            s.wf(),
            s.question == question,
            s.slide_type == slide_type,
            s.player_count() == 0,
    {
        let s = Slide {
            question,
            slide_type,
            player_scores: Vec::new(),
            player_emojis: Vec::new(),
            heart_emojis: 0,
            thumbs_up_emojis: 0,
            thumbs_down_emojis: 0,
            smiley_face_emojis: 0,
            sad_face_emojis: 0,
        };
        assert(emojis_of(s.player_emojis@) =~= Seq::<Option<Seq<char>>>::empty());
        s
    }

    /// Adds a participant with no score, answer or reaction.
    pub fn add_player(&mut self)
        requires
            old(self).wf(),
        ensures
            final(self).wf(),
            with_new_player(*old(self), *final(self)),
    {
        let ghost old_pe = self.player_emojis@;
        self.player_scores.push(0);
        self.player_emojis.push(None);
        proof {
            assert(emojis_of(self.player_emojis@) =~= emojis_of(old_pe).push(None));
            assert forall|k: int| 0 <= k < 5 implies self.emoji_counter(#[trigger] emoji_names()[k]) == emoji_tally(self.player_emojis@, emoji_names()[k]) by {
                lemma_count_some_push_none(emojis_of(old_pe), |e: Seq<char>| e == emoji_names()[k]);
            }
            assert forall|p: int|
                0 <= p < self.player_emojis@.len() implies (#[trigger] emojis_of(self.player_emojis@)[p] matches Some(e)
                    ==> emoji_names().contains(e)) by {
                if p < old_pe.len() {
                    assert(emojis_of(self.player_emojis@)[p] == emojis_of(old_pe)[p]);
                }
            }
        }
        let mut t = SlideType::Undefined;
        std::mem::swap(&mut t, &mut self.slide_type);
        let t2 = match t {
            SlideType::Undefined => SlideType::Undefined,
            SlideType::MultipleChoice(mut mc_answers) => {
                mc_answers.add_player();
                SlideType::MultipleChoice(mc_answers)
            },
            SlideType::FreeText(mut ft_answers) => {
                ft_answers.add_player();
                SlideType::FreeText(ft_answers)
            },
        };
        self.slide_type = t2;
    }

    /// Records the score of a participant.
    pub fn submit_score(&mut self, player_index: usize, score: usize)
        requires
            player_index < old(self).player_scores@.len(),
        ensures
            final(self).player_scores@ == old(self).player_scores@.update(player_index as int, score),
            final(self).question == old(self).question,
            final(self).slide_type == old(self).slide_type,
            final(self).player_emojis == old(self).player_emojis,
            forall|name: Seq<char>| #[trigger] final(self).emoji_counter(name) == old(self).emoji_counter(name),
            old(self).wf() ==> final(self).wf(),
    {
        self.player_scores.set(player_index, score);
    }

    /// Adds 1 to the counter of the emoji with index `k` in `emoji_names()`.
    fn increment_emoji_counter(&mut self, k: usize)
        requires
            k < 5,
            old(self).emoji_counter(emoji_names()[k as int]) < usize::MAX,
        ensures
            forall|name: Seq<char>| #[trigger] final(self).emoji_counter(name) == old(self).emoji_counter(name)
                + if name == emoji_names()[k as int] { 1nat } else { 0nat },
            final(self).question == old(self).question,
            final(self).slide_type == old(self).slide_type,
            final(self).player_scores == old(self).player_scores,
            final(self).player_emojis == old(self).player_emojis,
    {
        proof {
            lemma_emoji_names();
        }
        if k == 0 {
            self.heart_emojis = self.heart_emojis + 1;
        } else if k == 1 {
            self.thumbs_up_emojis = self.thumbs_up_emojis + 1;
        } else if k == 2 {
            self.thumbs_down_emojis = self.thumbs_down_emojis + 1;
        } else if k == 3 {
            self.smiley_face_emojis = self.smiley_face_emojis + 1;
        } else {
            self.sad_face_emojis = self.sad_face_emojis + 1;
        }
    }

    /// Records the emoji reaction of a participant. `Ok(true)` when it was
    /// recorded, `Ok(false)` when there is no such participant (nothing changes).
    pub fn submit_emoji(&mut self, player_index: usize, emoji: String) -> (r: Result<bool, AppError>)
        requires
            old(self).wf(),
        ensures
            final(self).wf(),
            player_index >= old(self).player_emojis@.len() ==> r == Ok::<bool, AppError>(false) && *final(self) == *old(self),
            player_index < old(self).player_emojis@.len() && old(self).player_emojis@[player_index as int] is Some
                ==> (r matches Err(e) && e.is_bad_request("Emoji already submitted"@) && *final(self) == *old(self)),
            player_index < old(self).player_emojis@.len() && old(self).player_emojis@[player_index as int] is None
                && !emoji_names().contains(emoji@)
                ==> (r matches Err(e) && e.is_bad_request("Unknown emoji"@) && *final(self) == *old(self)),
            player_index < old(self).player_emojis@.len() && old(self).player_emojis@[player_index as int] is None
                && emoji_names().contains(emoji@) ==> {
                &&& r == Ok::<bool, AppError>(true)
                &&& final(self).player_emojis@ == old(self).player_emojis@.update(player_index as int, Some(emoji))
                &&& forall|name: Seq<char>| #[trigger] final(self).emoji_counter(name) == old(self).emoji_counter(name)
                    + if emoji_names().contains(name) && name == emoji@ { 1nat } else { 0nat }
                &&& final(self).question == old(self).question
                &&& final(self).slide_type == old(self).slide_type
                &&& final(self).player_scores == old(self).player_scores
            },
    {
        if player_index >= self.player_emojis.len() {
            return Ok(false);
        }
        if self.player_emojis[player_index].is_some() {
            return Err(bad_request("Emoji already submitted"));
        }
        let ghost old_pe = emojis_of(self.player_emojis@);
        let ghost e = emoji@;
        let ghost new_pe = old_pe.update(player_index as int, Some(e));
        assert(old_pe[player_index as int] is None);
        proof {
            assert forall|k: int| 0 <= k < 5 implies self.emoji_counter(#[trigger] emoji_names()[k])
                + (if emoji_names()[k] == e { 1nat } else { 0nat }) <= self.player_emojis@.len() by {
                lemma_count_some_update_none(old_pe, player_index as int, e, |x: Seq<char>| x == emoji_names()[k]);
                lemma_count_some_bound(new_pe, |x: Seq<char>| x == emoji_names()[k]);
            }
        }
        let k = match emoji_index(&emoji) {
            Some(k) => k,
            None => {
                return Err(bad_request("Unknown emoji"));
            },
        };
        assert(self.emoji_counter(emoji_names()[k as int]) + 1 <= self.player_emojis@.len());
        let ghost pre_counters = *self;
        self.player_emojis.set(player_index, Some(emoji));
        self.increment_emoji_counter(k);
        proof {
            assert(emojis_of(self.player_emojis@) =~= new_pe);
            assert(emoji_names()[k as int] == e);
            assert(emoji_names().contains(e));
            assert forall|j: int| 0 <= j < 5 implies self.emoji_counter(#[trigger] emoji_names()[j]) == emoji_tally(self.player_emojis@, emoji_names()[j]) by {
                assert(old(self).emoji_counter(emoji_names()[j]) == emoji_tally(old(self).player_emojis@, emoji_names()[j]));
                assert(pre_counters.emoji_counter(emoji_names()[j]) == old(self).emoji_counter(emoji_names()[j]));
                lemma_count_some_update_none(old_pe, player_index as int, e, |x: Seq<char>| x == emoji_names()[j]);
            }
            assert forall|p: int|
                0 <= p < self.player_emojis@.len() implies (#[trigger] emojis_of(self.player_emojis@)[p] matches Some(x)
                    ==> emoji_names().contains(x)) by {
                if p != player_index {
                    assert(new_pe[p] == old_pe[p]);
                }
            }
        }
        Ok(true)
    }

    /// What the page of participant `player_index` shows of this slide.
    pub fn player_view(&self, player_index: usize) -> (v: PlayerSlideView)
        requires
            self.wf(),
            player_index < self.player_count(),
        ensures
            is_player_view(*self, player_index as int, v),
    {
        let emoji = match &self.player_emojis[player_index] {
            Some(e) => Some(e.clone()),
            None => None,
        };
        match &self.slide_type {
            SlideType::MultipleChoice(mc) => {
                let mut answers: Vec<String> = Vec::new();
                let mut i: usize = 0;
                while i < mc.answers.len()
                    invariant
                        i <= mc.answers@.len(),
                        answers@.len() == i,
                        forall|k: int| 0 <= k < i ==> (#[trigger] answers@[k])@ == mc.answers@[k].0@,
                    decreases mc.answers.len() - i,
                {
                    answers.push(mc.answers[i].0.clone());
                    i = i + 1;
                }
                assert(answers@.map_values(|a: String| a@) =~= mc.answers@.map_values(|a: (String, bool)| a.0@));
                let submitted = mc.player_answers[player_index].is_some();
                let selected_answer = match &mc.player_answers[player_index] {
                    Some(a) => {
                        let s = answer_indices_slice(a);
                        if mc.allow_multiple_answers {
                            let mut sel: Vec<u8> = Vec::new();
                            let mut k: usize = 0;
                            while k < s.len()
                                invariant
                                    k <= s@.len(),
                                    sel@ == s@.take(k as int),
                                decreases s.len() - k,
                            {
                                sel.push(s[k]);
                                assert(s@.take(k + 1) =~= s@.take(k as int).push(s@[k as int]));
                                k = k + 1;
                            }
                            assert(s@.take(s@.len() as int) =~= s@);
                            SelectedAnswer::Multiple(sel)
                        } else {
                            let first = if s.len() > 0 { s[0] } else { 0 };
                            SelectedAnswer::Single(u8_to_decimal(first))
                        }
                    },
                    None => {
                        if mc.allow_multiple_answers {
                            SelectedAnswer::Multiple(Vec::new())
                        } else {
                            SelectedAnswer::Single(String::new())
                        }
                    },
                };
                PlayerSlideView::MultipleChoice {
                    question: self.question.clone(),
                    answers,
                    submitted,
                    selected_answer,
                    allow_multiple_answers: mc.allow_multiple_answers,
                    emoji,
                }
            },
            SlideType::FreeText(ft) => {
                let selected_answer = match &ft.player_answers[player_index] {
                    Some(a) => a.clone(),
                    None => String::new(),
                };
                PlayerSlideView::FreeText {
                    question: self.question.clone(),
                    selected_answer,
                    submitted: ft.player_answers[player_index].is_some(),
                    emoji,
                }
            },
            SlideType::Undefined => PlayerSlideView::Empty,
        }
    }

    /// The statistics of this slide that the host's page shows.
    pub fn stats(&self) -> (st: SlideStats)
        ensures
            is_stats_of(*self, st),
    {
        match &self.slide_type {
            SlideType::MultipleChoice(mc) => {
                let mut counts: Vec<usize> = Vec::new();
                let mut i: usize = 0;
                while i < mc.answer_counts.len()
                    invariant
                        i <= mc.answer_counts@.len(),
                        counts@ == mc.answer_counts@.take(i as int),
                    decreases mc.answer_counts.len() - i,
                {
                    counts.push(mc.answer_counts[i]);
                    assert(mc.answer_counts@.take(i + 1) =~= mc.answer_counts@.take(i as int).push(mc.answer_counts@[i as int]));
                    i = i + 1;
                }
                assert(mc.answer_counts@.take(mc.answer_counts@.len() as int) =~= mc.answer_counts@);
                SlideStats::MultipleChoice { counts }
            },
            SlideType::FreeText(ft) => {
                let mut terms: Vec<(String, usize)> = Vec::new();
                let mut i: usize = 0;
                while i < ft.word_cloud_terms.len()
                    invariant
                        i <= ft.word_cloud_terms@.len(),
                        terms@.len() == i,
                        forall|k: int| 0 <= k < i ==> (#[trigger] terms@[k]).0@ == ft.word_cloud_terms@[k].preferred_spelling@
                            && terms@[k].1 == ft.word_cloud_terms@[k].count,
                    decreases ft.word_cloud_terms.len() - i,
                {
                    let t = &ft.word_cloud_terms[i];
                    terms.push((t.preferred_spelling.clone(), t.count));
                    i = i + 1;
                }
                assert(terms@.map_values(|t: (String, usize)| (t.0@, t.1 as nat))
                    =~= ft.word_cloud_terms@.map_values(|t: WordCloudTerm| (t.preferred_spelling@, t.count as nat)));
                SlideStats::FreeText { terms, max_count: ft.max_term_count }
            },
            SlideType::Undefined => SlideStats::Nothing,
        }
    }

    /// How many participants sent each emoji reaction.
    pub fn emoji_counts(&self) -> (c: EmojiCounts)
        ensures
            c.heart == self.heart_emojis,
            c.thumbs_up == self.thumbs_up_emojis,
            c.thumbs_down == self.thumbs_down_emojis,
            c.smiley_face == self.smiley_face_emojis,
            c.sad_face == self.sad_face_emojis,
    {
        EmojiCounts {
            heart: self.heart_emojis,
            thumbs_up: self.thumbs_up_emojis,
            thumbs_down: self.thumbs_down_emojis,
            smiley_face: self.smiley_face_emojis,
            sad_face: self.sad_face_emojis,
        }
    }

    /// Submits answer indices of a participant to this multiple-choice slide.
    /// Returns the points scored.
    pub fn submit_mc_answer(
        &mut self,
        player_index: usize,
        answer_indices: ArrayVec<u8, POLL_MAX_MC_ANSWERS>,
        start_time: tokio::time::Instant,
    ) -> (r: Result<usize, AppError>)
        requires
            old(self).wf(),
            player_index < old(self).player_count(),
            old(self).player_count() * POLL_MAX_MC_ANSWERS <= usize::MAX,
        ensures
            final(self).wf(),
            match old(self).slide_type {
                SlideType::MultipleChoice(mc) => final(self).slide_type matches SlideType::MultipleChoice(mc2)
                    && with_answers(*old(self), *final(self), SlideType::MultipleChoice(mc2))
                    && mc_submit_outcome(mc, mc2, player_index as int, answer_indices, r),
                _ => r matches Err(e) && e.is_bad_request("This is not a multiple choice item"@)
                    && *final(self) == *old(self),
            },
    {
        if !matches!(self.slide_type, SlideType::MultipleChoice(_)) {
            return Err(bad_request("This is not a multiple choice item"));
        }
        let mut t = SlideType::Undefined;
        std::mem::swap(&mut t, &mut self.slide_type);
        let (t2, r) = match t {
            SlideType::MultipleChoice(mut mc) => {
                let r = mc.submit_answer(player_index, answer_indices, start_time);
                (SlideType::MultipleChoice(mc), r)
            },
            other => (other, Ok(0)),
        };
        self.slide_type = t2;
        r
    }

    /// Submits the answer of a participant to this free-text slide.
    pub fn submit_ft_answer(&mut self, player_index: usize, answer: String) -> (r: Result<(), AppError>)
        requires
            old(self).wf(),
            player_index < old(self).player_count(),
        ensures
            final(self).wf(),
            match old(self).slide_type {
                SlideType::FreeText(ft) => final(self).slide_type matches SlideType::FreeText(ft2)
                    && with_answers(*old(self), *final(self), SlideType::FreeText(ft2))
                    && ft_submit_outcome(ft, ft2, player_index as int, answer, r),
                _ => r matches Err(e) && e.is_bad_request("This is not a free text item"@)
                    && *final(self) == *old(self),
            },
    {
        if !matches!(self.slide_type, SlideType::FreeText(_)) {
            return Err(bad_request("This is not a free text item"));
        }
        let mut t = SlideType::Undefined;
        std::mem::swap(&mut t, &mut self.slide_type);
        let (t2, r) = match t {
            SlideType::FreeText(mut ft) => {
                let r = ft.submit_answer(player_index, answer);
                (SlideType::FreeText(ft), r)
            },
            other => (other, Ok(())),
        };
        self.slide_type = t2;
        r
    }
}

/// A participant answers a multiple-choice slide once: after an accepted
/// submission every further submission of that participant is refused and
/// changes nothing.
pub proof fn law_mc_answer_once(
    a: MultipleChoiceLiveAnswers,
    b: MultipleChoiceLiveAnswers,
    c: MultipleChoiceLiveAnswers,
    p: int,
    first: ArrayVec<u8, POLL_MAX_MC_ANSWERS>,
    second: ArrayVec<u8, POLL_MAX_MC_ANSWERS>,
    r1: Result<usize, AppError>,
    r2: Result<usize, AppError>,
)
    requires
        0 <= p < a.player_answers@.len(),
        mc_submit_outcome(a, b, p, first, r1),
        r1 is Ok,
        mc_submit_outcome(b, c, p, second, r2),
    ensures
        r2 is Err,
        c == b,
        b.player_answers@[p] == Some(first),
{
}

/// An accepted answer shows on the participant's page as submitted.
pub proof fn law_mc_answer_shown(
    a: Slide,
    b: Slide,
    mc: MultipleChoiceLiveAnswers,
    mc2: MultipleChoiceLiveAnswers,
    p: int,
    answer_indices: ArrayVec<u8, POLL_MAX_MC_ANSWERS>,
    r: Result<usize, AppError>,
    v: PlayerSlideView,
)
    requires
        0 <= p < mc.player_answers@.len(),
        a.slide_type == SlideType::MultipleChoice(mc),
        with_answers(a, b, SlideType::MultipleChoice(mc2)),
        mc_submit_outcome(mc, mc2, p, answer_indices, r),
        r is Ok,
        is_player_view(b, p, v),
    ensures
        v matches PlayerSlideView::MultipleChoice { submitted, .. } && submitted,
{
}

/// An accepted free-text answer shows on the participant's page as submitted,
/// with the text that was sent.
pub proof fn law_ft_answer_shown(
    a: Slide,
    b: Slide,
    ft: FreeTextLiveAnswers,
    ft2: FreeTextLiveAnswers,
    p: int,
    answer: String,
    r: Result<(), AppError>,
    v: PlayerSlideView,
)
    requires
        0 <= p < ft.player_answers@.len(),
        a.slide_type == SlideType::FreeText(ft),
        with_answers(a, b, SlideType::FreeText(ft2)),
        ft_submit_outcome(ft, ft2, p, answer, r),
        r is Ok,
        is_player_view(b, p, v),
    ensures
        v matches PlayerSlideView::FreeText { submitted, selected_answer, .. } && submitted
            && selected_answer@ == answer@,
{
}

/// An index that occurs in `v` is counted at least once.
proof fn lemma_occurs_counted(v: Seq<u8>, k: int)
    requires
        0 <= k < v.len(),
    ensures
        occurrences(v, v[k] as int) >= 1,
    decreases v.len(),
{
    if k < v.len() - 1 {
        lemma_occurs_counted(v.drop_last(), k);
        assert(v.drop_last()[k] == v[k]);
    }
}

/// A participant who has not answered may choose any of the answers: on a slide
/// that allows several answers, any non-empty choice of answer indices (at most
/// `POLL_MAX_MC_ANSWERS` of them, all naming answers) is accepted, scores 0, is
/// recorded, and every chosen answer is counted once for each time it was chosen,
/// other answers not at all. On a slide that allows one answer, the same holds of
/// a single index.
pub proof fn law_mc_choice_accepted(
    old: MultipleChoiceLiveAnswers,
    new: MultipleChoiceLiveAnswers,
    p: int,
    answer_indices: ArrayVec<u8, POLL_MAX_MC_ANSWERS>,
    r: Result<usize, AppError>,
)
    requires
        old.wf(),
        0 <= p < old.player_answers@.len(),
        old.player_answers@[p] is None,
        answer_indices_of(answer_indices).len() > 0,
        answer_indices_of(answer_indices).len() <= POLL_MAX_MC_ANSWERS,
        old.allow_multiple_answers || answer_indices_of(answer_indices).len() == 1,
        forall|k: int|
            0 <= k < answer_indices_of(answer_indices).len() ==> (#[trigger] answer_indices_of(answer_indices)[k])
                < old.answers@.len(),
        mc_submit_outcome(old, new, p, answer_indices, r),
    ensures
        r == Ok::<usize, AppError>(0),
        new.player_answers@[p] == Some(answer_indices),
        new.answer_counts@.len() == old.answer_counts@.len(),
        forall|k: int|
            0 <= k < answer_indices_of(answer_indices).len() ==> #[trigger] new.answer_counts@[answer_indices_of(
                answer_indices,
            )[k] as int] > old.answer_counts@[answer_indices_of(answer_indices)[k] as int],
        forall|i: int|
            0 <= i < old.answer_counts@.len() && (forall|k: int|
                0 <= k < answer_indices_of(answer_indices).len() ==> answer_indices_of(answer_indices)[k] as int != i)
                ==> #[trigger] new.answer_counts@[i] == old.answer_counts@[i],
{
    let v = answer_indices_of(answer_indices);
    assert(!(exists|k: int| 0 <= k < v.len() && v[k] >= old.answers.len()));
    assert forall|k: int| 0 <= k < v.len() implies #[trigger] new.answer_counts@[v[k] as int]
        > old.answer_counts@[v[k] as int] by {
        lemma_occurs_counted(v, k);
    }
    assert forall|i: int|
        0 <= i < old.answer_counts@.len() && (forall|k: int| 0 <= k < v.len() ==> v[k] as int != i) implies #[trigger] new.answer_counts@[i]
        == old.answer_counts@[i] by {
        lemma_occurrences_absent(v, i);
    }
}

/// An index that does not occur in `v` is not counted.
proof fn lemma_occurrences_absent(v: Seq<u8>, i: int)
    requires
        forall|k: int| 0 <= k < v.len() ==> v[k] as int != i,
    ensures
        occurrences(v, i) == 0,
    decreases v.len(),
{
    if v.len() > 0 {
        assert forall|k: int| 0 <= k < v.drop_last().len() implies v.drop_last()[k] as int != i by {
            assert(v.drop_last()[k] == v[k]);
        }
        lemma_occurrences_absent(v.drop_last(), i);
        assert(v.last() == v[v.len() - 1]);
    }
}

} // verus!
