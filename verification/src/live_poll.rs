//! The state of a live poll: its slides, its participants and the slide shown.

use vstd::prelude::*;
use std::collections::BTreeMap;
use arrayvec::ArrayVec;
use crate::app_error::{AppError, bad_request};
use crate::config::{LIVE_POLL_PARTICIPANT_LIMIT, POLL_MAX_MC_ANSWERS};
use crate::play::Player;
use crate::slide::{
    Slide, SlideType, PlayerSlideView, SlideStats, EmojiCounts, with_new_player, with_answers,
    mc_submit_outcome, emoji_names, is_player_view, is_stats_of,
};
use crate::free_text::ft_submit_outcome;

verus! {

/// A poll that is running.
pub struct LivePoll {
    pub host_session_id: u128,
    pub slides: Vec<Slide>,
    /// The index of each participant, by session id.
    pub player_indices: BTreeMap<u128, usize>,
    pub players: Vec<Player>,
    /// The slide that is shown.
    pub current_slide_index: usize,
    /// When the slide that is shown was shown.
    pub current_item_start_time: tokio::time::Instant,
}

/// Some session has the participant index `k`.
pub open spec fn index_used(indices: Map<u128, usize>, k: int) -> bool {
    exists|s: u128| #[trigger] indices.contains_key(s) && indices[s] == k
}

/// Every participant index below `n` is that of some session.
pub open spec fn indices_cover(indices: Map<u128, usize>, n: nat) -> bool {
    forall|k: int| 0 <= k < n ==> #[trigger] index_used(indices, k)
}

/// `b` is the poll `a` with the slide at `i` replaced by `slide`.
pub open spec fn with_slide(a: LivePoll, b: LivePoll, i: int, slide: Slide) -> bool {
    &&& b.slides@ == a.slides@.update(i, slide)
    &&& b.host_session_id == a.host_session_id
    &&& b.player_indices@ == a.player_indices@
    &&& b.players@ == a.players@
    &&& b.current_slide_index == a.current_slide_index
    &&& b.current_item_start_time == a.current_item_start_time
}

/// `b` holds the same poll as `a`.
pub open spec fn unchanged(a: LivePoll, b: LivePoll) -> bool {
    &&& b.slides@ == a.slides@
    &&& b.host_session_id == a.host_session_id
    &&& b.player_indices@ == a.player_indices@
    &&& b.players@ == a.players@
    &&& b.current_slide_index == a.current_slide_index
    &&& b.current_item_start_time == a.current_item_start_time
}

impl LivePoll {
    pub open spec fn player_count(&self) -> nat {
        self.players@.len()
    }

    /// There is a slide and the shown one exists; the participants are at most
    /// `LIVE_POLL_PARTICIPANT_LIMIT`; each session has its own participant index, which
    /// names a participant, and every participant is the one of some session; every
    /// slide has a record for every participant.
    pub open spec fn wf(&self) -> bool {
        &&& self.slides@.len() >= 1
        &&& self.current_slide_index < self.slides@.len()
        &&& self.players@.len() <= LIVE_POLL_PARTICIPANT_LIMIT
        &&& forall|s: u128| #[trigger] self.player_indices@.contains_key(s) ==> self.player_indices@[s] < self.players@.len()
        &&& forall|s1: u128, s2: u128|
            #[trigger] self.player_indices@.contains_key(s1) && #[trigger] self.player_indices@.contains_key(s2)
                && self.player_indices@[s1] == self.player_indices@[s2] ==> s1 == s2
        &&& forall|i: int|
            0 <= i < self.slides@.len() ==> (#[trigger] self.slides@[i]).wf() && self.slides@[i].player_count()
                == self.players@.len()
        &&& indices_cover(self.player_indices@, self.players@.len())
    }

    /// A live poll of the given slides, without participants, showing the first slide.
    pub fn new(slides: Vec<Slide>, host_session_id: u128, start_time: tokio::time::Instant) -> (p: Self)
        requires
            slides@.len() >= 1,
            forall|i: int| 0 <= i < slides@.len() ==> (#[trigger] slides@[i]).wf() && slides@[i].player_count() == 0,
        ensures
            p.wf(),
            p.host_session_id == host_session_id,
            p.slides == slides,
            p.player_indices@ == Map::<u128, usize>::empty(),
            p.players@.len() == 0,
            p.current_slide_index == 0,
            p.current_item_start_time == start_time,
    {
        LivePoll {
            host_session_id,
            slides,
            player_indices: BTreeMap::new(),
            players: Vec::new(),
            current_slide_index: 0,
            current_item_start_time: start_time,
        }
    }

    /// The index of the participant of the given session.
    pub fn get_player_index(&self, player_session_id: u128) -> (r: Result<usize, AppError>)
        ensures
            self.player_indices@.contains_key(player_session_id) ==> r == Ok::<usize, AppError>(
                self.player_indices@[player_session_id],
            ),
            !self.player_indices@.contains_key(player_session_id) ==> (r matches Err(e)
                && e.is_bad_request("Player with this auth token did not join the poll yet"@)),
    {
        match self.player_indices.get(&player_session_id) {
            Some(index) => Ok(*index),
            None => Err(bad_request("Player with this auth token did not join the poll yet")),
        }
    }

    /// The index of the participant of the given session; a new participant is
    /// added where the session has none yet and the poll is not full.
    #[verifier::loop_isolation(false)]
    pub fn get_or_create_player(&mut self, player_session_id: u128) -> (r: Option<usize>)
        requires
            old(self).wf(),
        ensures
            final(self).wf(),
            // a participant is found again under the session
            r matches Some(i) ==> final(self).player_indices@.contains_key(player_session_id)
                && final(self).player_indices@[player_session_id] == i,
            old(self).player_indices@.contains_key(player_session_id) ==> r == Some(
                old(self).player_indices@[player_session_id],
            ) && *final(self) == *old(self),
            !old(self).player_indices@.contains_key(player_session_id) && old(self).players@.len()
                >= LIVE_POLL_PARTICIPANT_LIMIT ==> r is None && *final(self) == *old(self),
            !old(self).player_indices@.contains_key(player_session_id) && old(self).players@.len()
                < LIVE_POLL_PARTICIPANT_LIMIT ==> {
                &&& r == Some(old(self).players@.len() as usize)
                &&& final(self).player_indices@ == old(self).player_indices@.insert(
                    player_session_id,
                    old(self).players@.len() as usize,
                )
                &&& final(self).players@.len() == old(self).players@.len() + 1
                &&& final(self).slides@.len() == old(self).slides@.len()
                &&& forall|i: int|
                    0 <= i < old(self).slides@.len() ==> with_new_player(
                        #[trigger] old(self).slides@[i],
                        final(self).slides@[i],
                    )
                &&& final(self).host_session_id == old(self).host_session_id
                &&& final(self).current_slide_index == old(self).current_slide_index
                &&& final(self).current_item_start_time == old(self).current_item_start_time
            },
    {
        if let Ok(player_index) = self.get_player_index(player_session_id) {
            return Some(player_index);
        }
        if self.players.len() >= LIVE_POLL_PARTICIPANT_LIMIT {
            return None;
        }
        let new_player_idx = self.players.len();
        let new_player = Player::new(new_player_idx);
        self.player_indices.insert(player_session_id, new_player_idx);
        self.players.push(new_player);
        let ghost old_slides = self.slides@;
        let ghost mid = *self;
        let n = self.slides.len();
        let mut i: usize = 0;
        while i < n
            invariant
                i <= n,
                n == old_slides.len(),
                self.slides@.len() == n,
                self.players@.len() == new_player_idx + 1,
                self.players == mid.players,
                self.player_indices == mid.player_indices,
                self.host_session_id == mid.host_session_id,
                self.current_slide_index == mid.current_slide_index,
                self.current_item_start_time == mid.current_item_start_time,
                forall|k: int| 0 <= k < n ==> (#[trigger] old_slides[k]).wf() && old_slides[k].player_count() == new_player_idx,
                forall|k: int| 0 <= k < i ==> with_new_player(#[trigger] old_slides[k], self.slides@[k]) && self.slides@[k].wf(),
                forall|k: int| i <= k < n ==> #[trigger] self.slides@[k] == old_slides[k],
            decreases n - i,
        {
            let ghost prev = self.slides@;
            let mut slide = self.slides.remove(i);
            slide.add_player();
            let ghost added = slide;
            self.slides.insert(i, slide);
            assert(self.slides@ =~= prev.update(i as int, added));
            i = i + 1;
        }
        proof {
            assert(self.slides@.len() >= 1);
            assert(self.current_slide_index < self.slides@.len());
            assert(self.players@.len() <= LIVE_POLL_PARTICIPANT_LIMIT);
            assert forall|i: int| 0 <= i < self.slides@.len() implies (#[trigger] self.slides@[i]).wf() && self.slides@[i].player_count()
                == self.players@.len() by {
                assert(with_new_player(old_slides[i], self.slides@[i]));
            }
            let m = self.player_indices@;
            let om = old(self).player_indices@;
            assert(m == om.insert(player_session_id, new_player_idx));
            assert forall|s: u128| #[trigger] m.contains_key(s) implies m[s] < self.players@.len() by {
                if s != player_session_id {
                    assert(om.contains_key(s));
                }
            }
            assert forall|k: int| 0 <= k < self.players@.len() implies #[trigger] index_used(m, k) by {
                if k == new_player_idx {
                    assert(m.contains_key(player_session_id) && m[player_session_id] == k);
                } else {
                    assert(index_used(om, k));
                    let s0 = choose|s0: u128| #[trigger] om.contains_key(s0) && om[s0] == k;
                    assert(s0 != player_session_id);
                    assert(m.contains_key(s0) && m[s0] == k);
                }
            }
            assert forall|s1: u128, s2: u128|
                #[trigger] m.contains_key(s1) && #[trigger] m.contains_key(s2) && m[s1] == m[s2] implies s1 == s2 by {
                if s1 != player_session_id {
                    assert(om.contains_key(s1));
                }
                if s2 != player_session_id {
                    assert(om.contains_key(s2));
                }
            }
        }
        Some(new_player_idx)
    }

    /// The participant with the given index.
    pub fn get_player(&self, player_index: usize) -> (p: &Player)
        requires
            player_index < self.players@.len(),
        ensures
            *p == self.players@[player_index as int],
    {
        &self.players[player_index]
    }

    /// The slide that is shown.
    pub fn get_current_slide(&self) -> (s: &Slide)
        requires
            self.wf(),
        ensures
            *s == self.slides@[self.current_slide_index as int],
    {
        &self.slides[self.current_slide_index]
    }

    /// When the slide that is shown was shown.
    pub fn get_current_slide_start_time(&self) -> (t: tokio::time::Instant)
        ensures
            t == self.current_item_start_time,
    {
        self.current_item_start_time
    }

    /// Shows the slide with the given index, or the first slide where there is no
    /// such slide. Returns the index of the slide shown.
    pub fn set_slide_index(&mut self, slide_index: usize, now: tokio::time::Instant) -> (shown: usize)
        requires
            old(self).wf(),
        ensures
            final(self).wf(),
            shown == if slide_index < old(self).slides@.len() { slide_index } else { 0 },
            final(self).current_slide_index == shown,
            final(self).current_item_start_time == now,
            final(self).slides == old(self).slides,
            final(self).players == old(self).players,
            final(self).player_indices == old(self).player_indices,
            final(self).host_session_id == old(self).host_session_id,
    {
        let shown = if slide_index >= self.slides.len() { 0 } else { slide_index };
        self.current_slide_index = shown;
        self.current_item_start_time = now;
        shown
    }

    /// Submits answer indices of the participant of the given session to the
    /// multiple-choice slide with the given index. Returns the points scored.
    pub fn submit_mc_answer(
        &mut self,
        player_session_id: u128,
        slide_index: usize,
        answer_indices: ArrayVec<u8, POLL_MAX_MC_ANSWERS>,
    ) -> (r: Result<usize, AppError>)
        requires
            old(self).wf(),
        ensures
            final(self).wf(),
            slide_index >= old(self).slides@.len() ==> (r matches Err(e) && e.is_bad_request(
                "slide_index out of bounds"@,
            ) && unchanged(*old(self), *final(self))),
            slide_index < old(self).slides@.len() && !old(self).player_indices@.contains_key(player_session_id)
                ==> (r matches Err(e) && e.is_bad_request("Player with this auth token did not join the poll yet"@)
                && unchanged(*old(self), *final(self))),
            slide_index < old(self).slides@.len() && old(self).player_indices@.contains_key(player_session_id)
                ==> ({
                let p = old(self).player_indices@[player_session_id] as int;
                let s = old(self).slides@[slide_index as int];
                match s.slide_type {
                    SlideType::MultipleChoice(mc) => exists|s2: Slide| {
                        &&& with_slide(*old(self), *final(self), slide_index as int, s2)
                        &&& (#[trigger] s2.slide_type) matches SlideType::MultipleChoice(mc2)
                        &&& with_answers(s, s2, SlideType::MultipleChoice(mc2))
                        &&& mc_submit_outcome(mc, mc2, p, answer_indices, r)
                    },
                    _ => r matches Err(e) && e.is_bad_request("This is not a multiple choice item"@)
                        && unchanged(*old(self), *final(self)),
                }
            }),
    {
        if slide_index >= self.slides.len() {
            return Err(bad_request("slide_index out of bounds"));
        }
        let player_index = match self.get_player_index(player_session_id) {
            Ok(p) => p,
            Err(e) => {
                return Err(e);
            },
        };
        let start_time = self.get_current_slide_start_time();
        let ghost old_slides = self.slides@;
        let mut slide = self.slides.remove(slide_index);
        let r = slide.submit_mc_answer(player_index, answer_indices, start_time);
        let ghost s2 = slide;
        self.slides.insert(slide_index, slide);
        assert(self.slides@ =~= old_slides.update(slide_index as int, s2));
        proof {
            if !(old_slides[slide_index as int].slide_type is MultipleChoice) {
                assert(self.slides@ =~= old_slides);
            }
        }
        let score = match r {
            Ok(score) => score,
            Err(e) => {
                return Err(e);
            },
        };
        if score > 0 {
            let current = self.current_slide_index;
            let mut current_slide = self.slides.remove(current);
            current_slide.submit_score(player_index, score);
            self.slides.insert(current, current_slide);
        }
        Ok(score)
    }

    /// Submits the answer of the participant of the given session to the
    /// free-text slide with the given index.
    pub fn submit_ft_answer(&mut self, player_session_id: u128, slide_index: usize, answer: String) -> (r: Result<(), AppError>)
        requires
            old(self).wf(),
        ensures
            final(self).wf(),
            !old(self).player_indices@.contains_key(player_session_id) ==> (r matches Err(e)
                && e.is_bad_request("Player with this auth token did not join the poll yet"@)
                && unchanged(*old(self), *final(self))),
            old(self).player_indices@.contains_key(player_session_id) && slide_index >= old(self).slides@.len()
                ==> (r matches Err(e) && e.is_bad_request("slide_index out of bounds"@) && unchanged(*old(self), *final(self))),
            slide_index < old(self).slides@.len() && old(self).player_indices@.contains_key(player_session_id)
                ==> ({
                let p = old(self).player_indices@[player_session_id] as int;
                let s = old(self).slides@[slide_index as int];
                match s.slide_type {
                    SlideType::FreeText(ft) => exists|s2: Slide| {
                        &&& with_slide(*old(self), *final(self), slide_index as int, s2)
                        &&& (#[trigger] s2.slide_type) matches SlideType::FreeText(ft2)
                        &&& with_answers(s, s2, SlideType::FreeText(ft2))
                        &&& ft_submit_outcome(ft, ft2, p, answer, r)
                    },
                    _ => r matches Err(e) && e.is_bad_request("This is not a free text item"@)
                        && unchanged(*old(self), *final(self)),
                }
            }),
    {
        let player_index = match self.get_player_index(player_session_id) {
            Ok(p) => p,
            Err(e) => {
                return Err(e);
            },
        };
        if slide_index >= self.slides.len() {
            return Err(bad_request("slide_index out of bounds"));
        }
        let ghost old_slides = self.slides@;
        let mut slide = self.slides.remove(slide_index);
        let r = slide.submit_ft_answer(player_index, answer);
        let ghost s2 = slide;
        self.slides.insert(slide_index, slide);
        assert(self.slides@ =~= old_slides.update(slide_index as int, s2));
        proof {
            if !(old_slides[slide_index as int].slide_type is FreeText) {
                assert(self.slides@ =~= old_slides);
            }
        }
        r
    }

    /// Records the emoji reaction of the participant of the given session on the
    /// slide with the given index. `Ok(true)` when it was recorded.
    pub fn submit_emoji(&mut self, player_session_id: u128, slide_index: usize, emoji: String) -> (r: Result<bool, AppError>)
        requires
            old(self).wf(),
        ensures
            final(self).wf(),
            !old(self).player_indices@.contains_key(player_session_id) ==> (r matches Err(e)
                && e.is_bad_request("Player with this auth token did not join the poll yet"@)
                && unchanged(*old(self), *final(self))),
            old(self).player_indices@.contains_key(player_session_id) && slide_index >= old(self).slides@.len()
                ==> (r matches Err(e) && e.is_bad_request("slide_index out of bounds"@) && unchanged(*old(self), *final(self))),
            slide_index < old(self).slides@.len() && old(self).player_indices@.contains_key(player_session_id)
                ==> ({
                let p = old(self).player_indices@[player_session_id] as int;
                let s = old(self).slides@[slide_index as int];
                if s.player_emojis@[p] is Some {
                    r matches Err(e) && e.is_bad_request("Emoji already submitted"@) && unchanged(*old(self), *final(self))
                } else if !emoji_names().contains(emoji@) {
                    r matches Err(e) && e.is_bad_request("Unknown emoji"@) && unchanged(*old(self), *final(self))
                } else {
                    &&& r == Ok::<bool, AppError>(true)
                    &&& exists|s2: Slide| {
                        &&& with_slide(*old(self), *final(self), slide_index as int, s2)
                        &&& (#[trigger] s2.player_emojis)@ == s.player_emojis@.update(p, Some(emoji))
                        &&& forall|name: Seq<char>| #[trigger] s2.emoji_counter(name) == s.emoji_counter(name)
                            + if name == emoji@ { 1nat } else { 0nat }
                        &&& s2.question == s.question
                        &&& s2.slide_type == s.slide_type
                        &&& s2.player_scores == s.player_scores
                    }
                }
            }),
    {
        let player_index = match self.get_player_index(player_session_id) {
            Ok(p) => p,
            Err(e) => {
                return Err(e);
            },
        };
        if slide_index >= self.slides.len() {
            return Err(bad_request("slide_index out of bounds"));
        }
        let ghost old_slides = self.slides@;
        let mut slide = self.slides.remove(slide_index);
        let r = slide.submit_emoji(player_index, emoji);
        let ghost s2 = slide;
        self.slides.insert(slide_index, slide);
        assert(self.slides@ =~= old_slides.update(slide_index as int, s2));
        proof {
            if r is Err {
                assert(self.slides@ =~= old_slides);
            }
        }
        r
    }

    /// What the page of the given participant shows of the slide that is shown.
    pub fn current_slide_view(&self, player_index: usize) -> (v: PlayerSlideView)
        requires
            self.wf(),
            player_index < self.players@.len(),
        ensures
            is_player_view(self.slides@[self.current_slide_index as int], player_index as int, v),
    {
        self.slides[self.current_slide_index].player_view(player_index)
    }

    /// The statistics of the slide with the given index, if there is one.
    pub fn slide_stats(&self, slide_index: usize) -> (st: Option<SlideStats>)
        ensures
            slide_index < self.slides@.len() ==> (st matches Some(x) && is_stats_of(self.slides@[slide_index as int], x)),
            slide_index >= self.slides@.len() ==> st is None,
    {
        if slide_index < self.slides.len() {
            Some(self.slides[slide_index].stats())
        } else {
            None
        }
    }

    /// The emoji counts of the slide with the given index, if there is one.
    pub fn slide_emoji_counts(&self, slide_index: usize) -> (c: Option<EmojiCounts>)
        ensures
            slide_index < self.slides@.len() ==> (c matches Some(x) && {
                let s = self.slides@[slide_index as int];
                &&& x.heart == s.heart_emojis
                &&& x.thumbs_up == s.thumbs_up_emojis
                &&& x.thumbs_down == s.thumbs_down_emojis
                &&& x.smiley_face == s.smiley_face_emojis
                &&& x.sad_face == s.sad_face_emojis
            }),
            slide_index >= self.slides@.len() ==> c is None,
    {
        if slide_index < self.slides.len() {
            Some(self.slides[slide_index].emoji_counts())
        } else {
            None
        }
    }
}

} // verus!
