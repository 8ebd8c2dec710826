//! The registry of running polls: each poll under a short numeric id, and the
//! poll of each host session.

use vstd::prelude::*;
use std::collections::BTreeMap;
use crate::app_error::AppError;
use crate::text::{decimal, dec_digit};

verus! {

/// The short number a poll is joined with.
pub type ShortID = u32;

/// Lowest id of the first range ids are drawn from.
pub const SHORT_ID_MIN: u32 = 1000;
/// End of the first range, and start of the second.
pub const SHORT_ID_SMALL_END: u32 = 10000;
/// End of the second range.
pub const SHORT_ID_END: u32 = 1000000;
/// How many ids are drawn from each range before giving up on it.
pub const SHORT_ID_ATTEMPTS: u32 = 1000;

/// Calls `rand::Rng::gen_range` on `rand::thread_rng()` with the range
/// `low..high`. The crate documents a value in the range, and panics on an empty
/// range, which `requires` rules out.
#[verifier::external_body]
fn random_id(low: u32, high: u32) -> (id: u32)
    requires
        low < high,
    ensures
        low <= id < high,
{
    rand::Rng::gen_range(&mut rand::thread_rng(), low..high)
}

/// The value of a string of decimal digits.
pub open spec fn digits_value(s: Seq<char>) -> nat
    decreases s.len(),
{
    if s.len() == 0 {
        0
    } else {
        digits_value(s.drop_last()) * 10 + (s.last() as nat - '0' as nat) as nat
    }
}

/// Whether every character is a decimal digit.
pub open spec fn all_digits(s: Seq<char>) -> bool {
    forall|i: int| 0 <= i < s.len() ==> '0' <= #[trigger] s[i] <= '9'
}

/// The poll number a join code names: an optional `+` and at least one decimal
/// digit, of a value that fits in a `ShortID` (the form `u32`'s `FromStr` reads).
pub open spec fn spec_parse_short_id(s: Seq<char>) -> Option<ShortID> {
    let d = if s.len() > 0 && s[0] == '+' { s.drop_first() } else { s };
    if d.len() > 0 && all_digits(d) && digits_value(d) <= u32::MAX {
        Some(digits_value(d) as ShortID)
    } else {
        None
    }
}

proof fn lemma_digits_value_step(s: Seq<char>, i: int)
    requires
        0 <= i < s.len(),
    ensures
        digits_value(s.take(i + 1)) == digits_value(s.take(i)) * 10 + (s[i] as nat - '0' as nat) as nat,
{
    assert(s.take(i + 1).drop_last() =~= s.take(i));
}

proof fn lemma_digits_value_monotone(s: Seq<char>, i: int)
    requires
        0 <= i <= s.len(),
        all_digits(s),
    ensures
        digits_value(s.take(i)) <= digits_value(s),
    decreases s.len() - i,
{
    if i < s.len() {
        lemma_digits_value_step(s, i);
        lemma_digits_value_monotone(s, i + 1);
    } else {
        assert(s.take(i) =~= s);
    }
}

/// Reads the poll number of a join code; `None` where the code is not one.
pub fn parse_short_id(code: &str) -> (r: Option<ShortID>)
    ensures
        r == spec_parse_short_id(code@),
{
    let n = code.unicode_len();
    let mut start: usize = 0;
    if n > 0 && code.get_char(0) == '+' {
        start = 1;
    }
    let ghost d = if code@.len() > 0 && code@[0] == '+' { code@.drop_first() } else { code@ };
    assert(d =~= code@.subrange(start as int, n as int));
    if start == n {
        return None;
    }
    let mut value: u64 = 0;
    let mut i: usize = start;
    assert(d.take(0) =~= Seq::<char>::empty());
    while i < n
        invariant
            start <= i <= n,
            n == code@.len(),
            d == code@.subrange(start as int, n as int),
            d == (if code@.len() > 0 && code@[0] == '+' { code@.drop_first() } else { code@ }),
            d.len() > 0,
            all_digits(d.take(i - start)),
            value == digits_value(d.take(i - start)),
            value <= u32::MAX,
        decreases n - i,
    {
        let c = code.get_char(i);
        proof {
            assert(d[i - start] == c);
            lemma_digits_value_step(d, i - start);
        }
        if c < '0' || c > '9' {
            assert(!all_digits(d)) by {
                assert(d[i - start] == c);
            }
            return None;
        }
        let digit = (c as u32 - '0' as u32) as u64;
        let next = value * 10 + digit;
        assert(d.take(i - start + 1) =~= d.take(i - start).push(c));
        if next > 4294967295u64 {
            proof {
                assert(all_digits(d.take(i - start + 1)));
                if all_digits(d) {
                    lemma_digits_value_monotone(d, i - start + 1);
                }
            }
            return None;
        }
        value = next;
        i = i + 1;
    }
    assert(d.take(n - start) =~= d);
    Some(value as u32)
}

/// Whether no poll has an id in `low..high`.
pub open spec fn range_free<P>(polls: Map<ShortID, P>, low: ShortID, high: ShortID) -> bool {
    forall|id: ShortID| low <= id < high ==> !#[trigger] polls.contains_key(id)
}

/// Every string of decimal digits whose value fits in a `ShortID` is a join code
/// for that number, leading zeros and all; so is it with a `+` in front.
pub proof fn law_join_code_reads_digits(d: Seq<char>)
    requires
        d.len() > 0,
        all_digits(d),
        digits_value(d) <= u32::MAX,
    ensures
        spec_parse_short_id(d) == Some(digits_value(d) as ShortID),
        spec_parse_short_id(seq!['+'] + d) == Some(digits_value(d) as ShortID),
{
    assert((seq!['+'] + d).drop_first() =~= d);
}

proof fn lemma_dec_digit_value(d: nat)
    requires
        d < 10,
    ensures
        (dec_digit(d) as nat - '0' as nat) as nat == d,
{
    assert('0' as nat == 48);
    assert(dec_digit(d) as nat == d + 48);
}

proof fn lemma_decimal_digits(n: nat)
    ensures
        decimal(n).len() > 0,
        all_digits(decimal(n)),
        digits_value(decimal(n)) == n,
    decreases n,
{
    if n < 10 {
        assert(decimal(n) == seq![dec_digit(n)]);
        assert(seq![dec_digit(n)].drop_last() =~= Seq::<char>::empty());
        lemma_dec_digit_value(n);
        assert(digits_value(Seq::<char>::empty()) == 0);
    } else {
        lemma_decimal_digits(n / 10);
        let s = decimal(n);
        assert(s == decimal(n / 10).push(dec_digit(n % 10)));
        assert(s.drop_last() =~= decimal(n / 10));
        lemma_dec_digit_value(n % 10);
        assert forall|i: int| 0 <= i < s.len() implies '0' <= #[trigger] s[i] <= '9' by {
            if i < s.len() - 1 {
                assert(s[i] == decimal(n / 10)[i]);
            }
        }
    }
}

/// The join code of a poll is its number in decimal (the way it is shown), so the
/// decimal text of every `ShortID` reads back as that number.
pub proof fn law_join_code_of_number(n: ShortID)
    ensures
        spec_parse_short_id(decimal(n as nat)) == Some(n),
{
    lemma_decimal_digits(n as nat);
    law_join_code_reads_digits(decimal(n as nat));
}

/// The running polls.
pub struct LivePollStore<P> {
    pub polls: BTreeMap<ShortID, P>,
    /// The id of the poll each host session runs.
    pub session_lookup: BTreeMap<u128, ShortID>,
}

/// The registry as maps.
pub struct StoreView<P> {
    pub polls: Map<ShortID, P>,
    pub sessions: Map<u128, ShortID>,
}

/// The poll with the given id.
pub open spec fn spec_get<P>(s: StoreView<P>, id: ShortID) -> Option<P> {
    if s.polls.contains_key(id) {
        Some(s.polls[id])
    } else {
        None
    }
}

/// The id and poll of the given host session.
pub open spec fn spec_get_by_session_id<P>(s: StoreView<P>, host: u128) -> Option<(ShortID, P)> {
    if s.sessions.contains_key(host) && s.polls.contains_key(s.sessions[host]) {
        Some((s.sessions[host], s.polls[s.sessions[host]]))
    } else {
        None
    }
}

/// The registry after `poll` of the host session `host` was stored under `id`.
pub open spec fn spec_insert<P>(s: StoreView<P>, host: u128, poll: P, id: ShortID) -> StoreView<P> {
    StoreView { polls: s.polls.insert(id, poll), sessions: s.sessions.insert(host, id) }
}

/// The registry after the poll `id` of the host session `host` was removed.
pub open spec fn spec_remove<P>(s: StoreView<P>, host: u128, id: ShortID) -> StoreView<P> {
    StoreView { polls: s.polls.remove(id), sessions: s.sessions.remove(host) }
}

impl<P> View for LivePollStore<P> {
    type V = StoreView<P>;

    open spec fn view(&self) -> StoreView<P> {
        StoreView { polls: self.polls@, sessions: self.session_lookup@ }
    }
}

impl<P> LivePollStore<P> {
    /// An empty registry.
    pub fn new() -> (s: Self)
        ensures
            s.view().polls == Map::<ShortID, P>::empty(),
            s.view().sessions == Map::<u128, ShortID>::empty(),
    {
        LivePollStore { polls: BTreeMap::new(), session_lookup: BTreeMap::new() }
    }

    /// The poll with the given id.
    pub fn get(&self, id: ShortID) -> (r: Option<&P>)
        ensures
            match r {
                Some(p) => spec_get(self.view(), id) == Some(*p),
                None => spec_get(self.view(), id) is None,
            },
    {
        self.polls.get(&id)
    }

    /// Draws up to `SHORT_ID_ATTEMPTS` random ids in `low..high` and returns the
    /// first that no poll has, if any. Where no poll has an id in the range, the
    /// first draw is free, so an id is found.
    pub fn find_free_id(&self, low: ShortID, high: ShortID) -> (r: Option<ShortID>)
        requires
            low < high,
        ensures
            r matches Some(id) ==> low <= id < high && !self.polls@.contains_key(id),
            range_free(self.polls@, low, high) ==> r is Some,
    {
        let mut attempt: u32 = 0;
        while attempt < SHORT_ID_ATTEMPTS
            invariant
                attempt <= SHORT_ID_ATTEMPTS,
                low < high,
                range_free(self.polls@, low, high) ==> attempt == 0,
            decreases SHORT_ID_ATTEMPTS - attempt,
        {
            let id = random_id(low, high);
            if !self.polls.contains_key(&id) {
                return Some(id);
            }
            attempt = attempt + 1;
        }
        None
    }

    /// Stores `poll` under the first of the two drawn ids (`small` from the first
    /// range, `large` from the second) that was found; fails where the second
    /// range gave none.
    pub fn insert_with_ids(
        &mut self,
        host_session_id: u128,
        live_poll: P,
        small: Option<ShortID>,
        large: Option<ShortID>,
    ) -> (r: Result<ShortID, AppError>)
        ensures
            match large {
                None => r matches Err(e) && e matches AppError::OtherInternalServerError(m)
                    && m@ == "Could not find a short id (between 1000 and 999 999 while creating a new live quiz."@
                    && final(self).view() == old(self).view(),
                Some(l) => {
                    let id = match small {
                        Some(s) => s,
                        None => l,
                    };
                    r == Ok::<ShortID, AppError>(id) && final(self).view() == spec_insert(
                        old(self).view(),
                        host_session_id,
                        live_poll,
                        id,
                    )
                },
            },
    {
        let large_id = match large {
            Some(l) => l,
            None => {
                return Err(AppError::OtherInternalServerError(
                    "Could not find a short id (between 1000 and 999 999 while creating a new live quiz.".to_string(),
                ));
            },
        };
        let id = match small {
            Some(s) => s,
            None => large_id,
        };
        self.polls.insert(id, live_poll);
        self.session_lookup.insert(host_session_id, id);
        Ok(id)
    }

    /// Stores the poll of the given host session under a random id that no poll
    /// has: one in `1000..10000` where one is found, else one in `10000..1000000`.
    pub fn insert(&mut self, host_session_id: u128, live_poll: P) -> (r: Result<ShortID, AppError>)
        ensures
            match r {
                Ok(id) => {
                    &&& SHORT_ID_MIN <= id < SHORT_ID_END
                    &&& !old(self).polls@.contains_key(id)
                    &&& final(self).view() == spec_insert(old(self).view(), host_session_id, live_poll, id)
                },
                Err(e) => e is OtherInternalServerError && final(self).view() == old(self).view(),
            },
            // where no poll has an id of the second range, the poll is stored
            range_free(old(self).polls@, SHORT_ID_SMALL_END, SHORT_ID_END) ==> r is Ok,
            // where neither range holds a poll, the id has four digits
            range_free(old(self).polls@, SHORT_ID_MIN, SHORT_ID_SMALL_END) && range_free(
                old(self).polls@,
                SHORT_ID_SMALL_END,
                SHORT_ID_END,
            ) ==> (r matches Ok(id) && id < SHORT_ID_SMALL_END),
    {
        let small = self.find_free_id(SHORT_ID_MIN, SHORT_ID_SMALL_END);
        let large = self.find_free_id(SHORT_ID_SMALL_END, SHORT_ID_END);
        self.insert_with_ids(host_session_id, live_poll, small, large)
    }

    /// Removes the poll `id` and the entry of the host session.
    pub fn remove(&mut self, host_session_id: u128, id: ShortID)
        ensures
            final(self).view() == spec_remove(old(self).view(), host_session_id, id),
    {
        self.polls.remove(&id);
        self.session_lookup.remove(&host_session_id);
    }

    /// The id and poll that the given host session runs.
    pub fn get_by_session_id(&self, host_session_id: u128) -> (r: Option<(ShortID, &P)>)
        ensures
            match r {
                Some((id, p)) => spec_get_by_session_id(self.view(), host_session_id) == Some((id, *p)),
                None => spec_get_by_session_id(self.view(), host_session_id) is None,
            },
    {
        let poll_id = match self.session_lookup.get(&host_session_id) {
            Some(poll_id) => *poll_id,
            None => {
                return None;
            },
        };
        match self.get(poll_id) {
            Some(live_poll) => Some((poll_id, live_poll)),
            None => None,
        }
    }
}

/// A poll stored for a host session is found under its id and under the session.
pub proof fn law_get_after_insert<P>(s: StoreView<P>, host: u128, poll: P, id: ShortID)
    ensures
        spec_get(spec_insert(s, host, poll, id), id) == Some(poll),
        spec_get_by_session_id(spec_insert(s, host, poll, id), host) == Some((id, poll)),
{
}

/// Storing a poll under a fresh id leaves every other poll where it was.
pub proof fn law_insert_keeps_others<P>(s: StoreView<P>, host: u128, poll: P, id: ShortID, other: ShortID)
    requires
        other != id,
    ensures
        spec_get(spec_insert(s, host, poll, id), other) == spec_get(s, other),
{
}

/// After a poll was removed, neither its id nor its host session finds a poll.
pub proof fn law_get_after_remove<P>(s: StoreView<P>, host: u128, id: ShortID)
    ensures
        spec_get(spec_remove(s, host, id), id) is None,
        spec_get_by_session_id(spec_remove(s, host, id), host) is None,
{
}

} // verus!
