//! Free-text slides: the participants' answers and the word-cloud terms they form.
//!
//! An answer's *spelling* is the answer without surrounding whitespace; its *term*
//! is the first `FREE_TEXT_MAX_CHAR_LENGTH` characters of the lower-cased spelling.
//! Answers with the same term are counted together, and the most frequent spelling
//! of a term is the one shown.

use vstd::prelude::*;
use crate::app_error::{AppError, bad_request};
use crate::config::FREE_TEXT_MAX_CHAR_LENGTH;
use crate::tally::{count_some, lemma_count_some_zero, lemma_count_some_update_none,
    lemma_count_some_push_none, lemma_count_some_bound};
use crate::text::{trimmed, take_chars, spec_to_lowercase, trim, truncate_chars, to_lowercase};

verus! {

/// The spelling an answer is counted under.
pub open spec fn spelling_of(answer: Seq<char>) -> Seq<char> {
    trimmed(answer)
}

/// The term a spelling belongs to.
pub open spec fn term_of_spelling(spelling: Seq<char>) -> Seq<char> {
    take_chars(spec_to_lowercase(spelling), FREE_TEXT_MAX_CHAR_LENGTH as nat)
}

/// The term an answer belongs to.
pub open spec fn term_of(answer: Seq<char>) -> Seq<char> {
    term_of_spelling(spelling_of(answer))
}

/// Number of participants whose answer belongs to the term `t`.
pub open spec fn players_with_term(subs: Seq<Option<Seq<char>>>, t: Seq<char>) -> nat {
    count_some(subs, |a: Seq<char>| term_of(a) == t)
}

/// Number of participants whose answer has the spelling `s`.
pub open spec fn players_with_spelling(subs: Seq<Option<Seq<char>>>, s: Seq<char>) -> nat {
    count_some(subs, |a: Seq<char>| spelling_of(a) == s)
}

/// A word-cloud term as a mathematical value.
pub struct TermView {
    pub text: Seq<char>,
    pub count: nat,
    pub preferred: Seq<char>,
    pub spellings: Seq<(Seq<char>, nat)>,
    pub highest: nat,
}

/// The sum of the counts of the spellings.
#[verifier::opaque]
pub open spec fn spelling_total(sp: Seq<(Seq<char>, nat)>) -> nat
    decreases sp.len(),
{
    if sp.len() == 0 {
        0
    } else {
        spelling_total(sp.drop_last()) + sp.last().1
    }
}

/// The sum of the counts of the terms.
#[verifier::opaque]
pub open spec fn term_total(ts: Seq<TermView>) -> nat
    decreases ts.len(),
{
    if ts.len() == 0 {
        0
    } else {
        term_total(ts.drop_last()) + ts.last().count
    }
}

/// Number of participants who answered.
pub open spec fn answered(subs: Seq<Option<Seq<char>>>) -> nat {
    count_some(subs, |x: Seq<char>| true)
}

proof fn lemma_answered_update(subs: Seq<Option<Seq<char>>>, p: int, a: Seq<char>)
    requires
        0 <= p < subs.len(),
        subs[p] is None,
    ensures
        answered(subs.update(p, Some(a))) == answered(subs) + 1,
{
    lemma_count_some_update_none(subs, p, a, |x: Seq<char>| true);
}

proof fn lemma_answered_push_none(subs: Seq<Option<Seq<char>>>)
    ensures
        answered(subs.push(None)) == answered(subs),
{
    lemma_count_some_push_none(subs, |x: Seq<char>| true);
}

proof fn lemma_spelling_total_update(sp: Seq<(Seq<char>, nat)>, j: int, v: (Seq<char>, nat))
    requires
        0 <= j < sp.len(),
    ensures
        spelling_total(sp.update(j, v)) + sp[j].1 == spelling_total(sp) + v.1,
    decreases sp.len(),
{
    reveal(spelling_total);
    if j < sp.len() - 1 {
        lemma_spelling_total_update(sp.drop_last(), j, v);
        assert(sp.update(j, v).drop_last() =~= sp.drop_last().update(j, v));
    } else {
        assert(sp.update(j, v).drop_last() =~= sp.drop_last());
    }
}

proof fn lemma_term_total_update(ts: Seq<TermView>, j: int, v: TermView)
    requires
        0 <= j < ts.len(),
    ensures
        term_total(ts.update(j, v)) + ts[j].count == term_total(ts) + v.count,
    decreases ts.len(),
{
    reveal(term_total);
    if j < ts.len() - 1 {
        lemma_term_total_update(ts.drop_last(), j, v);
        assert(ts.update(j, v).drop_last() =~= ts.drop_last().update(j, v));
    } else {
        assert(ts.update(j, v).drop_last() =~= ts.drop_last());
    }
}

/// The terms and spellings count exactly the participants' answers, the
/// spellings' counts add up to the term's, and the preferred spelling of a term
/// is one of its most frequent spellings.
pub open spec fn term_ok(subs: Seq<Option<Seq<char>>>, t: TermView) -> bool {
    &&& t.count == players_with_term(subs, t.text)
    &&& t.count >= 1
    &&& spelling_total(t.spellings) == t.count
    &&& forall|j: int, k: int|
        0 <= j < k < t.spellings.len() ==> (#[trigger] t.spellings[j]).0 != (#[trigger] t.spellings[k]).0
    &&& forall|j: int|
        #![trigger t.spellings[j]]
        0 <= j < t.spellings.len() ==> {
            &&& t.spellings[j].1 == players_with_spelling(subs, t.spellings[j].0)
            &&& t.spellings[j].1 >= 1
            &&& term_of_spelling(t.spellings[j].0) == t.text
            &&& t.spellings[j].1 <= t.highest
        }
    &&& forall|p: int|
        #![trigger subs[p]]
        0 <= p < subs.len() && subs[p] is Some && term_of(subs[p]->0) == t.text ==> exists|j: int|
            0 <= j < t.spellings.len() && (#[trigger] t.spellings[j]).0 == spelling_of(subs[p]->0)
    &&& exists|j: int|
        0 <= j < t.spellings.len() && (#[trigger] t.spellings[j]).0 == t.preferred && t.spellings[j].1
            == t.highest
}

/// Well-formedness of the terms of a free-text slide with the submissions `subs`:
/// each term once, each well-formed, every answer counted in a term, the term
/// counts adding up to the number of answers, and `max` the highest count (or 1).
pub open spec fn terms_ok(subs: Seq<Option<Seq<char>>>, terms: Seq<TermView>, max: nat) -> bool {
    &&& term_total(terms) == answered(subs)
    &&& forall|i: int, k: int|
        0 <= i < k < terms.len() ==> (#[trigger] terms[i]).text != (#[trigger] terms[k]).text
    &&& forall|i: int| 0 <= i < terms.len() ==> term_ok(subs, #[trigger] terms[i])
    &&& forall|p: int|
        #![trigger subs[p]]
        0 <= p < subs.len() && subs[p] is Some ==> exists|i: int|
            0 <= i < terms.len() && (#[trigger] terms[i]).text == term_of(subs[p]->0)
    &&& max >= 1
    &&& forall|i: int| 0 <= i < terms.len() ==> (#[trigger] terms[i]).count <= max
    &&& (max == 1 || exists|i: int| 0 <= i < terms.len() && (#[trigger] terms[i]).count == max)
}

/// The term `t` after one more answer with the spelling `sp` was counted in it.
pub open spec fn add_spelling(t: TermView, sp: Seq<char>) -> TermView {
    if exists|j: int| 0 <= j < t.spellings.len() && (#[trigger] t.spellings[j]).0 == sp {
        let j = choose|j: int| 0 <= j < t.spellings.len() && (#[trigger] t.spellings[j]).0 == sp;
        let c = t.spellings[j].1 + 1;
        TermView {
            text: t.text,
            count: t.count + 1,
            preferred: if c > t.highest { sp } else { t.preferred },
            spellings: t.spellings.update(j, (sp, c)),
            highest: if c > t.highest { c } else { t.highest },
        }
    } else {
        TermView {
            text: t.text,
            count: t.count + 1,
            preferred: t.preferred,
            spellings: t.spellings.push((sp, 1)),
            highest: t.highest,
        }
    }
}

/// The term made by the first answer with the spelling `sp`.
pub open spec fn first_term(sp: Seq<char>) -> TermView {
    TermView {
        text: term_of_spelling(sp),
        count: 1,
        preferred: sp,
        spellings: seq![(sp, 1nat)],
        highest: 1,
    }
}

/// The terms after the answer `a` was counted.
pub open spec fn terms_after(terms: Seq<TermView>, a: Seq<char>) -> Seq<TermView> {
    if exists|i: int| 0 <= i < terms.len() && (#[trigger] terms[i]).text == term_of(a) {
        let i = choose|i: int| 0 <= i < terms.len() && (#[trigger] terms[i]).text == term_of(a);
        terms.update(i, add_spelling(terms[i], spelling_of(a)))
    } else {
        terms.push(first_term(spelling_of(a)))
    }
}

/// The highest term count after the answer `a` was counted.
pub open spec fn max_after(terms: Seq<TermView>, max: nat, a: Seq<char>) -> nat {
    if exists|i: int| 0 <= i < terms.len() && (#[trigger] terms[i]).text == term_of(a) {
        let i = choose|i: int| 0 <= i < terms.len() && (#[trigger] terms[i]).text == term_of(a);
        if terms[i].count + 1 > max {
            terms[i].count + 1
        } else {
            max
        }
    } else {
        max
    }
}

proof fn lemma_other_term_ok(subs: Seq<Option<Seq<char>>>, p: int, a: Seq<char>, t: TermView)
    requires
        0 <= p < subs.len(),
        subs[p] is None,
        term_ok(subs, t),
        t.text != term_of(a),
    ensures
        term_ok(subs.update(p, Some(a)), t),
{
    let s2 = subs.update(p, Some(a));
    lemma_count_some_update_none(subs, p, a, |x: Seq<char>| term_of(x) == t.text);
    assert forall|j: int|
        #![trigger t.spellings[j]]
        0 <= j < t.spellings.len() implies t.spellings[j].1 == players_with_spelling(s2, t.spellings[j].0) by {
        lemma_count_some_update_none(subs, p, a, |x: Seq<char>| spelling_of(x) == t.spellings[j].0);
    }
    assert forall|q: int|
        #![trigger s2[q]]
        0 <= q < s2.len() && s2[q] is Some && term_of(s2[q]->0) == t.text implies exists|j: int|
            0 <= j < t.spellings.len() && (#[trigger] t.spellings[j]).0 == spelling_of(s2[q]->0) by {
        assert(q != p);
        assert(s2[q] == subs[q]);
    }
}

proof fn lemma_updated_term_ok(subs: Seq<Option<Seq<char>>>, p: int, a: Seq<char>, t: TermView)
    requires
        0 <= p < subs.len(),
        subs[p] is None,
        term_ok(subs, t),
        t.text == term_of(a),
    ensures
        term_ok(subs.update(p, Some(a)), add_spelling(t, spelling_of(a))),
        add_spelling(t, spelling_of(a)).count == t.count + 1,
        add_spelling(t, spelling_of(a)).text == t.text,
{
    let s2 = subs.update(p, Some(a));
    let sp = spelling_of(a);
    let u = add_spelling(t, sp);
    lemma_count_some_update_none(subs, p, a, |x: Seq<char>| term_of(x) == t.text);
    assert forall|j: int|
        #![trigger t.spellings[j]]
        0 <= j < t.spellings.len() && t.spellings[j].0 != sp implies t.spellings[j].1
        == players_with_spelling(s2, t.spellings[j].0) by {
        lemma_count_some_update_none(subs, p, a, |x: Seq<char>| spelling_of(x) == t.spellings[j].0);
    }
    lemma_count_some_update_none(subs, p, a, |x: Seq<char>| spelling_of(x) == sp);
    if exists|j: int| 0 <= j < t.spellings.len() && (#[trigger] t.spellings[j]).0 == sp {
        let j0 = choose|j: int| 0 <= j < t.spellings.len() && (#[trigger] t.spellings[j]).0 == sp;
        assert(u.spellings[j0] == (sp, t.spellings[j0].1 + 1));
        lemma_spelling_total_update(t.spellings, j0, (sp, (t.spellings[j0].1 + 1) as nat));
        assert forall|q: int|
            #![trigger s2[q]]
            0 <= q < s2.len() && s2[q] is Some && term_of(s2[q]->0) == u.text implies exists|j: int|
                0 <= j < u.spellings.len() && (#[trigger] u.spellings[j]).0 == spelling_of(s2[q]->0) by {
            if q == p {
                assert(u.spellings[j0].0 == spelling_of(s2[q]->0));
            } else {
                assert(s2[q] == subs[q]);
                let j = choose|j: int|
                    0 <= j < t.spellings.len() && (#[trigger] t.spellings[j]).0 == spelling_of(subs[q]->0);
                assert(u.spellings[j].0 == t.spellings[j].0);
            }
        }
        let jp = choose|j: int|
            0 <= j < t.spellings.len() && (#[trigger] t.spellings[j]).0 == t.preferred && t.spellings[j].1
                == t.highest;
        if t.spellings[j0].1 + 1 > t.highest {
            assert(u.spellings[j0].0 == u.preferred && u.spellings[j0].1 == u.highest);
        } else {
            assert(u.spellings[jp].0 == u.preferred && u.spellings[jp].1 == u.highest);
        }
        assert forall|j: int|
            #![trigger u.spellings[j]]
            0 <= j < u.spellings.len() implies {
                &&& u.spellings[j].1 == players_with_spelling(s2, u.spellings[j].0)
                &&& u.spellings[j].1 >= 1
                &&& term_of_spelling(u.spellings[j].0) == u.text
                &&& u.spellings[j].1 <= u.highest
            } by {
            assert(t.spellings[j] == t.spellings[j]);
        }
        assert forall|j: int, k: int|
            0 <= j < k < u.spellings.len() implies (#[trigger] u.spellings[j]).0 != (
            #[trigger] u.spellings[k]).0 by {
            assert(t.spellings[j] == t.spellings[j]);
            assert(t.spellings[k] == t.spellings[k]);
        }
    } else {
        let n = t.spellings.len() as int;
        assert(u.spellings[n] == (sp, 1nat));
        assert(u.spellings.drop_last() =~= t.spellings);
        reveal(spelling_total);
        lemma_count_some_zero(subs, |x: Seq<char>| spelling_of(x) == sp);
        assert forall|q: int|
            #![trigger s2[q]]
            0 <= q < s2.len() && s2[q] is Some && term_of(s2[q]->0) == u.text implies exists|j: int|
                0 <= j < u.spellings.len() && (#[trigger] u.spellings[j]).0 == spelling_of(s2[q]->0) by {
            if q == p {
                assert(u.spellings[n].0 == spelling_of(s2[q]->0));
            } else {
                assert(s2[q] == subs[q]);
                let j = choose|j: int|
                    0 <= j < t.spellings.len() && (#[trigger] t.spellings[j]).0 == spelling_of(subs[q]->0);
                assert(u.spellings[j].0 == t.spellings[j].0);
            }
        }
        let jp = choose|j: int|
            0 <= j < t.spellings.len() && (#[trigger] t.spellings[j]).0 == t.preferred && t.spellings[j].1
                == t.highest;
        assert(u.spellings[jp] == t.spellings[jp]);
        assert forall|j: int|
            #![trigger u.spellings[j]]
            0 <= j < u.spellings.len() implies {
                &&& u.spellings[j].1 == players_with_spelling(s2, u.spellings[j].0)
                &&& u.spellings[j].1 >= 1
                &&& term_of_spelling(u.spellings[j].0) == u.text
                &&& u.spellings[j].1 <= u.highest
            } by {
            if j < n {
                assert(u.spellings[j] == t.spellings[j]);
            }
        }
        assert forall|j: int, k: int|
            0 <= j < k < u.spellings.len() implies (#[trigger] u.spellings[j]).0 != (
            #[trigger] u.spellings[k]).0 by {
            assert(u.spellings[j] == t.spellings[j]);
            if k < n {
                assert(u.spellings[k] == t.spellings[k]);
            }
        }
    }
}

/// Counting one more answer keeps the terms well-formed.
pub proof fn lemma_terms_after_ok(
    subs: Seq<Option<Seq<char>>>,
    terms: Seq<TermView>,
    max: nat,
    p: int,
    a: Seq<char>,
)
    requires
        0 <= p < subs.len(),
        subs[p] is None,
        terms_ok(subs, terms, max),
    ensures
        terms_ok(subs.update(p, Some(a)), terms_after(terms, a), max_after(terms, max, a)),
{
    let s2 = subs.update(p, Some(a));
    let t2 = terms_after(terms, a);
    let m2 = max_after(terms, max, a);
    if exists|i: int| 0 <= i < terms.len() && (#[trigger] terms[i]).text == term_of(a) {
        let i0 = choose|i: int| 0 <= i < terms.len() && (#[trigger] terms[i]).text == term_of(a);
        lemma_updated_term_ok(subs, p, a, terms[i0]);
        lemma_answered_update(subs, p, a);
        lemma_term_total_update(terms, i0, add_spelling(terms[i0], spelling_of(a)));
        assert forall|i: int| 0 <= i < t2.len() implies term_ok(s2, #[trigger] t2[i]) by {
            if i != i0 {
                assert(t2[i] == terms[i]);
                lemma_other_term_ok(subs, p, a, terms[i]);
            }
        }
        assert forall|i: int, k: int|
            0 <= i < k < t2.len() implies (#[trigger] t2[i]).text != (#[trigger] t2[k]).text by {
            assert(terms[i] == terms[i]);
            assert(terms[k] == terms[k]);
        }
        assert forall|q: int|
            #![trigger s2[q]]
            0 <= q < s2.len() && s2[q] is Some implies exists|i: int|
                0 <= i < t2.len() && (#[trigger] t2[i]).text == term_of(s2[q]->0) by {
            if q == p {
                assert(t2[i0].text == term_of(a));
            } else {
                assert(s2[q] == subs[q]);
                let i = choose|i: int| 0 <= i < terms.len() && (#[trigger] terms[i]).text == term_of(subs[q]->0);
                assert(t2[i].text == terms[i].text);
            }
        }
        assert forall|i: int| 0 <= i < t2.len() implies (#[trigger] t2[i]).count <= m2 by {
            assert(terms[i] == terms[i]);
        }
        if m2 != 1 {
            if terms[i0].count + 1 > max {
                assert(t2[i0].count == m2);
            } else {
                let i = choose|i: int| 0 <= i < terms.len() && (#[trigger] terms[i]).count == max;
                if i == i0 {
                    assert(false);
                }
                assert(t2[i].count == m2);
            }
        }
    } else {
        let n = terms.len() as int;
        let sp = spelling_of(a);
        let nt = first_term(sp);
        assert(t2[n] == nt);
        lemma_answered_update(subs, p, a);
        assert(t2.drop_last() =~= terms);
        reveal(term_total);
        reveal(spelling_total);
        assert(nt.spellings.drop_last() =~= Seq::<(Seq<char>, nat)>::empty());
        assert(spelling_total(Seq::<(Seq<char>, nat)>::empty()) == 0);
        assert(spelling_total(nt.spellings) == 1);
        lemma_count_some_zero(subs, |x: Seq<char>| term_of(x) == term_of(a));
        lemma_count_some_update_none(subs, p, a, |x: Seq<char>| term_of(x) == term_of(a));
        assert forall|q: int| 0 <= q < subs.len() implies !(#[trigger] subs[q] matches Some(x) && spelling_of(x) == sp) by {
            if let Some(x) = subs[q] {
                if spelling_of(x) == sp {
                    let i = choose|i: int| 0 <= i < terms.len() && (#[trigger] terms[i]).text == term_of(subs[q]->0);
                    assert(terms[i].text == term_of(a));
                }
            }
        }
        lemma_count_some_zero(subs, |x: Seq<char>| spelling_of(x) == sp);
        lemma_count_some_update_none(subs, p, a, |x: Seq<char>| spelling_of(x) == sp);
        assert(nt.spellings[0] == (sp, 1nat));
        assert(term_ok(s2, nt)) by {
            assert forall|q: int|
                #![trigger s2[q]]
                0 <= q < s2.len() && s2[q] is Some && term_of(s2[q]->0) == nt.text implies exists|j: int|
                    0 <= j < nt.spellings.len() && (#[trigger] nt.spellings[j]).0 == spelling_of(s2[q]->0) by {
                if q != p {
                    assert(s2[q] == subs[q]);
                    let i = choose|i: int| 0 <= i < terms.len() && (#[trigger] terms[i]).text == term_of(subs[q]->0);
                    assert(terms[i].text == term_of(a));
                }
                assert(nt.spellings[0].0 == spelling_of(s2[q]->0));
            }
        }
        assert forall|i: int| 0 <= i < t2.len() implies term_ok(s2, #[trigger] t2[i]) by {
            if i < n {
                assert(t2[i] == terms[i]);
                lemma_other_term_ok(subs, p, a, terms[i]);
            }
        }
        assert forall|i: int, k: int|
            0 <= i < k < t2.len() implies (#[trigger] t2[i]).text != (#[trigger] t2[k]).text by {
            assert(t2[i] == terms[i]);
            if k < n {
                assert(t2[k] == terms[k]);
            }
        }
        assert forall|q: int|
            #![trigger s2[q]]
            0 <= q < s2.len() && s2[q] is Some implies exists|i: int|
                0 <= i < t2.len() && (#[trigger] t2[i]).text == term_of(s2[q]->0) by {
            if q == p {
                assert(t2[n].text == term_of(a));
            } else {
                assert(s2[q] == subs[q]);
                let i = choose|i: int| 0 <= i < terms.len() && (#[trigger] terms[i]).text == term_of(subs[q]->0);
                assert(t2[i].text == terms[i].text);
            }
        }
        assert forall|i: int| 0 <= i < t2.len() implies (#[trigger] t2[i]).count <= m2 by {
            if i < n {
                assert(t2[i] == terms[i]);
            }
        }
        if m2 != 1 {
            let i = choose|i: int| 0 <= i < terms.len() && (#[trigger] terms[i]).count == max;
            assert(t2[i].count == m2);
        }
    }
}

/// A participant who has not answered leaves the terms well-formed.
pub proof fn lemma_terms_ok_push_none(subs: Seq<Option<Seq<char>>>, terms: Seq<TermView>, max: nat)
    requires
        terms_ok(subs, terms, max),
    ensures
        terms_ok(subs.push(None), terms, max),
{
    let s2 = subs.push(None);
    lemma_answered_push_none(subs);
    assert forall|i: int| 0 <= i < terms.len() implies term_ok(s2, #[trigger] terms[i]) by {
        let t = terms[i];
        lemma_count_some_push_none(subs, |x: Seq<char>| term_of(x) == t.text);
        assert forall|j: int|
            #![trigger t.spellings[j]]
            0 <= j < t.spellings.len() implies t.spellings[j].1 == players_with_spelling(s2, t.spellings[j].0) by {
            lemma_count_some_push_none(subs, |x: Seq<char>| spelling_of(x) == t.spellings[j].0);
        }
        assert forall|q: int|
            #![trigger s2[q]]
            0 <= q < s2.len() && s2[q] is Some && term_of(s2[q]->0) == t.text implies exists|j: int|
                0 <= j < t.spellings.len() && (#[trigger] t.spellings[j]).0 == spelling_of(s2[q]->0) by {
            assert(s2[q] == subs[q]);
        }
    }
    assert forall|q: int|
        #![trigger s2[q]]
        0 <= q < s2.len() && s2[q] is Some implies exists|i: int|
            0 <= i < terms.len() && (#[trigger] terms[i]).text == term_of(s2[q]->0) by {
        assert(s2[q] == subs[q]);
    }
}

/// One term of a word cloud: the answers that share a lower-cased prefix.
pub struct WordCloudTerm {
    /// The term: the first characters of the lower-cased spelling.
    pub lowercase_text: String,
    /// How many participants gave an answer with this term.
    pub count: usize,
    /// The spelling shown for the term: one of its most frequent spellings.
    pub preferred_spelling: String,
    /// Each spelling of the term with the number of participants who used it.
    pub spellings: Vec<(String, usize)>,
    /// How many participants used the preferred spelling.
    pub highest_spelling_count: usize,
}

impl View for WordCloudTerm {
    type V = TermView;

    open spec fn view(&self) -> TermView {
        TermView {
            text: self.lowercase_text@,
            count: self.count as nat,
            preferred: self.preferred_spelling@,
            spellings: self.spellings@.map_values(|e: (String, usize)| (e.0@, e.1 as nat)),
            highest: self.highest_spelling_count as nat,
        }
    }
}

/// The answers of a free-text slide.
pub struct FreeTextLiveAnswers {
    /// For each participant, the answer submitted, if any.
    pub player_answers: Vec<Option<String>>,
    /// The terms of the word cloud, in the order they first appeared.
    pub word_cloud_terms: Vec<WordCloudTerm>,
    /// The highest count of a term, and at least 1.
    pub max_term_count: usize,
}

/// The answers submitted, as text.
pub open spec fn answers_of(pa: Seq<Option<String>>) -> Seq<Option<Seq<char>>> {
    pa.map_values(
        |o: Option<String>|
            match o {
                Some(s) => Some(s@),
                None => None,
            },
    )
}

/// `new` and `r` are what submitting `answer` for participant `p` to `old` gives:
/// an error with nothing changed where the participant has answered already, else
/// the answer recorded and counted in the word cloud.
pub open spec fn ft_submit_outcome(
    old: FreeTextLiveAnswers,
    new: FreeTextLiveAnswers,
    p: int,
    answer: String,
    r: Result<(), AppError>,
) -> bool {
    if old.player_answers@[p] is Some {
        r matches Err(e) && e.is_bad_request("Already submitted an answer"@) && new == old
    } else {
        &&& r is Ok
        &&& new.player_answers@ == old.player_answers@.update(p, Some(answer))
        &&& new.terms() == terms_after(old.terms(), answer@)
        &&& new.max_term_count == max_after(old.terms(), old.max_term_count as nat, answer@)
    }
}

impl FreeTextLiveAnswers {
    pub open spec fn submissions(&self) -> Seq<Option<Seq<char>>> {
        answers_of(self.player_answers@)
    }

    pub open spec fn terms(&self) -> Seq<TermView> {
        self.word_cloud_terms@.map_values(|t: WordCloudTerm| t@)
    }

    pub open spec fn wf(&self) -> bool {
        terms_ok(self.submissions(), self.terms(), self.max_term_count as nat)
    }

    /// The answers of a free-text slide that nobody has answered yet.
    pub fn new() -> (r: Self)
        ensures
            r.player_answers@.len() == 0,
            r.word_cloud_terms@.len() == 0,
            r.max_term_count == 1,
            r.wf(),
    {
        let r = FreeTextLiveAnswers {
            player_answers: Vec::new(),
            word_cloud_terms: Vec::new(),
            max_term_count: 1,
        };
        assert(r.submissions() =~= Seq::<Option<Seq<char>>>::empty());
        assert(r.terms() =~= Seq::<TermView>::empty());
        proof {
            reveal(term_total);
        }
        r
    }

    /// Adds a participant who has not answered.
    pub fn add_player(&mut self)
        requires
            old(self).wf(),
        ensures
            final(self).wf(),
            final(self).player_answers@ == old(self).player_answers@.push(None),
            final(self).word_cloud_terms@ == old(self).word_cloud_terms@,
            final(self).max_term_count == old(self).max_term_count,
    {
        let ghost old_subs = self.submissions();
        self.player_answers.push(None);
        proof {
            assert(self.submissions() =~= old_subs.push(None));
            lemma_terms_ok_push_none(old_subs, self.terms(), self.max_term_count as nat);
        }
    }

    /// Submits the answer of a participant and counts it in the word cloud.
    #[verifier::loop_isolation(false)]
    #[verifier::rlimit(100)]
    pub fn submit_answer(&mut self, player_index: usize, answer: String) -> (r: Result<(), AppError>)
        requires
            old(self).wf(),
            player_index < old(self).player_answers.len(),
        ensures
            final(self).wf(),
            ft_submit_outcome(*old(self), *final(self), player_index as int, answer, r),
    {
        if self.player_answers[player_index].is_some() {
            return Err(bad_request("Already submitted an answer"));
        }
        let ghost a = answer@;
        let ghost old_subs = self.submissions();
        let ghost old_terms = self.terms();
        let ghost old_max = self.max_term_count as nat;
        let ghost new_subs = old_subs.update(player_index as int, Some(a));
        let trimmed_answer: String = trim(answer.as_str()).to_string();
        let lower = to_lowercase(trimmed_answer.as_str());
        let lowercase_answer: String = truncate_chars(lower.as_str(), FREE_TEXT_MAX_CHAR_LENGTH).to_string();
        assert(trimmed_answer@ == spelling_of(a));
        assert(lowercase_answer@ == term_of(a));
        self.player_answers.set(player_index, Some(answer));
        assert(self.submissions() =~= new_subs);
        proof {
            lemma_terms_after_ok(old_subs, old_terms, old_max, player_index as int, a);
            lemma_count_some_update_none(old_subs, player_index as int, a, |x: Seq<char>| term_of(x) == term_of(a));
            lemma_count_some_bound(new_subs, |x: Seq<char>| term_of(x) == term_of(a));
            lemma_count_some_update_none(old_subs, player_index as int, a, |x: Seq<char>| spelling_of(x) == spelling_of(a));
            lemma_count_some_bound(new_subs, |x: Seq<char>| spelling_of(x) == spelling_of(a));
        }
        let n = self.word_cloud_terms.len();
        let mut i: usize = 0;
        while i < n && !(self.word_cloud_terms[i].lowercase_text == lowercase_answer)
            invariant
                i <= n,
                n == self.word_cloud_terms@.len(),
                self.terms() == old_terms,
                forall|k: int| 0 <= k < i ==> (#[trigger] old_terms[k]).text != term_of(a),
            decreases n - i,
        {
            i = i + 1;
        }
        if i < n {
            assert(old_terms[i as int].text == term_of(a));
            let ghost t = old_terms[i as int];
            assert(exists|k: int| 0 <= k < old_terms.len() && (#[trigger] old_terms[k]).text == term_of(a));
            let ghost i0 = choose|k: int| 0 <= k < old_terms.len() && (#[trigger] old_terms[k]).text == term_of(a);
            assert(i0 == i) by {
                if i0 < i {
                    assert(old_terms[i0].text != old_terms[i as int].text);
                } else if i0 > i {
                    assert(old_terms[i as int].text != old_terms[i0].text);
                }
            }
            let mut term = self.word_cloud_terms.remove(i);
            assert(term@ == t);
            term.count = term.count + 1;
            if term.count > self.max_term_count {
                self.max_term_count = term.count;
            }
            let m = term.spellings.len();
            let mut j: usize = 0;
            while j < m && !(term.spellings[j].0 == trimmed_answer)
                invariant
                    j <= m,
                    m == term.spellings@.len(),
                    term@.spellings == t.spellings,
                    forall|k: int| 0 <= k < j ==> (#[trigger] t.spellings[k]).0 != spelling_of(a),
                decreases m - j,
            {
                j = j + 1;
            }
            if j < m {
                assert(t.spellings[j as int].0 == spelling_of(a));
                let ghost j0 = choose|k: int| 0 <= k < t.spellings.len() && (#[trigger] t.spellings[k]).0 == spelling_of(a);
                assert(j0 == j) by {
                    if j0 < j {
                        assert(t.spellings[j0].0 != t.spellings[j as int].0);
                    } else if j0 > j {
                        assert(t.spellings[j as int].0 != t.spellings[j0].0);
                    }
                }
                let (s, c) = term.spellings.remove(j);
                let c1 = c + 1;
                if c1 > term.highest_spelling_count {
                    term.highest_spelling_count = c1;
                    term.preferred_spelling = trimmed_answer;
                }
                term.spellings.insert(j, (s, c1));
                assert(term@.spellings =~= t.spellings.update(j as int, (spelling_of(a), (t.spellings[j as int].1 + 1) as nat)));
            } else {
                term.spellings.push((trimmed_answer, 1));
                assert(term@.spellings =~= t.spellings.push((spelling_of(a), 1nat)));
            }
            assert(term@ == add_spelling(t, spelling_of(a)));
            self.word_cloud_terms.insert(i, term);
            assert(self.terms() =~= old_terms.update(i as int, add_spelling(t, spelling_of(a))));
        } else {
            let mut spellings: Vec<(String, usize)> = Vec::new();
            spellings.push((trimmed_answer.clone(), 1));
            let term = WordCloudTerm {
                lowercase_text: lowercase_answer,
                count: 1,
                preferred_spelling: trimmed_answer,
                spellings,
                highest_spelling_count: 1,
            };
            assert(term@.spellings =~= seq![(spelling_of(a), 1nat)]);
            assert(term@ == first_term(spelling_of(a)));
            self.word_cloud_terms.push(term);
            assert(self.terms() =~= old_terms.push(first_term(spelling_of(a))));
        }
        Ok(())
    }
}

/// A participant answers a free-text slide once: after an accepted answer every
/// further answer of that participant is refused and changes nothing.
pub proof fn law_ft_answer_once(
    a: FreeTextLiveAnswers,
    b: FreeTextLiveAnswers,
    c: FreeTextLiveAnswers,
    p: int,
    first: String,
    second: String,
    r1: Result<(), AppError>,
    r2: Result<(), AppError>,
)
    requires
        0 <= p < a.player_answers@.len(),
        ft_submit_outcome(a, b, p, first, r1),
        r1 is Ok,
        ft_submit_outcome(b, c, p, second, r2),
    ensures
        r2 matches Err(e) && e.is_bad_request("Already submitted an answer"@),
        c == b,
        b.player_answers@[p] == Some(first),
{
}

/// An accepted free-text answer is counted under its whole text without the
/// surrounding whitespace, however long: its term (the first
/// `FREE_TEXT_MAX_CHAR_LENGTH` characters of that text, lower-cased) has that text
/// among its spellings; and where the answer is the first of its term, that text
/// is the term's preferred spelling, shown to the host.
pub proof fn law_spelling_is_whole_answer(
    old: FreeTextLiveAnswers,
    new: FreeTextLiveAnswers,
    p: int,
    answer: String,
    r: Result<(), AppError>,
)
    requires
        old.wf(),
        0 <= p < old.player_answers@.len(),
        old.player_answers@[p] is None,
        ft_submit_outcome(old, new, p, answer, r),
    ensures
        r is Ok,
        exists|i: int, j: int|
            0 <= i < new.terms().len() && 0 <= j < new.terms()[i].spellings.len() && (#[trigger] new.terms()[i]).text
                == take_chars(spec_to_lowercase(trimmed(answer@)), FREE_TEXT_MAX_CHAR_LENGTH as nat) && (
            #[trigger] new.terms()[i].spellings[j]).0 == trimmed(answer@),
        (forall|i: int|
            0 <= i < old.terms().len() ==> (#[trigger] old.terms()[i]).text != take_chars(
                spec_to_lowercase(trimmed(answer@)),
                FREE_TEXT_MAX_CHAR_LENGTH as nat,
            )) ==> exists|i: int|
            0 <= i < new.terms().len() && (#[trigger] new.terms()[i]).preferred == trimmed(answer@)
                && new.terms()[i].count == 1,
{
    let a = answer@;
    let ts = old.terms();
    let sp = trimmed(a);
    assert(spelling_of(a) == sp);
    assert(term_of(a) == take_chars(spec_to_lowercase(sp), FREE_TEXT_MAX_CHAR_LENGTH as nat));
    let nt = new.terms();
    if exists|i: int| 0 <= i < ts.len() && (#[trigger] ts[i]).text == term_of(a) {
        let i = choose|i: int| 0 <= i < ts.len() && (#[trigger] ts[i]).text == term_of(a);
        let t = ts[i];
        assert(nt == ts.update(i, add_spelling(t, sp)));
        let u = add_spelling(t, sp);
        assert(nt[i] == u);
        if exists|j: int| 0 <= j < t.spellings.len() && (#[trigger] t.spellings[j]).0 == sp {
            let j = choose|j: int| 0 <= j < t.spellings.len() && (#[trigger] t.spellings[j]).0 == sp;
            assert(u.spellings[j].0 == sp);
            assert(nt[i].spellings[j].0 == sp);
        } else {
            let j = t.spellings.len() as int;
            assert(u.spellings[j].0 == sp);
            assert(nt[i].spellings[j].0 == sp);
        }
    } else {
        let i = ts.len() as int;
        assert(nt == ts.push(first_term(sp)));
        assert(nt[i] == first_term(sp));
        assert(nt[i].spellings[0].0 == sp);
        assert(nt[i].preferred == sp && nt[i].count == 1);
    }
}

} // verus!
