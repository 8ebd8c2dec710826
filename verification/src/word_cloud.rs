//! The words of a word cloud with their counts, most frequent first.
//!
//! A text is counted under its *key*: the text without surrounding whitespace,
//! cut to `WORD_CLOUD_MAX_CHARS` characters and lower-cased. A word whose count
//! grows moves to the front of the words that had its old count, so the words
//! stay ordered by count. Laying the words out on the page is left to the caller.

use vstd::prelude::*;
use crate::text::{trimmed, take_chars, spec_to_lowercase, trim, truncate_chars, to_lowercase};

verus! {

/// Number of characters of a text that its key keeps.
pub const WORD_CLOUD_MAX_CHARS: usize = 64;

/// The key a text is counted under.
pub open spec fn word_key(text: Seq<char>) -> Seq<char> {
    spec_to_lowercase(take_chars(trimmed(text), WORD_CLOUD_MAX_CHARS as nat))
}

/// One word of the cloud.
pub struct WordCloudEntry {
    pub text: String,
    pub count: usize,
}

/// A word as a mathematical value.
pub struct WordView {
    pub text: Seq<char>,
    pub count: nat,
}

/// The words of a word cloud.
pub struct WordCloud {
    pub words: Vec<WordCloudEntry>,
}

/// What `WordCloud::insert` did.
#[derive(PartialEq, Eq, Structural, Debug, Clone, Copy)]
pub enum InsertOutcome {
    /// The text was new; its word was appended with count 1.
    Added,
    /// The word at `from` was counted once more and now stands at `to`.
    Counted { from: usize, to: usize },
}

/// The position of the first element of `s` that satisfies `f`.
pub open spec fn first_index<A>(s: Seq<A>, f: spec_fn(A) -> bool) -> Option<int>
    decreases s.len(),
{
    if s.len() == 0 {
        None
    } else if f(s[0]) {
        Some(0)
    } else {
        match first_index(s.drop_first(), f) {
            Some(k) => Some(k + 1),
            None => None,
        }
    }
}

/// `first_index` finds the first element that satisfies `f`, or says that none does.
pub proof fn lemma_first_index<A>(s: Seq<A>, f: spec_fn(A) -> bool)
    ensures
        match first_index(s, f) {
            Some(p) => 0 <= p < s.len() && f(s[p]) && forall|j: int| 0 <= j < p ==> !f(#[trigger] s[j]),
            None => forall|j: int| 0 <= j < s.len() ==> !f(#[trigger] s[j]),
        },
    decreases s.len(),
{
    if s.len() > 0 {
        lemma_first_index(s.drop_first(), f);
        if !f(s[0]) {
            assert forall|j: int| 1 <= j < s.len() implies s[j] == s.drop_first()[j - 1] by {}
        }
    }
}

/// The position of the word with the text `t`.
pub open spec fn position_of_text(ws: Seq<WordView>, t: Seq<char>) -> Option<int> {
    first_index(ws, |w: WordView| w.text == t)
}

/// The position of the first word with count `c`.
pub open spec fn position_of_count(ws: Seq<WordView>, c: nat) -> Option<int> {
    first_index(ws, |w: WordView| w.count == c)
}

proof fn lemma_position_of_text(ws: Seq<WordView>, t: Seq<char>)
    ensures
        match position_of_text(ws, t) {
            Some(p) => 0 <= p < ws.len() && ws[p].text == t && forall|j: int| 0 <= j < p ==> (#[trigger] ws[j]).text != t,
            None => forall|j: int| 0 <= j < ws.len() ==> (#[trigger] ws[j]).text != t,
        },
{
    lemma_first_index(ws, |w: WordView| w.text == t);
}

proof fn lemma_position_of_count(ws: Seq<WordView>, c: nat)
    ensures
        match position_of_count(ws, c) {
            Some(p) => 0 <= p < ws.len() && ws[p].count == c && forall|j: int| 0 <= j < p ==> (#[trigger] ws[j]).count != c,
            None => forall|j: int| 0 <= j < ws.len() ==> (#[trigger] ws[j]).count != c,
        },
{
    lemma_first_index(ws, |w: WordView| w.count == c);
}

/// The words after the key `t` was counted once more.
pub open spec fn inserted(ws: Seq<WordView>, t: Seq<char>) -> Seq<WordView> {
    match position_of_text(ws, t) {
        None => ws.push(WordView { text: t, count: 1 }),
        Some(p) => {
            let w = WordView { text: t, count: ws[p].count + 1 };
            let counted = ws.update(p, w);
            match position_of_count(counted, ws[p].count) {
                Some(q) => if q < p {
                    counted.remove(p).insert(q, w)
                } else {
                    counted
                },
                None => counted,
            }
        },
    }
}

/// What counting the key `t` once more does to the words `ws`.
pub open spec fn insert_outcome(ws: Seq<WordView>, t: Seq<char>) -> InsertOutcome {
    match position_of_text(ws, t) {
        None => InsertOutcome::Added,
        Some(p) => {
            let counted = ws.update(p, WordView { text: t, count: ws[p].count + 1 });
            match position_of_count(counted, ws[p].count) {
                Some(q) => if q < p {
                    InsertOutcome::Counted { from: p as usize, to: q as usize }
                } else {
                    InsertOutcome::Counted { from: p as usize, to: p as usize }
                },
                None => InsertOutcome::Counted { from: p as usize, to: p as usize },
            }
        },
    }
}

/// Every word has its own text and a count of at least 1, and the words are
/// ordered by count, most frequent first.
pub open spec fn words_ok(ws: Seq<WordView>) -> bool {
    &&& forall|i: int, j: int| 0 <= i < j < ws.len() ==> (#[trigger] ws[i]).text != (#[trigger] ws[j]).text
    &&& forall|i: int| 0 <= i < ws.len() ==> (#[trigger] ws[i]).count >= 1
    &&& forall|i: int, j: int| 0 <= i < j < ws.len() ==> (#[trigger] ws[i]).count >= (#[trigger] ws[j]).count
}

/// How often the key `t` was counted in `ws`.
pub open spec fn count_of(ws: Seq<WordView>, t: Seq<char>) -> nat {
    match position_of_text(ws, t) {
        Some(p) => ws[p].count,
        None => 0,
    }
}

impl View for WordCloudEntry {
    type V = WordView;

    open spec fn view(&self) -> WordView {
        WordView { text: self.text@, count: self.count as nat }
    }
}

impl View for WordCloud {
    type V = Seq<WordView>;

    open spec fn view(&self) -> Seq<WordView> {
        self.words@.map_values(|e: WordCloudEntry| e@)
    }
}

impl WordCloud {
    pub open spec fn wf(&self) -> bool {
        words_ok(self.view())
    }

    /// An empty cloud.
    pub fn new() -> (c: Self)
        ensures
            c.view() == Seq::<WordView>::empty(),
            c.wf(),
    {
        let c = WordCloud { words: Vec::new() };
        assert(c.view() =~= Seq::<WordView>::empty());
        c
    }

    /// Counts `text` once more under its key; see `inserted`.
    pub fn insert(&mut self, text: &str) -> (o: InsertOutcome)
        requires
            old(self).wf(),
            forall|i: int| 0 <= i < old(self).words@.len() ==> (#[trigger] old(self).words@[i]).count < usize::MAX,
        ensures
            final(self).wf(),
            final(self).view() == inserted(old(self).view(), word_key(text@)),
            o == insert_outcome(old(self).view(), word_key(text@)),
    {
        let key = to_lowercase(truncate_chars(trim(text), WORD_CLOUD_MAX_CHARS));
        let ghost ws = self.view();
        let ghost t = key@;
        let pos = self.find_text(&key);
        proof {
            lemma_first_index(ws, |w: WordView| w.text == t);
        }
        match pos {
            None => {
                self.words.push(WordCloudEntry { text: key, count: 1 });
                assert(self.view() =~= ws.push(WordView { text: t, count: 1 }));
                InsertOutcome::Added
            },
            Some(p) => {
                let c = self.words[p].count;
                let ghost w = WordView { text: t, count: c as nat + 1 };
                let ghost counted = ws.update(p as int, w);
                self.words.set(p, WordCloudEntry { text: key, count: c + 1 });
                assert(self.view() =~= counted);
                let target = self.find_count(c);
                proof {
                    lemma_first_index(counted, |v: WordView| v.count == c as nat);
                    assert forall|j: int| 0 <= j < self.words@.len() && j != p implies #[trigger] ws[j]
                        == self.view()[j] by {}
                }
                match target {
                    Some(q) => {
                        if q < p {
                            let e = self.words.remove(p);
                            self.words.insert(q, e);
                            assert(self.view() =~= counted.remove(p as int).insert(q as int, w));
                            proof {
                                lemma_moved_ok(ws, p as int, q as int, w);
                            }
                            InsertOutcome::Counted { from: p, to: q }
                        } else {
                            proof {
                                lemma_counted_in_place_ok(ws, p as int, w);
                            }
                            InsertOutcome::Counted { from: p, to: p }
                        }
                    },
                    None => {
                        proof {
                            lemma_counted_in_place_ok(ws, p as int, w);
                        }
                        InsertOutcome::Counted { from: p, to: p }
                    },
                }
            },
        }
    }

    /// The position of the word with the text `t`.
    fn find_text(&self, t: &String) -> (r: Option<usize>)
        ensures
            r matches Some(p) ==> p < self.words@.len() && self.view()[p as int].text == t@,
            r matches Some(p) ==> forall|j: int| 0 <= j < p ==> (#[trigger] self.view()[j]).text != t@,
            r is None ==> forall|j: int| 0 <= j < self.words@.len() ==> (#[trigger] self.view()[j]).text != t@,
    {
        let mut i: usize = 0;
        while i < self.words.len()
            invariant
                i <= self.words@.len(),
                forall|j: int| 0 <= j < i ==> (#[trigger] self.view()[j]).text != t@,
            decreases self.words.len() - i,
        {
            if self.words[i].text == *t {
                return Some(i);
            }
            i = i + 1;
        }
        None
    }

    /// The position of the first word with count `c`.
    fn find_count(&self, c: usize) -> (r: Option<usize>)
        ensures
            r matches Some(p) ==> p < self.words@.len() && self.view()[p as int].count == c,
            r matches Some(p) ==> forall|j: int| 0 <= j < p ==> (#[trigger] self.view()[j]).count != c,
            r is None ==> forall|j: int| 0 <= j < self.words@.len() ==> (#[trigger] self.view()[j]).count != c,
    {
        let mut i: usize = 0;
        while i < self.words.len()
            invariant
                i <= self.words@.len(),
                forall|j: int| 0 <= j < i ==> (#[trigger] self.view()[j]).count != c,
            decreases self.words.len() - i,
        {
            if self.words[i].count == c {
                return Some(i);
            }
            i = i + 1;
        }
        None
    }
}

/// Counting the word at `p` once more in place keeps the words in order when no
/// word before it has its old count.
proof fn lemma_counted_in_place_ok(ws: Seq<WordView>, p: int, w: WordView)
    requires
        words_ok(ws),
        0 <= p < ws.len(),
        w.text == ws[p].text,
        w.count == ws[p].count + 1,
        forall|j: int| 0 <= j < p ==> (#[trigger] ws[j]).count != ws[p].count,
    ensures
        words_ok(ws.update(p, w)),
{
    let r = ws.update(p, w);
    assert forall|i: int, j: int| 0 <= i < j < r.len() implies (#[trigger] r[i]).count >= (#[trigger] r[j]).count by {
        if j == p {
            assert(ws[i].count >= ws[p].count);
        }
    }
    assert forall|i: int, j: int| 0 <= i < j < r.len() implies (#[trigger] r[i]).text != (#[trigger] r[j]).text by {
        if i == p {
            assert(ws[p].text != ws[j].text);
        } else if j == p {
            assert(ws[i].text != ws[p].text);
        }
    }
}

/// Moving the word at `p`, counted once more, to the front of the words with its
/// old count (the first of them at `q < p`) keeps the words in order.
proof fn lemma_moved_ok(ws: Seq<WordView>, p: int, q: int, w: WordView)
    requires
        words_ok(ws),
        0 <= q < p < ws.len(),
        w.text == ws[p].text,
        w.count == ws[p].count + 1,
        ws[q].count == ws[p].count,
        forall|j: int| 0 <= j < q ==> (#[trigger] ws[j]).count != ws[p].count,
    ensures
        words_ok(ws.update(p, w).remove(p).insert(q, w)),
{
    let r = ws.update(p, w).remove(p).insert(q, w);
    assert(r.len() == ws.len());
    assert forall|k: int| 0 <= k < r.len() implies #[trigger] r[k] == (if k < q {
        ws[k]
    } else if k == q {
        w
    } else if k <= p {
        ws[k - 1]
    } else {
        ws[k]
    }) by {}
    assert forall|i: int, j: int| 0 <= i < j < r.len() implies (#[trigger] r[i]).count >= (#[trigger] r[j]).count by {
        if i < q {
            assert(ws[i].count >= ws[q].count);
        }
        if i == q && j <= p {
            assert(ws[j - 1].count <= ws[q].count);
        }
    }
    assert forall|i: int, j: int| 0 <= i < j < r.len() implies (#[trigger] r[i]).text != (#[trigger] r[j]).text by {
        let a = if i < q { i } else if i == q { p } else if i <= p { i - 1 } else { i };
        let b = if j < q { j } else if j == q { p } else if j <= p { j - 1 } else { j };
        assert(r[i] == ws[a] || (i == q && r[i].text == ws[p].text));
        assert(a != b);
        if a < b {
            assert(ws[a].text != ws[b].text);
        } else {
            assert(ws[b].text != ws[a].text);
        }
    }
}

/// In words with distinct texts, the count of `x` is that of the word with text `x`.
proof fn lemma_count_of(ws: Seq<WordView>, x: Seq<char>)
    requires
        words_ok(ws),
    ensures
        forall|k: int| 0 <= k < ws.len() && (#[trigger] ws[k]).text == x ==> count_of(ws, x) == ws[k].count,
        (forall|k: int| 0 <= k < ws.len() ==> (#[trigger] ws[k]).text != x) ==> count_of(ws, x) == 0,
{
    lemma_position_of_text(ws, x);
    assert forall|k: int| 0 <= k < ws.len() && (#[trigger] ws[k]).text == x implies count_of(ws, x)
        == ws[k].count by {
        let p = position_of_text(ws, x)->0;
        if p < k {
            assert(ws[p].text != ws[k].text);
        }
    }
}

/// Counting a text adds one to the count of its key and leaves every other
/// count as it was, and the words stay ordered by count, each with its own text.
pub proof fn law_insert_counts(ws: Seq<WordView>, t: Seq<char>, x: Seq<char>)
    requires
        words_ok(ws),
    ensures
        words_ok(inserted(ws, t)),
        count_of(inserted(ws, t), x) == count_of(ws, x) + (if x == t { 1nat } else { 0nat }),
{
    lemma_position_of_text(ws, t);
    let r = inserted(ws, t);
    match position_of_text(ws, t) {
        None => {
            assert(r == ws.push(WordView { text: t, count: 1 }));
            assert forall|i: int, j: int| 0 <= i < j < r.len() implies (#[trigger] r[i]).count >= (
            #[trigger] r[j]).count by {
                if j == ws.len() {
                    assert(ws[i].count >= 1);
                }
            }
            assert forall|i: int, j: int| 0 <= i < j < r.len() implies (#[trigger] r[i]).text != (
            #[trigger] r[j]).text by {
                if j == ws.len() {
                    assert(ws[i].text != t);
                }
            }
        },
        Some(p) => {
            let w = WordView { text: t, count: ws[p].count + 1 };
            let counted = ws.update(p, w);
            lemma_position_of_count(counted, ws[p].count);
            assert forall|j: int| 0 <= j < ws.len() && j != p implies #[trigger] counted[j] == ws[j] by {}
            assert(counted[p].count != ws[p].count);
            assert forall|j: int|
                0 <= j < p && (match position_of_count(counted, ws[p].count) {
                    Some(q) => j < q,
                    None => true,
                }) implies (#[trigger] ws[j]).count != ws[p].count by {
                assert(counted[j] == ws[j]);
            }
            match position_of_count(counted, ws[p].count) {
                Some(q) => {
                    if q < p {
                        lemma_moved_ok(ws, p, q, w);
                    } else {
                        lemma_counted_in_place_ok(ws, p, w);
                    }
                },
                None => {
                    lemma_counted_in_place_ok(ws, p, w);
                },
            }
        },
    }
    lemma_count_of(ws, x);
    lemma_count_of(r, x);
    match position_of_text(ws, t) {
        None => {
            let n = ws.len() as int;
            assert(r[n].text == t);
            if x != t {
                if exists|k: int| 0 <= k < ws.len() && (#[trigger] ws[k]).text == x {
                    let k = choose|k: int| 0 <= k < ws.len() && (#[trigger] ws[k]).text == x;
                    assert(r[k] == ws[k]);
                } else {
                    assert forall|k: int| 0 <= k < r.len() implies (#[trigger] r[k]).text != x by {
                        if k < n {
                            assert(r[k] == ws[k]);
                        }
                    }
                }
            }
        },
        Some(p) => {
            let w = WordView { text: t, count: ws[p].count + 1 };
            let counted = ws.update(p, w);
            // where each word of `ws` stands in `r`
            let q = match position_of_count(counted, ws[p].count) {
                Some(q) => if q < p { q } else { p },
                None => p,
            };
            assert(0 <= q <= p);
            assert forall|k: int| 0 <= k < r.len() implies #[trigger] r[k] == (if k < q {
                ws[k]
            } else if k == q {
                w
            } else if k <= p {
                ws[k - 1]
            } else {
                ws[k]
            }) by {}
            assert(r.len() == ws.len());
            assert(r[q] == w);
            if x == t {
                assert(ws[p].text == t);
            } else {
                if exists|k: int| 0 <= k < ws.len() && (#[trigger] ws[k]).text == x {
                    let k = choose|k: int| 0 <= k < ws.len() && (#[trigger] ws[k]).text == x;
                    let k2 = if k < q { k } else if k < p { k + 1 } else { k };
                    assert(k != p);
                    assert(r[k2] == ws[k]);
                } else {
                    assert forall|k: int| 0 <= k < r.len() implies (#[trigger] r[k]).text != x by {
                        if k < q {
                            assert(r[k] == ws[k]);
                        } else if q < k <= p {
                            assert(r[k] == ws[k - 1]);
                        } else if k > p {
                            assert(r[k] == ws[k]);
                        }
                    }
                }
            }
        },
    }
}

/// Where the word of the key `t`, counted once more, stands afterwards.
pub open spec fn moved_to(ws: Seq<WordView>, t: Seq<char>) -> int {
    match position_of_text(ws, t) {
        None => ws.len() as int,
        Some(p) => {
            let counted = ws.update(p, WordView { text: t, count: ws[p].count + 1 });
            match position_of_count(counted, ws[p].count) {
                Some(q) => if q < p { q } else { p },
                None => p,
            }
        },
    }
}

/// Counting a word once more moves it forward to just behind the other words
/// whose count is at least its new count: every word before it has a higher
/// count than it had, every word after it a count no higher than it had, and the
/// other words keep their order.
pub proof fn law_insert_position(ws: Seq<WordView>, t: Seq<char>)
    requires
        words_ok(ws),
        position_of_text(ws, t) is Some,
    ensures
        ({
            let p = position_of_text(ws, t)->0;
            let k = moved_to(ws, t);
            let r = inserted(ws, t);
            &&& 0 <= k <= p < ws.len()
            &&& r[k] == WordView { text: t, count: ws[p].count + 1 }
            &&& r.remove(k) == ws.remove(p)
            &&& forall|j: int| 0 <= j < k ==> (#[trigger] r[j]).count > ws[p].count
            &&& forall|j: int| k < j < r.len() ==> (#[trigger] r[j]).count <= ws[p].count
        }),
{
    lemma_position_of_text(ws, t);
    let p = position_of_text(ws, t)->0;
    let c = ws[p].count;
    let w = WordView { text: t, count: c + 1 };
    let counted = ws.update(p, w);
    let r = inserted(ws, t);
    lemma_position_of_count(counted, c);
    assert forall|j: int| 0 <= j < ws.len() && j != p implies #[trigger] counted[j] == ws[j] by {}
    let k = moved_to(ws, t);
    if k < p {
        assert forall|i: int| 0 <= i < r.len() implies #[trigger] r[i] == (if i < k {
            ws[i]
        } else if i == k {
            w
        } else if i <= p {
            ws[i - 1]
        } else {
            ws[i]
        }) by {}
        assert forall|j: int| 0 <= j < k implies (#[trigger] r[j]).count > c by {
            assert(counted[j] == ws[j]);
            assert(ws[j].count >= ws[k].count);
        }
        assert forall|j: int| k < j < r.len() implies (#[trigger] r[j]).count <= c by {
            if j <= p {
                assert(ws[j - 1].count <= ws[k].count);
            } else {
                assert(ws[j].count <= ws[p].count);
            }
        }
        assert(r.remove(k) =~= ws.remove(p));
    } else {
        assert(r == counted);
        assert forall|j: int| 0 <= j < k implies (#[trigger] r[j]).count > c by {
            assert(counted[j] == ws[j]);
            assert(ws[j].count >= ws[p].count);
        }
        assert forall|j: int| k < j < r.len() implies (#[trigger] r[j]).count <= c by {
            assert(ws[j].count <= ws[p].count);
        }
        assert(r.remove(k) =~= ws.remove(p));
    }
}

} // verus!
