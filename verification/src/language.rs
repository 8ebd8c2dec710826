//! Choice of the interface language.

use vstd::prelude::*;

verus! {

/// What `accept_language::intersection` returns: the languages of an
/// `Accept-Language` header, most preferred first, that occur in `supported`.
pub uninterp spec fn spec_language_intersection(
    header: Seq<char>,
    supported: Seq<Seq<char>>,
) -> Seq<Seq<char>>;

/// The languages the interface is available in.
pub open spec fn supported_languages() -> Seq<Seq<char>> {
    seq!["en"@, "de"@]
}

/// Where a scan of an `Accept-Language` header stands, reading it as the parser
/// does (spaces dropped, entries split at `,`, an entry's parts at `;`, its quality
/// part, the second, split at `=`):
/// `semis` counts the `;` of the current entry (up to 2), `eqs` the `=` of its
/// quality part (up to 2), `val` how far the text after that `=` spells a NaN
/// (0 nothing yet, 1 a sign, 2 `n`, 3 `na`, 4 `nan`, 5 something else), and
/// `nan_seen` whether an earlier quality part held exactly a NaN.
#[derive(Clone, Copy)]
pub struct QualityScan {
    pub semis: u8,
    pub eqs: u8,
    pub val: u8,
    pub nan_seen: bool,
}

/// The scan of an empty header.
pub open spec fn scan_start() -> QualityScan {
    QualityScan { semis: 0, eqs: 0, val: 0, nan_seen: false }
}

/// Whether the quality part that the scan stands in reads as NaN, where it ends
/// here: it has one `=` and after it a sign, if any, and `nan` in any case.
pub open spec fn closes_nan(st: QualityScan) -> bool {
    st.semis == 1 && st.eqs == 1 && st.val == 4
}

/// The next step of a NaN spelling after `c`.
pub open spec fn nan_step(val: u8, c: char) -> u8 {
    if val == 0 && (c == '+' || c == '-') {
        1
    } else if (val == 0 || val == 1) && (c == 'n' || c == 'N') {
        2
    } else if val == 2 && (c == 'a' || c == 'A') {
        3
    } else if val == 3 && (c == 'n' || c == 'N') {
        4
    } else {
        5
    }
}

/// The scan after the character `c`.
pub open spec fn scan_step(st: QualityScan, c: char) -> QualityScan {
    if c == ' ' {
        st
    } else if c == ',' {
        QualityScan { semis: 0, eqs: 0, val: 0, nan_seen: st.nan_seen || closes_nan(st) }
    } else if c == ';' {
        QualityScan {
            semis: if st.semis < 2 { (st.semis + 1) as u8 } else { 2 },
            eqs: st.eqs,
            val: st.val,
            nan_seen: st.nan_seen || closes_nan(st),
        }
    } else if st.semis != 1 {
        st
    } else if c == '=' {
        QualityScan { semis: 1, eqs: if st.eqs < 2 { (st.eqs + 1) as u8 } else { 2 }, val: 0, nan_seen: st.nan_seen }
    } else if st.eqs == 1 {
        QualityScan { semis: 1, eqs: 1, val: nan_step(st.val, c), nan_seen: st.nan_seen }
    } else {
        st
    }
}

/// The scan after the characters `h`.
pub open spec fn scan(h: Seq<char>) -> QualityScan
    decreases h.len(),
{
    if h.len() == 0 {
        scan_start()
    } else {
        scan_step(scan(h.drop_last()), h.last())
    }
}

/// Whether some quality value of the header reads as NaN: in some entry, the part
/// after the first `;` has exactly one `=` and after it an optional sign and
/// `nan` in any case, as `f32`'s `FromStr` reads a NaN. The parser sorts the
/// languages by an order that is not total on a NaN quality, on which the standard
/// sort may panic.
pub open spec fn nan_quality_possible(header: Seq<char>) -> bool {
    scan(header).nan_seen || closes_nan(scan(header))
}

fn scan_char(st: QualityScan, c: char) -> (r: QualityScan)
    ensures
        r == scan_step(st, c),
{
    if c == ' ' {
        st
    } else if c == ',' {
        QualityScan { semis: 0, eqs: 0, val: 0, nan_seen: st.nan_seen || (st.semis == 1 && st.eqs == 1 && st.val == 4) }
    } else if c == ';' {
        QualityScan {
            semis: if st.semis < 2 { st.semis + 1 } else { 2 },
            eqs: st.eqs,
            val: st.val,
            nan_seen: st.nan_seen || (st.semis == 1 && st.eqs == 1 && st.val == 4),
        }
    } else if st.semis != 1 {
        st
    } else if c == '=' {
        QualityScan { semis: 1, eqs: if st.eqs < 2 { st.eqs + 1 } else { 2 }, val: 0, nan_seen: st.nan_seen }
    } else if st.eqs == 1 {
        let v = st.val;
        let nv: u8 = if v == 0 && (c == '+' || c == '-') {
            1
        } else if (v == 0 || v == 1) && (c == 'n' || c == 'N') {
            2
        } else if v == 2 && (c == 'a' || c == 'A') {
            3
        } else if v == 3 && (c == 'n' || c == 'N') {
            4
        } else {
            5
        };
        QualityScan { semis: 1, eqs: 1, val: nv, nan_seen: st.nan_seen }
    } else {
        st
    }
}

/// Whether some quality value of the header reads as NaN (see `nan_quality_possible`).
fn has_nan_quality(header: &str) -> (found: bool)
    ensures
        found == nan_quality_possible(header@),
{
    let n = header.unicode_len();
    let mut st = QualityScan { semis: 0, eqs: 0, val: 0, nan_seen: false };
    let mut i: usize = 0;
    assert(header@.take(0) =~= Seq::<char>::empty());
    while i < n
        invariant
            i <= n,
            n == header@.len(),
            st == scan(header@.take(i as int)),
        decreases n - i,
    {
        let c = header.get_char(i);
        proof {
            assert(header@.take(i + 1).drop_last() =~= header@.take(i as int));
        }
        st = scan_char(st, c);
        i = i + 1;
    }
    assert(header@.take(n as int) =~= header@);
    st.nan_seen || (st.semis == 1 && st.eqs == 1 && st.val == 4)
}

/// Calls `accept_language::intersection`, on a header without a quality value
/// that reads as NaN (see `nan_quality_possible`); the result is named
/// `spec_language_intersection`. The crate's source keeps only the header's languages
/// that `supported` contains, which is also stated.
#[verifier::external_body]
fn language_intersection(header: &str, supported: &[&str]) -> (r: Vec<String>)
    requires
        !nan_quality_possible(header@),
    ensures
        r@.map_values(|s: String| s@) == spec_language_intersection(
            header@,
            supported@.map_values(|s: &str| s@),
        ),
        forall|i: int|
            0 <= i < r@.len() ==> supported@.map_values(|s: &str| s@).contains(#[trigger] r@[i]@),
{
    accept_language::intersection(header, supported)
}

/// The language a page is shown in: the `lang` cookie (its trimmed value) where it
/// names a supported language, else the first supported language of the
/// `Accept-Language` header (where no quality value in it reads as NaN), else English.
pub open spec fn spec_select_language(
    lang_cookie: Option<Seq<char>>,
    accept_language: Option<Seq<char>>,
) -> Seq<char> {
    if lang_cookie is Some && supported_languages().contains(lang_cookie->0) {
        lang_cookie->0
    } else if accept_language is Some && !nan_quality_possible(accept_language->0) && spec_language_intersection(
        accept_language->0,
        supported_languages(),
    ).len() > 0 {
        spec_language_intersection(accept_language->0, supported_languages())[0]
    } else {
        "en"@
    }
}

/// Selects the interface language from the `lang` cookie's trimmed value and the
/// `Accept-Language` header's text. A header with a quality value that reads as
/// NaN (see `nan_quality_possible`) is not read.
pub fn select_language(lang_cookie: Option<&str>, accept_language: Option<&str>) -> (l: String)
    ensures
        l@ == spec_select_language(
            match lang_cookie {
                Some(c) => Some(c@),
                None => None,
            },
            match accept_language {
                Some(h) => Some(h@),
                None => None,
            },
        ),
        l@ == "en"@ || l@ == "de"@,
{
    let en = "en";
    let de = "de";
    if let Some(c) = lang_cookie {
        let cookie = c.to_string();
        if cookie == en.to_string() {
            return cookie;
        }
        if cookie == de.to_string() {
            return cookie;
        }
        proof {
            assert(!supported_languages().contains(c@)) by {
                if supported_languages().contains(c@) {
                    let k = choose|k: int| 0 <= k < 2 && supported_languages()[k] == c@;
                    assert(k == 0 || k == 1);
                }
            }
        }
    }
    let supported: [&str; 2] = [en, de];
    let ghost sup = supported@.map_values(|s: &str| s@);
    assert(sup =~= supported_languages());
    if let Some(h) = accept_language {
        if has_nan_quality(h) {
            return "en".to_string();
        }
        let common = language_intersection(h, supported.as_slice());
        if common.len() > 0 {
            let first = common[0].clone();
            assert(common@.map_values(|s: String| s@)[0] == first@);
            assert(sup.contains(first@));
            return first;
        }
    }
    "en".to_string()
}

} // verus!
