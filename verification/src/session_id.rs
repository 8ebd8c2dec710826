//! Session identifiers: 128-bit UUIDs kept in the `session_id` cookie.

use vstd::prelude::*;
use crate::app_error::AppError;
use crate::text::{hex_nibbles, hex_nibbles_string};

verus! {

/// What `uuid::Uuid::parse_str` gives for a string with these characters,
/// as the UUID's 128-bit value (`Uuid::as_u128`), or `None` where it fails.
pub uninterp spec fn spec_parse_uuid(s: Seq<char>) -> Option<u128>;

/// Calls `uuid::Uuid::parse_str` (the `FromStr` of `Uuid`) and converts the UUID
/// to its 128-bit value; the result is named `spec_parse_uuid`. The contract also
/// states what the crate documents of the hyphenated form: the canonical text of a
/// UUID (see `uuid_text`) parses to that UUID.
#[verifier::external_body]
fn parse_uuid(s: &str) -> (r: Option<u128>)
    ensures
        r == spec_parse_uuid(s@),
        forall|v: u128| #[trigger] uuid_text(v) == s@ ==> r == Some(v),
{
    s.parse::<uuid::Uuid>().ok().map(|u| u.as_u128())
}

/// Calls `uuid::Uuid::new_v4`, a random UUID. Of the random value the contract only
/// says what the source sets for every outcome: the version nibble is 4 and the
/// variant bits are `10`.
#[verifier::external_body]
fn random_uuid() -> (r: u128)
    ensures
        r & 0x0000_0000_0000_f000_c000_0000_0000_0000u128
            == 0x0000_0000_0000_4000_8000_0000_0000_0000u128,
{
    uuid::Uuid::new_v4().as_u128()
}

/// The canonical text of a UUID: 32 lower-case hexadecimal digits of its big-endian
/// value in groups of 8, 4, 4, 4 and 12, separated by `-`.
pub open spec fn uuid_text(v: u128) -> Seq<char> {
    let h = hex_nibbles(v as nat, 32);
    h.subrange(0, 8) + seq!['-'] + h.subrange(8, 12) + seq!['-'] + h.subrange(12, 16) + seq!['-']
        + h.subrange(16, 20) + seq!['-'] + h.subrange(20, 32)
}

proof fn lemma_hex_nibbles_len(v: nat, k: nat)
    ensures
        hex_nibbles(v, k).len() == k,
    decreases k,
{
    if k > 0 {
        lemma_hex_nibbles_len(v / 16, (k - 1) as nat);
    }
}

/// The text of a UUID as `Uuid`'s `Display` writes it (lower-case, hyphenated).
pub fn uuid_to_string(v: u128) -> (s: String)
    ensures
        s@ == uuid_text(v),
{
    let h = hex_nibbles_string(v, 32);
    proof {
        lemma_hex_nibbles_len(v as nat, 32);
    }
    let hs = h.as_str();
    let mut s = hs.substring_char(0, 8).to_string();
    s.append("-");
    s.append(hs.substring_char(8, 12));
    s.append("-");
    s.append(hs.substring_char(12, 16));
    s.append("-");
    s.append(hs.substring_char(16, 20));
    s.append("-");
    s.append(hs.substring_char(20, 32));
    proof {
        reveal_strlit("-");
        assert("-"@ =~= seq!['-']);
    }
    s
}

/// The session id carried by a request, given the value of its `session_id`
/// cookie: the cookie's UUID where it parses, else a new random one. The second
/// component is the value of the cookie that has to be set, present exactly when
/// a new id was made.
pub fn get_or_create_session_id(cookie_value: Option<&str>) -> (r: (u128, Option<String>))
    ensures
        match cookie_value {
            Some(v) if spec_parse_uuid(v@) is Some => r.0 == spec_parse_uuid(v@)->0 && r.1 is None,
            _ => r.1 matches Some(c) && c@ == uuid_text(r.0),
        },
        // a new id is a random version 4 UUID
        r.1 is Some ==> r.0 & 0x0000_0000_0000_f000_c000_0000_0000_0000u128
            == 0x0000_0000_0000_4000_8000_0000_0000_0000u128,
        // The cookie set for a session gives that session back.
        forall|id: u128|
            cookie_value matches Some(v) && #[trigger] uuid_text(id) == v@ ==> r.0 == id && r.1 is None,
{
    if let Some(v) = cookie_value {
        if let Some(id) = parse_uuid(v) {
            return (id, None);
        }
    }
    let new_session_id = random_uuid();
    (new_session_id, Some(uuid_to_string(new_session_id)))
}

/// `Ok` exactly when the two ids are equal.
pub fn assert_equal_ids(uuid1: u128, uuid2: u128) -> (r: Result<(), AppError>)
    ensures
        r is Ok <==> uuid1 == uuid2,
        r matches Err(e) ==> e matches AppError::Unauthorized(m)
            && m@ == "This session_id is not valid for this request"@,
{
    if uuid1 == uuid2 {
        Ok(())
    } else {
        Err(AppError::Unauthorized("This session_id is not valid for this request".to_string()))
    }
}

} // verus!
