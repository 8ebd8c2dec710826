use svoote::app_error::AppError;
use svoote::auth_token::AuthToken;
use svoote::session_id::{assert_equal_ids, get_or_create_session_id, uuid_to_string};

#[test]
fn uuid_text_is_hyphenated_lower_case_hex() {
    assert_eq!(
        uuid_to_string(0x67e5504410b1426f9247bb680e5fe0c8),
        "67e55044-10b1-426f-9247-bb680e5fe0c8"
    );
    assert_eq!(uuid_to_string(0), "00000000-0000-0000-0000-000000000000");
    assert_eq!(uuid_to_string(u128::MAX), "ffffffff-ffff-ffff-ffff-ffffffffffff");
}

#[test]
fn a_valid_session_cookie_is_kept() {
    let (id, cookie) = get_or_create_session_id(Some("67e55044-10b1-426f-9247-bb680e5fe0c8"));
    assert_eq!(id, 0x67e5504410b1426f9247bb680e5fe0c8);
    assert!(cookie.is_none());
    // upper case and the simple form parse too
    let (id2, cookie2) = get_or_create_session_id(Some("67E5504410B1426F9247BB680E5FE0C8"));
    assert_eq!(id2, 0x67e5504410b1426f9247bb680e5fe0c8);
    assert!(cookie2.is_none());
}

fn is_v4(id: u128) -> bool {
    id & 0x0000_0000_0000_f000_c000_0000_0000_0000u128 == 0x0000_0000_0000_4000_8000_0000_0000_0000u128
}

#[test]
fn a_missing_or_broken_cookie_gets_a_new_random_id() {
    let (id, cookie) = get_or_create_session_id(None);
    assert!(is_v4(id));
    assert_eq!(cookie.unwrap(), uuid_to_string(id));

    let (id2, cookie2) = get_or_create_session_id(Some("not-a-uuid"));
    assert!(is_v4(id2));
    assert_eq!(cookie2.unwrap(), uuid_to_string(id2));
    assert_ne!(id, id2);
}

#[test]
fn equal_ids_pass_and_others_are_unauthorized() {
    assert!(assert_equal_ids(5, 5).is_ok());
    match assert_equal_ids(5, 6) {
        Err(AppError::Unauthorized(m)) => assert_eq!(m, "This session_id is not valid for this request"),
        _ => panic!("expected Unauthorized"),
    }
}

#[test]
fn auth_token_verifies_against_the_session_token() {
    let t = AuthToken { token: 77 };
    assert!(t.verify(77).is_ok());
    match t.verify(78) {
        Err(AppError::BadRequest(m)) => assert_eq!(m, "Invalid auth_token"),
        _ => panic!("expected BadRequest"),
    }
}

#[test]
fn the_cookie_of_a_new_session_gives_the_session_back() {
    let (id, cookie) = get_or_create_session_id(None);
    let cookie = cookie.unwrap();
    assert_eq!(get_or_create_session_id(Some(&cookie)), (id, None));
}
