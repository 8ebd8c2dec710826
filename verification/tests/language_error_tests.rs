use svoote::app_error::{bad_request, AppError};
use svoote::language::select_language;

#[test]
fn a_supported_language_cookie_wins() {
    assert_eq!(select_language(Some("de"), Some("en-US,en;q=0.9")), "de");
    assert_eq!(select_language(Some("en"), Some("de")), "en");
}

#[test]
fn otherwise_the_first_supported_language_of_the_header() {
    assert_eq!(select_language(Some("fr"), Some("fr-FR,de;q=0.8,en;q=0.5")), "de");
    assert_eq!(select_language(None, Some("en-GB,en;q=0.9,de;q=0.8")), "en");
    // only exact language tags match
    assert_eq!(select_language(None, Some("de-DE")), "en");
    assert_eq!(select_language(None, Some("de-DE, de;q=0.5")), "de");
}

#[test]
fn otherwise_english() {
    assert_eq!(select_language(None, None), "en");
    assert_eq!(select_language(Some("xx"), Some("fr,es")), "en");
    assert_eq!(select_language(None, Some("")), "en");
}

#[test]
fn errors_have_status_codes_and_messages() {
    assert_eq!(AppError::NotFound.status_code(), 404);
    assert_eq!(AppError::NotFound.message(), "Not Found");
    let e = AppError::BadRequest("x".to_string());
    assert_eq!(e.status_code(), 400);
    assert_eq!(e.message(), "Bad request: x");
    let e = AppError::Unauthorized("y".to_string());
    assert_eq!(e.status_code(), 401);
    assert_eq!(e.message(), "Unauthorized: y");
    let e = AppError::OtherInternalServerError("z".to_string());
    assert_eq!(e.status_code(), 500);
    assert_eq!(e.message(), "Internal server error: z");
    match bad_request("nope") {
        AppError::BadRequest(m) => assert_eq!(m, "nope"),
        _ => panic!("expected BadRequest"),
    }
}

#[test]
fn the_min_nan_language_tag_is_an_ordinary_tag() {
    assert_eq!(select_language(None, Some("nan,de")), "de");
    assert_eq!(select_language(None, Some("zh-TW, nan;q=0.8, de;q=0.5")), "de");
    assert_eq!(select_language(None, Some("de;q=banana")), "de");
    assert_eq!(select_language(None, Some("de;x;q=nan")), "de");
    assert_eq!(select_language(None, Some("de;q=a=nan")), "de");
}

#[test]
fn a_header_with_a_nan_quality_is_not_read() {
    assert_eq!(select_language(None, Some("de;q=NaN")), "en");
    assert_eq!(select_language(None, Some("de;q=n a n,fr")), "en");
    assert_eq!(select_language(Some("de"), Some("en;q=nan")), "de");
    assert_eq!(select_language(None, Some("de;q=0.9")), "de");
    assert_eq!(select_language(None, Some("de;q=-nan,en")), "en");
    assert_eq!(select_language(None, Some("de;=nan")), "en");
}
