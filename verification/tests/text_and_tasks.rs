use low_level_lab::task_rules::{
    found_or_not_found, require_rows_affected, validate_new_task, validate_status, validate_title,
    validate_update, ApiError,
};
use low_level_lab::text::{char_count, first_words, is_blank, trim, word_count};

fn bad_request(r: Result<(), ApiError<()>>) -> Option<String> {
    match r {
        Err(ApiError::BadRequest(m)) => Some(m),
        Ok(()) => None,
        Err(_) => Some("other".to_string()),
    }
}

#[test]
fn counts_words() {
    assert_eq!(word_count(""), 0);
    assert_eq!(word_count("   "), 0);
    assert_eq!(word_count("one"), 1);
    assert_eq!(word_count("  hello  world\tfoo\n"), 3);
    assert_eq!(word_count("a\u{3000}b\u{00A0}c"), 3);
}

#[test]
fn first_words_joins_with_single_spaces() {
    assert_eq!(first_words("  a  b\n\nc d ", 3), "a b c");
    assert_eq!(first_words("a b", 100), "a b");
    assert_eq!(first_words("alpha beta", 0), "");
    assert_eq!(first_words("x\u{2003}y", 2), "x y");
}

#[test]
fn blank_and_length() {
    assert!(is_blank(""));
    assert!(is_blank(" \t\n\u{3000}"));
    assert!(!is_blank(" a "));
    assert_eq!(char_count("héllo"), 5);
}

#[test]
fn title_rules() {
    assert_eq!(bad_request(validate_title("   ")), Some("title cannot be empty".to_string()));
    assert_eq!(bad_request(validate_title("\u{2028}")), Some("title cannot be empty".to_string()));
    let long: String = std::iter::repeat('é').take(201).collect();
    assert_eq!(
        bad_request(validate_title(&long)),
        Some("title cannot exceed 200 characters".to_string())
    );
    let just: String = std::iter::repeat('é').take(200).collect();
    assert_eq!(bad_request(validate_title(&just)), None);
    assert_eq!(bad_request(validate_title(" Fix bug ")), None);
}

#[test]
fn status_rules() {
    assert_eq!(bad_request(validate_status("todo")), None);
    assert_eq!(bad_request(validate_status("in_progress")), None);
    assert_eq!(bad_request(validate_status("done")), None);
    assert_eq!(
        bad_request(validate_status("Done")),
        Some("status must be todo, in_progress, or done".to_string())
    );
    assert_eq!(
        bad_request(validate_status("")),
        Some("status must be todo, in_progress, or done".to_string())
    );
}

#[test]
fn new_task_rules() {
    assert_eq!(bad_request(validate_new_task("t", "team")), None);
    assert_eq!(bad_request(validate_new_task("t", " ")), Some("team_id cannot be empty".to_string()));
    assert_eq!(bad_request(validate_new_task("", " ")), Some("title cannot be empty".to_string()));
}

#[test]
fn update_rules() {
    assert_eq!(bad_request(validate_update(None, None)), None);
    assert_eq!(bad_request(validate_update(Some("x"), Some("done"))), None);
    assert_eq!(
        bad_request(validate_update(Some(" "), Some("bogus"))),
        Some("title cannot be empty".to_string())
    );
    assert_eq!(
        bad_request(validate_update(None, Some("bogus"))),
        Some("status must be todo, in_progress, or done".to_string())
    );
}

#[test]
fn error_responses() {
    let e: ApiError<u32> = ApiError::from_database(5, true);
    assert_eq!(
        e.status_and_message(),
        (409, "task references an invalid or duplicate resource".to_string())
    );
    let e: ApiError<u32> = ApiError::from_database(5, false);
    assert!(matches!(e, ApiError::Database(5)));
    assert_eq!(e.status_and_message(), (500, "internal server error".to_string()));
    let e: ApiError<u32> = ApiError::NotFound;
    assert_eq!(e.status_and_message(), (404, "task not found".to_string()));
    let e: ApiError<u32> = ApiError::BadRequest("nope".to_string());
    assert_eq!(e.status_and_message(), (400, "nope".to_string()));
}

#[test]
fn trims_stored_titles() {
    assert_eq!(trim("  Write report \n"), "Write report");
    assert_eq!(trim("a  b"), "a  b");
    assert_eq!(trim(" \t "), "");
    assert_eq!(trim(""), "");
    assert_eq!(trim("\u{3000}x\u{00A0}"), "x");
}

#[test]
fn missing_rows_are_not_found() {
    let r: Result<(), ApiError<()>> = require_rows_affected(0);
    assert!(matches!(r, Err(ApiError::NotFound)));
    let r: Result<(), ApiError<()>> = require_rows_affected(1);
    assert!(r.is_ok());
    let r: Result<u8, ApiError<()>> = found_or_not_found(Some(7u8));
    assert!(matches!(r, Ok(7)));
    let r: Result<u8, ApiError<()>> = found_or_not_found(None);
    assert!(matches!(r, Err(ApiError::NotFound)));
}
