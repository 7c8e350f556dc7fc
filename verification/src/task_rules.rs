use vstd::prelude::*;

use crate::text::{all_ws, char_count, is_blank, str_eq};

verus! {

/// The OpenAPI description of the task service; its schema is generated from
/// the route annotations by the server.
pub struct ApiDoc;

/// Why a task request failed. `D` is the database layer's error.
#[derive(Debug)]
pub enum ApiError<D> {
    BadRequest(String),
    NotFound,
    Conflict(String),
    Database(D),
}

/// Whether `s` is one of the three task statuses.
pub open spec fn is_known_status(s: Seq<char>) -> bool {
    s == "todo"@ || s == "in_progress"@ || s == "done"@
}

/// What is wrong with a title, if anything.
pub open spec fn title_problem(t: Seq<char>) -> Option<Seq<char>> {
    if all_ws(t) {
        Some("title cannot be empty"@)
    } else if t.len() > 200 {
        Some("title cannot exceed 200 characters"@)
    } else {
        None
    }
}

/// What is wrong with a status, if anything.
pub open spec fn status_problem(s: Seq<char>) -> Option<Seq<char>> {
    if is_known_status(s) {
        None
    } else {
        Some("status must be todo, in_progress, or done"@)
    }
}

/// What is wrong with the fields of a new task, if anything.
pub open spec fn new_task_problem(title: Seq<char>, team_id: Seq<char>) -> Option<Seq<char>> {
    if title_problem(title) is Some {
        title_problem(title)
    } else if all_ws(team_id) {
        Some("team_id cannot be empty"@)
    } else {
        None
    }
}

/// What is wrong with the fields of a task update, if anything.
pub open spec fn update_problem(title: Option<Seq<char>>, status: Option<Seq<char>>) -> Option<
    Seq<char>,
> {
    let tp = match title {
        Some(t) => title_problem(t),
        None => None,
    };
    let sp = match status {
        Some(s) => status_problem(s),
        None => None,
    };
    if tp is Some {
        tp
    } else {
        sp
    }
}

/// Whether `r` is the answer to a request with the given problem: a bad
/// request carrying its message, or success when there is none.
pub open spec fn answers<D>(r: Result<(), ApiError<D>>, problem: Option<Seq<char>>) -> bool {
    match problem {
        Some(msg) => r matches Err(ApiError::BadRequest(m)) && m@ == msg,
        None => r is Ok,
    }
}

/// Checks a task title: it must hold a non-whitespace character and at most
/// 200 characters.
pub fn validate_title<D>(title: &str) -> (result: Result<(), ApiError<D>>)
    ensures
        answers(result, title_problem(title@)),
{
    proof {
        reveal_strlit("title cannot be empty");
        reveal_strlit("title cannot exceed 200 characters");
    }
    if is_blank(title) {
        return Err(ApiError::BadRequest("title cannot be empty".to_owned()));
    }
    if char_count(title) > 200 {
        return Err(ApiError::BadRequest("title cannot exceed 200 characters".to_owned()));
    }
    Ok(())
}

/// Checks a task status: it must be `todo`, `in_progress` or `done`.
pub fn validate_status<D>(status: &str) -> (result: Result<(), ApiError<D>>)
    ensures
        answers(result, status_problem(status@)),
{
    proof {
        reveal_strlit("todo");
        reveal_strlit("in_progress");
        reveal_strlit("done");
        reveal_strlit("status must be todo, in_progress, or done");
    }
    if str_eq(status, "todo") || str_eq(status, "in_progress") || str_eq(status, "done") {
        Ok(())
    } else {
        Err(ApiError::BadRequest("status must be todo, in_progress, or done".to_owned()))
    }
}

/// Checks the fields of a new task: the title first, then that the team id
/// holds a non-whitespace character.
pub fn validate_new_task<D>(title: &str, team_id: &str) -> (result: Result<(), ApiError<D>>)
    ensures
        answers(result, new_task_problem(title@, team_id@)),
{
    proof {
        reveal_strlit("team_id cannot be empty");
    }
    validate_title(title)?;
    if is_blank(team_id) {
        return Err(ApiError::BadRequest("team_id cannot be empty".to_owned()));
    }
    Ok(())
}

/// Checks the fields of a task update: a new title, when given, then a new
/// status, when given.
pub fn validate_update<D>(title: Option<&str>, status: Option<&str>) -> (result: Result<(), ApiError<D>>)
    ensures
        answers(
            result,
            update_problem(
                match title {
                    Some(t) => Some(t@),
                    None => None,
                },
                match status {
                    Some(s) => Some(s@),
                    None => None,
                },
            ),
        ),
{
    if let Some(t) = title {
        validate_title(t)?;
    }
    if let Some(s) = status {
        validate_status(s)?;
    }
    Ok(())
}

/// The outcome of an update or a delete that touched `rows_affected` rows:
/// no row means no task had the id.
pub fn require_rows_affected<D>(rows_affected: u64) -> (result: Result<(), ApiError<D>>)
    ensures
        rows_affected == 0 ==> result matches Err(ApiError::NotFound),
        rows_affected != 0 ==> result is Ok,
{
    if rows_affected == 0 {
        return Err(ApiError::NotFound);
    }
    Ok(())
}

/// The task that a lookup by id found, or not found when it found none.
pub fn found_or_not_found<T, D>(row: Option<T>) -> (result: Result<T, ApiError<D>>)
    ensures
        match row {
            Some(t) => result == Ok::<T, ApiError<D>>(t),
            None => result matches Err(ApiError::NotFound),
        },
{
    match row {
        Some(t) => Ok(t),
        None => Err(ApiError::NotFound),
    }
}

impl<D> ApiError<D> {
    /// The error a database failure becomes: a conflict when it violates a
    /// foreign key or a uniqueness constraint, a database error otherwise.
    pub fn from_database(error: D, violates_constraint: bool) -> (e: ApiError<D>)
        ensures
            violates_constraint ==> (e matches ApiError::Conflict(m) && m@
                == "task references an invalid or duplicate resource"@),
            !violates_constraint ==> e == ApiError::Database(error),
    {
        if violates_constraint {
            return ApiError::Conflict("task references an invalid or duplicate resource".to_owned());
        }
        ApiError::Database(error)
    }

    /// The HTTP status code and the message sent for this error.
    pub fn status_and_message(&self) -> (r: (u16, String))
        ensures
            match self {
                ApiError::BadRequest(m) => r.0 == 400 && r.1@ == m@,
                ApiError::NotFound => r.0 == 404 && r.1@ == "task not found"@,
                ApiError::Conflict(m) => r.0 == 409 && r.1@ == m@,
                ApiError::Database(_) => r.0 == 500 && r.1@ == "internal server error"@,
            },
    {
        match self {
            ApiError::BadRequest(message) => (400, message.clone()),
            ApiError::NotFound => (404, "task not found".to_owned()),
            ApiError::Conflict(message) => (409, message.clone()),
            ApiError::Database(_) => (500, "internal server error".to_owned()),
        }
    }
}

/// Law (an unknown status is always refused): an update that gives a status
/// other than `todo`, `in_progress` and `done` is answered with a bad request,
/// whether or not it also gives a title, valid or not. When the title is valid,
/// the message is the one about the status.
pub proof fn lemma_unknown_status_refused<D>(
    title: Option<Seq<char>>,
    status: Seq<char>,
    r: Result<(), ApiError<D>>,
)
    requires
        status != "todo"@,
        status != "in_progress"@,
        status != "done"@,
        answers(r, update_problem(title, Some(status))),
    ensures
        r matches Err(ApiError::BadRequest(_)),
        (title is None || (title matches Some(t) && !all_ws(t) && t.len() <= 200)) ==> (r matches Err(
            ApiError::BadRequest(m),
        ) && m@ == "status must be todo, in_progress, or done"@),
{
}

/// Law (a bad title is always refused): an update or a new task whose title
/// is blank or longer than 200 characters is answered with a bad request about
/// the title, whatever else it gives.
pub proof fn lemma_bad_title_refused<D>(
    title: Seq<char>,
    status: Option<Seq<char>>,
    r: Result<(), ApiError<D>>,
)
    requires
        all_ws(title) || title.len() > 200,
        answers(r, update_problem(Some(title), status)),
    ensures
        r matches Err(ApiError::BadRequest(m)) && (m@ == "title cannot be empty"@ || m@
            == "title cannot exceed 200 characters"@),
{
}

} // verus!
