use vstd::prelude::*;

verus! {

/// The text of a rejection for a missing path parameter.
pub open spec fn missing_path_param_text(param: Seq<char>) -> Seq<char> {
    "Invalid path parameters: "@ + param + " is required"@
}

/// The text of a rejection for a missing request parameter.
pub open spec fn missing_request_param_text(param: Seq<char>) -> Seq<char> {
    "Invalid request parameters: "@ + param + " is required"@
}

/// Message telling the caller that the path parameter `param` was absent.
pub fn missing_path_param(param: &str) -> (r: String)
    ensures
        r@ == missing_path_param_text(param@),
{
    let r = String::from_str("Invalid path parameters: ");
    let r = r.concat(param);
    r.concat(" is required")
}

/// Message telling the caller that the request parameter `param` was absent.
pub fn missing_request_param(param: &str) -> (r: String)
    ensures
        r@ == missing_request_param_text(param@),
{
    let r = String::from_str("Invalid request parameters: ");
    let r = r.concat(param);
    r.concat(" is required")
}

/// Why a request failed, as the handler layer classifies it.
#[derive(Debug)]
pub enum Failure {
    BadRequest(String),
    Unauthorized(String),
    Forbidden(String),
    NotFound(String),
    Conflict(String),
    Internal(String),
}

/// The HTTP status of each kind of failure.
pub open spec fn status_of(f: Failure) -> u16 {
    match f {
        Failure::BadRequest(_) => 400,
        Failure::Unauthorized(_) => 401,
        Failure::Forbidden(_) => 403,
        Failure::NotFound(_) => 404,
        Failure::Conflict(_) => 409,
        Failure::Internal(_) => 500,
    }
}

impl Failure {
    /// The HTTP status that answers this failure.
    pub fn status_code(&self) -> (r: u16)
        ensures
            r == status_of(*self),
    {
        match self {
            Failure::BadRequest(_) => 400,
            Failure::Unauthorized(_) => 401,
            Failure::Forbidden(_) => 403,
            Failure::NotFound(_) => 404,
            Failure::Conflict(_) => 409,
            Failure::Internal(_) => 500,
        }
    }

    /// The text sent with the failure.
    pub fn message(&self) -> (r: &String)
        ensures
            match self {
                Failure::BadRequest(m) => r == m,
                Failure::Unauthorized(m) => r == m,
                Failure::Forbidden(m) => r == m,
                Failure::NotFound(m) => r == m,
                Failure::Conflict(m) => r == m,
                Failure::Internal(m) => r == m,
            },
    {
        match self {
            Failure::BadRequest(m) => m,
            Failure::Unauthorized(m) => m,
            Failure::Forbidden(m) => m,
            Failure::NotFound(m) => m,
            Failure::Conflict(m) => m,
            Failure::Internal(m) => m,
        }
    }
}

/// Whether `c` has Unicode's White_Space property: tab through carriage return, space, next
/// line, no-break space, ogham space mark, en quad through hair space, line and paragraph
/// separators, narrow no-break space, medium mathematical space, ideographic space.
pub open spec fn unicode_white_space(c: char) -> bool {
    let n = c as int;
    (0x9 <= n <= 0xD) || n == 0x20 || n == 0x85 || n == 0xA0 || n == 0x1680 || (0x2000 <= n
        <= 0x200A) || n == 0x2028 || n == 0x2029 || n == 0x202F || n == 0x205F || n == 0x3000
}

/// Whether `c` is white space; the same set as `char::is_whitespace`.
fn is_white_space(c: char) -> (r: bool)
    ensures
        r == unicode_white_space(c),
{
    let n = c as u32;
    (0x9 <= n && n <= 0xD) || n == 0x20 || n == 0x85 || n == 0xA0 || n == 0x1680 || (0x2000 <= n
        && n <= 0x200A) || n == 0x2028 || n == 0x2029 || n == 0x202F || n == 0x205F || n == 0x3000
}

/// `s` holds nothing but white space: what is left of it once trimmed is empty.
pub open spec fn blank(s: Seq<char>) -> bool {
    forall|i: int| 0 <= i < s.len() ==> unicode_white_space(#[trigger] s[i])
}

/// Whether `s` is blank.
pub fn is_blank(s: &str) -> (r: bool)
    ensures
        r == blank(s@),
{
    let n = s.unicode_len();
    let mut i: usize = 0;
    while i < n
        invariant
            n == s@.len(),
            i <= n,
            forall|j: int| 0 <= j < i ==> unicode_white_space(#[trigger] s@[j]),
        decreases n - i,
    {
        if !is_white_space(s.get_char(i)) {
            return false;
        }
        i = i + 1;
    }
    true
}

/// The first of `fields` that is blank, by name: `(name, value)` pairs checked in order.
pub fn first_blank(fields: &Vec<(&str, &str)>) -> (r: Option<usize>)
    ensures
        match r {
            Some(i) => i < fields@.len() && blank(fields@[i as int].1@) && forall|j: int|
                0 <= j < i ==> !blank(#[trigger] fields@[j].1@),
            None => forall|j: int| 0 <= j < fields@.len() ==> !blank(#[trigger] fields@[j].1@),
        },
{
    let mut i: usize = 0;
    while i < fields.len()
        invariant
            i <= fields@.len(),
            forall|j: int| 0 <= j < i ==> !blank(#[trigger] fields@[j].1@),
        decreases fields@.len() - i,
    {
        if is_blank(fields[i].1) {
            return Some(i);
        }
        i = i + 1;
    }
    None
}

/// Checks that each named request parameter is present: the first blank one is refused as
/// `BadRequest`, with the text of `missing_request_param`.
pub fn require_params(fields: &Vec<(&str, &str)>) -> (r: Result<(), Failure>)
    ensures
        match r {
            Ok(()) => forall|j: int| 0 <= j < fields@.len() ==> !blank(#[trigger] fields@[j].1@),
            Err(f) => exists|i: int|
                0 <= i < fields@.len() && blank(fields@[i].1@) && (forall|j: int|
                    0 <= j < i ==> !blank(#[trigger] fields@[j].1@)) && (f matches Failure::BadRequest(m)
                    && m@ == missing_request_param_text(fields@[i].0@)),
        },
{
    match first_blank(fields) {
        None => Ok(()),
        Some(i) => Err(Failure::BadRequest(missing_request_param(fields[i].0))),
    }
}

} // verus!
