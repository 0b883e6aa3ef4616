//! What is asked of the wiki about page titles and file names, and how its
//! answers are read. An answer that cannot be read says nothing: the page
//! counts as missing, the file as not hidden.

use vstd::prelude::*;
use vstd::string::*;
use crate::json::Json;
use crate::listeria_page::{request_view, RequestParam};
use crate::text::{copy_str, str_eq};

verus! {

/// The pages that an answer to a query tells about: the members of `query.pages`.
pub open spec fn pages_of(answer: Json) -> Option<Seq<(String, Json)>> {
    match answer.member("query"@) {
        Some(q) => match q.member("pages"@) {
            Some(Json::Object(m)) => Some(m@),
            _ => None,
        },
        None => None,
    }
}

/// The answer marks the page as missing.
pub open spec fn is_missing(page: Json) -> bool {
    page.member_text("missing"@) is Some
}

/// The answer says that the file is kept on the wiki itself.
pub open spec fn is_local_file(page: Json) -> bool {
    page.member_text("imagerepository"@) == Some("local"@)
}

/// The answer says that the page exists: it tells about pages and marks none as missing.
pub open spec fn says_page_exists(answer: Json) -> bool {
    match pages_of(answer) {
        Some(pages) => forall|i: int| 0 <= i < pages.len() ==> !is_missing(#[trigger] pages[i].1),
        None => false,
    }
}

/// The answer says that a local file hides the shared one: one of the pages
/// it tells about is a file kept on the wiki itself.
pub open spec fn says_file_is_hidden(answer: Json) -> bool {
    match pages_of(answer) {
        Some(pages) => exists|i: int| 0 <= i < pages.len() && is_local_file(#[trigger] pages[i].1),
        None => false,
    }
}

/// The pages that an answer to a query tells about.
pub fn answer_pages(answer: &Json) -> (r: Option<&Vec<(String, Json)>>)
    ensures
        match r {
            Some(m) => pages_of(*answer) == Some(m@),
            None => pages_of(*answer) is None,
        },
{
    match answer.get("query") {
        Some(q) => match q.get("pages") {
            Some(Json::Object(m)) => Some(m),
            _ => None,
        },
        None => None,
    }
}

/// What is asked to find out whether a page with the title `title` exists.
pub fn page_check_request(title: &str) -> (r: Vec<RequestParam>)
    ensures
        request_view(r@) == seq![("action"@, "query"@), ("prop"@, ""@), ("titles"@, title@)],
{
    let mut r: Vec<RequestParam> = Vec::new();
    r.push(RequestParam { name: copy_str("action"), value: copy_str("query") });
    r.push(RequestParam { name: copy_str("prop"), value: copy_str("") });
    r.push(RequestParam { name: copy_str("titles"), value: copy_str(title) });
    assert(request_view(r@) =~= seq![("action"@, "query"@), ("prop"@, ""@), ("titles"@, title@)]);
    r
}

/// What is asked to find out where the file `file` is kept; `prefix` is the
/// prefix of file pages on the wiki.
pub fn file_check_request(prefix: &str, file: &str) -> (r: Vec<RequestParam>)
    ensures
        request_view(r@) == seq![
            ("action"@, "query"@),
            ("prop"@, "imageinfo"@),
            ("titles"@, prefix@ + ":"@ + file@),
        ],
{
    let mut title = copy_str(prefix);
    title.append(":");
    title.append(file);
    let mut r: Vec<RequestParam> = Vec::new();
    r.push(RequestParam { name: copy_str("action"), value: copy_str("query") });
    r.push(RequestParam { name: copy_str("prop"), value: copy_str("imageinfo") });
    r.push(RequestParam { name: copy_str("titles"), value: title });
    assert(request_view(r@) =~= seq![
        ("action"@, "query"@),
        ("prop"@, "imageinfo"@),
        ("titles"@, prefix@ + ":"@ + file@),
    ]);
    r
}

/// Whether the answer says that the page exists.
pub fn page_exists_in(answer: &Json) -> (r: bool)
    ensures
        r == says_page_exists(*answer),
{
    let pages = match answer_pages(answer) {
        Some(p) => p,
        None => {
            return false;
        },
    };
    let mut i: usize = 0;
    while i < pages.len()
        invariant
            i <= pages.len(),
            pages_of(*answer) == Some(pages@),
            forall|j: int| 0 <= j < i ==> !is_missing(#[trigger] pages@[j].1),
        decreases pages.len() - i,
    {
        if pages[i].1.get_str("missing").is_some() {
            proof {
                let known = pages_of(*answer)->0;
                assert(is_missing(known[i as int].1));
            }
            return false;
        }
        i += 1;
    }
    true
}

/// Whether the answer says that a local file hides the shared one.
pub fn file_is_hidden_in(answer: &Json) -> (r: bool)
    ensures
        r == says_file_is_hidden(*answer),
{
    let pages = match answer_pages(answer) {
        Some(p) => p,
        None => {
            return false;
        },
    };
    let mut i: usize = 0;
    while i < pages.len()
        invariant
            i <= pages.len(),
            pages_of(*answer) == Some(pages@),
            forall|j: int| 0 <= j < i ==> !is_local_file(#[trigger] pages@[j].1),
        decreases pages.len() - i,
    {
        let local = match pages[i].1.get_str("imagerepository") {
            Some(repository) => str_eq(repository, "local"),
            None => false,
        };
        if local {
            proof {
                let known = pages_of(*answer)->0;
                assert(is_local_file(known[i as int].1));
            }
            return true;
        }
        i += 1;
    }
    false
}

} // verus!
