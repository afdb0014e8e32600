//! The administrative word-list pages: cursor-based pagination over the
//! stored words, with cursors carried in URLs as base64 of the last word
//! seen.

use vstd::prelude::*;

verus! {

/// A page of listed words with its pagination links.
pub struct Words {
    pub words: Vec<Word>,
    pub pagination: Pagination,
}

/// One listed word and the cursor that resumes the listing just after it.
pub struct Word {
    pub text: String,
    pub cursor: Cursor,
}

/// Links to the neighbouring pages, if any.
pub struct Pagination {
    pub next_page: Option<Cursor>,
    pub prev_page: Option<Cursor>,
}

/// A pagination token as it travels in a URL.
pub struct Cursor(pub String);

/// A listing position: words strictly after this text come next.
pub struct ListCursor {
    pub after: String,
}

impl Default for ListCursor {
    /// The listing starts before every word.
    fn default() -> (r: Self)
        ensures
            r.after@ == Seq::<char>::empty(),
    {
        ListCursor { after: String::new() }
    }
}

/// The URL-safe base64 form of a text. What it looks like takes pages to
/// state; it is a function of the text alone.
pub uninterp spec fn b64url_of(s: Seq<char>) -> Seq<char>;

/// Relies on base64's `URL_SAFE` engine `encode`: the result depends on the
/// input bytes alone.
#[verifier::external_body]
fn b64url_encode(s: &str) -> (r: String)
    ensures
        r@ == b64url_of(s@),
{
    base64::Engine::encode(&base64::engine::general_purpose::URL_SAFE, s.as_bytes())
}

/// Relies on base64's `URL_SAFE` engine `decode`, with `String::from_utf8`
/// carrying the decoded bytes back into text: the engine rejects
/// non-canonical input, so decoding succeeds exactly on encoder output and
/// inverts it.
#[verifier::external_body]
fn b64url_decode(s: &str) -> (r: Option<String>)
    ensures
        forall|x: Seq<char>| s@ == b64url_of(x) ==> r is Some && r.unwrap()@ == x,
        r is Some ==> s@ == b64url_of(r.unwrap()@),
{
    match base64::Engine::decode(&base64::engine::general_purpose::URL_SAFE, s.as_bytes()) {
        Ok(bytes) => String::from_utf8(bytes).ok(),
        Err(_) => None,
    }
}

/// Encode a listing position for a URL.
pub fn cursor_to_url(cursor: &ListCursor) -> (r: Cursor)
    ensures
        r.0@ == b64url_of(cursor.after@),
{
    let encoded = b64url_encode(cursor.after.as_str());
    Cursor { 0: encoded }
}

/// Decode a URL token back into a listing position. Tokens the encoder
/// made come back exactly; malformed ones are rejected.
pub fn cursor_from_url(param: &str) -> (r: Option<ListCursor>)
    ensures
        forall|x: Seq<char>| param@ == b64url_of(x) ==> r is Some && r.unwrap().after@ == x,
        r is Some ==> param@ == b64url_of(r.unwrap().after@),
{
    match b64url_decode(param) {
        Some(after) => Some(ListCursor { after }),
        None => None,
    }
}

/// Lay out one page from the rows the store returned for a limit of
/// `limit`: every row is listed with its resume cursor, and a next-page
/// link appears exactly when the store returned more rows than the limit,
/// pointing after the last returned row.
pub fn page_from_rows(rows: Vec<String>, limit: usize) -> (r: Words)
    ensures
        r.words@.len() == rows@.len(),
        forall|k: int|
            0 <= k < rows@.len() ==> {
                let w = #[trigger] r.words@[k];
                w.text@ == rows@[k]@ && w.cursor.0@ == b64url_of(rows@[k]@)
            },
        rows@.len() > limit ==> (r.pagination.next_page matches Some(c) && c.0@ == b64url_of(
            rows@[rows@.len() - 1]@,
        )),
        rows@.len() <= limit ==> r.pagination.next_page is None,
        r.pagination.prev_page is None,
{
    let n = rows.len();
    let next_page: Option<Cursor> = if n > limit {
        let last = ListCursor { after: rows[n - 1].clone() };
        Some(cursor_to_url(&last))
    } else {
        None
    };
    let mut words: Vec<Word> = Vec::new();
    let mut i: usize = 0;
    while i < n
        invariant
            n == rows@.len(),
            0 <= i <= n,
            words@.len() == i,
            forall|k: int|
                0 <= k < i ==> {
                    let w = #[trigger] words@[k];
                    w.text@ == rows@[k]@ && w.cursor.0@ == b64url_of(rows@[k]@)
                },
        decreases n - i,
    {
        let text = rows[i].clone();
        let pos = ListCursor { after: rows[i].clone() };
        let cursor = cursor_to_url(&pos);
        let word = Word { text, cursor };
        words.push(word);
        i = i + 1;
    }
    Words { words, pagination: Pagination { next_page, prev_page: None } }
}

} // verus!
