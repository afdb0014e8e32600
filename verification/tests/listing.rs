use spelling_bee::search::SearchedWords;
use spelling_bee::words_list::{
    cursor_from_url, cursor_to_url, page_from_rows, ListCursor, Pagination,
};

#[test]
fn cursors_roundtrip_through_urls() {
    let cursor = ListCursor { after: "hello".to_string() };
    let token = cursor_to_url(&cursor);
    let back = cursor_from_url(token.0.as_str()).expect("token decodes");
    assert_eq!(back.after, "hello");
}

#[test]
fn cursor_tokens_are_base64_not_plain_text() {
    let cursor = ListCursor { after: "hello".to_string() };
    assert_eq!(cursor_to_url(&cursor).0, "aGVsbG8=");
}

#[test]
fn malformed_cursor_tokens_are_rejected() {
    assert!(cursor_from_url("!!!").is_none());
}

#[test]
fn empty_cursor_starts_the_listing() {
    let cursor: ListCursor = Default::default();
    assert_eq!(cursor.after, "");
}

#[test]
fn a_full_page_links_to_the_next_one() {
    let rows: Vec<String> = ["bard", "braid", "drab"].iter().map(|w| w.to_string()).collect();
    let page = page_from_rows(rows, 2);
    assert_eq!(page.words.len(), 3);
    assert_eq!(page.words[0].text, "bard");
    assert_eq!(page.words[1].text, "braid");
    let next = page.pagination.next_page.expect("a third row means more pages");
    assert_eq!(
        cursor_from_url(next.0.as_str()).expect("token decodes").after,
        "drab"
    );
    assert!(page.pagination.prev_page.is_none());
}

#[test]
fn a_short_page_is_the_last_one() {
    let rows: Vec<String> = ["bard", "braid"].iter().map(|w| w.to_string()).collect();
    let page = page_from_rows(rows, 2);
    assert_eq!(page.words.len(), 2);
    assert!(page.pagination.next_page.is_none());
}

#[test]
fn each_listed_word_carries_its_own_cursor() {
    let rows: Vec<String> = ["bard", "braid", "drab"].iter().map(|w| w.to_string()).collect();
    let page = page_from_rows(rows, 5);
    for word in &page.words {
        let resumed = cursor_from_url(word.cursor.0.as_str()).expect("token decodes");
        assert_eq!(resumed.after, word.text);
    }
}

#[test]
fn search_results_carry_the_ranked_texts() {
    let results = SearchedWords { words: vec!["braid".to_string(), "bard".to_string()] };
    assert_eq!(results.words.len(), 2);
    let _ = Pagination { next_page: None, prev_page: None };
}
