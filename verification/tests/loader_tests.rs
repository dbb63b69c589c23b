use rust_gmail_sorter::email::Email;
use rust_gmail_sorter::loader::{IdPage, InboxLoader, Request};
use rust_gmail_sorter::message::{RawHeader, RawMessage};

fn fetched(id: &str, from: &str) -> RawMessage {
    RawMessage {
        id: Some(id.to_string()),
        snippet: Some(format!("snippet of {}", id)),
        internal_date: Some("1000".to_string()),
        headers: Some(vec![RawHeader {
            name: Some("From".to_string()),
            value: Some(from.to_string()),
        }]),
    }
}

fn page(ids: &[Option<&str>], token: Option<&str>) -> IdPage {
    IdPage {
        messages: Some(ids.iter().map(|id| id.map(|s| s.to_string())).collect()),
        next_page_token: token.map(|s| s.to_string()),
    }
}

/// Runs a loader against pages and messages held in memory and counts
/// the progress reports.
fn run(pages: Vec<Option<IdPage>>, messages: Vec<(&str, Option<RawMessage>)>) -> (Vec<Email>, Vec<usize>) {
    let mut loader = InboxLoader::new();
    let mut pages = pages.into_iter();
    let mut progress = Vec::new();
    loop {
        match loader.request() {
            Request::ListPage { .. } => {
                let answer = pages.next().expect("a page was asked for that is not there");
                loader.page_received(answer);
            }
            Request::FetchMessage { id, loaded } => {
                progress.push(loaded);
                let answer = messages
                    .iter()
                    .find(|(known, _)| *known == id)
                    .and_then(|(_, m)| m.clone());
                loader.message_received(answer);
            }
            Request::Finished => break,
        }
    }
    assert!(loader.is_finished());
    (loader.into_emails(), progress)
}

#[test]
fn a_failed_fetch_is_passed_over() {
    let pages = vec![Some(page(&[Some("a"), Some("b")], None))];
    let messages = vec![("a", None), ("b", Some(fetched("b", "bob@example.org")))];
    let (emails, progress) = run(pages, messages);
    assert_eq!(emails.len(), 1);
    assert_eq!(emails[0].id, "b");
    assert_eq!(emails[0].from_name, "bob");
    assert_eq!(progress.len(), 2);
    assert_eq!(progress, vec![0, 0]);
}

#[test]
fn progress_counts_the_records_made_so_far() {
    let pages = vec![Some(page(&[Some("a"), Some("b"), Some("c")], None))];
    let messages = vec![
        ("a", Some(fetched("a", "ann@example.org"))),
        ("b", None),
        ("c", Some(fetched("c", "cy@example.org"))),
    ];
    let (emails, progress) = run(pages, messages);
    assert_eq!(emails.len(), 2);
    assert_eq!(emails[0].id, "a");
    assert_eq!(emails[1].id, "c");
    assert_eq!(progress, vec![0, 1, 1]);
}

#[test]
fn a_message_of_which_no_record_can_be_made_is_passed_over() {
    let pages = vec![Some(page(&[Some("a"), Some("b")], None))];
    let mut broken = fetched("a", "ann@example.org");
    broken.internal_date = Some("soon".to_string());
    let messages = vec![("a", Some(broken)), ("b", Some(fetched("b", "bob@example.org")))];
    let (emails, progress) = run(pages, messages);
    assert_eq!(emails.len(), 1);
    assert_eq!(emails[0].id, "b");
    assert_eq!(progress, vec![0, 0]);
}

#[test]
fn every_page_is_read_up_to_the_one_without_a_token() {
    let mut loader = InboxLoader::new();
    assert_eq!(loader.request(), Request::ListPage { page_token: None });
    loader.page_received(Some(page(&[Some("a"), Some("b")], Some("t1"))));
    assert_eq!(loader.request(), Request::ListPage { page_token: Some("t1".to_string()) });
    loader.page_received(Some(page(&[Some("c")], Some("t2"))));
    assert_eq!(loader.request(), Request::ListPage { page_token: Some("t2".to_string()) });
    loader.page_received(Some(page(&[Some("d"), Some("e")], None)));
    assert_eq!(loader.ids(), &vec!["a", "b", "c", "d", "e"]);
    assert_eq!(loader.request(), Request::FetchMessage { id: "a".to_string(), loaded: 0 });
}

#[test]
fn a_single_page_without_a_token_is_read() {
    let mut loader = InboxLoader::new();
    loader.page_received(Some(page(&[Some("a")], None)));
    assert_eq!(loader.ids(), &vec!["a"]);
    assert!(!loader.is_finished());
}

#[test]
fn a_failed_listing_ends_the_listing() {
    let mut loader = InboxLoader::new();
    loader.page_received(Some(page(&[Some("a")], Some("t1"))));
    loader.page_received(None);
    assert_eq!(loader.ids(), &vec!["a"]);
    assert_eq!(loader.request(), Request::FetchMessage { id: "a".to_string(), loaded: 0 });
    let mut loader = InboxLoader::new();
    loader.page_received(None);
    assert!(loader.is_finished());
    assert_eq!(loader.request(), Request::Finished);
    assert!(loader.into_emails().is_empty());
}

#[test]
fn a_page_without_a_list_ends_the_listing() {
    let mut loader = InboxLoader::new();
    loader.page_received(Some(page(&[Some("a")], Some("t1"))));
    loader.page_received(Some(IdPage { messages: None, next_page_token: Some("t2".to_string()) }));
    assert_eq!(loader.ids(), &vec!["a"]);
    assert_eq!(loader.request(), Request::FetchMessage { id: "a".to_string(), loaded: 0 });
}

#[test]
fn entries_without_an_identifier_are_left_out() {
    let mut loader = InboxLoader::new();
    loader.page_received(Some(page(&[None, Some("a"), None, Some("b"), None], None)));
    assert_eq!(loader.ids(), &vec!["a", "b"]);
}

#[test]
fn answers_that_were_not_asked_for_change_nothing() {
    let mut loader = InboxLoader::new();
    loader.message_received(Some(fetched("x", "x@example.org")));
    assert_eq!(loader.loaded(), 0);
    assert_eq!(loader.request(), Request::ListPage { page_token: None });
    loader.page_received(Some(page(&[Some("a")], None)));
    loader.page_received(Some(page(&[Some("b")], Some("t"))));
    assert_eq!(loader.ids(), &vec!["a"]);
    loader.message_received(Some(fetched("a", "ann@example.org")));
    assert_eq!(loader.loaded(), 1);
    assert!(loader.is_finished());
    loader.message_received(Some(fetched("b", "bob@example.org")));
    assert_eq!(loader.loaded(), 1);
    assert!(loader.is_finished());
}

#[test]
fn records_come_in_the_order_of_their_identifiers() {
    let pages = vec![
        Some(page(&[Some("c"), Some("a")], Some("t"))),
        Some(page(&[Some("b")], None)),
    ];
    let messages = vec![
        ("a", Some(fetched("a", "ann@example.org"))),
        ("b", Some(fetched("b", "bob@example.org"))),
        ("c", Some(fetched("c", "cy@example.org"))),
    ];
    let (emails, progress) = run(pages, messages);
    let ids: Vec<&str> = emails.iter().map(|e| e.id.as_str()).collect();
    assert_eq!(ids, vec!["c", "a", "b"]);
    assert_eq!(progress, vec![0, 1, 2]);
}
