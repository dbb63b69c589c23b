//! Messages as the mail provider hands them out, and how a record is made
//! of one.

use vstd::prelude::*;
use crate::email::{Email, EmailView};
use crate::status::Status;
use crate::text::{
    eq_ignore_ascii_case, lemma_pieces_nonempty, lemma_pieces_single, names_match, parse_i64,
    pieces, split_on, text_i64,
};

verus! {

/// One header line of a message. Either part may be missing.
#[derive(Clone, Debug, PartialEq, Eq)]
pub struct RawHeader {
    pub name: Option<String>,
    pub value: Option<String>,
}

/// What the triage reads of a message as the provider delivers it. Every
/// part may be missing; `headers` is missing where the message came
/// without a payload or the payload without headers.
#[derive(Clone, Debug, PartialEq, Eq)]
pub struct RawMessage {
    pub id: Option<String>,
    pub snippet: Option<String>,
    pub internal_date: Option<String>,
    pub headers: Option<Vec<RawHeader>>,
}

/// A [`RawHeader`] as a mathematical value.
pub struct RawHeaderView {
    pub name: Option<Seq<char>>,
    pub value: Option<Seq<char>>,
}

/// A [`RawMessage`] as a mathematical value.
pub struct RawMessageView {
    pub id: Option<Seq<char>>,
    pub snippet: Option<Seq<char>>,
    pub internal_date: Option<Seq<char>>,
    pub headers: Option<Seq<RawHeaderView>>,
}

/// The text an optional string holds.
pub open spec fn text_of(s: Option<String>) -> Option<Seq<char>> {
    match s {
        Some(s) => Some(s@),
        None => None,
    }
}

/// The views of a sequence of headers, in the same order.
pub open spec fn header_views(headers: Seq<RawHeader>) -> Seq<RawHeaderView> {
    headers.map_values(|h: RawHeader| h@)
}

impl View for RawHeader {
    type V = RawHeaderView;

    open spec fn view(&self) -> RawHeaderView {
        RawHeaderView { name: text_of(self.name), value: text_of(self.value) }
    }
}

impl View for RawMessage {
    type V = RawMessageView;

    open spec fn view(&self) -> RawMessageView {
        RawMessageView {
            id: text_of(self.id),
            snippet: text_of(self.snippet),
            internal_date: text_of(self.internal_date),
            headers: match self.headers {
                Some(headers) => Some(header_views(headers@)),
                None => None,
            },
        }
    }
}

/// The value of the first header whose name is `name`, the case of ASCII
/// letters aside. `None` where there is no such header, and where the
/// first such header has no value.
pub open spec fn header_value(name: Seq<char>, headers: Seq<RawHeaderView>) -> Option<Seq<char>>
    decreases headers.len(),
{
    if headers.len() == 0 {
        None
    } else if headers[0].name is Some && names_match(name, headers[0].name->0) {
        headers[0].value
    } else {
        header_value(name, headers.skip(1))
    }
}

/// The text of an optional header value, empty where there is none.
pub open spec fn or_empty(value: Option<Seq<char>>) -> Seq<char> {
    match value {
        Some(text) => text,
        None => Seq::empty(),
    }
}

/// The address a record's sender is read from: the "from" header where it
/// is a single field between commas, else the "sender" header, else the
/// empty text. `None` where there is no "from" header.
pub open spec fn sender_address(headers: Seq<RawHeaderView>) -> Option<Seq<char>> {
    match header_value("from"@, headers) {
        Some(raw) => if pieces(raw, ',').len() == 1 {
            Some(pieces(raw, ',')[0])
        } else {
            Some(or_empty(header_value("sender"@, headers)))
        },
        None => None,
    }
}

/// The part of an address before its first `@`.
pub open spec fn address_name(address: Seq<char>) -> Seq<char> {
    pieces(address, '@')[0]
}

/// The part of an address between its first `@` and the next, or its end;
/// empty where the address has no `@`.
pub open spec fn address_domain(address: Seq<char>) -> Seq<char> {
    if pieces(address, '@').len() > 1 {
        pieces(address, '@')[1]
    } else {
        Seq::empty()
    }
}

/// The record made of a message: `None` where the headers, the "from"
/// header, the snippet, the identifier or the timestamp is missing, the
/// identifier is empty or the timestamp is no decimal `i64`.
pub open spec fn normalized(m: RawMessageView) -> Option<EmailView> {
    if m.headers is Some && sender_address(m.headers->0) is Some && m.internal_date is Some
        && text_i64(m.internal_date->0) is Some && m.snippet is Some && m.id is Some
        && m.id->0.len() > 0 {
        let address = sender_address(m.headers->0)->0;
        Some(
            EmailView {
                status: Status::Inbox,
                subject: or_empty(header_value("subject"@, m.headers->0)),
                from_name: address_name(address),
                from_domain: address_domain(address),
                body: m.snippet->0,
                date: text_i64(m.internal_date->0)->0,
                id: m.id->0,
            },
        )
    } else {
        None
    }
}

/// The view of an optional record.
pub open spec fn record_of(e: Option<Email>) -> Option<EmailView> {
    match e {
        Some(e) => Some(e@),
        None => None,
    }
}

/// Looks a header up by name, the case of ASCII letters aside, and hands
/// out the value of the first header of that name.
pub fn get_header(name: &str, headers: &[RawHeader]) -> (r: Option<String>)
    ensures
        text_of(r) == header_value(name@, header_views(headers@)),
{
    let ghost all = header_views(headers@);
    let mut i: usize = 0;
    assert(all.skip(0) =~= all);
    while i < headers.len()
        invariant
            i <= headers.len(),
            all == header_views(headers@),
            header_value(name@, all) == header_value(name@, all.skip(i as int)),
        decreases headers.len() - i,
    {
        let h = &headers[i];
        proof {
            assert(all.skip(i as int)[0] == h@);
            assert(all.skip(i as int).skip(1) =~= all.skip(i + 1));
        }
        match &h.name {
            Some(n) => {
                if eq_ignore_ascii_case(name, n.as_str()) {
                    return match &h.value {
                        Some(v) => Some(v.clone()),
                        None => None,
                    };
                }
            },
            None => {},
        }
        i = i + 1;
    }
    None
}

impl Email {
    /// Makes a record of a message as the provider delivers it. The
    /// record starts with the initial status.
    pub fn new(message: &RawMessage) -> (r: Option<Email>)
        ensures
            record_of(r) == normalized(message@),
    {
        let headers = match &message.headers {
            Some(headers) => headers.as_slice(),
            None => {
                return None;
            },
        };
        let subject: String = match get_header("subject", headers) {
            Some(subject) => subject,
            None => String::new(),
        };
        let from_raw: String = match get_header("from", headers) {
            Some(from_raw) => from_raw,
            None => {
                return None;
            },
        };
        let from_vec: Vec<&str> = split_on(from_raw.as_str(), ',');
        let from: String = if from_vec.len() != 1 {
            match get_header("sender", headers) {
                Some(sender) => sender,
                None => String::new(),
            }
        } else {
            let only: &str = from_vec[0];
            only.to_owned()
        };
        let from_parts: Vec<&str> = split_on(from.as_str(), '@');
        proof {
            lemma_pieces_nonempty(from@, '@');
        }
        let name_part: &str = from_parts[0];
        let from_name: String = name_part.to_owned();
        let from_domain: String = if from_parts.len() > 1 {
            let domain_part: &str = from_parts[1];
            domain_part.to_owned()
        } else {
            String::new()
        };
        let date: i64 = match &message.internal_date {
            Some(text) => match parse_i64(text.as_str()) {
                Some(date) => date,
                None => {
                    return None;
                },
            },
            None => {
                return None;
            },
        };
        let body: String = match &message.snippet {
            Some(snippet) => snippet.clone(),
            None => {
                return None;
            },
        };
        let id: String = match &message.id {
            Some(id) => id.clone(),
            None => {
                return None;
            },
        };
        if id.as_str().is_empty() {
            return None;
        }
        Some(Email { status: Status::Inbox, subject, body, from_name, from_domain, date, id })
    }
}

/// A "from" header that holds a comma names several addresses and is not
/// used: the sender is then read from the "sender" header, and where
/// there is none, sender name and domain are both empty.
pub proof fn lemma_multi_address_falls_back(m: RawMessageView, raw: Seq<char>)
    requires
        m.headers is Some,
        header_value("from"@, m.headers->0) == Some(raw),
        raw.contains(','),
    ensures
        sender_address(m.headers->0) == Some(or_empty(header_value("sender"@, m.headers->0))),
        normalized(m) matches Some(e) ==> match header_value("sender"@, m.headers->0) {
            Some(sender) => e.from_name == address_name(sender) && e.from_domain
                == address_domain(sender),
            None => e.from_name == Seq::<char>::empty() && e.from_domain == Seq::<char>::empty(),
        },
{
    lemma_pieces_single(raw, ',');
    lemma_address_without_at(Seq::<char>::empty());
}

/// A "from" header without a comma is the sender's address as it stands.
pub proof fn lemma_single_address_is_used(m: RawMessageView, raw: Seq<char>)
    requires
        m.headers is Some,
        header_value("from"@, m.headers->0) == Some(raw),
        !raw.contains(','),
    ensures
        sender_address(m.headers->0) == Some(raw),
        normalized(m) matches Some(e) ==> e.from_name == address_name(raw) && e.from_domain
            == address_domain(raw),
{
    lemma_pieces_single(raw, ',');
}

/// An address without `@` is all name and has no domain.
pub proof fn lemma_address_without_at(address: Seq<char>)
    requires
        !address.contains('@'),
    ensures
        address_name(address) == address,
        address_domain(address) == Seq::<char>::empty(),
{
    lemma_pieces_single(address, '@');
}

/// A record made of a message has the initial status and an identifier
/// that is not empty.
pub proof fn lemma_normalized_record(m: RawMessageView)
    requires
        normalized(m) is Some,
    ensures
        normalized(m)->0.status.is_initial(),
        normalized(m)->0.id.len() > 0,
        Some(normalized(m)->0.id) == m.id,
        Some(normalized(m)->0.body) == m.snippet,
        Some(normalized(m)->0.date) == text_i64(m.internal_date->0),
{
}

} // verus!
