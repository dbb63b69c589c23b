//! Loading the inbox: first the identifiers, page by page, then the
//! messages, one by one.
//!
//! The loader decides what to ask the provider for and what to do with
//! each answer; the caller talks to the provider. The caller asks
//! [`InboxLoader::request`] for the next thing to do, does it, and reports
//! the outcome with [`InboxLoader::page_received`] or
//! [`InboxLoader::message_received`], until the request is
//! [`Request::Finished`].

use vstd::prelude::*;
use crate::email::{views, Email, EmailView};
use crate::message::{normalized, record_of, text_of, RawMessage, RawMessageView};

verus! {

/// One page of the provider's listing of the inbox: the identifiers on it,
/// any of which may be missing, and the token of the page that follows,
/// if one follows.
#[derive(Clone, Debug, PartialEq, Eq)]
pub struct IdPage {
    pub messages: Option<Vec<Option<String>>>,
    pub next_page_token: Option<String>,
}

/// An [`IdPage`] as a mathematical value.
pub struct IdPageView {
    pub messages: Option<Seq<Option<Seq<char>>>>,
    pub next_page_token: Option<Seq<char>>,
}

/// The texts of a sequence of strings, in the same order.
pub open spec fn texts(strings: Seq<String>) -> Seq<Seq<char>> {
    strings.map_values(|s: String| s@)
}

/// The texts of a sequence of optional strings, in the same order.
pub open spec fn optional_texts(strings: Seq<Option<String>>) -> Seq<Option<Seq<char>>> {
    strings.map_values(|s: Option<String>| text_of(s))
}

impl View for IdPage {
    type V = IdPageView;

    open spec fn view(&self) -> IdPageView {
        IdPageView {
            messages: match self.messages {
                Some(messages) => Some(optional_texts(messages@)),
                None => None,
            },
            next_page_token: text_of(self.next_page_token),
        }
    }
}

/// The view of an optional page.
pub open spec fn page_of(page: Option<IdPage>) -> Option<IdPageView> {
    match page {
        Some(page) => Some(page@),
        None => None,
    }
}

/// The view of an optional message.
pub open spec fn message_of(message: Option<RawMessage>) -> Option<RawMessageView> {
    match message {
        Some(message) => Some(message@),
        None => None,
    }
}

/// The identifiers that are there, in order.
pub open spec fn present(items: Seq<Option<Seq<char>>>) -> Seq<Seq<char>>
    decreases items.len(),
{
    if items.len() == 0 {
        Seq::empty()
    } else {
        match items.last() {
            Some(id) => present(items.drop_last()).push(id),
            None => present(items.drop_last()),
        }
    }
}

/// The record that the answer to a fetch yields: none where the fetch
/// failed, and none where no record can be made of the message.
pub open spec fn record_from(reply: Option<RawMessageView>) -> Option<EmailView> {
    match reply {
        Some(message) => normalized(message),
        None => None,
    }
}

/// What the caller is to do next.
#[derive(Clone, Debug, PartialEq, Eq)]
pub enum Request {
    /// List a page of the inbox: the first one, or the one `page_token`
    /// names.
    ListPage { page_token: Option<String> },
    /// Report `loaded`, the number of records made so far, and then fetch
    /// the message `id`.
    FetchMessage { id: String, loaded: usize },
    /// Nothing is left to do.
    Finished,
}

/// A [`Request`] as a mathematical value.
pub enum RequestView {
    ListPage { page_token: Option<Seq<char>> },
    FetchMessage { id: Seq<char>, loaded: int },
    Finished,
}

impl View for Request {
    type V = RequestView;

    open spec fn view(&self) -> RequestView {
        match self {
            Request::ListPage { page_token } => RequestView::ListPage {
                page_token: text_of(*page_token),
            },
            Request::FetchMessage { id, loaded } => RequestView::FetchMessage {
                id: id@,
                loaded: *loaded as int,
            },
            Request::Finished => RequestView::Finished,
        }
    }
}

/// The state of a loader as a mathematical value.
pub struct LoaderView {
    /// Whether identifiers are still being listed.
    pub listing: bool,
    /// The token of the page to list next; none for the first page.
    pub page_token: Option<Seq<char>>,
    /// The identifiers collected so far.
    pub ids: Seq<Seq<char>>,
    /// How many of the identifiers have been attempted.
    pub next: int,
    /// The records made so far.
    pub emails: Seq<EmailView>,
}

impl LoaderView {
    /// No identifier is attempted before the listing is over, no more are
    /// attempted than there are, and no more records are made than
    /// identifiers were attempted.
    pub open spec fn wf(self) -> bool {
        &&& 0 <= self.next <= self.ids.len()
        &&& self.emails.len() <= self.next
        &&& self.listing ==> self.next == 0
    }

    /// The state a loader starts in.
    pub open spec fn start() -> LoaderView {
        LoaderView {
            listing: true,
            page_token: None,
            ids: Seq::empty(),
            next: 0,
            emails: Seq::empty(),
        }
    }

    /// What is to be done next.
    pub open spec fn request(self) -> RequestView {
        if self.listing {
            RequestView::ListPage { page_token: self.page_token }
        } else if self.next < self.ids.len() {
            RequestView::FetchMessage { id: self.ids[self.next], loaded: self.emails.len() as int }
        } else {
            RequestView::Finished
        }
    }

    /// The state with the listing closed.
    pub open spec fn stop_listing(self) -> LoaderView {
        LoaderView { listing: false, page_token: None, ..self }
    }

    /// The state after the answer to a listing. A failed listing and a
    /// page without a list of identifiers end the listing. Otherwise the
    /// identifiers on the page are added; the listing goes on with the
    /// page's token, and ends where the page has none. Outside the
    /// listing an answer changes nothing.
    pub open spec fn page_received(self, page: Option<IdPageView>) -> LoaderView {
        if !self.listing {
            self
        } else {
            match page {
                None => self.stop_listing(),
                Some(page) => match page.messages {
                    None => self.stop_listing(),
                    Some(messages) => LoaderView {
                        listing: page.next_page_token is Some,
                        page_token: page.next_page_token,
                        ids: self.ids + present(messages),
                        ..self
                    },
                },
            }
        }
    }

    /// The state after the answer to a fetch: the identifier counts as
    /// attempted, and the record made of the message, if one can be made,
    /// is added. While nothing is being fetched an answer changes
    /// nothing.
    pub open spec fn message_received(self, reply: Option<RawMessageView>) -> LoaderView {
        if self.listing || self.next >= self.ids.len() {
            self
        } else {
            LoaderView {
                next: self.next + 1,
                emails: match record_from(reply) {
                    Some(e) => self.emails.push(e),
                    None => self.emails,
                },
                ..self
            }
        }
    }

    /// The state after the answers to a run of fetches.
    pub open spec fn messages_received(self, replies: Seq<Option<RawMessageView>>) -> LoaderView
        decreases replies.len(),
    {
        if replies.len() == 0 {
            self
        } else {
            self.messages_received(replies.drop_last()).message_received(replies.last())
        }
    }
}

/// The records that the answers to a run of fetches yield, in order.
pub open spec fn records_from(replies: Seq<Option<RawMessageView>>) -> Seq<EmailView>
    decreases replies.len(),
{
    if replies.len() == 0 {
        Seq::empty()
    } else {
        match record_from(replies.last()) {
            Some(e) => records_from(replies.drop_last()).push(e),
            None => records_from(replies.drop_last()),
        }
    }
}

/// Drives the loading of an inbox.
pub struct InboxLoader {
    listing: bool,
    page_token: Option<String>,
    ids: Vec<String>,
    next: usize,
    emails: Vec<Email>,
}

impl View for InboxLoader {
    type V = LoaderView;

    closed spec fn view(&self) -> LoaderView {
        LoaderView {
            listing: self.listing,
            page_token: text_of(self.page_token),
            ids: texts(self.ids@),
            next: self.next as int,
            emails: views(self.emails@),
        }
    }
}

impl InboxLoader {
    /// The invariant of a loader.
    pub open spec fn wf(&self) -> bool {
        self@.wf()
    }

    /// A loader that has asked for nothing yet.
    pub fn new() -> (loader: InboxLoader)
        ensures
            loader@ == LoaderView::start(),
            loader.wf(),
    {
        let loader = InboxLoader {
            listing: true,
            page_token: None,
            ids: Vec::new(),
            next: 0,
            emails: Vec::new(),
        };
        assert(texts(loader.ids@) =~= Seq::<Seq<char>>::empty());
        assert(views(loader.emails@) =~= Seq::<EmailView>::empty());
        loader
    }

    /// What the caller is to do next.
    pub fn request(&self) -> (r: Request)
        requires
            self.wf(),
        ensures
            r@ == self@.request(),
    {
        if self.listing {
            Request::ListPage {
                page_token: match &self.page_token {
                    Some(token) => Some(token.clone()),
                    None => None,
                },
            }
        } else if self.next < self.ids.len() {
            Request::FetchMessage { id: self.ids[self.next].clone(), loaded: self.emails.len() }
        } else {
            Request::Finished
        }
    }

    /// Whether nothing is left to do.
    pub fn is_finished(&self) -> (r: bool)
        requires
            self.wf(),
        ensures
            r == (self@.request() is Finished),
    {
        !self.listing && self.next >= self.ids.len()
    }

    /// Number of records made so far.
    pub fn loaded(&self) -> (n: usize)
        ensures
            n == self@.emails.len(),
    {
        self.emails.len()
    }

    /// The identifiers collected so far.
    pub fn ids(&self) -> (ids: &Vec<String>)
        ensures
            texts(ids@) == self@.ids,
    {
        &self.ids
    }

    /// Takes the answer to a listing: the page, or `None` where the
    /// listing failed.
    pub fn page_received(&mut self, page: Option<IdPage>)
        requires
            old(self).wf(),
        ensures
            final(self)@ == old(self)@.page_received(page_of(page)),
            final(self).wf(),
    {
        if !self.listing {
            return;
        }
        match page {
            None => {
                self.listing = false;
                self.page_token = None;
            },
            Some(page) => {
                let IdPage { messages, next_page_token } = page;
                match messages {
                    None => {
                        self.listing = false;
                        self.page_token = None;
                    },
                    Some(messages) => {
                        let ghost items = optional_texts(messages@);
                        let ghost before = texts(self.ids@);
                        proof {
                            assert(items.take(0) =~= Seq::<Option<Seq<char>>>::empty());
                            assert(before + present(items.take(0)) =~= before);
                        }
                        for m in it: messages
                            invariant
                                it.seq() == messages@,
                                items == optional_texts(messages@),
                                texts(self.ids@) == before + present(
                                    items.take(it.index() as int),
                                ),
                                self.next == old(self).next,
                                self.listing == old(self).listing,
                                self.emails == old(self).emails,
                        {
                            proof {
                                let i = it.index() as int;
                                assert(items.take(i + 1).drop_last() =~= items.take(i));
                                assert(items.take(i + 1).last() == text_of(m));
                            }
                            match m {
                                Some(id) => {
                                    self.ids.push(id);
                                    assert(texts(self.ids@) =~= (before + present(
                                        items.take(it.index() as int),
                                    )).push(id@));
                                    assert(texts(self.ids@) =~= before + present(
                                        items.take(it.index() as int + 1),
                                    ));
                                },
                                None => {},
                            }
                        }
                        proof {
                            assert(items.take(items.len() as int) =~= items);
                        }
                        self.listing = next_page_token.is_some();
                        self.page_token = next_page_token;
                    },
                }
            },
        }
    }

    /// Takes the answer to a fetch: the message, or `None` where the
    /// fetch failed.
    pub fn message_received(&mut self, message: Option<RawMessage>)
        requires
            old(self).wf(),
        ensures
            final(self)@ == old(self)@.message_received(message_of(message)),
            final(self).wf(),
    {
        if self.listing || self.next >= self.ids.len() {
            return;
        }
        self.next = self.next + 1;
        match message {
            Some(message) => {
                match Email::new(&message) {
                    Some(email) => {
                        self.emails.push(email);
                        assert(views(self.emails@) =~= views(old(self).emails@).push(email@));
                    },
                    None => {},
                }
            },
            None => {},
        }
    }

    /// Ends the loading and hands out the records made, in the order in
    /// which their identifiers were collected.
    pub fn into_emails(self) -> (emails: Vec<Email>)
        ensures
            views(emails@) == self@.emails,
    {
        self.emails
    }
}

/// Every answer leaves the loader in a valid state, and no answer takes
/// away an identifier or a record.
pub proof fn lemma_loader_steps(s: LoaderView, page: Option<IdPageView>, reply: Option<RawMessageView>)
    requires
        s.wf(),
    ensures
        s.page_received(page).wf(),
        s.message_received(reply).wf(),
        s.ids.is_prefix_of(s.page_received(page).ids),
        s.page_received(page).emails == s.emails,
        s.message_received(reply).ids == s.ids,
        s.emails.is_prefix_of(s.message_received(reply).emails),
{
}

/// The listing ends with a failed listing, with a page that has no list
/// of identifiers and with a page that has no token, and with nothing
/// else; a page that has both is read and followed.
pub proof fn lemma_listing_ends(s: LoaderView, page: Option<IdPageView>)
    requires
        s.wf(),
        s.listing,
    ensures
        s.page_received(page).listing <==> (page matches Some(p) && p.messages is Some
            && p.next_page_token is Some),
        page is Some && page->0.messages is Some ==> s.page_received(page).ids == s.ids + present(
            page->0.messages->0,
        ),
        !(page is Some && page->0.messages is Some) ==> s.page_received(page).ids == s.ids,
        s.page_received(page).listing ==> s.page_received(page).request() == (
        RequestView::ListPage { page_token: page->0.next_page_token }),
{
}

/// Once the listing is over, the answers to the fetches of the next
/// identifiers add the records they yield, in order, and nothing else:
/// a failed fetch and a message of which no record can be made are
/// passed over.
pub proof fn lemma_fetch_run(s: LoaderView, replies: Seq<Option<RawMessageView>>)
    requires
        s.wf(),
        !s.listing,
        s.next + replies.len() <= s.ids.len(),
    ensures
        s.messages_received(replies).wf(),
        !s.messages_received(replies).listing,
        s.messages_received(replies).ids == s.ids,
        s.messages_received(replies).next == s.next + replies.len(),
        s.messages_received(replies).emails == s.emails + records_from(replies),
    decreases replies.len(),
{
    if replies.len() == 0 {
        assert(s.emails + records_from(replies) =~= s.emails);
    } else {
        lemma_fetch_run(s, replies.drop_last());
        let mid = s.messages_received(replies.drop_last());
        assert(mid.message_received(replies.last()).emails =~= s.emails + records_from(replies));
    }
}

/// A loader that has attempted every identifier has nothing left to ask
/// for.
pub proof fn lemma_fetch_run_finishes(s: LoaderView, replies: Seq<Option<RawMessageView>>)
    requires
        s.wf(),
        !s.listing,
        s.next + replies.len() == s.ids.len(),
    ensures
        s.messages_received(replies).request() == RequestView::Finished,
{
    lemma_fetch_run(s, replies);
}

} // verus!
