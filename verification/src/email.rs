//! The record the triage works on.

use vstd::prelude::*;
use crate::status::Status;

verus! {

/// One message under review. Everything but `status` is fixed when the
/// record is made.
#[derive(Clone, Debug, PartialEq, Eq)]
pub struct Email {
    pub status: Status,
    pub subject: String,
    pub from_name: String,
    pub from_domain: String,
    pub body: String,
    pub date: i64,
    pub id: String,
}

/// An [`Email`] as a mathematical value.
pub struct EmailView {
    pub status: Status,
    pub subject: Seq<char>,
    pub from_name: Seq<char>,
    pub from_domain: Seq<char>,
    pub body: Seq<char>,
    pub date: i64,
    pub id: Seq<char>,
}

impl View for Email {
    type V = EmailView;

    open spec fn view(&self) -> EmailView {
        EmailView {
            status: self.status,
            subject: self.subject@,
            from_name: self.from_name@,
            from_domain: self.from_domain@,
            body: self.body@,
            date: self.date,
            id: self.id@,
        }
    }
}

impl EmailView {
    /// The record with its status replaced.
    pub open spec fn with_status(self, status: Status) -> EmailView {
        EmailView { status, ..self }
    }

    /// The record after a staged status, if there is one, has been applied.
    pub open spec fn staged(self, pending: Option<Status>) -> EmailView {
        match pending {
            Some(status) => self.with_status(status),
            None => self,
        }
    }

    /// Same sender name and same sender domain.
    pub open spec fn same_sender(self, other: EmailView) -> bool {
        self.from_name == other.from_name && self.from_domain == other.from_domain
    }

    /// Same sender domain.
    pub open spec fn same_domain(self, other: EmailView) -> bool {
        self.from_domain == other.from_domain
    }
}

/// The views of a sequence of records, in the same order.
pub open spec fn views(records: Seq<Email>) -> Seq<EmailView> {
    records.map_values(|e: Email| e@)
}

/// Applies a staged status to a record; with nothing staged the record is
/// left as it is.
pub fn update_status(current: &mut Email, status: &Option<Status>)
    ensures
        final(current)@ == old(current)@.staged(*status),
{
    match status {
        Some(s) => {
            current.status = *s;
        },
        None => {},
    }
}

} // verus!
