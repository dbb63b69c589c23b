//! The review session: an ordered working set, a cursor into it and a
//! staged status, driven by one command at a time.

use vstd::prelude::*;
use crate::command::{command_for, Command, Key};
use crate::email::{update_status, views, Email, EmailView};
use crate::status::Status;

verus! {

/// What the records of a run have in common with the record the run
/// starts at.
#[derive(Clone, Copy, Debug, PartialEq, Eq, Structural)]
pub enum Grouping {
    /// Sender name and sender domain.
    Sender,
    /// Sender domain alone.
    Domain,
}

/// The predicate that says which records outlive [`Engine::commit_filter`]:
/// those whose status is no longer the initial one.
pub open spec fn triaged() -> spec_fn(EmailView) -> bool {
    |e: EmailView| !e.status.is_initial()
}

/// Whether `record` belongs to the run that starts at `anchor`.
pub open spec fn in_group(record: EmailView, anchor: EmailView, grouping: Grouping) -> bool {
    match grouping {
        Grouping::Sender => record.same_sender(anchor),
        Grouping::Domain => record.same_domain(anchor),
    }
}

/// First index at or after `j` whose record is not in the group of
/// `anchor`, or the length of `records` if there is none.
pub open spec fn run_end_from(
    records: Seq<EmailView>,
    anchor: EmailView,
    grouping: Grouping,
    j: int,
) -> int
    decreases records.len() - j,
{
    if 0 <= j < records.len() && in_group(records[j], anchor, grouping) {
        run_end_from(records, anchor, grouping, j + 1)
    } else {
        j
    }
}

/// The state of a session as a mathematical value.
pub struct EngineView {
    pub records: Seq<EmailView>,
    pub cursor: int,
    pub pending: Option<Status>,
}

impl EngineView {
    /// The working set is not empty and the cursor points into it.
    pub open spec fn wf(self) -> bool {
        0 <= self.cursor < self.records.len()
    }

    /// The record under the cursor.
    pub open spec fn current(self) -> EmailView {
        self.records[self.cursor]
    }

    /// The last valid index.
    pub open spec fn last_index(self) -> int {
        self.records.len() - 1
    }

    /// The records once the staged status, if any, is applied to the
    /// record under the cursor.
    pub open spec fn applied(self) -> Seq<EmailView> {
        self.records.update(self.cursor, self.current().staged(self.pending))
    }

    pub open spec fn set_pending(self, status: Status) -> EngineView {
        EngineView { pending: Some(status), ..self }
    }

    pub open spec fn advance(self) -> EngineView {
        EngineView {
            records: self.applied(),
            cursor: if self.cursor + 1 <= self.last_index() {
                self.cursor + 1
            } else {
                self.last_index()
            },
            pending: None,
        }
    }

    pub open spec fn retreat(self) -> EngineView {
        EngineView {
            records: self.applied(),
            cursor: if self.cursor - 1 >= 0 {
                self.cursor - 1
            } else {
                0
            },
            pending: None,
        }
    }

    pub open spec fn jump_to_start(self) -> EngineView {
        EngineView { cursor: 0, ..self }
    }

    /// End of the run that starts under the cursor: the first index behind
    /// the cursor whose record differs from the cursor's record in what
    /// `grouping` names, or the length of the working set.
    pub open spec fn run_end(self, grouping: Grouping) -> int {
        run_end_from(self.records, self.current(), grouping, self.cursor)
    }

    pub open spec fn propagate(self, grouping: Grouping) -> EngineView {
        let end = self.run_end(grouping);
        EngineView {
            records: Seq::new(
                self.records.len(),
                |k: int|
                    if self.cursor <= k < end {
                        self.records[k].staged(self.pending)
                    } else {
                        self.records[k]
                    },
            ),
            cursor: if end <= self.last_index() {
                end
            } else {
                self.last_index()
            },
            pending: None,
        }
    }

    /// The session restricted to the records that were given a status
    /// other than the initial one, with the cursor back at the start. The
    /// staged status stays as it is.
    pub open spec fn commit_filter(self) -> EngineView {
        EngineView { records: self.records.filter(triaged()), cursor: 0, pending: self.pending }
    }
}

/// How a session goes on after a command, as a mathematical value.
pub enum Next {
    /// The session goes on in `state`; `redraw` says whether the screen is
    /// drawn again.
    Continue { state: EngineView, redraw: bool },
    /// The operator ended the session.
    Quit,
    /// No record is left to review.
    Empty,
}

impl EngineView {
    /// The effect of one command on a session.
    pub open spec fn step(self, command: Command) -> Next {
        match command {
            Command::Quit => Next::Quit,
            Command::SetPending(status) => Next::Continue {
                state: self.set_pending(status),
                redraw: false,
            },
            Command::JumpToStart => Next::Continue { state: self.jump_to_start(), redraw: true },
            Command::Advance => Next::Continue { state: self.advance(), redraw: true },
            Command::Retreat => Next::Continue { state: self.retreat(), redraw: true },
            Command::PropagateBySender => Next::Continue {
                state: self.propagate(Grouping::Sender),
                redraw: true,
            },
            Command::PropagateByDomain => Next::Continue {
                state: self.propagate(Grouping::Domain),
                redraw: true,
            },
            Command::CommitFilter => if self.commit_filter().records.len() == 0 {
                Next::Empty
            } else {
                Next::Continue { state: self.commit_filter(), redraw: false }
            },
            Command::Redraw => Next::Continue { state: self, redraw: true },
        }
    }

    /// The effect of one key press: a key without a meaning changes
    /// nothing.
    pub open spec fn handle_key(self, key: Key) -> Next {
        match command_for(key) {
            Some(command) => self.step(command),
            None => Next::Continue { state: self, redraw: false },
        }
    }
}

/// A review session over a working set that is never empty.
pub struct Engine {
    records: Vec<Email>,
    cursor: usize,
    pending: Option<Status>,
}

impl View for Engine {
    type V = EngineView;

    closed spec fn view(&self) -> EngineView {
        EngineView {
            records: views(self.records@),
            cursor: self.cursor as int,
            pending: self.pending,
        }
    }
}

impl Engine {
    /// The invariant of a session: a working set that is not empty, and a
    /// cursor that is a valid index into it.
    pub open spec fn wf(&self) -> bool {
        self@.wf()
    }

    /// Starts a session at the first record with nothing staged. There is
    /// no session over an empty working set.
    pub fn new(records: Vec<Email>) -> (r: Option<Engine>)
        ensures
            r is Some <==> records@.len() > 0,
            r matches Some(engine) ==> engine.wf() && engine@ == (EngineView {
                records: views(records@),
                cursor: 0,
                pending: None,
            }),
    {
        Engine::resume(records, 0, None)
    }

    /// Takes a session up at a given place. A cursor beyond the end is
    /// pulled back to the last record. There is no session over an empty
    /// working set.
    pub fn resume(records: Vec<Email>, cursor: usize, pending: Option<Status>) -> (r: Option<
        Engine,
    >)
        ensures
            r is Some <==> records@.len() > 0,
            r matches Some(engine) ==> engine.wf() && engine@ == (EngineView {
                records: views(records@),
                cursor: if cursor < records@.len() {
                    cursor as int
                } else {
                    records@.len() - 1
                },
                pending,
            }),
    {
        let len: usize = records.len();
        if len == 0 {
            None
        } else {
            let cursor: usize = if cursor < len {
                cursor
            } else {
                len - 1
            };
            Some(Engine { records, cursor, pending })
        }
    }

    /// Index of the record under review.
    pub fn cursor(&self) -> (i: usize)
        ensures
            i == self@.cursor,
    {
        self.cursor
    }

    /// Number of records in the working set.
    pub fn len(&self) -> (n: usize)
        ensures
            n == self@.records.len(),
    {
        self.records.len()
    }

    /// The staged status, if there is one.
    pub fn pending(&self) -> (p: Option<Status>)
        ensures
            p == self@.pending,
    {
        self.pending
    }

    /// The record under review.
    pub fn current(&self) -> (e: &Email)
        requires
            self.wf(),
        ensures
            e@ == self@.current(),
    {
        &self.records[self.cursor]
    }

    /// The working set in review order.
    pub fn records(&self) -> (r: &Vec<Email>)
        ensures
            views(r@) == self@.records,
    {
        &self.records
    }

    /// Ends the session and hands the working set back.
    pub fn into_records(self) -> (r: Vec<Email>)
        ensures
            views(r@) == self@.records,
    {
        self.records
    }

    /// Stages a status. No record changes until a movement applies it.
    pub fn set_pending(&mut self, status: Status)
        ensures
            final(self)@ == old(self)@.set_pending(status),
            old(self).wf() ==> final(self).wf(),
    {
        self.pending = Some(status);
    }

    /// Applies the staged status to the record under the cursor, if one
    /// is staged, and clears it.
    fn apply_pending(&mut self)
        requires
            old(self).wf(),
        ensures
            final(self)@ == (EngineView { records: old(self)@.applied(), pending: None, ..old(self)@ }),
            final(self).wf(),
    {
        let staged: Option<Status> = self.pending;
        let i: usize = self.cursor;
        update_status(&mut self.records[i], &staged);
        self.pending = None;
        assert(views(self.records@) =~= old(self)@.applied());
    }

    /// Applies the staged status to the record under the cursor and moves
    /// one record on; at the last record the cursor stays.
    pub fn advance(&mut self)
        requires
            old(self).wf(),
        ensures
            final(self)@ == old(self)@.advance(),
            final(self).wf(),
    {
        self.apply_pending();
        if self.cursor < self.records.len() - 1 {
            self.cursor = self.cursor + 1;
        }
    }

    /// Applies the staged status to the record under the cursor and moves
    /// one record back; at the first record the cursor stays.
    pub fn retreat(&mut self)
        requires
            old(self).wf(),
        ensures
            final(self)@ == old(self)@.retreat(),
            final(self).wf(),
    {
        self.apply_pending();
        if self.cursor > 0 {
            self.cursor = self.cursor - 1;
        }
    }

    /// Moves the cursor to the first record. The staged status is neither
    /// applied nor cleared.
    pub fn jump_to_start(&mut self)
        requires
            old(self).wf(),
        ensures
            final(self)@ == old(self)@.jump_to_start(),
            final(self).wf(),
    {
        self.cursor = 0;
    }

    /// Applies the staged status to the record under the cursor and to
    /// every record that follows it without a break in `grouping`; the
    /// cursor goes to the first record behind the run, or stays on the
    /// last record where the run reaches the end.
    fn propagate(&mut self, grouping: Grouping)
        requires
            old(self).wf(),
        ensures
            final(self)@ == old(self)@.propagate(grouping),
            final(self).wf(),
    {
        let staged: Option<Status> = self.pending;
        let start: usize = self.cursor;
        let len: usize = self.records.len();
        let ghost before = self@;
        let mut j: usize = start;
        while j < len && same_group(&self.records[j], &self.records[start], grouping)
            invariant
                start <= j <= len,
                start < len,
                len == self.records.len(),
                before.records.len() == len,
                before.cursor == start,
                before.pending == staged,
                views(self.records@) =~= Seq::new(
                    len as nat,
                    |k: int|
                        if start <= k < j {
                            before.records[k].staged(staged)
                        } else {
                            before.records[k]
                        },
                ),
                run_end_from(before.records, before.current(), grouping, j as int)
                    == before.run_end(grouping),
            decreases len - j,
        {
            assert(views(self.records@)[j as int] == self.records@[j as int]@);
            assert(views(self.records@)[start as int] == self.records@[start as int]@);
            assert(in_group(before.records[j as int], before.current(), grouping));
            let ghost prior = self.records@;
            update_status(&mut self.records[j], &staged);
            proof {
                assert forall|k: int| 0 <= k < len implies views(self.records@)[k] == (if start
                    <= k < j + 1 {
                    before.records[k].staged(staged)
                } else {
                    before.records[k]
                }) by {
                    if k != j {
                        assert(self.records@[k] == prior[k]);
                        assert(views(prior)[k] == prior[k]@);
                    } else {
                        assert(views(prior)[k] == prior[k]@);
                    }
                }
            }
            j = j + 1;
        }
        proof {
            if j < len {
                assert(views(self.records@)[j as int] == self.records@[j as int]@);
                assert(views(self.records@)[start as int] == self.records@[start as int]@);
                assert(!in_group(before.records[j as int], before.current(), grouping));
            }
            assert(run_end_from(before.records, before.current(), grouping, j as int) == j);
        }
        self.pending = None;
        self.cursor = if j < len {
            j
        } else {
            len - 1
        };
        assert(self@.records =~= before.propagate(grouping).records);
    }

    /// Propagates the staged status along the run of records that share
    /// sender name and sender domain with the record under the cursor.
    pub fn propagate_by_sender(&mut self)
        requires
            old(self).wf(),
        ensures
            final(self)@ == old(self)@.propagate(Grouping::Sender),
            final(self).wf(),
    {
        self.propagate(Grouping::Sender);
    }

    /// Propagates the staged status along the run of records that share
    /// the sender domain with the record under the cursor.
    pub fn propagate_by_domain(&mut self)
        requires
            old(self).wf(),
        ensures
            final(self)@ == old(self)@.propagate(Grouping::Domain),
            final(self).wf(),
    {
        self.propagate(Grouping::Domain);
    }

    /// Drops every record that still has the initial status. What is left
    /// is reviewed from the start; if nothing is left the session is over.
    pub fn commit_filter(self) -> (r: Option<Engine>)
        ensures
            r is Some <==> self@.commit_filter().records.len() > 0,
            r matches Some(engine) ==> engine.wf() && engine@ == self@.commit_filter(),
    {
        let pending: Option<Status> = self.pending;
        let kept: Vec<Email> = retain_triaged(self.records);
        if kept.len() == 0 {
            None
        } else {
            Some(Engine { records: kept, cursor: 0, pending })
        }
    }
}

/// How a session goes on after a command.
pub enum Transition {
    /// The session goes on with `engine`; `redraw` says whether the screen
    /// is to be drawn again.
    Continue { engine: Engine, redraw: bool },
    /// The operator ended the session.
    Quit,
    /// No record is left to review.
    Empty,
}

impl View for Transition {
    type V = Next;

    open spec fn view(&self) -> Next {
        match self {
            Transition::Continue { engine, redraw } => Next::Continue {
                state: engine@,
                redraw: *redraw,
            },
            Transition::Quit => Next::Quit,
            Transition::Empty => Next::Empty,
        }
    }
}

impl Transition {
    /// A session that goes on is a valid session.
    pub open spec fn wf(&self) -> bool {
        match self {
            Transition::Continue { engine, redraw } => engine.wf(),
            _ => true,
        }
    }
}

impl Engine {
    /// Carries out one command.
    pub fn step(self, command: Command) -> (t: Transition)
        requires
            self.wf(),
        ensures
            t@ == self@.step(command),
            t.wf(),
    {
        let mut engine = self;
        match command {
            Command::Quit => Transition::Quit,
            Command::SetPending(status) => {
                engine.set_pending(status);
                Transition::Continue { engine, redraw: false }
            },
            Command::JumpToStart => {
                engine.jump_to_start();
                Transition::Continue { engine, redraw: true }
            },
            Command::Advance => {
                engine.advance();
                Transition::Continue { engine, redraw: true }
            },
            Command::Retreat => {
                engine.retreat();
                Transition::Continue { engine, redraw: true }
            },
            Command::PropagateBySender => {
                engine.propagate_by_sender();
                Transition::Continue { engine, redraw: true }
            },
            Command::PropagateByDomain => {
                engine.propagate_by_domain();
                Transition::Continue { engine, redraw: true }
            },
            Command::CommitFilter => {
                match engine.commit_filter() {
                    Some(engine) => Transition::Continue { engine, redraw: false },
                    None => Transition::Empty,
                }
            },
            Command::Redraw => Transition::Continue { engine, redraw: true },
        }
    }

    /// Carries out the command that a key stands for. A key without a
    /// meaning leaves the session as it is.
    pub fn handle_key(self, key: Key) -> (t: Transition)
        requires
            self.wf(),
        ensures
            t@ == self@.handle_key(key),
            t.wf(),
    {
        match Command::from_key(key) {
            Some(command) => self.step(command),
            None => Transition::Continue { engine: self, redraw: false },
        }
    }
}

/// Whether `record` shares with `anchor` what `grouping` names.
fn same_group(record: &Email, anchor: &Email, grouping: Grouping) -> (r: bool)
    ensures
        r == in_group(record@, anchor@, grouping),
{
    match grouping {
        Grouping::Sender => record.from_name == anchor.from_name && record.from_domain
            == anchor.from_domain,
        Grouping::Domain => record.from_domain == anchor.from_domain,
    }
}

/// Keeps, in order, the records whose status is not the initial one.
pub fn retain_triaged(records: Vec<Email>) -> (kept: Vec<Email>)
    ensures
        views(kept@) == views(records@).filter(triaged()),
{
    let ghost all = views(records@);
    let mut kept: Vec<Email> = Vec::new();
    proof {
        reveal(Seq::filter);
        assert(all.take(0).filter(triaged()) =~= Seq::<EmailView>::empty());
    }
    for e in it: records
        invariant
            it.seq() == records@,
            all == views(records@),
            views(kept@) == all.take(it.index() as int).filter(triaged()),
    {
        proof {
            let i = it.index() as int;
            let upto = all.take(i + 1);
            reveal(Seq::filter);
            assert(upto.drop_last() =~= all.take(i));
            assert(upto.last() == e@);
            assert(upto.filter(triaged()) == if triaged()(upto.last()) {
                upto.drop_last().filter(triaged()).push(upto.last())
            } else {
                upto.drop_last().filter(triaged())
            });
        }
        if e.status != Status::Inbox {
            kept.push(e);
            assert(views(kept@) =~= all.take(it.index() as int).filter(triaged()).push(e@));
        }
    }
    assert(all.take(all.len() as int) =~= all);
    kept
}

} // verus!
