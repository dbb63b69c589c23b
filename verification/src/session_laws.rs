//! What holds of every review session, proved over the mathematical model
//! of the engine.

use vstd::prelude::*;
use crate::command::{Command, Key};
use crate::email::EmailView;
use crate::engine::{in_group, run_end_from, triaged, EngineView, Grouping, Next};
use crate::status::Status;

verus! {

/// From any index on, the scan for the end of a run stops inside the
/// working set or at its length, every record it passed is in the group,
/// and the record it stopped at is not.
pub proof fn lemma_run_end_from(
    records: Seq<EmailView>,
    anchor: EmailView,
    grouping: Grouping,
    j: int,
)
    requires
        0 <= j <= records.len(),
    ensures
        j <= run_end_from(records, anchor, grouping, j) <= records.len(),
        forall|k: int|
            j <= k < run_end_from(records, anchor, grouping, j) ==> in_group(
                #[trigger] records[k],
                anchor,
                grouping,
            ),
        run_end_from(records, anchor, grouping, j) < records.len() ==> !in_group(
            records[run_end_from(records, anchor, grouping, j)],
            anchor,
            grouping,
        ),
    decreases records.len() - j,
{
    if j < records.len() && in_group(records[j], anchor, grouping) {
        lemma_run_end_from(records, anchor, grouping, j + 1);
    }
}

/// The run under the cursor holds the cursor's own record, lies inside the
/// working set, consists of records of the cursor's group and ends at the
/// first record that is not of that group.
pub proof fn lemma_run_end(s: EngineView, grouping: Grouping)
    requires
        s.wf(),
    ensures
        s.cursor < s.run_end(grouping) <= s.records.len(),
        forall|k: int|
            s.cursor <= k < s.run_end(grouping) ==> in_group(
                #[trigger] s.records[k],
                s.current(),
                grouping,
            ),
        s.run_end(grouping) < s.records.len() ==> !in_group(
            s.records[s.run_end(grouping)],
            s.current(),
            grouping,
        ),
{
    lemma_run_end_from(s.records, s.current(), grouping, s.cursor);
    lemma_run_end_from(s.records, s.current(), grouping, s.cursor + 1);
}

/// A run reaches at least as far as an unbroken stretch of records of the
/// cursor's group.
pub proof fn lemma_run_covers(s: EngineView, grouping: Grouping, j: int)
    requires
        s.wf(),
        s.cursor <= j < s.records.len(),
        forall|k: int| s.cursor <= k <= j ==> in_group(#[trigger] s.records[k], s.current(), grouping),
    ensures
        j < s.run_end(grouping),
{
    lemma_run_end(s, grouping);
    let end = s.run_end(grouping);
    if end <= j {
        assert(in_group(s.records[end], s.current(), grouping));
    }
}

/// Whatever the command, a session that goes on has its cursor inside a
/// working set that is not empty.
pub proof fn lemma_step_keeps_cursor_in_bounds(s: EngineView, command: Command)
    requires
        s.wf(),
    ensures
        s.step(command) matches Next::Continue { state, redraw } ==> 0 <= state.cursor
            < state.records.len(),
{
    lemma_run_end(s, Grouping::Sender);
    lemma_run_end(s, Grouping::Domain);
}

/// Whatever the key, a session that goes on has its cursor inside a
/// working set that is not empty.
pub proof fn lemma_key_keeps_cursor_in_bounds(s: EngineView, key: Key)
    requires
        s.wf(),
    ensures
        s.handle_key(key) matches Next::Continue { state, redraw } ==> 0 <= state.cursor
            < state.records.len(),
{
    lemma_run_end(s, Grouping::Sender);
    lemma_run_end(s, Grouping::Domain);
}

/// But for the commit filter, no command adds, drops or moves a record,
/// and no command changes anything of a record but its status.
pub proof fn lemma_commands_change_status_only(s: EngineView, command: Command)
    requires
        s.wf(),
        command != Command::CommitFilter,
    ensures
        s.step(command) matches Next::Continue { state, redraw } ==> {
            &&& state.records.len() == s.records.len()
            &&& forall|k: int|
                0 <= k < s.records.len() ==> #[trigger] state.records[k]
                    == s.records[k].with_status(state.records[k].status)
        },
{
    lemma_run_end(s, Grouping::Sender);
    lemma_run_end(s, Grouping::Domain);
}

/// Moving on and moving back keep the working set's length and move the
/// cursor by one record, except at the last and at the first record, where
/// it stays.
pub proof fn lemma_movement_clamps(s: EngineView)
    requires
        s.wf(),
    ensures
        s.advance().records.len() == s.records.len(),
        s.retreat().records.len() == s.records.len(),
        s.cursor < s.records.len() - 1 ==> s.advance().cursor == s.cursor + 1,
        s.cursor == s.records.len() - 1 ==> s.advance().cursor == s.cursor,
        s.cursor > 0 ==> s.retreat().cursor == s.cursor - 1,
        s.cursor == 0 ==> s.retreat().cursor == 0,
        0 <= s.advance().cursor < s.records.len(),
        0 <= s.retreat().cursor < s.records.len(),
{
}

/// Propagation by sender with `status` staged: every record from the
/// cursor on that shares sender name and domain with the cursor's record,
/// up to the first that does not, ends with `status` and is otherwise
/// unchanged. The cursor's own record is always among them.
pub proof fn lemma_propagate_by_sender(s: EngineView, status: Status, j: int)
    requires
        s.wf(),
        s.pending == Some(status),
        s.cursor <= j < s.records.len(),
        forall|k: int| s.cursor <= k <= j ==> (#[trigger] s.records[k]).same_sender(s.current()),
    ensures
        s.propagate(Grouping::Sender).records[j] == s.records[j].with_status(status),
        s.propagate(Grouping::Sender).records[s.cursor] == s.current().with_status(status),
        s.propagate(Grouping::Sender).pending is None,
{
    lemma_run_end(s, Grouping::Sender);
    lemma_run_covers(s, Grouping::Sender, j);
}

/// Propagation by domain with `status` staged: every record from the
/// cursor on that shares the sender domain with the cursor's record, up
/// to the first that does not, ends with `status` and is otherwise
/// unchanged. The cursor's own record is always among them.
pub proof fn lemma_propagate_by_domain(s: EngineView, status: Status, j: int)
    requires
        s.wf(),
        s.pending == Some(status),
        s.cursor <= j < s.records.len(),
        forall|k: int| s.cursor <= k <= j ==> (#[trigger] s.records[k]).same_domain(s.current()),
    ensures
        s.propagate(Grouping::Domain).records[j] == s.records[j].with_status(status),
        s.propagate(Grouping::Domain).records[s.cursor] == s.current().with_status(status),
        s.propagate(Grouping::Domain).pending is None,
{
    lemma_run_end(s, Grouping::Domain);
    lemma_run_covers(s, Grouping::Domain, j);
}

/// Propagation touches nothing outside the run: records before the cursor
/// and from the end of the run on stay as they are, the length stays, and
/// the cursor lands on the first record behind the run, or on the last
/// record where the run reaches the end.
pub proof fn lemma_propagate_frame(s: EngineView, grouping: Grouping)
    requires
        s.wf(),
    ensures
        s.propagate(grouping).records.len() == s.records.len(),
        forall|k: int|
            0 <= k < s.cursor || s.run_end(grouping) <= k < s.records.len() ==> (
            #[trigger] s.propagate(grouping).records[k]) == s.records[k],
        s.run_end(grouping) < s.records.len() ==> s.propagate(grouping).cursor == s.run_end(
            grouping,
        ),
        s.run_end(grouping) == s.records.len() ==> s.propagate(grouping).cursor
            == s.records.len() - 1,
        s.pending is None ==> s.propagate(grouping).records == s.records,
{
    lemma_run_end(s, grouping);
    if s.pending is None {
        assert(s.propagate(grouping).records =~= s.records);
    }
}

/// Filtering a sequence whose elements all pass the filter changes
/// nothing.
pub proof fn lemma_filter_of_passing<A>(s: Seq<A>, pred: spec_fn(A) -> bool)
    requires
        forall|i: int| 0 <= i < s.len() ==> pred(#[trigger] s[i]),
    ensures
        s.filter(pred) == s,
    decreases s.len(),
{
    reveal(Seq::filter);
    if s.len() > 0 {
        lemma_filter_of_passing(s.drop_last(), pred);
        assert(s.drop_last().push(s.last()) =~= s);
    }
}

/// How often a value occurs in a filtered sequence: as often as before if
/// it passes the filter, and not at all if it does not.
pub proof fn lemma_filter_count<A>(s: Seq<A>, pred: spec_fn(A) -> bool, a: A)
    ensures
        s.filter(pred).to_multiset().count(a) == if pred(a) {
            s.to_multiset().count(a)
        } else {
            0
        },
    decreases s.len(),
{
    reveal(Seq::filter);
    broadcast use vstd::seq_lib::group_to_multiset_ensures;

    if s.len() > 0 {
        let front = s.drop_last();
        lemma_filter_count(front, pred, a);
        assert(front.push(s.last()) =~= s);
        assert(s.to_multiset() =~= front.to_multiset().insert(s.last()));
        if pred(s.last()) {
            assert(s.filter(pred).to_multiset() =~= front.filter(pred).to_multiset().insert(
                s.last(),
            ));
        }
    } else {
        assert(s.filter(pred) =~= Seq::<A>::empty());
    }
}

/// The commit filter removes exactly the records that still have the
/// initial status: no such record is left, and every other record is
/// kept as often as it occurred.
pub proof fn lemma_commit_filter_exact(s: EngineView, e: EmailView)
    ensures
        s.commit_filter().records.to_multiset().count(e) == if e.status.is_initial() {
            0
        } else {
            s.records.to_multiset().count(e)
        },
        forall|i: int|
            0 <= i < s.commit_filter().records.len() ==> !(
            #[trigger] s.commit_filter().records[i]).status.is_initial(),
{
    broadcast use vstd::seq_lib::group_filter_ensures;

    lemma_filter_count(s.records, triaged(), e);
}

/// Running the commit filter twice leaves the same working set as
/// running it once.
pub proof fn lemma_commit_filter_idempotent(s: EngineView)
    ensures
        s.commit_filter().commit_filter() == s.commit_filter(),
{
    broadcast use vstd::seq_lib::group_filter_ensures;

    lemma_filter_of_passing(s.records.filter(triaged()), triaged());
}

/// Jumping to the start neither applies nor clears what is staged: the
/// working set is untouched by the jump, and the next movement gives the
/// staged status to the first record and to no other.
pub proof fn lemma_jump_keeps_pending(s: EngineView, status: Status)
    requires
        s.wf(),
    ensures
        s.set_pending(status).jump_to_start().pending == Some(status),
        s.set_pending(status).jump_to_start().records == s.records,
        s.set_pending(status).jump_to_start().cursor == 0,
        s.set_pending(status).jump_to_start().advance().records == s.records.update(
            0,
            s.records[0].with_status(status),
        ),
        s.set_pending(status).jump_to_start().advance().pending is None,
        s.cursor != 0 ==> s.set_pending(status).jump_to_start().advance().records[s.cursor]
            == s.current(),
{
}

} // verus!
