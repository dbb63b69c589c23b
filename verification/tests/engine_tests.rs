use rust_gmail_sorter::command::{Command, Key};
use rust_gmail_sorter::email::{update_status, Email};
use rust_gmail_sorter::engine::{retain_triaged, Engine, Transition};
use rust_gmail_sorter::status::Status;

fn record(id: &str, name: &str, domain: &str, status: Status) -> Email {
    Email {
        status,
        subject: format!("subject {}", id),
        from_name: name.to_string(),
        from_domain: domain.to_string(),
        body: format!("body {}", id),
        date: 0,
        id: id.to_string(),
    }
}

fn inbox(id: &str, name: &str, domain: &str) -> Email {
    record(id, name, domain, Status::Inbox)
}

fn statuses(engine: &Engine) -> Vec<Status> {
    engine.records().iter().map(|e| e.status).collect()
}

fn ids(records: &[Email]) -> Vec<String> {
    records.iter().map(|e| e.id.clone()).collect()
}

fn proceed(t: Transition) -> (Engine, bool) {
    match t {
        Transition::Continue { engine, redraw } => (engine, redraw),
        Transition::Quit => panic!("the session was quit"),
        Transition::Empty => panic!("the session ran empty"),
    }
}

fn five() -> Vec<Email> {
    vec![
        inbox("1", "ann", "x.org"),
        inbox("2", "ann", "x.org"),
        inbox("3", "bob", "x.org"),
        inbox("4", "ann", "y.org"),
        inbox("5", "ann", "y.org"),
    ]
}

#[test]
fn update_status_applies_a_staged_status() {
    let mut e = inbox("1", "ann", "x.org");
    update_status(&mut e, &Some(Status::Archive));
    assert_eq!(e.status, Status::Archive);
    assert_eq!(e.id, "1");
    assert_eq!(e.from_name, "ann");
}

#[test]
fn update_status_without_a_staged_status_changes_nothing() {
    let mut e = record("1", "ann", "x.org", Status::FollowUp);
    let before = e.clone();
    update_status(&mut e, &None);
    assert_eq!(e, before);
}

#[test]
fn no_session_over_an_empty_working_set() {
    assert!(Engine::new(Vec::new()).is_none());
    assert!(Engine::resume(Vec::new(), 3, Some(Status::Archive)).is_none());
}

#[test]
fn a_session_starts_at_the_first_record_with_nothing_staged() {
    let engine = Engine::new(five()).unwrap();
    assert_eq!(engine.cursor(), 0);
    assert_eq!(engine.len(), 5);
    assert_eq!(engine.pending(), None);
    assert_eq!(engine.current().id, "1");
}

#[test]
fn resume_pulls_a_cursor_beyond_the_end_back_to_the_last_record() {
    let engine = Engine::resume(five(), 17, Some(Status::FollowUp)).unwrap();
    assert_eq!(engine.cursor(), 4);
    assert_eq!(engine.pending(), Some(Status::FollowUp));
    let engine = Engine::resume(five(), 5, None).unwrap();
    assert_eq!(engine.cursor(), 4);
    let engine = Engine::resume(five(), 3, None).unwrap();
    assert_eq!(engine.cursor(), 3);
}

#[test]
fn set_pending_changes_no_record() {
    let mut engine = Engine::new(five()).unwrap();
    engine.set_pending(Status::Archive);
    assert_eq!(engine.pending(), Some(Status::Archive));
    assert_eq!(statuses(&engine), vec![Status::Inbox; 5]);
    assert_eq!(engine.cursor(), 0);
}

#[test]
fn advance_applies_and_clears_what_is_staged() {
    let mut engine = Engine::new(five()).unwrap();
    engine.set_pending(Status::ReadThrough);
    engine.advance();
    assert_eq!(engine.cursor(), 1);
    assert_eq!(engine.pending(), None);
    assert_eq!(
        statuses(&engine),
        vec![Status::ReadThrough, Status::Inbox, Status::Inbox, Status::Inbox, Status::Inbox]
    );
    engine.advance();
    assert_eq!(engine.cursor(), 2);
    assert_eq!(engine.records()[1].status, Status::Inbox);
}

#[test]
fn advance_stays_on_the_last_record() {
    let mut engine = Engine::resume(five(), 4, Some(Status::Archive)).unwrap();
    engine.advance();
    assert_eq!(engine.cursor(), 4);
    assert_eq!(engine.records()[4].status, Status::Archive);
    engine.advance();
    assert_eq!(engine.cursor(), 4);
}

#[test]
fn retreat_stays_on_the_first_record() {
    let mut engine = Engine::new(five()).unwrap();
    engine.set_pending(Status::FollowUp);
    engine.retreat();
    assert_eq!(engine.cursor(), 0);
    assert_eq!(engine.pending(), None);
    assert_eq!(engine.records()[0].status, Status::FollowUp);
}

#[test]
fn retreat_moves_one_record_back() {
    let mut engine = Engine::resume(five(), 3, Some(Status::Archive)).unwrap();
    engine.retreat();
    assert_eq!(engine.cursor(), 2);
    assert_eq!(engine.records()[3].status, Status::Archive);
    assert_eq!(engine.records()[2].status, Status::Inbox);
}

#[test]
fn the_cursor_never_leaves_the_working_set() {
    let keys = ['j', 'j', 'k', 'p', 'd', 'j', 'j', 'j', 'k', '0', 'k', 'k', 'p', 'p', 'p', 'd'];
    let mut engine = Engine::new(five()).unwrap();
    for c in keys {
        let (next, _) = proceed(engine.handle_key(Key::Character(c)));
        engine = next;
        assert!(engine.cursor() < engine.len());
        assert_eq!(engine.len(), 5);
    }
}

#[test]
fn one_record_sessions_keep_the_cursor_at_zero() {
    let mut engine = Engine::new(vec![inbox("1", "ann", "x.org")]).unwrap();
    engine.advance();
    assert_eq!(engine.cursor(), 0);
    engine.retreat();
    assert_eq!(engine.cursor(), 0);
    engine.set_pending(Status::Archive);
    engine.propagate_by_sender();
    assert_eq!(engine.cursor(), 0);
    assert_eq!(engine.records()[0].status, Status::Archive);
}

#[test]
fn propagate_by_sender_marks_the_run_and_stops_behind_it() {
    let mut engine = Engine::new(five()).unwrap();
    engine.set_pending(Status::Archive);
    engine.propagate_by_sender();
    assert_eq!(
        statuses(&engine),
        vec![Status::Archive, Status::Archive, Status::Inbox, Status::Inbox, Status::Inbox]
    );
    assert_eq!(engine.cursor(), 2);
    assert_eq!(engine.pending(), None);
}

#[test]
fn propagate_by_sender_starts_at_the_cursor() {
    let mut engine = Engine::resume(five(), 1, Some(Status::FollowUp)).unwrap();
    engine.propagate_by_sender();
    assert_eq!(
        statuses(&engine),
        vec![Status::Inbox, Status::FollowUp, Status::Inbox, Status::Inbox, Status::Inbox]
    );
    assert_eq!(engine.cursor(), 2);
}

#[test]
fn propagate_by_sender_needs_name_and_domain_to_agree() {
    let records = vec![
        inbox("1", "ann", "x.org"),
        inbox("2", "ann", "y.org"),
        inbox("3", "ann", "x.org"),
    ];
    let mut engine = Engine::resume(records, 0, Some(Status::Archive)).unwrap();
    engine.propagate_by_sender();
    assert_eq!(statuses(&engine), vec![Status::Archive, Status::Inbox, Status::Inbox]);
    assert_eq!(engine.cursor(), 1);
}

#[test]
fn propagate_to_the_end_marks_the_last_record_and_stays_on_it() {
    let mut engine = Engine::resume(five(), 3, Some(Status::ReadThrough)).unwrap();
    engine.propagate_by_sender();
    assert_eq!(
        statuses(&engine),
        vec![Status::Inbox, Status::Inbox, Status::Inbox, Status::ReadThrough, Status::ReadThrough]
    );
    assert_eq!(engine.cursor(), 4);
}

#[test]
fn propagate_by_domain_ignores_the_name() {
    let mut engine = Engine::new(five()).unwrap();
    engine.set_pending(Status::FollowUp);
    engine.propagate_by_domain();
    assert_eq!(
        statuses(&engine),
        vec![Status::FollowUp, Status::FollowUp, Status::FollowUp, Status::Inbox, Status::Inbox]
    );
    assert_eq!(engine.cursor(), 3);
    assert_eq!(engine.pending(), None);
}

#[test]
fn propagate_with_nothing_staged_only_moves() {
    let mut engine = Engine::new(five()).unwrap();
    engine.propagate_by_domain();
    assert_eq!(statuses(&engine), vec![Status::Inbox; 5]);
    assert_eq!(engine.cursor(), 3);
}

#[test]
fn jump_to_start_keeps_what_is_staged() {
    let mut engine = Engine::resume(five(), 3, None).unwrap();
    engine.set_pending(Status::Archive);
    engine.jump_to_start();
    assert_eq!(engine.cursor(), 0);
    assert_eq!(engine.pending(), Some(Status::Archive));
    assert_eq!(statuses(&engine), vec![Status::Inbox; 5]);
    engine.advance();
    assert_eq!(engine.cursor(), 1);
    assert_eq!(engine.pending(), None);
    assert_eq!(
        statuses(&engine),
        vec![Status::Archive, Status::Inbox, Status::Inbox, Status::Inbox, Status::Inbox]
    );
    assert_eq!(engine.records()[3].status, Status::Inbox);
}

#[test]
fn commit_filter_drops_exactly_the_untouched_records() {
    let records = vec![
        record("1", "ann", "x.org", Status::Archive),
        record("2", "ann", "x.org", Status::Inbox),
        record("3", "bob", "x.org", Status::FollowUp),
        record("4", "ann", "y.org", Status::Inbox),
        record("5", "ann", "y.org", Status::ReadThrough),
    ];
    let engine = Engine::resume(records, 4, Some(Status::Archive)).unwrap();
    let engine = engine.commit_filter().unwrap();
    assert_eq!(ids(engine.records()), vec!["1", "3", "5"]);
    assert_eq!(
        statuses(&engine),
        vec![Status::Archive, Status::FollowUp, Status::ReadThrough]
    );
    assert_eq!(engine.cursor(), 0);
    assert_eq!(engine.pending(), Some(Status::Archive));
}

#[test]
fn commit_filter_twice_is_commit_filter_once() {
    let records = vec![
        record("1", "ann", "x.org", Status::Archive),
        record("2", "ann", "x.org", Status::Inbox),
        record("3", "bob", "x.org", Status::FollowUp),
        record("4", "ann", "y.org", Status::Inbox),
        record("5", "ann", "y.org", Status::ReadThrough),
    ];
    let once = Engine::new(records).unwrap().commit_filter().unwrap();
    let kept = once.records().clone();
    let twice = once.commit_filter().unwrap();
    assert_eq!(twice.records(), &kept);
    assert_eq!(twice.cursor(), 0);
}

#[test]
fn commit_filter_of_untouched_records_ends_the_session() {
    assert!(Engine::new(five()).unwrap().commit_filter().is_none());
    match Engine::new(five()).unwrap().step(Command::CommitFilter) {
        Transition::Empty => {}
        _ => panic!("the session should have run empty"),
    }
}

#[test]
fn retain_triaged_keeps_the_order() {
    let records = vec![
        record("1", "a", "x", Status::Inbox),
        record("2", "a", "x", Status::Archive),
        record("3", "a", "x", Status::Archive),
        record("4", "a", "x", Status::Inbox),
        record("5", "a", "x", Status::FollowUp),
    ];
    assert_eq!(ids(&retain_triaged(records)), vec!["2", "3", "5"]);
    assert!(retain_triaged(Vec::new()).is_empty());
}

#[test]
fn quit_ends_the_session() {
    let mut engine = Engine::new(five()).unwrap();
    engine.set_pending(Status::Archive);
    match engine.step(Command::Quit) {
        Transition::Quit => {}
        _ => panic!("the session should have been quit"),
    }
}

#[test]
fn step_reports_when_to_draw_again() {
    let engine = Engine::new(five()).unwrap();
    let (engine, redraw) = proceed(engine.step(Command::SetPending(Status::Archive)));
    assert!(!redraw);
    assert_eq!(engine.pending(), Some(Status::Archive));
    let (engine, redraw) = proceed(engine.step(Command::Advance));
    assert!(redraw);
    assert_eq!(engine.cursor(), 1);
    let (engine, redraw) = proceed(engine.step(Command::Retreat));
    assert!(redraw);
    assert_eq!(engine.cursor(), 0);
    let (engine, redraw) = proceed(engine.step(Command::Redraw));
    assert!(redraw);
    let (engine, redraw) = proceed(engine.step(Command::JumpToStart));
    assert!(redraw);
    let (engine, redraw) = proceed(engine.step(Command::CommitFilter));
    assert!(!redraw);
    assert_eq!(engine.len(), 1);
    assert_eq!(engine.current().id, "1");
}

#[test]
fn step_propagates_by_sender_and_by_domain() {
    let engine = Engine::resume(five(), 0, Some(Status::Archive)).unwrap();
    let (engine, redraw) = proceed(engine.step(Command::PropagateBySender));
    assert!(redraw);
    assert_eq!(engine.cursor(), 2);
    let (engine, _) = proceed(engine.step(Command::SetPending(Status::FollowUp)));
    let (engine, _) = proceed(engine.step(Command::PropagateByDomain));
    assert_eq!(engine.cursor(), 3);
    assert_eq!(
        statuses(&engine),
        vec![Status::Archive, Status::Archive, Status::FollowUp, Status::Inbox, Status::Inbox]
    );
}

#[test]
fn a_key_without_a_meaning_changes_nothing() {
    let engine = Engine::resume(five(), 2, Some(Status::FollowUp)).unwrap();
    let before = engine.records().clone();
    let (engine, redraw) = proceed(engine.handle_key(Key::Character('z')));
    assert!(!redraw);
    assert_eq!(engine.cursor(), 2);
    assert_eq!(engine.pending(), Some(Status::FollowUp));
    assert_eq!(engine.records(), &before);
    let (engine, redraw) = proceed(engine.handle_key(Key::Other));
    assert!(!redraw);
    assert_eq!(engine.cursor(), 2);
    assert_eq!(engine.records(), &before);
}

#[test]
fn enter_draws_again_and_changes_nothing() {
    let engine = Engine::resume(five(), 2, Some(Status::FollowUp)).unwrap();
    let (engine, redraw) = proceed(engine.handle_key(Key::Enter));
    assert!(redraw);
    assert_eq!(engine.cursor(), 2);
    assert_eq!(engine.pending(), Some(Status::FollowUp));
    assert_eq!(statuses(&engine), vec![Status::Inbox; 5]);
}

#[test]
fn keys_give_their_commands() {
    assert_eq!(Command::from_key(Key::Character('q')), Some(Command::Quit));
    assert_eq!(
        Command::from_key(Key::Character('a')),
        Some(Command::SetPending(Status::Archive))
    );
    assert_eq!(
        Command::from_key(Key::Character('f')),
        Some(Command::SetPending(Status::FollowUp))
    );
    assert_eq!(
        Command::from_key(Key::Character('r')),
        Some(Command::SetPending(Status::ReadThrough))
    );
    assert_eq!(
        Command::from_key(Key::Character('i')),
        Some(Command::SetPending(Status::Inbox))
    );
    assert_eq!(Command::from_key(Key::Character('0')), Some(Command::JumpToStart));
    assert_eq!(Command::from_key(Key::Character('j')), Some(Command::Advance));
    assert_eq!(Command::from_key(Key::Character('k')), Some(Command::Retreat));
    assert_eq!(Command::from_key(Key::Character('p')), Some(Command::PropagateBySender));
    assert_eq!(Command::from_key(Key::Character('d')), Some(Command::PropagateByDomain));
    assert_eq!(Command::from_key(Key::Character('w')), Some(Command::CommitFilter));
    assert_eq!(Command::from_key(Key::Enter), Some(Command::Redraw));
    assert_eq!(Command::from_key(Key::Character('J')), None);
    assert_eq!(Command::from_key(Key::Character(' ')), None);
    assert_eq!(Command::from_key(Key::Other), None);
}

#[test]
fn commands_say_whether_they_redraw() {
    assert!(Command::Advance.redraws());
    assert!(Command::Retreat.redraws());
    assert!(Command::JumpToStart.redraws());
    assert!(Command::PropagateBySender.redraws());
    assert!(Command::PropagateByDomain.redraws());
    assert!(Command::Redraw.redraws());
    assert!(!Command::Quit.redraws());
    assert!(!Command::CommitFilter.redraws());
    assert!(!Command::SetPending(Status::Inbox).redraws());
}

#[test]
fn into_records_hands_the_working_set_back() {
    let mut engine = Engine::new(five()).unwrap();
    engine.set_pending(Status::Archive);
    engine.advance();
    let records = engine.into_records();
    assert_eq!(ids(&records), vec!["1", "2", "3", "4", "5"]);
    assert_eq!(records[0].status, Status::Archive);
}

#[test]
fn statuses_have_names_and_an_order() {
    assert_eq!(Status::Inbox.to_string(), "Inbox");
    assert_eq!(Status::FollowUp.to_string(), "FollowUp");
    assert_eq!(Status::ReadThrough.to_string(), "ReadThrough");
    assert_eq!(Status::Archive.to_string(), "Archive");
    assert_eq!(Status::Inbox.rank(), 0);
    assert_eq!(Status::FollowUp.rank(), 1);
    assert_eq!(Status::ReadThrough.rank(), 2);
    assert_eq!(Status::Archive.rank(), 3);
    assert!(Status::Inbox < Status::FollowUp);
    assert!(Status::FollowUp < Status::ReadThrough);
    assert!(Status::ReadThrough < Status::Archive);
}
