use sieve_engine::engine::Engine;
use sieve_engine::errors::DeliverError;
use sieve_engine::interp::{Header, MessageCtx};

const ACCOUNT: u64 = 7;

fn header(name: &[u8], value: &[u8]) -> Header {
    Header { name: name.to_vec(), value: value.to_vec() }
}

fn tps_report() -> MessageCtx {
    MessageCtx {
        sender: b"bill@example.com".to_vec(),
        recipients: vec![b"jdoe@example.com".to_vec()],
        headers: vec![
            header(b"From", b"bill@example.com"),
            header(b"To", b"jdoe@example.com"),
            header(b"Subject", b"TPS Report"),
        ],
        raw: b"I'm going to need those TPS reports ASAP.".to_vec(),
    }
}

fn with_msgid(msgid: &[u8]) -> MessageCtx {
    MessageCtx {
        sender: b"bill@example.com".to_vec(),
        recipients: vec![b"jdoe@example.com".to_vec()],
        headers: vec![
            header(b"From", b"bill@example.com"),
            header(b"Message-ID", msgid),
            header(b"Subject", b"Holidays"),
        ],
        raw: b"Remember to file your TPS reports.".to_vec(),
    }
}

fn active_engine(source: &[u8]) -> Engine {
    let mut e = Engine::new(1000);
    e.create(ACCOUNT, b"main".to_vec(), source.to_vec(), true).unwrap();
    e
}

fn mailbox_id(e: &Engine, path: &[u8]) -> Option<u64> {
    e.mailboxes.mailboxes.iter().find(|m| m.path == path.to_vec()).map(|m| m.id)
}

#[test]
fn no_active_script_keeps_into_inbox() {
    let mut e = Engine::new(1000);
    let (_, outcome) = e.deliver(ACCOUNT, &tps_report(), 0).unwrap();
    assert!(outcome.stored);
    assert_eq!(e.mailboxes.messages.len(), 1);
    let inbox = mailbox_id(&e, b"INBOX").unwrap();
    assert_eq!(e.mailboxes.messages[0].mailbox_ids, vec![inbox]);
}

#[test]
fn fileinto_and_addflag_store_one_copy_with_keyword() {
    let mut e = active_engine(
        b"require \"fileinto\"; fileinto \"Notifications\"; addflag \"$seen\";",
    );
    let (_, outcome) = e.deliver(ACCOUNT, &tps_report(), 0).unwrap();
    assert!(outcome.stored);
    assert_eq!(e.mailboxes.messages.len(), 1);
    let stored = &e.mailboxes.messages[0];
    assert_eq!(stored.keywords, vec![b"$seen".to_vec()]);
    let target = mailbox_id(&e, b"Notifications").unwrap();
    assert_eq!(stored.mailbox_ids, vec![target]);
    assert_eq!(stored.raw, tps_report().raw);
}

#[test]
fn nested_path_created_once_and_reused() {
    let mut e = active_engine(b"fileinto \"My/Nested/Mailbox\";");
    e.deliver(ACCOUNT, &tps_report(), 0).unwrap();
    assert!(mailbox_id(&e, b"My").is_some());
    assert!(mailbox_id(&e, b"My/Nested").is_some());
    assert!(mailbox_id(&e, b"My/Nested/Mailbox").is_some());
    assert_eq!(e.mailboxes.mailboxes.len(), 3);
    let first_ids: Vec<u64> = e.mailboxes.mailboxes.iter().map(|m| m.id).collect();
    // a second delivery into the same path reuses every level
    e.deliver(ACCOUNT, &tps_report(), 1).unwrap();
    assert_eq!(e.mailboxes.mailboxes.len(), 3);
    let second_ids: Vec<u64> = e.mailboxes.mailboxes.iter().map(|m| m.id).collect();
    assert_eq!(first_ids, second_ids);
    assert_eq!(e.mailboxes.messages.len(), 2);
    assert_eq!(
        e.mailboxes.messages[0].mailbox_ids,
        e.mailboxes.messages[1].mailbox_ids
    );
}

#[test]
fn discard_stores_nothing() {
    let mut e = active_engine(b"addflag \"$seen\"; discard;");
    let (_, outcome) = e.deliver(ACCOUNT, &tps_report(), 0).unwrap();
    assert!(!outcome.stored);
    assert_eq!(e.mailboxes.messages.len(), 0);
    assert_eq!(e.mailboxes.mailboxes.len(), 0);
}

#[test]
fn reject_reports_reason_and_stores_nothing() {
    let mut e = active_engine(b"require \"reject\"; reject \"No soup for you\";");
    let (_, outcome) = e.deliver(ACCOUNT, &tps_report(), 0).unwrap();
    assert!(!outcome.stored);
    assert_eq!(outcome.rejected, Some(b"No soup for you".to_vec()));
    assert_eq!(e.mailboxes.messages.len(), 0);
}

#[test]
fn reject_beats_fileinto_for_storage() {
    let mut e = active_engine(b"fileinto \"Kept\"; reject \"nope\";");
    let (_, outcome) = e.deliver(ACCOUNT, &tps_report(), 0).unwrap();
    assert!(!outcome.stored);
    assert_eq!(e.mailboxes.messages.len(), 0);
    assert_eq!(e.mailboxes.mailboxes.len(), 0);
}

#[test]
fn redirect_alone_skips_local_storage() {
    let mut e = active_engine(b"redirect \"jane@example.com\";");
    let (_, outcome) = e.deliver(ACCOUNT, &tps_report(), 0).unwrap();
    assert!(outcome.stored); // no Discard/Reject, but nothing filed locally
    assert_eq!(outcome.redirects, vec![b"jane@example.com".to_vec()]);
    let stored = &e.mailboxes.messages[0];
    assert_eq!(stored.mailbox_ids, Vec::<u64>::new());
}

#[test]
fn redirect_with_explicit_keep_also_stores() {
    let mut e = active_engine(b"redirect \"jane@example.com\"; keep;");
    e.deliver(ACCOUNT, &tps_report(), 0).unwrap();
    let inbox = mailbox_id(&e, b"INBOX").unwrap();
    assert_eq!(e.mailboxes.messages[0].mailbox_ids, vec![inbox]);
}

#[test]
fn stop_halts_later_actions() {
    let mut e = active_engine(b"fileinto \"A\"; stop; fileinto \"B\";");
    e.deliver(ACCOUNT, &tps_report(), 0).unwrap();
    assert!(mailbox_id(&e, b"A").is_some());
    assert!(mailbox_id(&e, b"B").is_none());
}

#[test]
fn notify_is_dispatched_in_order() {
    let mut e = active_engine(
        b"notify \"sms_gateway@example.com\" \"It's TPS-o-clock\"; keep;",
    );
    let (_, outcome) = e.deliver(ACCOUNT, &tps_report(), 0).unwrap();
    assert_eq!(
        outcome.notifications,
        vec![(b"sms_gateway@example.com".to_vec(), b"It's TPS-o-clock".to_vec())]
    );
    assert_eq!(e.mailboxes.messages.len(), 1);
}

#[test]
fn header_test_selects_branch() {
    let src = b"if header \"subject\" \"TPS Report\" { fileinto \"Reports\"; } else { discard; }";
    let mut e = active_engine(src);
    e.deliver(ACCOUNT, &tps_report(), 0).unwrap();
    assert!(mailbox_id(&e, b"Reports").is_some());
    assert_eq!(e.mailboxes.messages.len(), 1);
    // a non-matching subject takes the else branch
    let mut other = tps_report();
    other.headers[2] = header(b"Subject", b"Holidays");
    e.deliver(ACCOUNT, &other, 1).unwrap();
    assert_eq!(e.mailboxes.messages.len(), 1);
}

#[test]
fn envelope_tests_match_sender_and_recipients() {
    let src = b"if envelope \"from\" \"bill@example.com\" { addflag \"$from_bill\"; } if envelope \"to\" \"jdoe@example.com\" { addflag \"$to_jdoe\"; }";
    let mut e = active_engine(src);
    e.deliver(ACCOUNT, &tps_report(), 0).unwrap();
    let stored = &e.mailboxes.messages[0];
    assert_eq!(
        stored.keywords,
        vec![b"$from_bill".to_vec(), b"$to_jdoe".to_vec()]
    );
}

#[test]
fn duplicate_within_ttl_collapses_to_one_stored_message() {
    let src = b"require \"duplicate\"; if duplicate { discard; }";
    let mut e = active_engine(src);
    // ttl is 1000: deliveries at t=0 and t=500 collapse to one
    e.deliver(ACCOUNT, &with_msgid(b"<1234@example.com>"), 0).unwrap();
    e.deliver(ACCOUNT, &with_msgid(b"<1234@example.com>"), 500).unwrap();
    assert_eq!(e.mailboxes.messages.len(), 1);
}

#[test]
fn duplicate_past_ttl_stores_both() {
    let src = b"require \"duplicate\"; if duplicate { discard; }";
    let mut e = active_engine(src);
    // at ttl=1000, deliveries at t=0 and t=1100 both persist
    e.deliver(ACCOUNT, &with_msgid(b"<1234@example.com>"), 0).unwrap();
    e.deliver(ACCOUNT, &with_msgid(b"<1234@example.com>"), 1100).unwrap();
    assert_eq!(e.mailboxes.messages.len(), 2);
}

#[test]
fn duplicate_at_ttl_boundary_is_no_longer_live() {
    let src = b"require \"duplicate\"; if duplicate { discard; }";
    let mut e = active_engine(src);
    e.deliver(ACCOUNT, &with_msgid(b"<x@example.com>"), 0).unwrap();
    // now - stamp == ttl exactly: the entry has expired
    e.deliver(ACCOUNT, &with_msgid(b"<x@example.com>"), 1000).unwrap();
    assert_eq!(e.mailboxes.messages.len(), 2);
}

#[test]
fn different_fingerprints_do_not_suppress_each_other() {
    let src = b"require \"duplicate\"; if duplicate { discard; }";
    let mut e = active_engine(src);
    e.deliver(ACCOUNT, &with_msgid(b"<a@example.com>"), 0).unwrap();
    e.deliver(ACCOUNT, &with_msgid(b"<b@example.com>"), 1).unwrap();
    assert_eq!(e.mailboxes.messages.len(), 2);
}

#[test]
fn include_of_deactivated_script_still_executes() {
    let mut e = Engine::new(1000);
    e.create(
        ACCOUNT,
        b"test_include_this".to_vec(),
        b"require \"reject\"; reject \"Rejected from an included script\";".to_vec(),
        false,
    )
    .unwrap();
    e.create(
        ACCOUNT,
        b"test_include".to_vec(),
        b"require \"include\"; include \"test_include_this\";".to_vec(),
        true,
    )
    .unwrap();
    let (_, outcome) = e.deliver(ACCOUNT, &tps_report(), 0).unwrap();
    assert_eq!(
        outcome.rejected,
        Some(b"Rejected from an included script".to_vec())
    );
    assert_eq!(e.mailboxes.messages.len(), 0);
}

#[test]
fn include_of_destroyed_script_fails_closed() {
    let mut e = Engine::new(1000);
    let helper = e
        .create(ACCOUNT, b"helper".to_vec(), b"keep;".to_vec(), false)
        .unwrap();
    e.create(
        ACCOUNT,
        b"main".to_vec(),
        b"include \"helper\";".to_vec(),
        true,
    )
    .unwrap();
    e.destroy(ACCOUNT, helper).unwrap();
    assert_eq!(
        e.deliver(ACCOUNT, &tps_report(), 0),
        Err(DeliverError::IncludeNotFound)
    );
    assert_eq!(e.mailboxes.messages.len(), 0);
}

#[test]
fn include_cycle_fails_closed() {
    let mut e = Engine::new(1000);
    let b_id = e
        .create(ACCOUNT, b"b".to_vec(), b"keep;".to_vec(), false)
        .unwrap();
    e.create(ACCOUNT, b"a".to_vec(), b"include \"b\";".to_vec(), true)
        .unwrap();
    e.destroy(ACCOUNT, b_id).unwrap();
    // recreate b so that it includes a: the two now include each other
    e.create(ACCOUNT, b"b".to_vec(), b"include \"a\";".to_vec(), false)
        .unwrap();
    assert_eq!(
        e.deliver(ACCOUNT, &tps_report(), 0),
        Err(DeliverError::IncludeLoop)
    );
    assert_eq!(e.mailboxes.messages.len(), 0);
}

#[test]
fn stop_inside_include_halts_the_including_script() {
    let mut e = Engine::new(1000);
    e.create(
        ACCOUNT,
        b"helper".to_vec(),
        b"fileinto \"FromHelper\"; stop;".to_vec(),
        false,
    )
    .unwrap();
    e.create(
        ACCOUNT,
        b"main".to_vec(),
        b"include \"helper\"; fileinto \"AfterInclude\";".to_vec(),
        true,
    )
    .unwrap();
    e.deliver(ACCOUNT, &tps_report(), 0).unwrap();
    assert!(mailbox_id(&e, b"FromHelper").is_some());
    assert!(mailbox_id(&e, b"AfterInclude").is_none());
}

#[test]
fn header_names_match_up_to_ascii_case() {
    let src = b"if header \"SUBJECT\" \"TPS Report\" { addflag \"$matched\"; }";
    let mut e = active_engine(src);
    e.deliver(ACCOUNT, &tps_report(), 0).unwrap();
    assert_eq!(e.mailboxes.messages[0].keywords, vec![b"$matched".to_vec()]);
}

#[test]
fn duplicate_keywords_and_paths_collapse() {
    let src = b"fileinto \"Box\"; fileinto \"Box\"; addflag \"$k\"; addflag \"$k\";";
    let mut e = active_engine(src);
    e.deliver(ACCOUNT, &tps_report(), 0).unwrap();
    let stored = &e.mailboxes.messages[0];
    assert_eq!(stored.keywords, vec![b"$k".to_vec()]);
    assert_eq!(stored.mailbox_ids.len(), 1);
}
