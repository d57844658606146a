use offline_messenger::login::{decide_login, lower_hex_string, password_hash, LoginDecision};
use offline_messenger::protocol::Message;
use offline_messenger::online::OnlineTable;
use offline_messenger::records::{deliveries, delivered_ids, delivery, delivery_order, history_entry, history_reply, HistoryRow, StoredText};
use offline_messenger::session::{Refusal, Request, Session};

#[test]
fn password_hash_is_lowercase_hex_of_sha256() {
    assert_eq!(
        password_hash("abc"),
        "ba7816bf8f01cfea414140de5dae2223b00361a396177a9cb410ff61f20015ad"
    );
    assert_eq!(
        password_hash(""),
        "e3b0c44298fc1c149afbf4c8996fb92427ae41e4649b934ca495991b7852b855"
    );
    assert_eq!(password_hash("parola").len(), 64);
}

#[test]
fn hex_has_two_digits_per_byte() {
    assert_eq!(lower_hex_string(&[0x00, 0x0f, 0xa0, 0xff]), "000fa0ff");
    assert_eq!(lower_hex_string(&[]), "");
}

#[test]
fn new_name_is_registered() {
    let h = password_hash("secret");
    assert_eq!(decide_login(&None, &h), LoginDecision::Register);
    assert!(LoginDecision::Register.succeeded());
}

#[test]
fn known_name_needs_the_same_password() {
    let stored = Some(password_hash("secret"));
    assert_eq!(decide_login(&stored, &password_hash("secret")), LoginDecision::Accept);
    assert_eq!(decide_login(&stored, &password_hash("Secret")), LoginDecision::Reject);
    assert!(LoginDecision::Accept.succeeded());
    assert!(!LoginDecision::Reject.succeeded());
}

fn text(to: &str, content: &str) -> Message {
    Message::Text { to: to.to_string(), content: content.to_string(), reply_id: Some(4) }
}

#[test]
fn nothing_but_login_is_served_before_login() {
    let s = Session::new();
    assert_eq!(s.current_user(), None);
    assert!(matches!(s.dispatch(text("bob", "hi")), Request::Refuse(Refusal::TextWithoutLogin)));
    assert!(matches!(
        s.dispatch(Message::HistoryInfo { user: "bob".to_string() }),
        Request::Refuse(Refusal::HistoryWithoutLogin)
    ));
    match s.dispatch(Message::Login { username: "ana".to_string(), password: "pw".to_string() }) {
        Request::Login { username, password } => {
            assert_eq!(username, "ana");
            assert_eq!(password, "pw");
        }
        other => panic!("unexpected {:?}", other),
    }
}

#[test]
fn after_login_texts_are_sent_as_that_user() {
    let mut s = Session::new();
    assert!(s.finish_login("ana".to_string(), LoginDecision::Register));
    assert_eq!(s.current_user(), Some("ana".to_string()));
    match s.dispatch(text("bob", "hi")) {
        Request::StoreText { sender, to, content, reply_id } => {
            assert_eq!(sender, "ana");
            assert_eq!(to, "bob");
            assert_eq!(content, "hi");
            assert_eq!(reply_id, Some(4));
        }
        other => panic!("unexpected {:?}", other),
    }
    match s.dispatch(Message::HistoryInfo { user: "bob".to_string() }) {
        Request::SendHistory { user, other } => {
            assert_eq!(user, "ana");
            assert_eq!(other, "bob");
        }
        other => panic!("unexpected {:?}", other),
    }
}

#[test]
fn rejected_login_changes_nothing() {
    let mut s = Session::new();
    assert!(!s.finish_login("ana".to_string(), LoginDecision::Reject));
    assert_eq!(s.current_user(), None);
    assert!(s.finish_login("ana".to_string(), LoginDecision::Accept));
    assert!(!s.finish_login("eve".to_string(), LoginDecision::Reject));
    assert_eq!(s.current_user(), Some("ana".to_string()));
    assert_eq!(s.close(), Some("ana".to_string()));
}

#[test]
fn closing_an_anonymous_session_removes_nobody() {
    assert_eq!(Session::new().close(), None);
}

#[test]
fn keys_and_deliveries_from_clients_are_refused() {
    let mut s = Session::new();
    s.finish_login("ana".to_string(), LoginDecision::Accept);
    assert!(matches!(
        s.dispatch(Message::ClientKey { public_key: vec![1, 2] }),
        Request::Refuse(Refusal::UnknownCommand)
    ));
    assert!(matches!(
        s.dispatch(Message::HistoryData { content: vec![] }),
        Request::Refuse(Refusal::UnknownCommand)
    ));
}

fn stored(id: u64, sender: &str, content: &str) -> StoredText {
    StoredText { id, sender: sender.to_string(), content: content.to_string(), time: 100 + id as i64, reply_id: None }
}

fn stored_at(id: u64, time: i64) -> StoredText {
    StoredText { id, sender: "ana".to_string(), content: format!("t{}", id), time, reply_id: None }
}

#[test]
fn delivery_carries_the_stored_text() {
    match delivery(StoredText { id: 9, sender: "ana".to_string(), content: "yo".to_string(), time: 5, reply_id: Some(2) }) {
        Message::ToSend { id, from, content, time, reply_id } => {
            assert_eq!((id, from.as_str(), content.as_str(), time, reply_id), (9, "ana", "yo", 5, Some(2)));
        }
        other => panic!("unexpected {:?}", other),
    }
}

#[test]
fn waiting_texts_are_delivered_in_order() {
    let rows = vec![stored(1, "ana", "a"), stored(2, "bob", "b"), stored(3, "ana", "c")];
    let out = deliveries(&rows);
    assert_eq!(out.len(), 3);
    let ids: Vec<u64> = out
        .iter()
        .map(|m| match m {
            Message::ToSend { id, .. } => *id,
            _ => panic!("not a delivery"),
        })
        .collect();
    assert_eq!(ids, vec![1, 2, 3]);
    assert!(deliveries(&vec![]).is_empty());
}

fn row(id: u64, delivered: i64) -> HistoryRow {
    HistoryRow { message_id: id, sender: "ana".to_string(), content: format!("m{}", id), time: id as i64, delivered, reply_id: None }
}

#[test]
fn history_marks_delivered_only_for_flag_one() {
    assert!(history_entry(row(1, 1)).delivered);
    assert!(!history_entry(row(1, 0)).delivered);
    assert!(!history_entry(row(1, 2)).delivered);
}

#[test]
fn history_keeps_the_store_order() {
    match history_reply(&vec![row(5, 1), row(3, 0)]) {
        Message::HistoryData { content } => {
            assert_eq!(content.len(), 2);
            assert_eq!(content[0].message_id, 5);
            assert_eq!(content[0].content, "m5");
            assert!(content[0].delivered);
            assert_eq!(content[1].message_id, 3);
            assert!(!content[1].delivered);
        }
        other => panic!("unexpected {:?}", other),
    }
}

#[test]
fn waiting_texts_go_out_oldest_first() {
    let rows = vec![stored_at(1, 30), stored_at(2, 10), stored_at(3, 20), stored_at(4, 10)];
    assert_eq!(delivery_order(&rows), vec![1, 3, 2, 0]);
    let ids: Vec<u64> = deliveries(&rows)
        .iter()
        .map(|m| match m {
            Message::ToSend { id, .. } => *id,
            _ => panic!("not a delivery"),
        })
        .collect();
    assert_eq!(ids, vec![2, 4, 3, 1]);
}

#[test]
fn only_texts_that_went_out_are_marked() {
    let out = deliveries(&vec![stored(1, "a", "x"), stored(2, "b", "y"), stored(3, "c", "z")]);
    assert_eq!(delivered_ids(&out, &vec![true, false, true]), vec![1, 3]);
    assert!(delivered_ids(&out, &vec![false, false, false]).is_empty());
}

#[test]
fn users_are_reached_through_their_latest_login() {
    let mut t = OnlineTable::new();
    assert_eq!(t.route(&"ana".to_string()), None);
    t.login("ana".to_string(), 1);
    t.login("bob".to_string(), 2);
    assert_eq!(t.route(&"ana".to_string()), Some(1));
    t.login("ana".to_string(), 3);
    assert_eq!(t.route(&"ana".to_string()), Some(3));
    t.close(&"ana".to_string(), 1);
    assert_eq!(t.route(&"ana".to_string()), Some(3));
    t.close(&"ana".to_string(), 3);
    assert_eq!(t.route(&"ana".to_string()), None);
    assert_eq!(t.route(&"bob".to_string()), Some(2));
}

#[test]
fn a_new_login_on_a_connection_replaces_its_old_user() {
    let mut t = OnlineTable::new();
    t.login("ana".to_string(), 7);
    t.login("eve".to_string(), 7);
    assert_eq!(t.route(&"ana".to_string()), None);
    assert_eq!(t.route(&"eve".to_string()), Some(7));
}
