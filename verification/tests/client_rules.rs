use offline_messenger::chat::{preview, ChatState};
use offline_messenger::command::{parse_command, split_words, Command};
use offline_messenger::protocol::{Message, MessageHistoryInfo};
use offline_messenger::text::trimmed;

#[test]
fn trimming_removes_unicode_white_space_at_both_ends() {
    assert_eq!(trimmed("  ana \t\n"), "ana");
    assert_eq!(trimmed("\u{3000}x y\u{a0}"), "x y");
    assert_eq!(trimmed("   "), "");
    assert_eq!(trimmed(""), "");
}

#[test]
fn words_split_on_runs_of_white_space() {
    assert_eq!(split_words("  /login  ana   pw "), vec!["/login", "ana", "pw"]);
    assert!(split_words(" \t ").is_empty());
}

#[test]
fn login_command_needs_user_and_password() {
    match parse_command("/login ana secret\n") {
        Command::Send(Message::Login { username, password }) => {
            assert_eq!(username, "ana");
            assert_eq!(password, "secret");
        }
        other => panic!("unexpected {:?}", other),
    }
    assert!(matches!(parse_command("/login ana"), Command::LoginUsage));
    assert!(matches!(parse_command("/login a b c"), Command::LoginUsage));
}

#[test]
fn history_command_needs_one_user() {
    match parse_command("  /history bob") {
        Command::Send(Message::HistoryInfo { user }) => assert_eq!(user, "bob"),
        other => panic!("unexpected {:?}", other),
    }
    assert!(matches!(parse_command("/history"), Command::HistoryUsage));
}

#[test]
fn text_goes_to_the_name_before_the_first_colon() {
    match parse_command("bob : ce faci? la 10:30") {
        Command::Send(Message::Text { to, content, reply_id }) => {
            assert_eq!(to, "bob");
            assert_eq!(content, " ce faci? la 10:30");
            assert_eq!(reply_id, None);
        }
        other => panic!("unexpected {:?}", other),
    }
}

#[test]
fn other_lines() {
    assert!(matches!(parse_command("   "), Command::Nothing));
    assert!(matches!(parse_command(" /quit "), Command::Quit));
    assert!(matches!(parse_command("no colon here"), Command::InvalidFormat));
}

#[test]
fn short_texts_are_quoted_whole() {
    assert_eq!(preview("scurt"), "scurt");
    let forty = "a".repeat(40);
    assert_eq!(preview(&forty), forty);
}

#[test]
fn long_texts_are_cut_at_forty_bytes() {
    let long = "b".repeat(41);
    assert_eq!(preview(&long), format!("{}...", "b".repeat(40)));
}

fn delivery(id: u64, from: &str, content: &str, reply_id: Option<u64>) -> Message {
    Message::ToSend { id, from: from.to_string(), content: content.to_string(), time: 1000 + id as i64, reply_id }
}

#[test]
fn deliveries_are_appended_and_histories_replace() {
    let mut chat = ChatState::new();
    assert!(chat.receive(delivery(1, "ana", "salut", None)).is_none());
    assert!(chat.receive(delivery(2, "bob", "hei", Some(1))).is_none());
    assert_eq!(chat.messages.len(), 2);
    assert_eq!(chat.messages[1].reply_to, Some(1));
    assert_eq!(chat.messages[1].id, Some(2));
    let history = vec![MessageHistoryInfo {
        message_id: 7,
        sender: "ana".to_string(),
        content: "vechi".to_string(),
        time: 5,
        delivered: true,
        reply_id: None,
    }];
    assert!(chat.receive(Message::HistoryData { content: history }).is_none());
    assert_eq!(chat.messages.len(), 1);
    assert_eq!(chat.messages[0].id, Some(7));
    assert_eq!(chat.messages[0].content, "vechi");
    let back = chat.receive(Message::Login { username: "x".to_string(), password: "y".to_string() });
    assert!(matches!(back, Some(Message::Login { .. })));
    assert_eq!(chat.messages.len(), 1);
}

#[test]
fn find_message_gives_the_first_with_that_number() {
    let mut chat = ChatState::new();
    chat.system_note("note".to_string(), 1);
    chat.receive(delivery(4, "ana", "a", None));
    chat.receive(delivery(4, "bob", "b", None));
    assert_eq!(chat.find_message(4), Some(1));
    assert_eq!(chat.find_message(5), None);
}

#[test]
fn login_form_checks() {
    let mut chat = ChatState::new();
    assert!(chat.login(false).is_none());
    assert_eq!(chat.logged_status, "Nu esti conectat la server");
    chat.username = "   ".to_string();
    chat.password = "pw".to_string();
    assert!(chat.login(true).is_none());
    assert_eq!(chat.logged_status, "Completeaza username si parola");
    chat.username = " ana ".to_string();
    match chat.login(true) {
        Some(Message::Login { username, password }) => {
            assert_eq!(username, " ana ");
            assert_eq!(password, "pw");
        }
        other => panic!("unexpected {:?}", other),
    }
    chat.login_sent(None);
    assert_eq!(chat.logged_status, "Cerere login trimisa");
    chat.login_sent(Some("broken pipe".to_string()));
    assert_eq!(chat.logged_status, "Eroare trimitere login: broken pipe");
}

#[test]
fn sending_answers_the_pending_message_once() {
    let mut chat = ChatState::new();
    chat.curr_person = " bob ".to_string();
    chat.message_input = "  salut  ".to_string();
    chat.reply_message(3);
    match chat.compose(true, 10) {
        Some(Message::Text { to, content, reply_id }) => {
            assert_eq!(to, "bob");
            assert_eq!(content, "salut");
            assert_eq!(reply_id, Some(3));
        }
        other => panic!("unexpected {:?}", other),
    }
    chat.sent(11);
    assert_eq!(chat.reply_to, None);
    assert_eq!(chat.message_input, "");
    let last = chat.messages.last().unwrap();
    assert_eq!(last.sender, "curr_user");
    assert_eq!(last.content, "salut");
    assert_eq!(last.reply_to, Some(3));
    assert_eq!(last.time, 11);
    chat.username = "ana".to_string();
    chat.message_input = "again".to_string();
    assert!(chat.compose(true, 12).is_some());
    chat.sent(12);
    assert_eq!(chat.messages.last().unwrap().sender, "ana");
    assert_eq!(chat.messages.last().unwrap().reply_to, None);
}

#[test]
fn nothing_is_sent_without_text_or_connection() {
    let mut chat = ChatState::new();
    chat.curr_person = "bob".to_string();
    chat.message_input = "   ".to_string();
    assert!(chat.compose(true, 1).is_none());
    assert!(chat.messages.is_empty());
    chat.message_input = "hi".to_string();
    assert!(chat.compose(false, 2).is_none());
    assert_eq!(chat.messages.len(), 1);
    assert_eq!(chat.messages[0].sender, "System");
    assert_eq!(chat.messages[0].content, "Nu esti conectat la server");
    chat.send_failed("timeout", 3);
    assert_eq!(chat.messages[1].content, "Eroare la trimitere: timeout");
}

#[test]
fn opening_a_conversation_clears_the_view() {
    let mut chat = ChatState::new();
    chat.receive(delivery(1, "ana", "a", None));
    chat.reply_message(1);
    chat.curr_person = "   ".to_string();
    assert!(chat.open_conversation(true, 1).is_none());
    assert_eq!(chat.messages.len(), 1);
    chat.curr_person = " ana".to_string();
    assert!(chat.open_conversation(false, 2).is_none());
    assert_eq!(chat.messages.len(), 2);
    assert_eq!(chat.messages[1].content, "Nu esti conectat la server!");
    match chat.open_conversation(true, 3) {
        Some(Message::HistoryInfo { user }) => assert_eq!(user, "ana"),
        other => panic!("unexpected {:?}", other),
    }
    assert!(chat.messages.is_empty());
    assert_eq!(chat.reply_to, None);
    chat.history_failed("closed", 4);
    assert_eq!(chat.messages[0].content, "Eroare la preluarea istoricului! closed");
}

#[test]
fn notes_have_no_number() {
    let mut chat = ChatState::new();
    chat.connected_to("127.0.0.1:2024", 9);
    chat.server_note("Login".to_string(), 10);
    assert_eq!(chat.messages[0].content, "Conectat la adresa 127.0.0.1:2024");
    assert_eq!(chat.messages[0].sender, "System");
    assert_eq!(chat.messages[1].sender, "Server");
    assert!(chat.messages.iter().all(|m| m.id.is_none() && m.reply_to.is_none()));
    chat.reply_message(2);
    chat.cancel_reply();
    assert_eq!(chat.reply_to, None);
}
