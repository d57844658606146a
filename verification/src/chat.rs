//! The state of the chat window, apart from the connection: the login form,
//! the open conversation and its messages, the text being typed and the
//! message being answered. Each user action is a method that changes the
//! state and says what, if anything, to send.
use crate::protocol::{Message, MessageHistoryInfo};
use crate::text::{trim, trimmed};
use vstd::prelude::*;
use vstd::string::StringSliceAdditionalSpecFns;

verus! {

broadcast use vstd::string::group_string_axioms;

/// How many bytes of a message a quote shows before it is cut.
pub const PREVIEW_LEN: usize = 40;

/// One line of the conversation view.
#[derive(Debug, Clone)]
pub struct ChatMessage {
    /// The server's number of the message; local notes have none.
    pub id: Option<u64>,
    pub sender: String,
    pub content: String,
    pub time: i64,
    /// The message this one answers, if any.
    pub reply_to: Option<u64>,
}

/// The window's state.
pub struct ChatState {
    pub username: String,
    pub password: String,
    pub logged_status: String,
    pub curr_person: String,
    pub message_input: String,
    pub messages: Vec<ChatMessage>,
    pub reply_to: Option<u64>,
}

/// A local note from `sender`, with no number and answering nothing.
pub open spec fn note(sender: Seq<char>, content: Seq<char>, time: i64, m: ChatMessage) -> bool {
    &&& m.id is None
    &&& m.sender@ == sender
    &&& m.content@ == content
    &&& m.time == time
    &&& m.reply_to is None
}

/// `a` and `b` hold the same name, password, status, person and input.
pub open spec fn same_forms(a: ChatState, b: ChatState) -> bool {
    &&& a.username == b.username
    &&& a.password == b.password
    &&& a.logged_status == b.logged_status
    &&& a.curr_person == b.curr_person
    &&& a.message_input == b.message_input
}

/// `after` is `before` with one more line at the end: a note from `sender`.
pub open spec fn added_note(
    before: Seq<ChatMessage>,
    after: Seq<ChatMessage>,
    sender: Seq<char>,
    content: Seq<char>,
    time: i64,
) -> bool {
    &&& after.len() == before.len() + 1
    &&& after.subrange(0, before.len() as int) == before
    &&& note(sender, content, time, after.last())
}

/// The line for a delivered text.
pub open spec fn line_for_delivery(id: u64, from: String, content: String, time: i64, reply_id: Option<u64>) -> ChatMessage {
    ChatMessage { id: Some(id), sender: from, content, time, reply_to: reply_id }
}

/// The line for an entry of a history.
pub open spec fn line_for_history(e: MessageHistoryInfo) -> ChatMessage {
    ChatMessage {
        id: Some(e.message_id),
        sender: e.sender,
        content: e.content,
        time: e.time,
        reply_to: e.reply_id,
    }
}

/// A note from `sender` with `content` at `time`.
fn make_note(sender: &str, content: String, time: i64) -> (m: ChatMessage)
    ensures
        note(sender@, content@, time, m),
{
    ChatMessage { id: None, sender: sender.to_owned(), content, time, reply_to: None }
}

/// `prefix` followed by `rest`.
fn joined(prefix: &str, rest: &str) -> (s: String)
    ensures
        s@ == prefix@ + rest@,
{
    let mut s = prefix.to_owned();
    s.append(rest);
    s
}

/// The quote of a message's text: at most the first 40 bytes, followed by
/// "..." when the text was longer. The cut must fall between characters.
pub fn preview(content: &str) -> (p: String)
    requires
        content.spec_bytes().len() <= usize::MAX,
        content.spec_bytes().len() > PREVIEW_LEN ==> vstd::utf8::is_char_boundary(
            content.spec_bytes(),
            PREVIEW_LEN as int,
        ),
    ensures
        content.spec_bytes().len() <= PREVIEW_LEN ==> p@ == content@,
        content.spec_bytes().len() > PREVIEW_LEN ==> p@ == vstd::utf8::decode_utf8(
            content.spec_bytes().subrange(0, PREVIEW_LEN as int),
        ) + "..."@,
{
    broadcast use vstd::utf8::encode_utf8_decode_utf8;

    if content.len() > PREVIEW_LEN {
        let (head, _tail) = content.split_at(PREVIEW_LEN);
        assert(head.spec_bytes() == content.spec_bytes().subrange(0, PREVIEW_LEN as int));
        assert(head@ == vstd::utf8::decode_utf8(head.spec_bytes()));
        let r = joined(head, "...");
        assert(r@ == head@ + "..."@);
        assert(r@ == vstd::utf8::decode_utf8(content.spec_bytes().subrange(0, PREVIEW_LEN as int)) + "..."@);
        r
    } else {
        content.to_owned()
    }
}

impl ChatState {
    /// A window with empty forms, no messages and no answer pending.
    pub fn new() -> (s: ChatState)
        ensures
            s.username@.len() == 0,
            s.password@.len() == 0,
            s.logged_status@.len() == 0,
            s.curr_person@.len() == 0,
            s.message_input@.len() == 0,
            s.messages@.len() == 0,
            s.reply_to is None,
    {
        ChatState {
            username: String::new(),
            password: String::new(),
            logged_status: String::new(),
            curr_person: String::new(),
            message_input: String::new(),
            messages: Vec::new(),
            reply_to: None,
        }
    }

    /// Adds a note from "System" at `time`.
    pub fn system_note(&mut self, content: String, time: i64)
        ensures
            same_forms(*old(self), *final(self)),
            added_note(old(self).messages@, final(self).messages@, "System"@, content@, time),
            final(self).reply_to == old(self).reply_to,
            final(self).curr_person == old(self).curr_person,
            final(self).message_input == old(self).message_input,
            final(self).username == old(self).username,
            final(self).password == old(self).password,
            final(self).logged_status == old(self).logged_status,
    {
        let m = make_note("System", content, time);
        self.messages.push(m);
        assert(self.messages@.subrange(0, old(self).messages@.len() as int) =~= old(
            self,
        ).messages@);
    }

    /// Adds a note from "Server" at `time`, for a message the window does
    /// not show otherwise.
    pub fn server_note(&mut self, content: String, time: i64)
        ensures
            same_forms(*old(self), *final(self)),
            added_note(old(self).messages@, final(self).messages@, "Server"@, content@, time),
            final(self).reply_to == old(self).reply_to,
    {
        let m = make_note("Server", content, time);
        self.messages.push(m);
        assert(self.messages@.subrange(0, old(self).messages@.len() as int) =~= old(
            self,
        ).messages@);
    }

    /// The note that the window is connected to `address`.
    pub fn connected_to(&mut self, address: &str, time: i64)
        ensures
            same_forms(*old(self), *final(self)),
            added_note(
                old(self).messages@,
                final(self).messages@,
                "System"@,
                "Conectat la adresa "@ + address@,
                time,
            ),
            final(self).reply_to == old(self).reply_to,
    {
        let text = joined("Conectat la adresa ", address);
        self.system_note(text, time);
    }

    /// The login button: with no connection, or with an empty name (white
    /// space only) or an empty password, the status says so and nothing is
    /// sent; otherwise the login to send, with the name and password as
    /// typed.
    pub fn login(&mut self, connected: bool) -> (out: Option<Message>)
        ensures
            final(self).username == old(self).username,
            final(self).password == old(self).password,
            final(self).curr_person == old(self).curr_person,
            final(self).message_input == old(self).message_input,
            !connected ==> out is None && final(self).logged_status@
                == "Nu esti conectat la server"@,
            connected && (trim(old(self).username@).len() == 0 || old(self).password@.len() == 0)
                ==> out is None && final(self).logged_status@
                == "Completeaza username si parola"@,
            connected && trim(old(self).username@).len() != 0 && old(self).password@.len() != 0
                ==> out == Some(
                Message::Login { username: old(self).username, password: old(self).password },
            ) && final(self).logged_status == old(self).logged_status,
            final(self).messages == old(self).messages,
            final(self).reply_to == old(self).reply_to,
            final(self).username == old(self).username,
            final(self).password == old(self).password,
    {
        if !connected {
            self.logged_status = "Nu esti conectat la server".to_owned();
            return None;
        }
        let name = trimmed(self.username.as_str());
        if name.as_str().is_empty() || self.password.as_str().is_empty() {
            self.logged_status = "Completeaza username si parola".to_owned();
            return None;
        }
        Some(Message::Login { username: self.username.clone(), password: self.password.clone() })
    }

    /// The outcome of sending a login: the status says it went out, or why
    /// it did not.
    pub fn login_sent(&mut self, error: Option<String>)
        ensures
            final(self).username == old(self).username,
            final(self).password == old(self).password,
            final(self).curr_person == old(self).curr_person,
            final(self).message_input == old(self).message_input,
            error is None ==> final(self).logged_status@ == "Cerere login trimisa"@,
            error matches Some(e) ==> final(self).logged_status@ == "Eroare trimitere login: "@
                + e@,
            final(self).messages == old(self).messages,
            final(self).reply_to == old(self).reply_to,
    {
        match error {
            None => {
                self.logged_status = "Cerere login trimisa".to_owned();
            },
            Some(e) => {
                self.logged_status = joined("Eroare trimitere login: ", e.as_str());
            },
        }
    }

    /// The button that opens the conversation with the person typed in: with
    /// an empty name (white space only) nothing happens; with no connection
    /// a note says so; otherwise the view is emptied, no answer is pending,
    /// and the history request to send is returned (for the trimmed name).
    pub fn open_conversation(&mut self, connected: bool, time: i64) -> (out: Option<Message>)
        ensures
            same_forms(*old(self), *final(self)),
            trim(old(self).curr_person@).len() == 0 ==> out is None && final(self).messages
                == old(self).messages && final(self).reply_to == old(self).reply_to,
            trim(old(self).curr_person@).len() != 0 && !connected ==> out is None && added_note(
                old(self).messages@,
                final(self).messages@,
                "System"@,
                "Nu esti conectat la server!"@,
                time,
            ) && final(self).reply_to == old(self).reply_to,
            trim(old(self).curr_person@).len() != 0 && connected ==> final(self).messages@.len()
                == 0 && final(self).reply_to is None,
            trim(old(self).curr_person@).len() != 0 && connected ==> (out matches Some(
                Message::HistoryInfo { user },
            ) && user@ == trim(old(self).curr_person@)),
            final(self).curr_person == old(self).curr_person,
    {
        let person = trimmed(self.curr_person.as_str());
        if person.as_str().is_empty() {
            return None;
        }
        if !connected {
            self.system_note("Nu esti conectat la server!".to_owned(), time);
            return None;
        }
        self.messages.clear();
        self.reply_to = None;
        Some(Message::HistoryInfo { user: person })
    }

    /// A history request could not be sent: a note says why.
    pub fn history_failed(&mut self, error: &str, time: i64)
        ensures
            same_forms(*old(self), *final(self)),
            final(self).reply_to == old(self).reply_to,
            added_note(
                old(self).messages@,
                final(self).messages@,
                "System"@,
                "Eroare la preluarea istoricului! "@ + error@,
                time,
            ),
    {
        let text = joined("Eroare la preluarea istoricului! ", error);
        self.system_note(text, time);
    }

    /// The send button: the trimmed person and text; if either is empty
    /// nothing happens; with no connection a note says so; otherwise the
    /// text to send, answering the pending message if there is one.
    pub fn compose(&mut self, connected: bool, time: i64) -> (out: Option<Message>)
        ensures
            same_forms(*old(self), *final(self)),
            trim(old(self).curr_person@).len() == 0 || trim(old(self).message_input@).len() == 0
                ==> out is None && final(self).messages == old(self).messages,
            trim(old(self).curr_person@).len() != 0 && trim(old(self).message_input@).len() != 0
                && !connected ==> out is None && added_note(
                old(self).messages@,
                final(self).messages@,
                "System"@,
                "Nu esti conectat la server"@,
                time,
            ),
            trim(old(self).curr_person@).len() != 0 && trim(old(self).message_input@).len() != 0
                && connected ==> final(self).messages == old(self).messages,
            trim(old(self).curr_person@).len() != 0 && trim(old(self).message_input@).len() != 0
                && connected ==> (out matches Some(Message::Text { to, content, reply_id }) && to@
                == trim(old(self).curr_person@) && content@ == trim(old(self).message_input@)
                && reply_id == old(self).reply_to),
            final(self).reply_to == old(self).reply_to,
            final(self).message_input == old(self).message_input,
            final(self).curr_person == old(self).curr_person,
            final(self).username == old(self).username,
    {
        let person = trimmed(self.curr_person.as_str());
        let text = trimmed(self.message_input.as_str());
        if person.as_str().is_empty() || text.as_str().is_empty() {
            return None;
        }
        if !connected {
            self.system_note("Nu esti conectat la server".to_owned(), time);
            return None;
        }
        Some(Message::Text { to: person, content: text, reply_id: self.reply_to })
    }

    /// The text composed last went out: it is shown at once, from the user
    /// (or "curr_user" while the name field is blank), answering what was
    /// pending; then no answer is pending and the input is emptied.
    pub fn sent(&mut self, time: i64)
        ensures
            final(self).username == old(self).username,
            final(self).password == old(self).password,
            final(self).logged_status == old(self).logged_status,
            final(self).curr_person == old(self).curr_person,
            final(self).messages@.len() == old(self).messages@.len() + 1,
            final(self).messages@.subrange(0, old(self).messages@.len() as int)
                == old(self).messages@,
            final(self).messages@.last().id is None,
            final(self).messages@.last().content@ == trim(old(self).message_input@),
            final(self).messages@.last().time == time,
            final(self).messages@.last().reply_to == old(self).reply_to,
            trim(old(self).username@).len() == 0 ==> final(self).messages@.last().sender@
                == "curr_user"@,
            trim(old(self).username@).len() != 0 ==> final(self).messages@.last().sender
                == old(self).username,
            final(self).reply_to is None,
            final(self).message_input@.len() == 0,
    {
        let text = trimmed(self.message_input.as_str());
        let name = trimmed(self.username.as_str());
        let sender = if name.as_str().is_empty() {
            "curr_user".to_owned()
        } else {
            self.username.clone()
        };
        let line = ChatMessage { id: None, sender, content: text, time, reply_to: self.reply_to };
        self.messages.push(line);
        assert(self.messages@.subrange(0, old(self).messages@.len() as int) =~= old(
            self,
        ).messages@);
        self.reply_to = None;
        self.message_input = String::new();
    }

    /// The text could not be sent: a note says why.
    pub fn send_failed(&mut self, error: &str, time: i64)
        ensures
            same_forms(*old(self), *final(self)),
            added_note(
                old(self).messages@,
                final(self).messages@,
                "System"@,
                "Eroare la trimitere: "@ + error@,
                time,
            ),
            final(self).reply_to == old(self).reply_to,
            final(self).message_input == old(self).message_input,
    {
        let text = joined("Eroare la trimitere: ", error);
        self.system_note(text, time);
    }

    /// Answer the message numbered `id` with the next text.
    pub fn reply_message(&mut self, id: u64)
        ensures
            same_forms(*old(self), *final(self)),
            final(self).reply_to == Some(id),
            final(self).messages == old(self).messages,
    {
        self.reply_to = Some(id);
    }

    /// Answer nothing with the next text.
    pub fn cancel_reply(&mut self)
        ensures
            same_forms(*old(self), *final(self)),
            final(self).reply_to is None,
            final(self).messages == old(self).messages,
    {
        self.reply_to = None;
    }

    /// A message from the server: a delivered text becomes the last line; a
    /// history replaces all lines, in its order; anything else is handed
    /// back for the caller to note.
    pub fn receive(&mut self, msg: Message) -> (rest: Option<Message>)
        ensures
            same_forms(*old(self), *final(self)),
            final(self).curr_person == old(self).curr_person,
            final(self).reply_to == old(self).reply_to,
            final(self).message_input == old(self).message_input,
            msg is ToSend ==> rest is None && final(self).messages@ == old(self).messages@.push(
                line_for_delivery(
                    msg->ToSend_id,
                    msg->ToSend_from,
                    msg->ToSend_content,
                    msg->ToSend_time,
                    msg->ToSend_reply_id,
                ),
            ),
            msg is HistoryData ==> rest is None && final(self).messages@
                == msg->HistoryData_content@.map_values(
                |e: MessageHistoryInfo| line_for_history(e),
            ),
            msg is ToSend ==> final(self).messages@.len() == old(self).messages@.len() + 1
                && final(self).messages@.subrange(0, old(self).messages@.len() as int)
                == old(self).messages@ && final(self).messages@.last().id == Some(
                msg->ToSend_id,
            ) && final(self).messages@.last().sender == msg->ToSend_from
                && final(self).messages@.last().content == msg->ToSend_content
                && final(self).messages@.last().time == msg->ToSend_time
                && final(self).messages@.last().reply_to == msg->ToSend_reply_id,
            msg is HistoryData ==> final(self).messages@.len() == msg->HistoryData_content@.len()
                && forall|i: int|
                0 <= i < final(self).messages@.len() ==> {
                    let line = #[trigger] final(self).messages@[i];
                    let e = msg->HistoryData_content@[i];
                    &&& line.id == Some(e.message_id)
                    &&& line.sender == e.sender
                    &&& line.content == e.content
                    &&& line.time == e.time
                    &&& line.reply_to == e.reply_id
                },
            !(msg is ToSend) && !(msg is HistoryData) ==> rest == Some(msg) && final(self).messages
                == old(self).messages,
    {
        match msg {
            Message::ToSend { id, from, content, time, reply_id } => {
                let line = ChatMessage {
                    id: Some(id),
                    sender: from,
                    content,
                    time,
                    reply_to: reply_id,
                };
                self.append_line(line);
                None
            },
            Message::HistoryData { content } => {
                self.show_history(&content);
                proof {
                    assert forall|i: int| 0 <= i < self.messages@.len() implies {
                        let line = #[trigger] self.messages@[i];
                        let e = content@[i];
                        &&& line.id == Some(e.message_id)
                        &&& line.sender == e.sender
                        &&& line.content == e.content
                        &&& line.time == e.time
                        &&& line.reply_to == e.reply_id
                    } by {
                        assert(self.messages@[i] == line_for_history(content@[i]));
                    }
                }
                None
            },
            other => Some(other),
        }
    }

    /// Replaces the view with the lines of a history, in its order.
    fn show_history(&mut self, content: &Vec<MessageHistoryInfo>)
        ensures
            same_forms(*old(self), *final(self)),
            final(self).messages@ == content@.map_values(|e: MessageHistoryInfo| line_for_history(e)),
            final(self).reply_to == old(self).reply_to,
            final(self).message_input == old(self).message_input,
            final(self).curr_person == old(self).curr_person,
    {
        self.messages.clear();
        let mut i: usize = 0;
        while i < content.len()
            invariant
                i <= content@.len(),
                self.messages@ == content@.subrange(0, i as int).map_values(
                    |e: MessageHistoryInfo| line_for_history(e),
                ),
                self.reply_to == old(self).reply_to,
                self.message_input == old(self).message_input,
                self.curr_person == old(self).curr_person,
                self.username == old(self).username,
                self.password == old(self).password,
                self.logged_status == old(self).logged_status,
            decreases content@.len() - i,
        {
            let e = &content[i];
            let line = ChatMessage {
                id: Some(e.message_id),
                sender: e.sender.clone(),
                content: e.content.clone(),
                time: e.time,
                reply_to: e.reply_id,
            };
            self.messages.push(line);
            i = i + 1;
            assert(content@.subrange(0, i as int).map_values(
                |e: MessageHistoryInfo| line_for_history(e),
            ) =~= content@.subrange(0, i - 1 as int).map_values(
                |e: MessageHistoryInfo| line_for_history(e),
            ).push(line_for_history(content@[i - 1])));
        }
        assert(content@.subrange(0, content@.len() as int) =~= content@);
    }

    /// Adds `line` at the end of the view.
    fn append_line(&mut self, line: ChatMessage)
        ensures
            same_forms(*old(self), *final(self)),
            final(self).messages@ == old(self).messages@.push(line),
            final(self).reply_to == old(self).reply_to,
            final(self).message_input == old(self).message_input,
            final(self).curr_person == old(self).curr_person,
    {
        self.messages.push(line);
    }

    /// The position of the first line numbered `id`, if any.
    pub fn find_message(&self, id: u64) -> (pos: Option<usize>)
        ensures
            match pos {
                Some(i) => i < self.messages@.len() && self.messages@[i as int].id == Some(id)
                    && forall|j: int| 0 <= j < i ==> self.messages@[j].id != Some(id),
                None => forall|j: int|
                    0 <= j < self.messages@.len() ==> self.messages@[j].id != Some(id),
            },
    {
        let mut i: usize = 0;
        while i < self.messages.len()
            invariant
                i <= self.messages@.len(),
                forall|j: int| 0 <= j < i ==> self.messages@[j].id != Some(id),
            decreases self.messages@.len() - i,
        {
            if self.messages[i].id == Some(id) {
                return Some(i);
            }
            i = i + 1;
        }
        None
    }
}

} // verus!
