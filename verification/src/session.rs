//! The server's view of one connection: who is logged in on it, and what
//! each opened message from the client asks the server to do.
use crate::login::LoginDecision;
use crate::protocol::Message;
use vstd::prelude::*;

verus! {

/// Why the server answers a message with nothing but a log line.
#[derive(Debug, PartialEq, Eq, Structural, Clone, Copy)]
pub enum Refusal {
    /// A text from a connection on which nobody is logged in.
    TextWithoutLogin,
    /// A history request from a connection on which nobody is logged in.
    HistoryWithoutLogin,
    /// A message that clients do not send (keys, deliveries, histories).
    UnknownCommand,
}

/// What the server does for one message.
#[derive(Debug)]
pub enum Request {
    /// Check the password of `username`, or register the name.
    Login { username: String, password: String },
    /// Store a text from the logged-in `sender` to `to` and deliver it.
    StoreText { sender: String, to: String, content: String, reply_id: Option<u64> },
    /// Send `user` the conversation between `user` and `other`.
    SendHistory { user: String, other: String },
    /// Do nothing but log why.
    Refuse(Refusal),
}

/// One client's connection, from the server's side.
pub struct Session {
    curr_user: Option<String>,
}

/// What the server does for `msg` when `user` is logged in on the connection
/// (or nobody is).
pub open spec fn request_for(user: Option<String>, msg: Message) -> Request {
    match msg {
        Message::Login { username, password } => Request::Login { username, password },
        Message::Text { to, content, reply_id } => match user {
            Some(sender) => Request::StoreText { sender, to, content, reply_id },
            None => Request::Refuse(Refusal::TextWithoutLogin),
        },
        Message::HistoryInfo { user: other } => match user {
            Some(u) => Request::SendHistory { user: u, other },
            None => Request::Refuse(Refusal::HistoryWithoutLogin),
        },
        _ => Request::Refuse(Refusal::UnknownCommand),
    }
}

/// A login is always tried, whoever is logged in on the connection (or
/// nobody), with the name and password as sent.
pub proof fn lemma_login_always_tried(user: Option<String>, username: String, password: String)
    ensures
        request_for(user, Message::Login { username, password }) == (Request::Login {
            username,
            password,
        }),
{
}

/// A text or history request is served exactly when someone is logged in,
/// and then on behalf of that user, with the message's own fields.
pub proof fn lemma_served_as_current_user(user: Option<String>, msg: Message)
    requires
        msg is Text || msg is HistoryInfo,
    ensures
        user is None ==> request_for(user, msg) is Refuse,
        user is Some && msg is Text ==> request_for(user, msg) == (Request::StoreText {
            sender: user->0,
            to: msg->Text_to,
            content: msg->Text_content,
            reply_id: msg->Text_reply_id,
        }),
        user is Some && msg is HistoryInfo ==> request_for(user, msg) == (Request::SendHistory {
            user: user->0,
            other: msg->HistoryInfo_user,
        }),
{
}

impl Session {
    /// Who is logged in on this connection.
    pub closed spec fn user(&self) -> Option<String> {
        self.curr_user
    }

    /// A connection on which nobody is logged in yet.
    pub fn new() -> (s: Session)
        ensures
            s.user() is None,
    {
        Session { curr_user: None }
    }

    /// Who is logged in on this connection.
    pub fn current_user(&self) -> (u: Option<String>)
        ensures
            u == self.user(),
    {
        match &self.curr_user {
            Some(name) => Some(name.clone()),
            None => None,
        }
    }

    /// What to do for `msg`: a login is always tried; a text or a history
    /// request is served only when someone is logged in, and then on behalf
    /// of that user; anything else is refused.
    pub fn dispatch(&self, msg: Message) -> (r: Request)
        ensures
            r == request_for(self.user(), msg),
            r matches Request::StoreText { sender, .. } ==> self.user() == Some(sender),
            r matches Request::SendHistory { user, .. } ==> self.user() == Some(user),
            msg is Login ==> r == (Request::Login {
                username: msg->Login_username,
                password: msg->Login_password,
            }),
            msg is Text && self.user() is Some ==> r == (Request::StoreText {
                sender: self.user()->0,
                to: msg->Text_to,
                content: msg->Text_content,
                reply_id: msg->Text_reply_id,
            }),
            msg is Text && self.user() is None ==> r == Request::Refuse(Refusal::TextWithoutLogin),
            msg is HistoryInfo && self.user() is Some ==> r == (Request::SendHistory {
                user: self.user()->0,
                other: msg->HistoryInfo_user,
            }),
            msg is HistoryInfo && self.user() is None ==> r == Request::Refuse(
                Refusal::HistoryWithoutLogin,
            ),
            !(msg is Login) && !(msg is Text) && !(msg is HistoryInfo) ==> r == Request::Refuse(
                Refusal::UnknownCommand,
            ),
    {
        match msg {
            Message::Login { username, password } => Request::Login { username, password },
            Message::Text { to, content, reply_id } => match &self.curr_user {
                Some(sender) => Request::StoreText { sender: sender.clone(), to, content, reply_id },
                None => Request::Refuse(Refusal::TextWithoutLogin),
            },
            Message::HistoryInfo { user } => match &self.curr_user {
                Some(u) => Request::SendHistory { user: u.clone(), other: user },
                None => Request::Refuse(Refusal::HistoryWithoutLogin),
            },
            _ => Request::Refuse(Refusal::UnknownCommand),
        }
    }

    /// Records the outcome of a login for `username`: after a registration or
    /// an accepted password that user is logged in on the connection; after a
    /// rejection nothing changes. Returns whether the login succeeded.
    pub fn finish_login(&mut self, username: String, decision: LoginDecision) -> (ok: bool)
        ensures
            ok == (decision != LoginDecision::Reject),
            ok ==> final(self).user() == Some(username),
            !ok ==> final(self).user() == old(self).user(),
    {
        if decision.succeeded() {
            self.curr_user = Some(username);
            true
        } else {
            false
        }
    }

    /// Ends the connection: the user to take off the list of those online,
    /// if someone was logged in.
    pub fn close(self) -> (u: Option<String>)
        ensures
            u == self.user(),
    {
        self.curr_user
    }
}

} // verus!
