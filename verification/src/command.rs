//! The command line of the text client: `/login <user> <password>`,
//! `/history <user>`, `<recipient>: <text>` and `/quit`.
use crate::protocol::Message;
use crate::text::{chars_of, is_space, is_space_char, trim, trimmed};
use vstd::prelude::*;
use vstd::string::StrSliceExecFns;

verus! {

broadcast use vstd::string::group_string_axioms;

/// What a line typed at the client asks for.
#[derive(Debug)]
pub enum Command {
    /// A blank line: ask again.
    Nothing,
    /// `/quit`: stop.
    Quit,
    /// A message to send.
    Send(Message),
    /// `/login` without exactly a user and a password.
    LoginUsage,
    /// `/history` without exactly one user.
    HistoryUsage,
    /// Neither a command nor `recipient: text`.
    InvalidFormat,
}

/// The length of the run of characters that are not white space at the
/// start of `s`.
pub open spec fn word_len(s: Seq<char>) -> nat
    decreases s.len(),
{
    if s.len() == 0 || is_space(s[0]) {
        0
    } else {
        1 + word_len(s.subrange(1, s.len() as int))
    }
}

/// The words of `s`, in order: the maximal runs of characters that are not
/// white space (what `str::split_whitespace` yields).
pub open spec fn words(s: Seq<char>) -> Seq<Seq<char>>
    decreases s.len(),
{
    if s.len() == 0 {
        seq![]
    } else if is_space(s[0]) {
        words(s.subrange(1, s.len() as int))
    } else {
        let n = word_len(s);
        proof {
            lemma_word_len_bound(s);
        }
        if n == 0 {
            seq![]
        } else {
            seq![s.subrange(0, n as int)] + words(s.subrange(n as int, s.len() as int))
        }
    }
}

/// A word is no longer than the text it starts.
pub proof fn lemma_word_len_bound(s: Seq<char>)
    ensures
        word_len(s) <= s.len(),
    decreases s.len(),
{
    if s.len() > 0 && !is_space(s[0]) {
        lemma_word_len_bound(s.subrange(1, s.len() as int));
    }
}

/// The words of a text are non-empty runs without white space; a text
/// without white space is one word, and a text of white space alone has
/// none.
pub proof fn lemma_words_shape(s: Seq<char>)
    ensures
        forall|k: int|
            0 <= k < words(s).len() ==> (#[trigger] words(s)[k]).len() > 0 && forall|i: int|
                0 <= i < words(s)[k].len() ==> !is_space(#[trigger] words(s)[k][i]),
        s.len() > 0 && (forall|i: int| 0 <= i < s.len() ==> !is_space(#[trigger] s[i])) ==> words(
            s,
        ) == seq![s],
        (forall|i: int| 0 <= i < s.len() ==> is_space(#[trigger] s[i])) ==> words(s).len() == 0,
    decreases s.len(),
{
    if s.len() > 0 {
        let t = s.subrange(1, s.len() as int);
        if is_space(s[0]) {
            lemma_words_shape(t);
            assert(words(s) == words(t));
            assert forall|i: int| 0 <= i < t.len() && (forall|m: int| 0 <= m < s.len() ==> is_space(#[trigger] s[m])) implies is_space(#[trigger] t[i]) by {
                assert(t[i] == s[i + 1]);
            }
        } else {
            let n = word_len(s);
            lemma_word_len_bound(s);
            lemma_word_len_run(s);
            let w = s.subrange(0, n as int);
            let rest = s.subrange(n as int, s.len() as int);
            lemma_words_shape(rest);
            assert forall|k: int| 0 <= k < words(s).len() implies (#[trigger] words(s)[k]).len() > 0
                && forall|i: int| 0 <= i < words(s)[k].len() ==> !is_space(#[trigger] words(s)[k][i]) by {
                if k == 0 {
                    assert(words(s)[0] == w);
                    assert forall|i: int| 0 <= i < w.len() implies !is_space(#[trigger] w[i]) by {
                        assert(w[i] == s[i]);
                    }
                } else {
                    assert(words(s)[k] == words(rest)[k - 1]);
                }
            }
            if forall|i: int| 0 <= i < s.len() ==> !is_space(#[trigger] s[i]) {
                if n < s.len() {
                    assert(!is_space(s[n as int]));
                }
                assert(n == s.len());
                assert(w =~= s);
                assert(rest.len() == 0);
                assert(words(rest) == Seq::<Seq<char>>::empty());
                assert(words(s) =~= seq![s]);
            }
        }
    }
}

/// A word ends at the first white space or at the end of the text.
proof fn lemma_word_len_run(s: Seq<char>)
    ensures
        forall|i: int| 0 <= i < word_len(s) ==> !is_space(#[trigger] s[i]),
        word_len(s) < s.len() ==> is_space(s[word_len(s) as int]),
    decreases s.len(),
{
    if s.len() > 0 && !is_space(s[0]) {
        let t = s.subrange(1, s.len() as int);
        lemma_word_len_run(t);
        lemma_word_len_bound(t);
        assert forall|i: int| 0 <= i < word_len(s) implies !is_space(#[trigger] s[i]) by {
            if i > 0 {
                assert(s[i] == t[i - 1]);
            }
        }
        if word_len(s) < s.len() {
            assert(s[word_len(s) as int] == t[word_len(t) as int]);
        }
    }
}

/// A word runs up to the first white space.
proof fn lemma_word_len_step(s: Seq<char>, i: int, k: int)
    requires
        0 <= i <= k < s.len(),
        !is_space(s[k]),
    ensures
        word_len(s.subrange(k, s.len() as int)) == 1 + word_len(s.subrange(k + 1, s.len() as int)),
{
    let t = s.subrange(k, s.len() as int);
    assert(t.subrange(1, t.len() as int) =~= s.subrange(k + 1, s.len() as int));
}

/// The words of `s` (a `&str`), each as a new `String`.
pub fn split_words(s: &str) -> (ws: Vec<String>)
    ensures
        ws@.len() == words(s@).len(),
        forall|k: int| 0 <= k < ws@.len() ==> (#[trigger] ws@[k])@ == words(s@)[k],
{
    let cs = chars_of(s);
    let n = cs.len();
    let mut ws: Vec<String> = Vec::new();
    let mut i: usize = 0;
    let ghost sv = s@;
    proof {
        assert(sv.subrange(0, sv.len() as int) =~= sv);
    }
    while i < n
        invariant
            i <= n,
            n == cs@.len(),
            cs@ == sv,
            sv == s@,
            ws@.len() + words(sv.subrange(i as int, n as int)).len() == words(sv).len(),
            forall|k: int| 0 <= k < ws@.len() ==> (#[trigger] ws@[k])@ == words(sv)[k],
            forall|k: int|
                0 <= k < words(sv.subrange(i as int, n as int)).len() ==> #[trigger] words(
                    sv.subrange(i as int, n as int),
                )[k] == words(sv)[ws@.len() + k],
        decreases n - i,
    {
        let ghost rest = sv.subrange(i as int, n as int);
        if is_space_char(cs[i]) {
            proof {
                assert(rest.subrange(1, rest.len() as int) =~= sv.subrange(i + 1, n as int));
            }
            i = i + 1;
        } else {
            let mut j: usize = i;
            while j < n && !is_space_char(cs[j])
                invariant
                    i <= j <= n,
                    n == cs@.len(),
                    cs@ == sv,
                    forall|m: int| i <= m < j ==> !is_space(#[trigger] sv[m]),
                    word_len(sv.subrange(i as int, n as int)) == (j - i) + word_len(
                        sv.subrange(j as int, n as int),
                    ),
                decreases n - j,
            {
                proof {
                    lemma_word_len_step(sv, i as int, j as int);
                }
                j = j + 1;
            }
            proof {
                let tail = sv.subrange(j as int, n as int);
                if j < n {
                    assert(tail[0] == sv[j as int]);
                }
                assert(word_len(tail) == 0);
                assert(rest[0] == sv[i as int]);
                assert(rest.subrange(0, (j - i) as int) =~= sv.subrange(i as int, j as int));
                assert(rest.subrange((j - i) as int, rest.len() as int) =~= tail);
            }
            let w = s.substring_char(i, j);
            let ghost old_ws = ws@;
            proof {
                let tail = sv.subrange(j as int, n as int);
                lemma_word_len_bound(rest);
                assert(words(rest) == seq![sv.subrange(i as int, j as int)] + words(tail));
                assert(words(rest)[0] == words(sv)[old_ws.len() as int]);
                assert forall|k: int| 0 <= k < words(tail).len() implies #[trigger] words(tail)[k]
                    == words(sv)[old_ws.len() + 1 + k] by {
                    assert(words(tail)[k] == words(rest)[k + 1]);
                }
            }
            ws.push(w.to_owned());
            i = j;
        }
    }
    proof {
        assert(words(sv.subrange(n as int, n as int)) == Seq::<Seq<char>>::empty());
    }
    ws
}

/// `s` begins with `prefix`.
pub open spec fn begins_with(s: Seq<char>, prefix: Seq<char>) -> bool {
    prefix.len() <= s.len() && s.subrange(0, prefix.len() as int) == prefix
}

/// `k` is the position of the first ':' in `s`.
pub open spec fn first_colon_at(s: Seq<char>, k: int) -> bool {
    &&& 0 <= k < s.len()
    &&& s[k] == ':'
    &&& forall|j: int| 0 <= j < k ==> s[j] != ':'
}

/// Whether the characters `cs` begin with those of `prefix`.
fn chars_begin_with(cs: &Vec<char>, prefix: &str) -> (b: bool)
    ensures
        b == begins_with(cs@, prefix@),
{
    let ps = chars_of(prefix);
    if ps.len() > cs.len() {
        return false;
    }
    let mut i: usize = 0;
    while i < ps.len()
        invariant
            i <= ps@.len() <= cs@.len(),
            ps@ == prefix@,
            forall|j: int| 0 <= j < i ==> cs@[j] == ps@[j],
        decreases ps@.len() - i,
    {
        if cs[i] != ps[i] {
            assert(cs@.subrange(0, ps@.len() as int)[i as int] != ps@[i as int]);
            return false;
        }
        i = i + 1;
    }
    assert(cs@.subrange(0, ps@.len() as int) =~= ps@);
    true
}

/// The position of the first ':' in `cs`, if any.
fn find_colon(cs: &Vec<char>) -> (pos: Option<usize>)
    ensures
        match pos {
            Some(k) => first_colon_at(cs@, k as int),
            None => forall|j: int| 0 <= j < cs@.len() ==> cs@[j] != ':',
        },
{
    let mut i: usize = 0;
    while i < cs.len()
        invariant
            i <= cs@.len(),
            forall|j: int| 0 <= j < i ==> cs@[j] != ':',
        decreases cs@.len() - i,
    {
        if cs[i] == ':' {
            return Some(i);
        }
        i = i + 1;
    }
    None
}

/// Reads a line typed at the client. The line is trimmed first; a blank
/// line asks for nothing and `/quit` stops. A line that starts with
/// `/login` must have exactly three words (the command, the user and the
/// password), one that starts with `/history` exactly two; otherwise the
/// usage is shown. Any other line must hold a ':': the trimmed text before
/// the first ':' is the recipient and all that follows it is the text.
pub fn parse_command(line: &str) -> (cmd: Command)
    ensures
        trim(line@).len() == 0 ==> cmd is Nothing,
        trim(line@).len() != 0 && trim(line@) == "/quit"@ ==> cmd is Quit,
        trim(line@).len() != 0 && trim(line@) != "/quit"@ && begins_with(trim(line@), "/login"@)
            ==> if words(trim(line@)).len() == 3 {
            cmd matches Command::Send(Message::Login { username, password }) && username@
                == words(trim(line@))[1] && password@ == words(trim(line@))[2]
        } else {
            cmd is LoginUsage
        },
        trim(line@).len() != 0 && trim(line@) != "/quit"@ && !begins_with(trim(line@), "/login"@)
            && begins_with(trim(line@), "/history"@) ==> if words(trim(line@)).len() == 2 {
            cmd matches Command::Send(Message::HistoryInfo { user }) && user@ == words(
                trim(line@),
            )[1]
        } else {
            cmd is HistoryUsage
        },
        trim(line@).len() != 0 && trim(line@) != "/quit"@ && !begins_with(trim(line@), "/login"@)
            && !begins_with(trim(line@), "/history"@) ==> if exists|k: int|
            first_colon_at(trim(line@), k) {
            exists|k: int|
                #![trigger first_colon_at(trim(line@), k)]
                first_colon_at(trim(line@), k) && (cmd matches Command::Send(
                    Message::Text { to, content, reply_id },
                ) && to@ == trim(trim(line@).subrange(0, k)) && content@ == trim(line@).subrange(
                    k + 1,
                    trim(line@).len() as int,
                ) && reply_id is None)
        } else {
            cmd is InvalidFormat
        },
{
    let content = trimmed(line);
    let cs = chars_of(content.as_str());
    if cs.len() == 0 {
        return Command::Nothing;
    }
    let quit = "/quit".to_owned();
    if content == quit {
        return Command::Quit;
    }
    if chars_begin_with(&cs, "/login") {
        let ws = split_words(content.as_str());
        if ws.len() == 3 {
            let username = ws[1].clone();
            let password = ws[2].clone();
            return Command::Send(Message::Login { username, password });
        }
        return Command::LoginUsage;
    }
    if chars_begin_with(&cs, "/history") {
        let ws = split_words(content.as_str());
        if ws.len() == 2 {
            let user = ws[1].clone();
            return Command::Send(Message::HistoryInfo { user });
        }
        return Command::HistoryUsage;
    }
    match find_colon(&cs) {
        Some(k) => {
            let dest = content.as_str().substring_char(0, k);
            let text = content.as_str().substring_char(k + 1, cs.len());
            let to = trimmed(dest);
            let cmd = Command::Send(
                Message::Text { to, content: text.to_owned(), reply_id: None },
            );
            assert(first_colon_at(trim(line@), k as int));
            cmd
        },
        None => Command::InvalidFormat,
    }
}

} // verus!
