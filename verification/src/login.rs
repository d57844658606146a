//! Accounts: a password is kept as the lowercase hex of its SHA-256 digest;
//! the first login of a name registers it, later ones must match.
use crate::criptare::{sha256, sha256_of};
use vstd::prelude::*;
use vstd::string::StrSliceExecFns;

verus! {

broadcast use vstd::string::group_string_axioms;

/// The lowercase hex digit of `n` (below 16).
pub open spec fn hex_digit(n: int) -> char
    recommends
        0 <= n < 16,
{
    if n < 10 {
        (48 + n) as char
    } else {
        (87 + n) as char
    }
}

/// The lowercase hex of `bytes`: two digits per byte, high half first.
pub open spec fn lower_hex(bytes: Seq<u8>) -> Seq<char> {
    Seq::new(
        2 * bytes.len(),
        |i: int|
            if i % 2 == 0 {
                hex_digit((bytes[i / 2] / 16) as int)
            } else {
                hex_digit((bytes[i / 2] % 16) as int)
            },
    )
}

/// The value of a lowercase hex digit.
pub open spec fn hex_value(c: char) -> int {
    if (c as int) < 87 {
        (c as int) - 48
    } else {
        (c as int) - 87
    }
}

/// The stored form of a password: the lowercase hex of the SHA-256 digest of
/// its UTF-8 bytes.
pub open spec fn password_hash_of(password: Seq<char>) -> Seq<char> {
    lower_hex(sha256(vstd::utf8::encode_utf8(password)))
}

/// Lowercase hex has two characters per byte, each a digit from '0' to
/// '9' or a letter from 'a' to 'f'.
pub proof fn lemma_lower_hex_alphabet(bytes: Seq<u8>)
    ensures
        lower_hex(bytes).len() == 2 * bytes.len(),
        forall|i: int|
            0 <= i < lower_hex(bytes).len() ==> ('0' <= #[trigger] lower_hex(bytes)[i] <= '9') || (
            'a' <= lower_hex(bytes)[i] <= 'f'),
{
}

/// Each hex digit gives back the value it was made from.
pub proof fn lemma_hex_digit_value(n: int)
    requires
        0 <= n < 16,
    ensures
        hex_value(hex_digit(n)) == n,
{
}

/// Lowercase hex loses nothing: equal hex means equal bytes.
pub proof fn lemma_lower_hex_injective(a: Seq<u8>, b: Seq<u8>)
    requires
        lower_hex(a) == lower_hex(b),
    ensures
        a == b,
{
    assert(a.len() == b.len()) by {
        assert(lower_hex(a).len() == 2 * a.len());
    }
    assert forall|k: int| 0 <= k < a.len() implies a[k] == b[k] by {
        lemma_hex_byte(a, b, k);
    }
    assert(a =~= b);
}

/// Equal hex digits at positions `2k` and `2k + 1` mean equal bytes at `k`.
proof fn lemma_hex_byte(a: Seq<u8>, b: Seq<u8>, k: int)
    requires
        lower_hex(a) == lower_hex(b),
        a.len() == b.len(),
        0 <= k < a.len(),
    ensures
        a[k] == b[k],
{
    let hi = 2 * k;
    let lo = 2 * k + 1;
    assert(hi / 2 == k && hi % 2 == 0);
    assert(lo / 2 == k && lo % 2 == 1);
    let ah = (a[k] / 16) as int;
    let bh = (b[k] / 16) as int;
    let al = (a[k] % 16) as int;
    let bl = (b[k] % 16) as int;
    assert(lower_hex(a)[hi] == hex_digit(ah));
    assert(lower_hex(b)[hi] == hex_digit(bh));
    assert(lower_hex(a)[lo] == hex_digit(al));
    assert(lower_hex(b)[lo] == hex_digit(bl));
    lemma_hex_digit_value(ah);
    lemma_hex_digit_value(bh);
    lemma_hex_digit_value(al);
    lemma_hex_digit_value(bl);
    assert(ah == bh);
    assert(al == bl);
    assert(a[k] == 16 * ah + al);
    assert(b[k] == 16 * bh + bl);
}

/// The one-letter string of the hex digit of `n` (below 16).
fn hex_digit_str(n: u8) -> (s: &'static str)
    requires
        n < 16,
    ensures
        s@ == seq![hex_digit(n as int)],
{
    let digits = "0123456789abcdef";
    proof {
        reveal_strlit("0123456789abcdef");
    }
    let s = digits.substring_char(n as usize, n as usize + 1);
    assert(s@ =~= seq![digits@[n as int]]);
    s
}

/// The lowercase hex of `bytes`.
pub fn lower_hex_string(bytes: &[u8]) -> (s: String)
    ensures
        s@ == lower_hex(bytes@),
{
    let mut s = String::new();
    let mut i: usize = 0;
    while i < bytes.len()
        invariant
            i <= bytes@.len(),
            s@ == lower_hex(bytes@.subrange(0, i as int)),
        decreases bytes@.len() - i,
    {
        let b = bytes[i];
        let hi = hex_digit_str(b / 16);
        let lo = hex_digit_str(b % 16);
        let ghost before = s@;
        s.append(hi);
        s.append(lo);
        i = i + 1;
        assert(lower_hex(bytes@.subrange(0, i as int)) =~= before + seq![
            hex_digit((b / 16) as int),
            hex_digit((b % 16) as int),
        ]);
    }
    assert(bytes@.subrange(0, bytes@.len() as int) =~= bytes@);
    s
}

/// How a password is stored: the lowercase hex of the SHA-256 digest of its
/// UTF-8 bytes (64 characters).
pub fn password_hash(password: &str) -> (h: String)
    ensures
        h@ == password_hash_of(password@),
{
    let digest = sha256_of(password.as_bytes());
    lower_hex_string(&digest)
}

/// What a login request leads to.
#[derive(Debug, PartialEq, Eq, Structural, Clone, Copy)]
pub enum LoginDecision {
    /// The name is new: store it with the password's hash; the login succeeds.
    Register,
    /// The stored hash matches: the login succeeds.
    Accept,
    /// The stored hash differs: the login fails.
    Reject,
}

impl LoginDecision {
    /// Whether the user is logged in afterwards.
    pub fn succeeded(&self) -> (b: bool)
        ensures
            b == (*self != LoginDecision::Reject),
    {
        match self {
            LoginDecision::Reject => false,
            _ => true,
        }
    }
}

/// The decision for a login whose password hashes to `password_hash`, given
/// the hash stored for the name, if the name is known.
pub open spec fn login_outcome(stored_hash: Option<Seq<char>>, password_hash: Seq<char>) -> LoginDecision {
    match stored_hash {
        None => LoginDecision::Register,
        Some(h) => if h == password_hash {
            LoginDecision::Accept
        } else {
            LoginDecision::Reject
        },
    }
}

/// Decides a login: an unknown name is registered, a known one is accepted
/// exactly when the stored hash equals the hash of the given password.
pub fn decide_login(stored_hash: &Option<String>, password_hash: &String) -> (d: LoginDecision)
    ensures
        d == login_outcome(
            match stored_hash {
                Some(h) => Some(h@),
                None => None,
            },
            password_hash@,
        ),
{
    match stored_hash {
        None => LoginDecision::Register,
        Some(h) => if *h == *password_hash {
            LoginDecision::Accept
        } else {
            LoginDecision::Reject
        },
    }
}

/// Whoever registered a name with a password is let in again with a
/// password exactly when its digest equals that of the first one.
pub proof fn lemma_login_after_register(first: Seq<char>, later: Seq<char>)
    ensures
        login_outcome(Some(password_hash_of(first)), password_hash_of(later))
            == LoginDecision::Accept <==> sha256(vstd::utf8::encode_utf8(first)) == sha256(
            vstd::utf8::encode_utf8(later),
        ),
        login_outcome(None, password_hash_of(first)) == LoginDecision::Register,
{
    if password_hash_of(first) == password_hash_of(later) {
        lemma_lower_hex_injective(
            sha256(vstd::utf8::encode_utf8(first)),
            sha256(vstd::utf8::encode_utf8(later)),
        );
    }
}

} // verus!
