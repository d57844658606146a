//! Character-level helpers on strings: white space as Unicode defines it,
//! trimming, and the letters of a `&str`.
use vstd::prelude::*;
use vstd::std_specs::iter::IteratorSpec;

verus! {

broadcast use vstd::string::group_string_axioms;

/// Unicode `White_Space`: the characters that `char::is_whitespace` accepts.
pub open spec fn is_space(c: char) -> bool {
    let u = c as u32;
    (0x9 <= u <= 0xd) || u == 0x20 || u == 0x85 || u == 0xa0 || u == 0x1680 || (0x2000 <= u
        <= 0x200a) || u == 0x2028 || u == 0x2029 || u == 0x202f || u == 0x205f || u == 0x3000
}

/// Among ASCII characters, exactly tab, line feed, vertical tab, form feed,
/// carriage return and space are white space.
pub proof fn lemma_ascii_space(c: char)
    requires
        (c as u32) < 0x80,
    ensures
        is_space(c) <==> (c == '\t' || c == '\n' || c == '\x0b' || c == '\x0c' || c == '\r'
            || c == ' '),
{
}

/// `s` without its leading white space.
pub open spec fn trim_start(s: Seq<char>) -> Seq<char>
    decreases s.len(),
{
    if s.len() > 0 && is_space(s[0]) {
        trim_start(s.subrange(1, s.len() as int))
    } else {
        s
    }
}

/// `s` without its trailing white space.
pub open spec fn trim_end(s: Seq<char>) -> Seq<char>
    decreases s.len(),
{
    if s.len() > 0 && is_space(s[s.len() - 1]) {
        trim_end(s.subrange(0, s.len() - 1))
    } else {
        s
    }
}

/// `s` without its leading and trailing white space, as `str::trim` gives it.
pub open spec fn trim(s: Seq<char>) -> Seq<char> {
    trim_end(trim_start(s))
}

/// Whether `c` is white space.
pub fn is_space_char(c: char) -> (b: bool)
    ensures
        b == is_space(c),
        (c as u32) < 0x80 ==> (b <==> (c == '\t' || c == '\n' || c == '\x0b' || c == '\x0c'
            || c == '\r' || c == ' ')),
{
    let u = c as u32;
    (0x9 <= u && u <= 0xd) || u == 0x20 || u == 0x85 || u == 0xa0 || u == 0x1680 || (0x2000 <= u
        && u <= 0x200a) || u == 0x2028 || u == 0x2029 || u == 0x202f || u == 0x205f || u == 0x3000
}

/// The characters of `s`, in order.
pub fn chars_of(s: &str) -> (v: Vec<char>)
    ensures
        v@ == s@,
{
    let mut it = s.chars();
    let mut v: Vec<char> = Vec::new();
    loop
        invariant
            v@ + it.remaining() == s@,
            it.decrease() is Some,
        decreases it.decrease()->0,
    {
        let ghost before = it.remaining();
        match it.next() {
            Some(c) => {
                v.push(c);
                assert(v@ + it.remaining() =~= s@);
            },
            None => {
                assert(v@ =~= s@);
                return v;
            },
        }
    }
}

/// Leading white space can be dropped before trimming the start.
pub proof fn lemma_trim_start_skip(s: Seq<char>, i: int)
    requires
        0 <= i <= s.len(),
        forall|j: int| 0 <= j < i ==> is_space(#[trigger] s[j]),
    ensures
        trim_start(s) == trim_start(s.subrange(i, s.len() as int)),
    decreases i,
{
    if i > 0 {
        let t = s.subrange(1, s.len() as int);
        assert forall|j: int| 0 <= j < i - 1 implies is_space(#[trigger] t[j]) by {
            assert(t[j] == s[j + 1]);
        }
        lemma_trim_start_skip(t, i - 1);
        assert(t.subrange(i - 1, t.len() as int) =~= s.subrange(i, s.len() as int));
    } else {
        assert(s.subrange(0, s.len() as int) =~= s);
    }
}

/// Trailing white space can be dropped before trimming the end.
pub proof fn lemma_trim_end_drop(s: Seq<char>, k: int)
    requires
        0 <= k <= s.len(),
        forall|j: int| k <= j < s.len() ==> is_space(#[trigger] s[j]),
    ensures
        trim_end(s) == trim_end(s.subrange(0, k)),
    decreases s.len() - k,
{
    if k < s.len() {
        let t = s.subrange(0, s.len() - 1);
        assert forall|j: int| k <= j < t.len() implies is_space(#[trigger] t[j]) by {
            assert(t[j] == s[j]);
        }
        lemma_trim_end_drop(t, k);
        assert(t.subrange(0, k) =~= s.subrange(0, k));
    } else {
        assert(s.subrange(0, k) =~= s);
    }
}

/// `s` without leading and trailing white space, as a new `String`.
pub fn trimmed(s: &str) -> (t: String)
    ensures
        t@ == trim(s@),
{
    let cs = chars_of(s);
    let n = cs.len();
    let mut a: usize = 0;
    while a < n && is_space_char(cs[a])
        invariant
            a <= n,
            n == cs@.len(),
            cs@ == s@,
            forall|j: int| 0 <= j < a ==> is_space(#[trigger] cs@[j]),
        decreases n - a,
    {
        a = a + 1;
    }
    let mut b: usize = n;
    while b > a && is_space_char(cs[b - 1])
        invariant
            a <= b <= n,
            n == cs@.len(),
            cs@ == s@,
            forall|j: int| b <= j < n ==> is_space(#[trigger] cs@[j]),
        decreases b - a,
    {
        b = b - 1;
    }
    proof {
        let sv = s@;
        lemma_trim_start_skip(sv, a as int);
        let rest = sv.subrange(a as int, n as int);
        assert(trim_start(rest) == rest);
        assert forall|j: int| (b - a) <= j < rest.len() implies is_space(#[trigger] rest[j]) by {
            assert(rest[j] == sv[j + a]);
        }
        lemma_trim_end_drop(rest, (b - a) as int);
        let core = rest.subrange(0, (b - a) as int);
        assert(core =~= sv.subrange(a as int, b as int));
        if core.len() > 0 {
            assert(core[core.len() - 1] == sv[b - 1]);
        }
        assert(trim_end(core) == core);
    }
    let piece = s.substring_char(a, b);
    piece.to_owned()
}

/// Trimming the start removes exactly the leading run of white space.
pub proof fn lemma_trim_start_shape(s: Seq<char>)
    ensures
        exists|a: int|
            0 <= a <= s.len() && trim_start(s) == s.subrange(a, s.len() as int) && (forall|i: int|
                0 <= i < a ==> is_space(#[trigger] s[i])) && (a < s.len() ==> !is_space(s[a])),
    decreases s.len(),
{
    if s.len() > 0 && is_space(s[0]) {
        let t = s.subrange(1, s.len() as int);
        lemma_trim_start_shape(t);
        let a = choose|a: int|
            0 <= a <= t.len() && trim_start(t) == t.subrange(a, t.len() as int) && (forall|i: int|
                0 <= i < a ==> is_space(#[trigger] t[i])) && (a < t.len() ==> !is_space(t[a]));
        assert(t.subrange(a, t.len() as int) =~= s.subrange(a + 1, s.len() as int));
        assert forall|i: int| 0 <= i < a + 1 implies is_space(#[trigger] s[i]) by {
            if i > 0 {
                assert(s[i] == t[i - 1]);
            }
        }
        if a < t.len() {
            assert(s[a + 1] == t[a]);
        }
    } else {
        assert(s.subrange(0, s.len() as int) =~= s);
    }
}

/// Trimming the end removes exactly the trailing run of white space.
pub proof fn lemma_trim_end_shape(s: Seq<char>)
    ensures
        exists|b: int|
            0 <= b <= s.len() && trim_end(s) == s.subrange(0, b) && (forall|i: int|
                b <= i < s.len() ==> is_space(#[trigger] s[i])) && (b > 0 ==> !is_space(s[b - 1])),
    decreases s.len(),
{
    if s.len() > 0 && is_space(s[s.len() - 1]) {
        let t = s.subrange(0, s.len() - 1);
        lemma_trim_end_shape(t);
        let b = choose|b: int|
            0 <= b <= t.len() && trim_end(t) == t.subrange(0, b) && (forall|i: int|
                b <= i < t.len() ==> is_space(#[trigger] t[i])) && (b > 0 ==> !is_space(t[b - 1]));
        assert(t.subrange(0, b) =~= s.subrange(0, b));
        assert forall|i: int| b <= i < s.len() implies is_space(#[trigger] s[i]) by {
            if i < s.len() - 1 {
                assert(s[i] == t[i]);
            }
        }
        if b > 0 {
            assert(s[b - 1] == t[b - 1]);
        }
    } else {
        assert(s.subrange(0, s.len() as int) =~= s);
    }
}

/// Trimming keeps a contiguous part of the text: everything before and after
/// it is white space, and the part neither starts nor ends with white space;
/// so a text whose ends are not white space is kept whole.
pub proof fn lemma_trim_shape(s: Seq<char>)
    ensures
        exists|a: int, b: int|
            0 <= a <= b <= s.len() && trim(s) == s.subrange(a, b) && (forall|i: int|
                0 <= i < a ==> is_space(#[trigger] s[i])) && (forall|i: int|
                b <= i < s.len() ==> is_space(#[trigger] s[i])) && (a < b ==> !is_space(s[a])
                && !is_space(s[b - 1])),
        s.len() > 0 && !is_space(s[0]) && !is_space(s[s.len() - 1]) ==> trim(s) == s,
{
    lemma_trim_start_shape(s);
    let a = choose|a: int|
        0 <= a <= s.len() && trim_start(s) == s.subrange(a, s.len() as int) && (forall|i: int|
            0 <= i < a ==> is_space(#[trigger] s[i])) && (a < s.len() ==> !is_space(s[a]));
    let t = s.subrange(a, s.len() as int);
    lemma_trim_end_shape(t);
    let b = choose|b: int|
        0 <= b <= t.len() && trim_end(t) == t.subrange(0, b) && (forall|i: int|
            b <= i < t.len() ==> is_space(#[trigger] t[i])) && (b > 0 ==> !is_space(t[b - 1]));
    assert(t.subrange(0, b) =~= s.subrange(a, a + b));
    assert forall|i: int| a + b <= i < s.len() implies is_space(#[trigger] s[i]) by {
        assert(s[i] == t[i - a]);
    }
    if b > 0 {
        assert(s[a] == t[0]);
        assert(s[a + b - 1] == t[b - 1]);
    }
    assert(trim(s) == s.subrange(a, a + b));
    if s.len() > 0 && !is_space(s[0]) && !is_space(s[s.len() - 1]) {
        assert(a == 0);
        if a + b < s.len() {
            assert(is_space(s[s.len() - 1]));
        }
        assert(s.subrange(0, s.len() as int) =~= s);
    }
}

} // verus!
