//! Small operations on text that the rest of the library shares.

use vstd::prelude::*;
use vstd::string::*;

verus! {

/// The character that stands for the digit `d`.
pub open spec fn digit_char(d: int) -> char {
    if d == 0 {
        '0'
    } else if d == 1 {
        '1'
    } else if d == 2 {
        '2'
    } else if d == 3 {
        '3'
    } else if d == 4 {
        '4'
    } else if d == 5 {
        '5'
    } else if d == 6 {
        '6'
    } else if d == 7 {
        '7'
    } else if d == 8 {
        '8'
    } else {
        '9'
    }
}

/// The decimal digits of a natural number, without leading zeros.
pub open spec fn digits(n: nat) -> Seq<char>
    decreases n,
{
    if n < 10 {
        seq![digit_char(n as int)]
    } else {
        digits(n / 10).push(digit_char((n % 10) as int))
    }
}

/// The decimal notation of an integer, with a minus sign before a negative
/// one.
pub open spec fn decimal(n: int) -> Seq<char> {
    if n < 0 {
        seq!['-'] + digits((-n) as nat)
    } else {
        digits(n as nat)
    }
}

fn digit_text(d: u64) -> (s: &'static str)
    requires
        d < 10,
    ensures
        s@ == seq![digit_char(d as int)],
{
    proof {
        reveal_strlit("0");
        reveal_strlit("1");
        reveal_strlit("2");
        reveal_strlit("3");
        reveal_strlit("4");
        reveal_strlit("5");
        reveal_strlit("6");
        reveal_strlit("7");
        reveal_strlit("8");
        reveal_strlit("9");
    }
    let s = if d == 0 {
        "0"
    } else if d == 1 {
        "1"
    } else if d == 2 {
        "2"
    } else if d == 3 {
        "3"
    } else if d == 4 {
        "4"
    } else if d == 5 {
        "5"
    } else if d == 6 {
        "6"
    } else if d == 7 {
        "7"
    } else if d == 8 {
        "8"
    } else {
        "9"
    };
    assert(s@ =~= seq![digit_char(d as int)]);
    s
}

/// Appends the decimal digits of `n` to `out`.
fn push_digits(out: String, n: u64) -> (r: String)
    ensures
        r@ == out@ + digits(n as nat),
    decreases n,
{
    if n < 10 {
        out.concat(digit_text(n))
    } else {
        let front = push_digits(out, n / 10);
        let r = front.concat(digit_text(n % 10));
        assert(r@ =~= out@ + digits(n as nat));
        r
    }
}

/// The decimal notation of `n`.
pub fn unsigned_to_string(n: u64) -> (s: String)
    ensures
        s@ == decimal(n as int),
{
    let s = push_digits(String::new(), n);
    assert(s@ =~= decimal(n as int));
    s
}

/// The decimal notation of `n`.
pub fn signed_to_string(n: i64) -> (s: String)
    ensures
        s@ == decimal(n as int),
{
    if n < 0 {
        proof {
            reveal_strlit("-");
        }
        let magnitude: u64 = if n == i64::MIN {
            9223372036854775808u64
        } else {
            (-n) as u64
        };
        let s = push_digits("-".to_owned(), magnitude);
        assert(s@ =~= decimal(n as int));
        s
    } else {
        unsigned_to_string(n as u64)
    }
}

/// The same letter in lower case, for a capital letter of ASCII; any other
/// character itself.
pub open spec fn ascii_lower(c: char) -> char {
    if 'A' <= c && c <= 'Z' {
        ((c as u8 + 32) as u8) as char
    } else {
        c
    }
}

/// Whether two texts are equal when the case of ASCII letters is ignored.
pub open spec fn eq_ignoring_ascii_case(a: Seq<char>, b: Seq<char>) -> bool {
    &&& a.len() == b.len()
    &&& forall|i: int| 0 <= i < a.len() ==> ascii_lower(#[trigger] a[i]) == ascii_lower(b[i])
}

/// `str::eq_ignore_ascii_case` of std: true where the two texts have the same
/// characters once every ASCII capital is read as its lower-case letter.
#[verifier::external_body]
pub(crate) fn eq_ignore_ascii_case(a: &str, b: &str) -> (r: bool)
    ensures
        r == eq_ignoring_ascii_case(a@, b@),
{
    a.eq_ignore_ascii_case(b)
}

/// `str::contains` of std with a character as the pattern: whether the
/// character occurs in the text.
#[verifier::external_body]
pub(crate) fn contains_char(s: &str, c: char) -> (r: bool)
    ensures
        r == s@.contains(c),
{
    s.contains(c)
}

/// `str::strip_prefix` of std with a text as the pattern: what follows
/// `prefix` in `s`, where `s` begins with it, and nothing otherwise.
#[verifier::external_body]
pub(crate) fn strip_prefix<'a>(s: &'a str, prefix: &str) -> (r: Option<&'a str>)
    ensures
        match r {
            Some(rest) => prefix@.is_prefix_of(s@) && rest@ == s@.skip(prefix@.len() as int),
            None => !prefix@.is_prefix_of(s@),
        },
{
    s.strip_prefix(prefix)
}

} // verus!
