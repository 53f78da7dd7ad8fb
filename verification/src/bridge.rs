//! The line protocol spoken with the native capture-and-input helper process.
use crate::text::{starts_with, strip_prefix, text_equals};
use vstd::prelude::*;
use vstd::string::*;

verus! {

/// How an exchange with the helper went wrong.
#[derive(Clone, Debug, PartialEq, Eq)]
pub enum BridgeError {
    /// The helper reported an error; its message.
    Remote(String),
    /// The helper greeted with something other than `READY`.
    UnexpectedHandshake(String),
    /// A capture answer that is neither `OK <length>` nor `ERR <message>`.
    InvalidCaptureResponse(String),
    /// The length in an `OK <length>` capture answer is not a decimal `usize`.
    InvalidCaptureLength(String),
    /// An input answer that is neither `OK` nor `ERR <message>`.
    InvalidInputResponse(String),
}

/// `s` without the carriage returns and line feeds that end it.
pub open spec fn trim_line_end_seq(s: Seq<char>) -> Seq<char>
    decreases s.len(),
{
    if s.len() > 0 && (s.last() == '\r' || s.last() == '\n') {
        trim_line_end_seq(s.drop_last())
    } else {
        s
    }
}

/// The text of a response line: `raw` without its trailing `\r` and `\n` characters.
pub fn response_text(raw: &str) -> (r: &str)
    ensures
        r@ == trim_line_end_seq(raw@),
{
    let mut end = raw.unicode_len();
    assert(raw@.subrange(0, end as int) =~= raw@);
    while end > 0 && is_line_end(raw.get_char(end - 1))
        invariant
            end <= raw@.len(),
            trim_line_end_seq(raw@) == trim_line_end_seq(raw@.subrange(0, end as int)),
        decreases end,
    {
        assert(raw@.subrange(0, end as int).drop_last() =~= raw@.subrange(0, end - 1));
        end = end - 1;
    }
    raw.substring_char(0, end)
}

fn is_line_end(c: char) -> (r: bool)
    ensures
        r == (c == '\r' || c == '\n'),
{
    c == '\r' || c == '\n'
}

pub open spec fn is_ascii_digit(c: char) -> bool {
    '0' <= c && c <= '9'
}

pub open spec fn all_ascii_digits(s: Seq<char>) -> bool {
    forall|i: int| 0 <= i < s.len() ==> is_ascii_digit(#[trigger] s[i])
}

/// The number that a run of ASCII digits spells in decimal.
pub open spec fn decimal_value(digits: Seq<char>) -> int
    decreases digits.len(),
{
    if digits.len() == 0 {
        0
    } else {
        decimal_value(digits.drop_last()) * 10 + (digits.last() as int - '0' as int)
    }
}

/// What `str::parse::<usize>` accepts: an optional `+`, then one or more ASCII
/// digits whose decimal value fits in `usize`.
pub open spec fn parse_usize_spec(s: Seq<char>) -> Option<usize> {
    let digits = if s.len() > 0 && s[0] == '+' {
        s.drop_first()
    } else {
        s
    };
    if digits.len() > 0 && all_ascii_digits(digits) && decimal_value(digits) <= usize::MAX {
        Some(decimal_value(digits) as usize)
    } else {
        None
    }
}

proof fn lemma_decimal_value_grows(digits: Seq<char>, k: int)
    requires
        0 <= k <= digits.len(),
        forall|i: int| 0 <= i < digits.len() ==> is_ascii_digit(#[trigger] digits[i]),
    ensures
        decimal_value(digits.subrange(0, k)) <= decimal_value(digits),
        decimal_value(digits) >= 0,
    decreases digits.len(),
{
    if digits.len() > 0 {
        let rest = digits.drop_last();
        assert forall|i: int| 0 <= i < rest.len() implies is_ascii_digit(#[trigger] rest[i]) by {
            assert(rest[i] == digits[i]);
        }
        assert(is_ascii_digit(digits[digits.len() - 1]));
        if k < digits.len() {
            assert(rest.subrange(0, k) =~= digits.subrange(0, k));
            lemma_decimal_value_grows(rest, k);
        } else {
            lemma_decimal_value_grows(rest, 0);
            assert(digits.subrange(0, k) =~= digits);
        }
    }
}

/// Parses a decimal `usize` as `str::parse::<usize>` does.
pub fn parse_usize(s: &str) -> (r: Option<usize>)
    ensures
        r == parse_usize_spec(s@),
{
    let n = s.unicode_len();
    if n == 0 {
        return None;
    }
    let start: usize = if s.get_char(0) == '+' {
        1
    } else {
        0
    };
    let ghost digits = if s@.len() > 0 && s@[0] == '+' {
        s@.drop_first()
    } else {
        s@
    };
    assert(digits =~= s@.subrange(start as int, n as int));
    if start == n {
        return None;
    }
    let mut value: usize = 0;
    let mut i: usize = start;
    assert(s@.subrange(start as int, start as int) =~= Seq::<char>::empty());
    while i < n
        invariant
            n == s@.len(),
            start < n,
            start <= i <= n,
            digits == s@.subrange(start as int, n as int),
            digits == (if s@.len() > 0 && s@[0] == '+' {
                s@.drop_first()
            } else {
                s@
            }),
            forall|j: int| start <= j < i ==> is_ascii_digit(#[trigger] s@[j]),
            value == decimal_value(s@.subrange(start as int, i as int)),
        decreases n - i,
    {
        let c = s.get_char(i);
        if !('0' <= c && c <= '9') {
            assert(digits[i - start] == c);
            assert(!is_ascii_digit(digits[i - start]));
            assert(!all_ascii_digits(digits));
            return None;
        }
        let d = (c as u32 - '0' as u32) as usize;
        let ghost prefix = s@.subrange(start as int, i + 1);
        assert(prefix.drop_last() =~= s@.subrange(start as int, i as int));
        assert(prefix.last() == c);
        let next = match value.checked_mul(10) {
            Some(v) => v.checked_add(d),
            None => None,
        };
        match next {
            Some(v) => {
                value = v;
            },
            None => {
                proof {
                    assert(d == c as int - '0' as int);
                    assert(decimal_value(prefix) == value * 10 + d);
                    assert(decimal_value(prefix) > usize::MAX);
                    if all_ascii_digits(digits) {
                        assert(digits.subrange(0, i + 1 - start) =~= prefix);
                        lemma_decimal_value_grows(digits, i + 1 - start);
                    }
                }
                return None;
            },
        }
        i = i + 1;
    }
    assert(s@.subrange(start as int, n as int) == digits);
    assert forall|j: int| 0 <= j < digits.len() implies is_ascii_digit(#[trigger] digits[j]) by {
        assert(digits[j] == s@[start + j]);
    }
    assert(all_ascii_digits(digits));
    Some(value)
}

/// Checks the greeting with which the helper announces that it is ready.
pub fn check_handshake(line: &str) -> (r: Result<(), BridgeError>)
    ensures
        line@ == "READY"@ ==> r is Ok,
        line@ != "READY"@ ==> (r matches Err(BridgeError::UnexpectedHandshake(m)) && m@ == line@),
{
    if text_equals(line, "READY") {
        Ok(())
    } else {
        Err(BridgeError::UnexpectedHandshake(line.to_owned()))
    }
}

/// The length of the PNG payload announced by a capture answer.
pub fn parse_capture_response(response: &str) -> (r: Result<usize, BridgeError>)
    ensures
        starts_with(response@, "ERR "@) ==> (r matches Err(BridgeError::Remote(m)) && m@
            == response@.subrange(4, response@.len() as int)),
        !starts_with(response@, "ERR "@) && !starts_with(response@, "OK "@) ==> (r matches Err(
            BridgeError::InvalidCaptureResponse(m),
        ) && m@ == response@),
        !starts_with(response@, "ERR "@) && starts_with(response@, "OK "@) ==> {
            let rest = response@.subrange(3, response@.len() as int);
            match parse_usize_spec(rest) {
                Some(n) => r == Ok::<usize, BridgeError>(n),
                None => (r matches Err(BridgeError::InvalidCaptureLength(m)) && m@ == rest),
            }
        },
{
    proof {
        reveal_strlit("ERR ");
        reveal_strlit("OK ");
    }
    if let Some(message) = strip_prefix(response, "ERR ") {
        return Err(BridgeError::Remote(message.to_owned()));
    }
    match strip_prefix(response, "OK ") {
        None => Err(BridgeError::InvalidCaptureResponse(response.to_owned())),
        Some(length) => match parse_usize(length) {
            Some(n) => Ok(n),
            None => Err(BridgeError::InvalidCaptureLength(length.to_owned())),
        },
    }
}

/// Checks the answer to a key press.
pub fn check_press_response(response: &str) -> (r: Result<(), BridgeError>)
    ensures
        starts_with(response@, "ERR "@) ==> (r matches Err(BridgeError::Remote(m)) && m@
            == response@.subrange(4, response@.len() as int)),
        !starts_with(response@, "ERR "@) && response@ == "OK"@ ==> r is Ok,
        !starts_with(response@, "ERR "@) && response@ != "OK"@ ==> (r matches Err(
            BridgeError::InvalidInputResponse(m),
        ) && m@ == response@),
{
    proof {
        reveal_strlit("ERR ");
    }
    if let Some(message) = strip_prefix(response, "ERR ") {
        return Err(BridgeError::Remote(message.to_owned()));
    }
    if text_equals(response, "OK") {
        Ok(())
    } else {
        Err(BridgeError::InvalidInputResponse(response.to_owned()))
    }
}

} // verus!
