//! The line grammar of a typed decision: whitespace-separated key names, each with
//! an optional `*count` repetition, as in `right right up` or `space*10`.
use crate::bridge::{all_ascii_digits, decimal_value, is_ascii_digit, parse_usize, parse_usize_spec};
use crate::keys::{parse_key, parse_key_spec, unsupported_key_message_spec};
use crate::model::{Action, Key};
use crate::text::{is_unicode_whitespace, split_whitespace, tokens_from, whitespace_tokens};
use vstd::prelude::*;
use vstd::string::*;

verus! {

/// What went wrong in a typed decision.
#[derive(Clone, Copy, Debug, PartialEq, Eq, Structural)]
pub enum ActionsErrorKind {
    /// The text after the last `*` of a token is not a decimal count.
    InvalidCount,
    /// A repetition count is zero.
    ZeroCount,
    /// A key name stands for no key.
    UnsupportedKey,
    /// The line holds no action.
    Empty,
}

/// A refused typed decision: what went wrong, and the offending token (for a count),
/// the key parser's message (for a key), or nothing (for an empty line).
#[derive(Clone, Debug, PartialEq, Eq)]
pub struct ActionsError {
    pub kind: ActionsErrorKind,
    pub detail: String,
}

/// The position of the last `*` of `token`.
pub open spec fn last_star(token: Seq<char>) -> Option<int>
    decreases token.len(),
{
    if token.len() == 0 {
        None
    } else if token.last() == '*' {
        Some(token.len() - 1)
    } else {
        last_star(token.drop_last())
    }
}

/// The actions of one token, or why it is refused.
pub open spec fn token_actions(token: Seq<char>) -> Result<Seq<Action>, (ActionsErrorKind, Seq<char>)> {
    let split: Result<(Seq<char>, nat), (ActionsErrorKind, Seq<char>)> = match last_star(token) {
        Some(star) => match parse_usize_spec(token.subrange(star + 1, token.len() as int)) {
            None => Err((ActionsErrorKind::InvalidCount, token)),
            Some(count) => if count == 0 {
                Err((ActionsErrorKind::ZeroCount, token))
            } else {
                Ok((token.subrange(0, star), count as nat))
            },
        },
        None => Ok((token, 1nat)),
    };
    match split {
        Err(e) => Err(e),
        Ok((name, count)) => match parse_key_spec(name) {
            None => Err((ActionsErrorKind::UnsupportedKey, unsupported_key_message_spec(name))),
            Some(key) => Ok(Seq::new(count, |i: int| Action::KeyPress(key))),
        },
    }
}

/// The actions of a run of tokens, in order, or the refusal of the first bad token.
pub open spec fn tokens_actions(tokens: Seq<Seq<char>>) -> Result<
    Seq<Action>,
    (ActionsErrorKind, Seq<char>),
>
    decreases tokens.len(),
{
    if tokens.len() == 0 {
        Ok(Seq::empty())
    } else {
        match tokens_actions(tokens.drop_last()) {
            Err(e) => Err(e),
            Ok(before) => match token_actions(tokens.last()) {
                Err(e) => Err(e),
                Ok(these) => Ok(before + these),
            },
        }
    }
}

/// What `parse_actions` returns for a line.
pub open spec fn parse_actions_spec(line: Seq<char>) -> Result<
    Seq<Action>,
    (ActionsErrorKind, Seq<char>),
> {
    match tokens_actions(whitespace_tokens(line)) {
        Err(e) => Err(e),
        Ok(actions) => if actions.len() == 0 {
            Err((ActionsErrorKind::Empty, Seq::empty()))
        } else {
            Ok(actions)
        },
    }
}

proof fn lemma_tokens_error_persists(tokens: Seq<Seq<char>>, k: int)
    requires
        0 <= k <= tokens.len(),
        tokens_actions(tokens.take(k)) is Err,
    ensures
        tokens_actions(tokens) == tokens_actions(tokens.take(k)),
    decreases tokens.len(),
{
    if k < tokens.len() {
        assert(tokens.drop_last().take(k) =~= tokens.take(k));
        lemma_tokens_error_persists(tokens.drop_last(), k);
    } else {
        assert(tokens.take(k) =~= tokens);
    }
}

/// The position of the last `*` of `token`, if any.
fn find_last_star(token: &str) -> (r: Option<usize>)
    ensures
        match last_star(token@) {
            Some(i) => r == Some(i as usize),
            None => r is None,
        },
        r matches Some(i) ==> i < token@.len() && last_star(token@) == Some(i as int),
{
    let mut end = token.unicode_len();
    assert(token@.subrange(0, end as int) =~= token@);
    while end > 0
        invariant
            end <= token@.len(),
            last_star(token@) == last_star(token@.subrange(0, end as int)),
        decreases end,
    {
        let ghost prefix = token@.subrange(0, end as int);
        assert(prefix.last() == token@[end - 1]);
        if token.get_char(end - 1) == '*' {
            return Some(end - 1);
        }
        assert(prefix.drop_last() =~= token@.subrange(0, end - 1));
        end = end - 1;
    }
    None
}

/// The actions of one token.
fn token_to_actions(token: &str, actions: &mut Vec<Action>) -> (r: Result<(), ActionsError>)
    ensures
        match token_actions(token@) {
            Ok(these) => r is Ok && final(actions)@ == old(actions)@ + these,
            Err((kind, detail)) => r matches Err(e) && e.kind == kind && e.detail@ == detail,
        },
{
    let n = token.unicode_len();
    let (name, count) = match find_last_star(token) {
        Some(star) => {
            let digits = token.substring_char(star + 1, n);
            match parse_usize(digits) {
                None => {
                    return Err(
                        ActionsError { kind: ActionsErrorKind::InvalidCount, detail: token.to_owned() },
                    );
                },
                Some(count) => {
                    if count == 0 {
                        return Err(
                            ActionsError {
                                kind: ActionsErrorKind::ZeroCount,
                                detail: token.to_owned(),
                            },
                        );
                    }
                    (token.substring_char(0, star), count)
                },
            }
        },
        None => (token, 1),
    };
    let key: Key = match parse_key(name) {
        Err(message) => {
            return Err(ActionsError { kind: ActionsErrorKind::UnsupportedKey, detail: message });
        },
        Ok(key) => key,
    };
    let ghost before = actions@;
    let mut i: usize = 0;
    while i < count
        invariant
            i <= count,
            actions@ == before + Seq::new(i as nat, |j: int| Action::KeyPress(key)),
        decreases count - i,
    {
        actions.push(Action::KeyPress(key));
        i = i + 1;
        assert(actions@ =~= before + Seq::new(i as nat, |j: int| Action::KeyPress(key)));
    }
    Ok(())
}

/// Parses one typed line into the actions of one decision.
pub fn parse_actions(line: &str) -> (r: Result<Vec<Action>, ActionsError>)
    ensures
        match parse_actions_spec(line@) {
            Ok(actions) => r matches Ok(v) && v@ == actions,
            Err((kind, detail)) => r matches Err(e) && e.kind == kind && e.detail@ == detail,
        },
{
    let tokens = split_whitespace(line);
    let ghost all = whitespace_tokens(line@);
    let mut actions: Vec<Action> = Vec::new();
    let mut i: usize = 0;
    while i < tokens.len()
        invariant
            all == whitespace_tokens(line@),
            tokens@.len() == all.len(),
            forall|j: int| 0 <= j < tokens@.len() ==> #[trigger] tokens@[j]@ == all[j],
            i <= tokens@.len(),
            tokens_actions(all.take(i as int)) == Ok::<
                Seq<Action>,
                (ActionsErrorKind, Seq<char>),
            >(actions@),
        decreases tokens@.len() - i,
    {
        assert(all.take(i + 1).drop_last() =~= all.take(i as int));
        assert(all.take(i + 1).last() == all[i as int]);
        match token_to_actions(tokens[i], &mut actions) {
            Err(e) => {
                proof {
                    lemma_tokens_error_persists(all, i + 1);
                }
                return Err(e);
            },
            Ok(()) => {},
        }
        i = i + 1;
    }
    assert(all.take(i as int) =~= all);
    if actions.len() == 0 {
        return Err(ActionsError { kind: ActionsErrorKind::Empty, detail: String::new() });
    }
    Ok(actions)
}

proof fn lemma_last_star_before_digits(prefix: Seq<char>, digits: Seq<char>)
    requires
        prefix.len() > 0,
        prefix.last() == '*',
        all_ascii_digits(digits),
    ensures
        last_star(prefix + digits) == Some(prefix.len() - 1),
    decreases digits.len(),
{
    if digits.len() == 0 {
        assert(prefix + digits =~= prefix);
    } else {
        let rest = digits.drop_last();
        assert(is_ascii_digit(digits[digits.len() - 1]));
        assert forall|i: int| 0 <= i < rest.len() implies is_ascii_digit(#[trigger] rest[i]) by {
            assert(rest[i] == digits[i]);
        }
        lemma_last_star_before_digits(prefix, rest);
        assert((prefix + digits).drop_last() =~= prefix + rest);
        assert((prefix + digits).last() == digits.last());
    }
}

proof fn lemma_no_star(token: Seq<char>)
    requires
        forall|i: int| 0 <= i < token.len() ==> #[trigger] token[i] != '*',
    ensures
        last_star(token) is None,
    decreases token.len(),
{
    if token.len() > 0 {
        let rest = token.drop_last();
        assert forall|i: int| 0 <= i < rest.len() implies #[trigger] rest[i] != '*' by {
            assert(rest[i] == token[i]);
        }
        lemma_no_star(rest);
        assert(token[token.len() - 1] != '*');
    }
}

/// A key name followed by `*` and a decimal count `n > 0` stands for exactly `n`
/// presses of that key, `n` being the value of all the digits after the `*`.
pub proof fn lemma_repeated_key_token(name: Seq<char>, digits: Seq<char>, key: Key)
    requires
        parse_key_spec(name) == Some(key),
        digits.len() > 0,
        forall|i: int| 0 <= i < digits.len() ==> '0' <= #[trigger] digits[i] && digits[i] <= '9',
        0 < decimal_value(digits) <= usize::MAX,
    ensures
        token_actions(name.push('*') + digits) == Ok::<Seq<Action>, (ActionsErrorKind, Seq<char>)>(
            Seq::new(decimal_value(digits) as nat, |i: int| Action::KeyPress(key)),
        ),
        token_actions(name.push('*') + digits) matches Ok(actions) && actions.len()
            == decimal_value(digits) && forall|i: int|
            0 <= i < actions.len() ==> #[trigger] actions[i] == Action::KeyPress(key),
{
    let prefix = name.push('*');
    let token = prefix + digits;
    assert(all_ascii_digits(digits)) by {
        assert forall|i: int| 0 <= i < digits.len() implies is_ascii_digit(#[trigger] digits[i]) by {
            assert('0' <= digits[i] && digits[i] <= '9');
        }
    }
    lemma_last_star_before_digits(prefix, digits);
    let star = name.len() as int;
    assert(token.subrange(star + 1, token.len() as int) =~= digits);
    assert(token.subrange(0, star) =~= name);
    assert(digits[0] != '+') by {
        assert('0' <= digits[0] && digits[0] <= '9');
    }
    assert(parse_usize_spec(digits) == Some(decimal_value(digits) as usize));
}

/// A key name without `*` stands for one press of that key.
pub proof fn lemma_single_key_token(name: Seq<char>, key: Key)
    requires
        parse_key_spec(name) == Some(key),
        forall|i: int| 0 <= i < name.len() ==> #[trigger] name[i] != '*',
    ensures
        token_actions(name) == Ok::<Seq<Action>, (ActionsErrorKind, Seq<char>)>(
            seq![Action::KeyPress(key)],
        ),
{
    lemma_no_star(name);
    assert(Seq::new(1nat, |i: int| Action::KeyPress(key)) =~= seq![Action::KeyPress(key)]);
}

proof fn lemma_tokens_of_unbroken_text(s: Seq<char>, current: Seq<char>)
    requires
        forall|i: int| 0 <= i < s.len() ==> !is_unicode_whitespace(#[trigger] s[i]),
        current.len() + s.len() > 0,
    ensures
        tokens_from(s, current) == seq![current + s],
    decreases s.len(),
{
    if s.len() == 0 {
        assert(current + s =~= current);
    } else {
        let rest = s.drop_first();
        assert forall|i: int| 0 <= i < rest.len() implies !is_unicode_whitespace(#[trigger] rest[i]) by {
            assert(rest[i] == s[i + 1]);
        }
        assert(!is_unicode_whitespace(s[0]));
        lemma_tokens_of_unbroken_text(rest, current.push(s[0]));
        assert(current.push(s[0]) + rest =~= current + s);
    }
}

/// A line that is one key name, `*` and a decimal count `n > 0`, without whitespace,
/// is parsed into exactly `n` presses of that key.
pub proof fn lemma_repeated_key_line(name: Seq<char>, digits: Seq<char>, key: Key)
    requires
        parse_key_spec(name) == Some(key),
        forall|i: int| 0 <= i < name.len() ==> !is_unicode_whitespace(#[trigger] name[i]),
        digits.len() > 0,
        forall|i: int| 0 <= i < digits.len() ==> '0' <= #[trigger] digits[i] && digits[i] <= '9',
        0 < decimal_value(digits) <= usize::MAX,
    ensures
        parse_actions_spec(name.push('*') + digits) == Ok::<
            Seq<Action>,
            (ActionsErrorKind, Seq<char>),
        >(Seq::new(decimal_value(digits) as nat, |i: int| Action::KeyPress(key))),
{
    let line = name.push('*') + digits;
    lemma_repeated_key_token(name, digits, key);
    assert forall|i: int| 0 <= i < line.len() implies !is_unicode_whitespace(#[trigger] line[i]) by {
        if i < name.len() {
            assert(line[i] == name[i]);
        } else if i == name.len() {
            assert(line[i] == '*');
        } else {
            assert(line[i] == digits[i - name.len() - 1]);
            assert('0' <= digits[i - name.len() - 1] && digits[i - name.len() - 1] <= '9');
        }
    }
    lemma_tokens_of_unbroken_text(line, Seq::empty());
    assert(Seq::<char>::empty() + line =~= line);
    let tokens = whitespace_tokens(line);
    assert(tokens == seq![line]);
    assert(tokens.drop_last() =~= Seq::<Seq<char>>::empty());
    let these = Seq::new(decimal_value(digits) as nat, |i: int| Action::KeyPress(key));
    assert(Seq::<Action>::empty() + these =~= these);
    assert(tokens.last() == line);
    assert(tokens_actions(tokens.drop_last()) == Ok::<Seq<Action>, (ActionsErrorKind, Seq<char>)>(
        Seq::empty(),
    ));
    assert(token_actions(line) == Ok::<Seq<Action>, (ActionsErrorKind, Seq<char>)>(these));
    assert(tokens_actions(tokens) == Ok::<Seq<Action>, (ActionsErrorKind, Seq<char>)>(these));
    assert(these.len() > 0);
}

} // verus!
