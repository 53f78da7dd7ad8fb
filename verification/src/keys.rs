//! Physical keys: their macOS virtual key codes and their names on the command line.
use crate::model::Key;
use crate::text::{text_equals, to_ascii_lowercase, trim, trim_seq};
use vstd::prelude::*;
use vstd::string::*;

verus! {

/// Why no physical key code exists for a key.
#[derive(Clone, Copy, Debug, PartialEq, Eq, Structural)]
pub enum KeyError {
    /// The character, once lower-cased, has no safe physical-key mapping.
    NoPhysicalKey(char),
}

/// ASCII lower-casing of one character: `A`..`Z` become `a`..`z`, all else is unchanged.
pub open spec fn ascii_lower(c: char) -> char {
    if 'A' <= c && c <= 'Z' {
        ((c as u32) + 32) as char
    } else {
        c
    }
}

/// ASCII lower-casing of one character, as `char::to_ascii_lowercase` does it.
pub fn char_to_ascii_lowercase(c: char) -> (r: char)
    ensures
        r == ascii_lower(c),
{
    if 'A' <= c && c <= 'Z' {
        let b = c as u32 as u8;
        (b + 32) as char
    } else {
        c
    }
}

/// The macOS virtual key code of a lower-case character on an ANSI keyboard.
pub open spec fn character_code_table(c: char) -> Option<u16> {
    match c {
        'a' => Some(0x00u16),
        's' => Some(0x01u16),
        'd' => Some(0x02u16),
        'f' => Some(0x03u16),
        'h' => Some(0x04u16),
        'g' => Some(0x05u16),
        'z' => Some(0x06u16),
        'x' => Some(0x07u16),
        'c' => Some(0x08u16),
        'v' => Some(0x09u16),
        'b' => Some(0x0Bu16),
        'q' => Some(0x0Cu16),
        'w' => Some(0x0Du16),
        'e' => Some(0x0Eu16),
        'r' => Some(0x0Fu16),
        'y' => Some(0x10u16),
        't' => Some(0x11u16),
        '1' => Some(0x12u16),
        '2' => Some(0x13u16),
        '3' => Some(0x14u16),
        '4' => Some(0x15u16),
        '6' => Some(0x16u16),
        '5' => Some(0x17u16),
        '=' => Some(0x18u16),
        '9' => Some(0x19u16),
        '7' => Some(0x1Au16),
        '-' => Some(0x1Bu16),
        '8' => Some(0x1Cu16),
        '0' => Some(0x1Du16),
        ']' => Some(0x1Eu16),
        'o' => Some(0x1Fu16),
        'u' => Some(0x20u16),
        '[' => Some(0x21u16),
        'i' => Some(0x22u16),
        'p' => Some(0x23u16),
        'l' => Some(0x25u16),
        'j' => Some(0x26u16),
        '\'' => Some(0x27u16),
        'k' => Some(0x28u16),
        ';' => Some(0x29u16),
        '\\' => Some(0x2Au16),
        ',' => Some(0x2Bu16),
        '/' => Some(0x2Cu16),
        'n' => Some(0x2Du16),
        'm' => Some(0x2Eu16),
        '.' => Some(0x2Fu16),
        '`' => Some(0x32u16),
        _ => None,
    }
}

/// What `character_key_code` returns.
pub open spec fn character_key_code_spec(character: char) -> Result<u16, KeyError> {
    match character_code_table(ascii_lower(character)) {
        Some(code) => Ok(code),
        None => Err(KeyError::NoPhysicalKey(ascii_lower(character))),
    }
}

/// What `key_code` returns.
pub open spec fn key_code_spec(key: Key) -> Result<u16, KeyError> {
    match key {
        Key::Up => Ok(0x7Eu16),
        Key::Down => Ok(0x7Du16),
        Key::Left => Ok(0x7Bu16),
        Key::Right => Ok(0x7Cu16),
        Key::Enter => Ok(0x24u16),
        Key::Space => Ok(0x31u16),
        Key::Character(c) => character_key_code_spec(c),
    }
}

/// The macOS virtual key code of a character key, case-insensitively.
pub fn character_key_code(character: char) -> (r: Result<u16, KeyError>)
    ensures
        r == character_key_code_spec(character),
{
    let lower = char_to_ascii_lowercase(character);
    let code: u16 = match lower {
        'a' => 0x00,
        's' => 0x01,
        'd' => 0x02,
        'f' => 0x03,
        'h' => 0x04,
        'g' => 0x05,
        'z' => 0x06,
        'x' => 0x07,
        'c' => 0x08,
        'v' => 0x09,
        'b' => 0x0B,
        'q' => 0x0C,
        'w' => 0x0D,
        'e' => 0x0E,
        'r' => 0x0F,
        'y' => 0x10,
        't' => 0x11,
        '1' => 0x12,
        '2' => 0x13,
        '3' => 0x14,
        '4' => 0x15,
        '6' => 0x16,
        '5' => 0x17,
        '=' => 0x18,
        '9' => 0x19,
        '7' => 0x1A,
        '-' => 0x1B,
        '8' => 0x1C,
        '0' => 0x1D,
        ']' => 0x1E,
        'o' => 0x1F,
        'u' => 0x20,
        '[' => 0x21,
        'i' => 0x22,
        'p' => 0x23,
        'l' => 0x25,
        'j' => 0x26,
        '\'' => 0x27,
        'k' => 0x28,
        ';' => 0x29,
        '\\' => 0x2A,
        ',' => 0x2B,
        '/' => 0x2C,
        'n' => 0x2D,
        'm' => 0x2E,
        '.' => 0x2F,
        '`' => 0x32,
        other => return Err(KeyError::NoPhysicalKey(other)),
    };
    Ok(code)
}

/// The macOS virtual key code of a key.
pub fn key_code(key: &Key) -> (r: Result<u16, KeyError>)
    ensures
        r == key_code_spec(*key),
{
    let code: u16 = match key {
        Key::Up => 0x7E,
        Key::Down => 0x7D,
        Key::Left => 0x7B,
        Key::Right => 0x7C,
        Key::Enter => 0x24,
        Key::Space => 0x31,
        Key::Character(character) => match character_key_code(*character) {
            Ok(code) => code,
            Err(e) => return Err(e),
        },
    };
    Ok(code)
}

/// A key name with surrounding whitespace removed and ASCII letters lower-cased.
pub open spec fn normalize_key_name(value: Seq<char>) -> Seq<char> {
    trim_seq(value).map_values(|c: char| ascii_lower(c))
}

/// The key that a name stands for: `up`, `down`, `left`, `right`, `enter` or
/// `return`, `space`, or any single character, ignoring case and surrounding
/// whitespace.
pub open spec fn parse_key_spec(value: Seq<char>) -> Option<Key> {
    let n = normalize_key_name(value);
    if n == "up"@ {
        Some(Key::Up)
    } else if n == "down"@ {
        Some(Key::Down)
    } else if n == "left"@ {
        Some(Key::Left)
    } else if n == "right"@ {
        Some(Key::Right)
    } else if n == "enter"@ || n == "return"@ {
        Some(Key::Enter)
    } else if n == "space"@ {
        Some(Key::Space)
    } else if n.len() == 1 {
        Some(Key::Character(n[0]))
    } else {
        None
    }
}

/// The `Debug` text of a string: quoted, with escapes, as `format!("{:?}", s)` writes it.
pub uninterp spec fn str_debug(s: Seq<char>) -> Seq<char>;

/// Calls `format!` with `{:?}` on `value`; the text is named `str_debug`.
#[verifier::external_body]
fn debug_text(value: &str) -> (r: String)
    ensures
        r@ == str_debug(value@),
{
    format!("{value:?}")
}

/// The message for a key name that stands for no key.
pub open spec fn unsupported_key_message_spec(value: Seq<char>) -> Seq<char> {
    "unsupported physical key "@ + str_debug(value)
}

fn unsupported_key_message(value: &str) -> (r: String)
    ensures
        r@ == unsupported_key_message_spec(value@),
{
    let mut message = "unsupported physical key ".to_string();
    let quoted = debug_text(value);
    message.append(quoted.as_str());
    message
}

/// Parses a key name as the command line writes it.
pub fn parse_key(value: &str) -> (r: Result<Key, String>)
    ensures
        match parse_key_spec(value@) {
            Some(key) => r == Ok::<Key, String>(key),
            None => r matches Err(message) && message@ == unsupported_key_message_spec(value@),
        },
{
    let normalized = to_ascii_lowercase(trim(value));
    let n = normalized.as_str();
    if text_equals(n, "up") {
        Ok(Key::Up)
    } else if text_equals(n, "down") {
        Ok(Key::Down)
    } else if text_equals(n, "left") {
        Ok(Key::Left)
    } else if text_equals(n, "right") {
        Ok(Key::Right)
    } else if text_equals(n, "enter") || text_equals(n, "return") {
        Ok(Key::Enter)
    } else if text_equals(n, "space") {
        Ok(Key::Space)
    } else if n.unicode_len() == 1 {
        Ok(Key::Character(n.get_char(0)))
    } else {
        Err(unsupported_key_message(value))
    }
}

/// The physical keys of the macOS ANSI layout that each key presses: the arrow keys,
/// Return and Space, and for each character its key, `kVK_ANSI_A` = 0x00 for `a` and
/// `A`, `kVK_ANSI_S` = 0x01 for `s` and `S`, and so on; a character outside this
/// list has no key.
pub proof fn lemma_ansi_key_codes()
    ensures
        key_code_spec(Key::Up) == Ok::<u16, KeyError>(0x7E),
        key_code_spec(Key::Down) == Ok::<u16, KeyError>(0x7D),
        key_code_spec(Key::Left) == Ok::<u16, KeyError>(0x7B),
        key_code_spec(Key::Right) == Ok::<u16, KeyError>(0x7C),
        key_code_spec(Key::Enter) == Ok::<u16, KeyError>(0x24),
        key_code_spec(Key::Space) == Ok::<u16, KeyError>(0x31),
        key_code_spec(Key::Character('a')) == Ok::<u16, KeyError>(0x00),
        key_code_spec(Key::Character('A')) == Ok::<u16, KeyError>(0x00),
        key_code_spec(Key::Character('s')) == Ok::<u16, KeyError>(0x01),
        key_code_spec(Key::Character('S')) == Ok::<u16, KeyError>(0x01),
        key_code_spec(Key::Character('d')) == Ok::<u16, KeyError>(0x02),
        key_code_spec(Key::Character('D')) == Ok::<u16, KeyError>(0x02),
        key_code_spec(Key::Character('f')) == Ok::<u16, KeyError>(0x03),
        key_code_spec(Key::Character('F')) == Ok::<u16, KeyError>(0x03),
        key_code_spec(Key::Character('h')) == Ok::<u16, KeyError>(0x04),
        key_code_spec(Key::Character('H')) == Ok::<u16, KeyError>(0x04),
        key_code_spec(Key::Character('g')) == Ok::<u16, KeyError>(0x05),
        key_code_spec(Key::Character('G')) == Ok::<u16, KeyError>(0x05),
        key_code_spec(Key::Character('z')) == Ok::<u16, KeyError>(0x06),
        key_code_spec(Key::Character('Z')) == Ok::<u16, KeyError>(0x06),
        key_code_spec(Key::Character('x')) == Ok::<u16, KeyError>(0x07),
        key_code_spec(Key::Character('X')) == Ok::<u16, KeyError>(0x07),
        key_code_spec(Key::Character('c')) == Ok::<u16, KeyError>(0x08),
        key_code_spec(Key::Character('C')) == Ok::<u16, KeyError>(0x08),
        key_code_spec(Key::Character('v')) == Ok::<u16, KeyError>(0x09),
        key_code_spec(Key::Character('V')) == Ok::<u16, KeyError>(0x09),
        key_code_spec(Key::Character('b')) == Ok::<u16, KeyError>(0x0B),
        key_code_spec(Key::Character('B')) == Ok::<u16, KeyError>(0x0B),
        key_code_spec(Key::Character('q')) == Ok::<u16, KeyError>(0x0C),
        key_code_spec(Key::Character('Q')) == Ok::<u16, KeyError>(0x0C),
        key_code_spec(Key::Character('w')) == Ok::<u16, KeyError>(0x0D),
        key_code_spec(Key::Character('W')) == Ok::<u16, KeyError>(0x0D),
        key_code_spec(Key::Character('e')) == Ok::<u16, KeyError>(0x0E),
        key_code_spec(Key::Character('E')) == Ok::<u16, KeyError>(0x0E),
        key_code_spec(Key::Character('r')) == Ok::<u16, KeyError>(0x0F),
        key_code_spec(Key::Character('R')) == Ok::<u16, KeyError>(0x0F),
        key_code_spec(Key::Character('y')) == Ok::<u16, KeyError>(0x10),
        key_code_spec(Key::Character('Y')) == Ok::<u16, KeyError>(0x10),
        key_code_spec(Key::Character('t')) == Ok::<u16, KeyError>(0x11),
        key_code_spec(Key::Character('T')) == Ok::<u16, KeyError>(0x11),
        key_code_spec(Key::Character('1')) == Ok::<u16, KeyError>(0x12),
        key_code_spec(Key::Character('2')) == Ok::<u16, KeyError>(0x13),
        key_code_spec(Key::Character('3')) == Ok::<u16, KeyError>(0x14),
        key_code_spec(Key::Character('4')) == Ok::<u16, KeyError>(0x15),
        key_code_spec(Key::Character('6')) == Ok::<u16, KeyError>(0x16),
        key_code_spec(Key::Character('5')) == Ok::<u16, KeyError>(0x17),
        key_code_spec(Key::Character('=')) == Ok::<u16, KeyError>(0x18),
        key_code_spec(Key::Character('9')) == Ok::<u16, KeyError>(0x19),
        key_code_spec(Key::Character('7')) == Ok::<u16, KeyError>(0x1A),
        key_code_spec(Key::Character('-')) == Ok::<u16, KeyError>(0x1B),
        key_code_spec(Key::Character('8')) == Ok::<u16, KeyError>(0x1C),
        key_code_spec(Key::Character('0')) == Ok::<u16, KeyError>(0x1D),
        key_code_spec(Key::Character(']')) == Ok::<u16, KeyError>(0x1E),
        key_code_spec(Key::Character('o')) == Ok::<u16, KeyError>(0x1F),
        key_code_spec(Key::Character('O')) == Ok::<u16, KeyError>(0x1F),
        key_code_spec(Key::Character('u')) == Ok::<u16, KeyError>(0x20),
        key_code_spec(Key::Character('U')) == Ok::<u16, KeyError>(0x20),
        key_code_spec(Key::Character('[')) == Ok::<u16, KeyError>(0x21),
        key_code_spec(Key::Character('i')) == Ok::<u16, KeyError>(0x22),
        key_code_spec(Key::Character('I')) == Ok::<u16, KeyError>(0x22),
        key_code_spec(Key::Character('p')) == Ok::<u16, KeyError>(0x23),
        key_code_spec(Key::Character('P')) == Ok::<u16, KeyError>(0x23),
        key_code_spec(Key::Character('l')) == Ok::<u16, KeyError>(0x25),
        key_code_spec(Key::Character('L')) == Ok::<u16, KeyError>(0x25),
        key_code_spec(Key::Character('j')) == Ok::<u16, KeyError>(0x26),
        key_code_spec(Key::Character('J')) == Ok::<u16, KeyError>(0x26),
        key_code_spec(Key::Character('\'')) == Ok::<u16, KeyError>(0x27),
        key_code_spec(Key::Character('k')) == Ok::<u16, KeyError>(0x28),
        key_code_spec(Key::Character('K')) == Ok::<u16, KeyError>(0x28),
        key_code_spec(Key::Character(';')) == Ok::<u16, KeyError>(0x29),
        key_code_spec(Key::Character('\\')) == Ok::<u16, KeyError>(0x2A),
        key_code_spec(Key::Character(',')) == Ok::<u16, KeyError>(0x2B),
        key_code_spec(Key::Character('/')) == Ok::<u16, KeyError>(0x2C),
        key_code_spec(Key::Character('n')) == Ok::<u16, KeyError>(0x2D),
        key_code_spec(Key::Character('N')) == Ok::<u16, KeyError>(0x2D),
        key_code_spec(Key::Character('m')) == Ok::<u16, KeyError>(0x2E),
        key_code_spec(Key::Character('M')) == Ok::<u16, KeyError>(0x2E),
        key_code_spec(Key::Character('.')) == Ok::<u16, KeyError>(0x2F),
        key_code_spec(Key::Character('`')) == Ok::<u16, KeyError>(0x32),
        key_code_spec(Key::Character('!')) == Err::<u16, KeyError>(KeyError::NoPhysicalKey('!')),
        key_code_spec(Key::Character(' ')) == Err::<u16, KeyError>(KeyError::NoPhysicalKey(' ')),
{
}

/// A character outside the list of `lemma_ansi_key_codes`, in either letter case,
/// has no physical key: it is refused, not sent as some other key.
pub proof fn lemma_unlisted_characters_have_no_key(c: char)
    requires
        !set![
            'a', 'A', 's', 'S', 'd', 'D', 'f', 'F', 'h', 'H', 'g', 'G', 'z', 'Z', 'x', 'X', 'c', 'C',
            'v', 'V', 'b', 'B', 'q', 'Q', 'w', 'W', 'e', 'E', 'r', 'R', 'y', 'Y', 't', 'T', 'o', 'O',
            'u', 'U', 'i', 'I', 'p', 'P', 'l', 'L', 'j', 'J', 'k', 'K', 'n', 'N', 'm', 'M', '1', '2',
            '3', '4', '5', '6', '7', '8', '9', '0', '=', '-', ']', '[', '\'', ';', '\\', ',', '/',
            '.', '`',
        ].contains(c),
    ensures
        key_code_spec(Key::Character(c)) is Err,
{
    if 'A' <= c && c <= 'Z' {
        let lower = ascii_lower(c);
        assert((lower as u32) == (c as u32) + 32);
        assert('a' <= lower && lower <= 'z');
    }
}

/// Lower-casing twice changes nothing more.
proof fn lemma_ascii_lower_idempotent(c: char)
    ensures
        ascii_lower(ascii_lower(c)) == ascii_lower(c),
{
}

/// A character and its ASCII lower-case form press the same physical key.
pub proof fn lemma_character_codes_ignore_case(c: char)
    ensures
        key_code_spec(Key::Character(c)) == key_code_spec(Key::Character(ascii_lower(c))),
{
    lemma_ascii_lower_idempotent(c);
}

/// The key a code stands for, with characters taken in lower case.
pub open spec fn normalized_key(key: Key) -> Key {
    match key {
        Key::Character(c) => Key::Character(ascii_lower(c)),
        other => other,
    }
}

/// Two keys that differ other than in letter case never press the same physical key.
pub proof fn lemma_key_codes_are_distinct(a: Key, b: Key)
    requires
        key_code_spec(a) is Ok,
        key_code_spec(a) == key_code_spec(b),
    ensures
        normalized_key(a) == normalized_key(b),
{
}

} // verus!
