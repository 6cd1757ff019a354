//! Writing arbitrary text as the body of a TOML basic string, so that a path
//! or a URL pastes into a manifest and reads back as itself.
//!
//! A TOML basic string may not hold a raw `"`, a raw `\` or a control
//! character. Each of those is written as an escape: the seven short forms
//! `\b \t \n \f \r \" \\`, and `\u00XX` for every other control character
//! (U+0000 to U+001F, and U+007F). Every other character stands for itself.

use vstd::prelude::*;
use vstd::string::*;

use crate::text::push_char;

verus! {

/// The upper-case hexadecimal digit for `n`, which is below 16.
pub open spec fn hex_digit(n: int) -> char {
    if n < 10 {
        (n + 48) as char
    } else {
        (n + 55) as char
    }
}

/// The value of a hexadecimal digit, either case; `None` for any other
/// character.
pub open spec fn hex_value(c: char) -> Option<int> {
    if '0' <= c && c <= '9' {
        Some(c as int - 48)
    } else if 'A' <= c && c <= 'F' {
        Some(c as int - 55)
    } else if 'a' <= c && c <= 'f' {
        Some(c as int - 87)
    } else {
        None
    }
}

/// The letter of the short escape for `c`, if it has one.
pub open spec fn short_escape(c: char) -> Option<char> {
    if c == '"' {
        Some('"')
    } else if c == '\\' {
        Some('\\')
    } else if c == '\u{8}' {
        Some('b')
    } else if c == '\t' {
        Some('t')
    } else if c == '\n' {
        Some('n')
    } else if c == '\u{c}' {
        Some('f')
    } else if c == '\r' {
        Some('r')
    } else {
        None
    }
}

/// The character a short escape's letter stands for, if it is one.
pub open spec fn short_escaped(letter: char) -> Option<char> {
    if letter == '"' {
        Some('"')
    } else if letter == '\\' {
        Some('\\')
    } else if letter == 'b' {
        Some('\u{8}')
    } else if letter == 't' {
        Some('\t')
    } else if letter == 'n' {
        Some('\n')
    } else if letter == 'f' {
        Some('\u{c}')
    } else if letter == 'r' {
        Some('\r')
    } else {
        None
    }
}

/// A control character that has no short escape is written `\u00XX`.
pub open spec fn needs_code_escape(c: char) -> bool {
    short_escape(c) is None && ((c as int) < 32 || c as int == 127)
}

/// How one character is written inside a TOML basic string.
pub open spec fn escaped_char(c: char) -> Seq<char> {
    match short_escape(c) {
        Some(letter) => seq!['\\', letter],
        None => if needs_code_escape(c) {
            seq!['\\', 'u', '0', '0', hex_digit(c as int / 16), hex_digit(c as int % 16)]
        } else {
            seq![c]
        },
    }
}

/// How `text` is written inside a TOML basic string: each character as
/// [`escaped_char`] writes it, in order.
pub open spec fn escaped(text: Seq<char>) -> Seq<char>
    decreases text.len(),
{
    if text.len() == 0 {
        Seq::empty()
    } else {
        escaped(text.drop_last()) + escaped_char(text.last())
    }
}

/// What a TOML reader takes the body of a basic string to say, escapes
/// decoded: `\` and a short-escape letter, or `\u` and four hexadecimal
/// digits, stand for one character; any other character stands for itself.
pub open spec fn unescaped(body: Seq<char>) -> Seq<char>
    decreases body.len(),
{
    if body.len() == 0 {
        Seq::empty()
    } else if body[0] == '\\' && body.len() >= 2 && short_escaped(body[1]) is Some {
        seq![short_escaped(body[1])->0] + unescaped(body.subrange(2, body.len() as int))
    } else if body[0] == '\\' && body.len() >= 6 && body[1] == 'u' && hex_value(body[2]) is Some
        && hex_value(body[3]) is Some && hex_value(body[4]) is Some && hex_value(body[5]) is Some {
        seq![
            (hex_value(body[2])->0 * 4096 + hex_value(body[3])->0 * 256 + hex_value(body[4])->0 * 16
                + hex_value(body[5])->0) as char,
        ] + unescaped(body.subrange(6, body.len() as int))
    } else {
        seq![body[0]] + unescaped(body.drop_first())
    }
}

/// Escaping a text that starts with `c` writes `c`'s escape first.
proof fn lemma_escaped_front(c: char, rest: Seq<char>)
    ensures
        escaped(seq![c] + rest) == escaped_char(c) + escaped(rest),
    decreases rest.len(),
{
    if rest.len() == 0 {
        assert(seq![c] + rest =~= seq![c]);
        assert(seq![c].drop_last() =~= Seq::<char>::empty());
        assert(escaped_char(c) + escaped(rest) =~= escaped_char(c));
        assert(escaped(seq![c]) =~= escaped(Seq::<char>::empty()) + escaped_char(c));
    } else {
        lemma_escaped_front(c, rest.drop_last());
        assert((seq![c] + rest).drop_last() =~= seq![c] + rest.drop_last());
        assert((seq![c] + rest).last() == rest.last());
        assert(escaped_char(c) + escaped(rest) =~= escaped_char(c) + escaped(rest.drop_last())
            + escaped_char(rest.last()));
    }
}

/// Reading one character's escape back gives the character, whatever
/// follows it.
proof fn lemma_unescape_one(c: char, rest: Seq<char>)
    ensures
        unescaped(escaped_char(c) + rest) == seq![c] + unescaped(rest),
{
    let written = escaped_char(c) + rest;
    match short_escape(c) {
        Some(letter) => {
            assert(written[0] == '\\');
            assert(written[1] == letter);
            assert(short_escaped(letter) == Some(c));
            assert(written.subrange(2, written.len() as int) =~= rest);
        },
        None => {
            if needs_code_escape(c) {
                let code = c as int;
                assert(0 <= code < 128);
                assert(hex_value(hex_digit(code / 16)) == Some(code / 16));
                assert(hex_value(hex_digit(code % 16)) == Some(code % 16));
                assert(written[1] == 'u');
                assert(short_escaped('u') is None);
                assert(written.subrange(6, written.len() as int) =~= rest);
                assert(0 * 4096 + 0 * 256 + (code / 16) * 16 + code % 16 == code);
            } else {
                assert(written[0] == c);
                assert(written.drop_first() =~= rest);
            }
        },
    }
}

/// Reading back what escaping wrote gives the text that was escaped.
pub proof fn escaping_reads_back(text: Seq<char>)
    ensures
        unescaped(escaped(text)) == text,
    decreases text.len(),
{
    if text.len() > 0 {
        let rest = text.drop_first();
        assert(text =~= seq![text[0]] + rest);
        lemma_escaped_front(text[0], rest);
        lemma_unescape_one(text[0], escaped(rest));
        escaping_reads_back(rest);
    }
}

/// The upper-case hexadecimal digit for `n`.
fn hex_digit_char(n: u32) -> (digit: char)
    requires
        n < 16,
    ensures
        digit == hex_digit(n as int),
{
    if n < 10 {
        ((n + 48) as u8) as char
    } else {
        ((n + 55) as u8) as char
    }
}

/// `text` written as the body of a TOML basic string: every `"`, `\` and
/// control character escaped, everything else as it is.
pub fn escape_toml_string(text: &str) -> (body: String)
    ensures
        body@ == escaped(text@),
{
    let mut body = String::new();
    let length = text.unicode_len();
    let mut index: usize = 0;
    while index < length
        invariant
            length == text@.len(),
            index <= length,
            body@ == escaped(text@.take(index as int)),
        decreases length - index,
    {
        let c = text.get_char(index);
        assert(text@.take(index + 1).drop_last() =~= text@.take(index as int));
        assert(text@.take(index + 1).last() == c);
        let ghost before = body@;
        let code = c as u32;
        if c == '"' {
            push_char(&mut body, '\\');
            push_char(&mut body, '"');
        } else if c == '\\' {
            push_char(&mut body, '\\');
            push_char(&mut body, '\\');
        } else if c == '\u{8}' {
            push_char(&mut body, '\\');
            push_char(&mut body, 'b');
        } else if c == '\t' {
            push_char(&mut body, '\\');
            push_char(&mut body, 't');
        } else if c == '\n' {
            push_char(&mut body, '\\');
            push_char(&mut body, 'n');
        } else if c == '\u{c}' {
            push_char(&mut body, '\\');
            push_char(&mut body, 'f');
        } else if c == '\r' {
            push_char(&mut body, '\\');
            push_char(&mut body, 'r');
        } else if code < 32 || code == 127 {
            push_char(&mut body, '\\');
            push_char(&mut body, 'u');
            push_char(&mut body, '0');
            push_char(&mut body, '0');
            push_char(&mut body, hex_digit_char(code / 16));
            push_char(&mut body, hex_digit_char(code % 16));
        } else {
            push_char(&mut body, c);
        }
        assert(body@ =~= before + escaped_char(c));
        index += 1;
    }
    assert(text@.take(length as int) =~= text@);
    body
}

} // verus!
