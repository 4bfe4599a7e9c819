//! Cleaning source code: undoing the escaping that it went through on its way.

use crate::json::{document_view, json_parse, parse, Json, JsonTree};
use crate::text::{
    blank, chars_of, is_white_space, law_trimming_takes_white_space,
    lemma_trimmed_between_blanks, quoted, trim, trimmed,
};
use vstd::prelude::*;

verus! {

/// `char::from_u32` returns the character with the code point, or `None` where
/// no character has it: above the last code point and in the surrogate range.
pub assume_specification[ char::from_u32 ](code: u32) -> (r: Option<char>)
    ensures
        r is Some == is_code_point(code as int),
        r matches Some(c) ==> c as u32 == code,
;

/// The number is the code point of a character.
pub open spec fn is_code_point(code: int) -> bool {
    0 <= code <= 0xd7ff || 0xe000 <= code <= 0x10ffff
}

/// The value of a hexadecimal digit.
pub open spec fn hex_digit(c: char) -> Option<int> {
    if '0' <= c <= '9' {
        Some(c as int - '0' as int)
    } else if 'a' <= c <= 'f' {
        Some(c as int - 'a' as int + 10)
    } else if 'A' <= c <= 'F' {
        Some(c as int - 'A' as int + 10)
    } else {
        None
    }
}

/// How many hexadecimal digits the text starts with, counted up to `most`.
pub open spec fn leading_hex(text: Seq<char>, most: nat) -> nat
    decreases most,
{
    if most == 0 || text.len() == 0 || hex_digit(text[0]) is None {
        0
    } else {
        1 + leading_hex(text.drop_first(), (most - 1) as nat)
    }
}

/// The number that the hexadecimal digits of a text spell.
pub open spec fn hex_number(digits: Seq<char>) -> int
    decreases digits.len(),
{
    if digits.len() == 0 {
        0
    } else {
        hex_number(digits.drop_last()) * 16 + hex_digit(digits.last())->0
    }
}

/// What a backslash followed by `c` stands for, where it stands for one fixed
/// character.
pub open spec fn simple_escape(c: char) -> Option<char> {
    if c == 'n' {
        Some('\n')
    } else if c == 't' {
        Some('\t')
    } else if c == 'r' {
        Some('\r')
    } else if c == '\\' || c == '"' || c == '\'' {
        Some(c)
    } else {
        None
    }
}

/// What the digits after `\u` stand for: the character whose code point four of
/// them spell, or nothing.
pub open spec fn unicode_escape(digits: Seq<char>) -> Seq<char> {
    if digits.len() == 4 && is_code_point(hex_number(digits)) {
        seq![hex_number(digits) as char]
    } else {
        Seq::empty()
    }
}

/// The text with its escape sequences replaced by what they stand for. A `\u`
/// takes the hexadecimal digits behind it with it, four at most. Of any other
/// backslash that introduces no escape sequence, only the backslash is dropped.
pub open spec fn unescaped(text: Seq<char>) -> Seq<char>
    decreases text.len(),
{
    if text.len() == 0 {
        Seq::empty()
    } else if text[0] != '\\' {
        seq![text[0]] + unescaped(text.skip(1))
    } else if text.len() == 1 {
        Seq::empty()
    } else if simple_escape(text[1]) is Some {
        seq![simple_escape(text[1])->0] + unescaped(text.skip(2))
    } else if text[1] == 'u' {
        let n = leading_hex(text.skip(2), 4);
        proof {
            lemma_leading_hex(text.skip(2), 4);
        }
        unicode_escape(text.skip(2).take(n as int)) + unescaped(text.skip(2 + n as int))
    } else {
        unescaped(text.skip(1))
    }
}

/// The source code that a text stands for, given the JSON document that the
/// trimmed text is, if it is one: what a JSON string holds, and otherwise the
/// text with its escape sequences replaced.
pub open spec fn cleaned_given(source: Seq<char>, document: Option<JsonTree>) -> Seq<char> {
    match document {
        Some(JsonTree::Text(inner)) if quoted(trimmed(source)) => inner,
        _ => unescaped(source),
    }
}

/// The source code that a text stands for.
pub open spec fn cleaned(source: Seq<char>) -> Seq<char> {
    cleaned_given(source, json_parse(trimmed(source)))
}

/// [`leading_hex`] counts no more than `most`, and only hexadecimal digits.
pub proof fn lemma_leading_hex(text: Seq<char>, most: nat)
    ensures
        leading_hex(text, most) <= most,
        leading_hex(text, most) <= text.len(),
        forall|i: int| 0 <= i < leading_hex(text, most) ==> hex_digit(#[trigger] text[i]) is Some,
    decreases most,
{
    if most > 0 && text.len() > 0 && hex_digit(text[0]) is Some {
        let rest = text.drop_first();
        lemma_leading_hex(rest, (most - 1) as nat);
        assert forall|i: int| 0 <= i < leading_hex(text, most) implies hex_digit(
            #[trigger] text[i],
        ) is Some by {
            if i > 0 {
                assert(hex_digit(rest[i - 1]) is Some);
            }
        }
    }
}

/// The value of a hexadecimal digit.
fn hex_value(c: char) -> (r: Option<u32>)
    ensures
        r is Some == hex_digit(c) is Some,
        r matches Some(v) ==> hex_digit(c) == Some(v as int) && v < 16,
{
    if '0' <= c && c <= '9' {
        Some(c as u32 - '0' as u32)
    } else if 'a' <= c && c <= 'f' {
        Some(c as u32 - 'a' as u32 + 10)
    } else if 'A' <= c && c <= 'F' {
        Some(c as u32 - 'A' as u32 + 10)
    } else {
        None
    }
}

/// What a backslash followed by `c` stands for, where it stands for one fixed
/// character.
fn simple_escape_char(c: char) -> (r: Option<char>)
    ensures
        r == simple_escape(c),
{
    if c == 'n' {
        Some('\n')
    } else if c == 't' {
        Some('\t')
    } else if c == 'r' {
        Some('\r')
    } else if c == '\\' || c == '"' || c == '\'' {
        Some(c)
    } else {
        None
    }
}

/// Reads the hexadecimal digits from position `from` on, four at most. Returns
/// how many there are and the character that they stand for.
fn unicode_escape_at(chars: &Vec<char>, from: usize) -> (r: (usize, Option<char>))
    requires
        from <= chars@.len(),
    ensures
        r.0 == leading_hex(chars@.skip(from as int), 4),
        r.1 is Some == (unicode_escape(chars@.skip(from as int).take(r.0 as int)).len() > 0),
        r.1 matches Some(c) ==> unicode_escape(chars@.skip(from as int).take(r.0 as int)) == seq![
            c,
        ],
{
    let ghost rest = chars@.skip(from as int);
    let mut n: usize = 0;
    let mut code: u32 = 0;
    proof {
        assert(rest.skip(0) =~= rest);
        assert(rest.take(0) =~= Seq::<char>::empty());
        lemma_leading_hex(rest, 4);
    }
    while n < 4 && n < chars.len() - from
        invariant_except_break
            leading_hex(rest, 4) == n + leading_hex(rest.skip(n as int), (4 - n) as nat),
        invariant
            from <= chars@.len(),
            rest == chars@.skip(from as int),
            n <= 4,
            n <= rest.len(),
            code == hex_number(rest.take(n as int)),
            n == 0 ==> code == 0,
            n == 1 ==> code < 16,
            n == 2 ==> code < 256,
            n == 3 ==> code < 4096,
            n == 4 ==> code < 65536,
        ensures
            leading_hex(rest, 4) == n,
        decreases 4 - n,
    {
        assert(rest.skip(n as int)[0] == chars@[from + n]);
        match hex_value(chars[from + n]) {
            Some(v) => {
                assert(rest.take(n + 1).drop_last() =~= rest.take(n as int));
                assert(rest.take(n + 1).last() == chars@[from + n]);
                assert(rest.skip(n as int).drop_first() =~= rest.skip(n + 1));
                code = code * 16 + v;
                n += 1;
            },
            None => {
                break;
            },
        }
    }
    if n == 4 {
        let found = char::from_u32(code);
        proof {
            if let Some(c) = found {
                vstd::utf8::char_u32_cast(c, code);
                assert(hex_number(rest.take(4)) as char == c);
            }
        }
        (n, found)
    } else {
        (n, None)
    }
}

/// Replaces the escape sequences of a text by what they stand for.
pub fn unescape(source: &str) -> (r: String)
    ensures
        r@ == unescaped(source@),
{
    let chars = chars_of(source);
    let mut out = String::new();
    let mut i: usize = 0;
    assert(chars@.skip(0) =~= source@);
    assert(Seq::<char>::empty() + unescaped(source@) =~= unescaped(source@));
    while i < chars.len()
        invariant
            i <= chars@.len(),
            unescaped(source@) == out@ + unescaped(chars@.skip(i as int)),
        decreases chars@.len() - i,
    {
        let ghost rest = chars@.skip(i as int);
        let ghost done = out@;
        let c = chars[i];
        i += 1;
        assert(rest[0] == c);
        assert(rest.skip(1) =~= chars@.skip(i as int));
        if c != '\\' {
            out.push(c);
            assert(done + (seq![c] + unescaped(rest.skip(1))) =~= out@ + unescaped(rest.skip(1)));
        } else if i < chars.len() {
            let next = chars[i];
            assert(rest[1] == next);
            assert(rest.skip(2) =~= chars@.skip(i + 1));
            match simple_escape_char(next) {
                Some(plain) => {
                    out.push(plain);
                    i += 1;
                    assert(done + (seq![plain] + unescaped(rest.skip(2))) =~= out@ + unescaped(
                        rest.skip(2),
                    ));
                },
                None => {
                    if next == 'u' {
                        i += 1;
                        let (n, found) = unicode_escape_at(&chars, i);
                        let ghost digits = rest.skip(2).take(n as int);
                        proof {
                            lemma_leading_hex(rest.skip(2), 4);
                            assert(rest.skip(2 + n as int) =~= chars@.skip(i + n));
                        }
                        match found {
                            Some(plain) => {
                                out.push(plain);
                            },
                            None => {
                                assert(unicode_escape(digits) =~= Seq::<char>::empty());
                            },
                        }
                        i += n;
                        assert(done + (unicode_escape(digits) + unescaped(chars@.skip(i as int)))
                            =~= out@ + unescaped(chars@.skip(i as int)));
                    }
                },
            }
        } else {
            assert(rest.len() == 1);
            assert(rest.skip(1) =~= Seq::<char>::empty());
        }
    }
    assert(chars@.skip(i as int) =~= Seq::<char>::empty());
    assert(out@ + Seq::<char>::empty() =~= out@);
    out
}

/// Whether the text is enclosed in double quotes.
fn is_quoted(text: &str) -> (r: bool)
    ensures
        r == quoted(text@),
{
    let chars = chars_of(text);
    let n: usize = chars.len();
    n > 0 && chars[0] == '"' && chars[n - 1] == '"'
}

/// Cleans source code, given the JSON document that the trimmed text is, if it is
/// one.
pub fn clean_given_document(source: &str, document: Option<Json>) -> (r: String)
    ensures
        r@ == cleaned_given(source@, document_view(document)),
{
    let text = trim(source);
    match document {
        Some(Json::Text(inner)) => if is_quoted(text.as_str()) {
            inner
        } else {
            unescape(source)
        },
        _ => unescape(source),
    }
}

/// Cleans source code: takes it out of the JSON string that it may be enclosed
/// in, or replaces its escape sequences.
pub fn clean_source_code(source: &str) -> (r: String)
    ensures
        r@ == cleaned(source@),
{
    let text = trim(source);
    if is_quoted(text.as_str()) {
        clean_given_document(source, parse(text.as_str()))
    } else {
        unescape(source)
    }
}

/// The text with every character that has an escape sequence of its own written
/// as that sequence.
pub open spec fn escaped(text: Seq<char>) -> Seq<char>
    decreases text.len(),
{
    if text.len() == 0 {
        Seq::empty()
    } else {
        let c = text[0];
        let head = if c == '\n' {
            seq!['\\', 'n']
        } else if c == '\t' {
            seq!['\\', 't']
        } else if c == '\r' {
            seq!['\\', 'r']
        } else if c == '\\' || c == '"' || c == '\'' {
            seq!['\\', c]
        } else {
            seq![c]
        };
        head + escaped(text.skip(1))
    }
}

/// Replacing escape sequences undoes escaping.
pub proof fn law_unescape_undoes_escape(text: Seq<char>)
    ensures
        unescaped(escaped(text)) == text,
    decreases text.len(),
{
    let coded = escaped(text);
    if text.len() == 0 {
        assert(unescaped(coded) =~= text);
    } else {
        law_unescape_undoes_escape(text.skip(1));
        assert(text =~= seq![text[0]] + text.skip(1));
        if coded[0] == '\\' {
            assert(coded.skip(2) =~= escaped(text.skip(1)));
            assert(simple_escape(coded[1]) == Some(text[0]));
        } else {
            assert(coded.skip(1) =~= escaped(text.skip(1)));
        }
    }
}

/// A text without a backslash has no escape sequence to replace.
pub proof fn law_plain_text_unescapes_to_itself(text: Seq<char>)
    requires
        !text.contains('\\'),
    ensures
        unescaped(text) == text,
    decreases text.len(),
{
    if text.len() == 0 {
        assert(unescaped(text) =~= text);
    } else {
        assert(text.contains(text[0]));
        assert forall|c: char| text.skip(1).contains(c) implies text.contains(c) by {
            let i = choose|i: int| 0 <= i < text.skip(1).len() && text.skip(1)[i] == c;
            assert(text[i + 1] == c);
        }
        law_plain_text_unescapes_to_itself(text.skip(1));
        assert(text =~= seq![text[0]] + text.skip(1));
    }
}

/// Source code without a backslash that is not enclosed in double quotes is
/// clean already.
pub proof fn law_plain_source_is_clean(source: Seq<char>)
    requires
        !source.contains('\\'),
        !quoted(trimmed(source)),
    ensures
        cleaned(source) == source,
{
    law_plain_text_unescapes_to_itself(source);
}

/// Replacing escape sequences never makes a text longer.
pub proof fn law_unescape_never_grows(text: Seq<char>)
    ensures
        unescaped(text).len() <= text.len(),
    decreases text.len(),
{
    if text.len() == 0 {
    } else if text[0] != '\\' {
        law_unescape_never_grows(text.skip(1));
    } else if text.len() == 1 {
    } else if simple_escape(text[1]) is Some {
        law_unescape_never_grows(text.skip(2));
    } else if text[1] == 'u' {
        let n = leading_hex(text.skip(2), 4);
        lemma_leading_hex(text.skip(2), 4);
        law_unescape_never_grows(text.skip(2 + n as int));
    } else {
        law_unescape_never_grows(text.skip(1));
    }
}

/// A backslash that introduces no escape sequence is dropped, and what follows
/// is read as if it had never been there.
pub proof fn law_stray_backslash_is_dropped(text: Seq<char>)
    requires
        text.len() > 0 ==> text[0] != 'n' && text[0] != 't' && text[0] != 'r' && text[0] != '\\'
            && text[0] != '"' && text[0] != '\'' && text[0] != 'u',
    ensures
        unescaped(seq!['\\'] + text) == unescaped(text),
{
    let stray = seq!['\\'] + text;
    assert(stray.skip(1) =~= text);
}

/// What stands before the first backslash is kept as it is, and what follows is
/// read on its own.
pub proof fn law_plain_start_is_kept(plain: Seq<char>, text: Seq<char>)
    requires
        !plain.contains('\\'),
    ensures
        unescaped(plain + text) == plain + unescaped(text),
    decreases plain.len(),
{
    let whole = plain + text;
    if plain.len() == 0 {
        assert(whole =~= text);
        assert(plain + unescaped(text) =~= unescaped(text));
    } else {
        let rest = plain.skip(1);
        assert(plain.contains(plain[0]));
        assert forall|c: char| rest.contains(c) implies plain.contains(c) by {
            let i = choose|i: int| 0 <= i < rest.len() && rest[i] == c;
            assert(plain[i + 1] == c);
        }
        law_plain_start_is_kept(rest, text);
        assert(whole.skip(1) =~= rest + text);
        assert(seq![whole[0]] + (rest + unescaped(text)) =~= plain + unescaped(text));
    }
}

/// Each escape sequence of two characters is replaced by the character that it
/// stands for, and what follows is read on its own.
pub proof fn law_escape_sequences_are_replaced(text: Seq<char>)
    ensures
        unescaped(seq!['\\', 'n'] + text) == seq!['\n'] + unescaped(text),
        unescaped(seq!['\\', 't'] + text) == seq!['\t'] + unescaped(text),
        unescaped(seq!['\\', 'r'] + text) == seq!['\r'] + unescaped(text),
        unescaped(seq!['\\', '\\'] + text) == seq!['\\'] + unescaped(text),
        unescaped(seq!['\\', '"'] + text) == seq!['"'] + unescaped(text),
        unescaped(seq!['\\', '\''] + text) == seq!['\''] + unescaped(text),
{
    assert((seq!['\\', 'n'] + text).skip(2) =~= text);
    assert((seq!['\\', 't'] + text).skip(2) =~= text);
    assert((seq!['\\', 'r'] + text).skip(2) =~= text);
    assert((seq!['\\', '\\'] + text).skip(2) =~= text);
    assert((seq!['\\', '"'] + text).skip(2) =~= text);
    assert((seq!['\\', '\''] + text).skip(2) =~= text);
}

/// The character is the hexadecimal digit for a number, in small letters or in
/// capitals.
pub open spec fn spells(digit: char, number: int) -> bool {
    &&& 0 <= number < 16
    &&& digit == "0123456789abcdef"@[number] || digit == "0123456789ABCDEF"@[number]
}

/// The character is a hexadecimal digit.
pub open spec fn spells_some(digit: char) -> bool {
    exists|number: int| spells(digit, number)
}

proof fn lemma_spells(digit: char)
    ensures
        forall|number: int| spells(digit, number) ==> hex_digit(digit) == Some(number),
        hex_digit(digit) matches Some(number) ==> spells(digit, number),
        hex_digit(digit) is Some <==> spells_some(digit),
{
    reveal_strlit("0123456789abcdef");
    reveal_strlit("0123456789ABCDEF");
    if let Some(number) = hex_digit(digit) {
        assert(spells(digit, number));
    }
}

/// `\u` and four hexadecimal digits stand for the character whose code point the
/// digits spell. Digits that spell a surrogate stand for nothing.
pub proof fn law_unicode_escape_is_replaced(
    digits: Seq<char>,
    numbers: Seq<int>,
    c: char,
    text: Seq<char>,
)
    requires
        digits.len() == 4,
        numbers.len() == 4,
        forall|i: int| 0 <= i < 4 ==> spells(#[trigger] digits[i], numbers[i]),
    ensures
        ({
            let code = numbers[0] * 4096 + numbers[1] * 256 + numbers[2] * 16 + numbers[3];
            let whole = seq!['\\', 'u'] + digits + text;
            &&& c as int == code ==> unescaped(whole) == seq![c] + unescaped(text)
            &&& 0xd800 <= code <= 0xdfff ==> unescaped(whole) == unescaped(text)
        }),
{
    let code = numbers[0] * 4096 + numbers[1] * 256 + numbers[2] * 16 + numbers[3];
    let whole = seq!['\\', 'u'] + digits + text;
    assert forall|i: int| 0 <= i < 4 implies hex_digit(#[trigger] digits[i]) == Some(
        numbers[i],
    ) by {
        lemma_spells(digits[i]);
        assert(spells(digits[i], numbers[i]));
    }
    assert(whole.skip(2) =~= digits + text);
    lemma_leading_hex_all(digits, text, 4);
    assert((digits + text).take(4) =~= digits);
    assert(whole.skip(6) =~= text);
    assert(hex_number(digits) == code) by {
        reveal_with_fuel(hex_number, 5);
        let three = digits.drop_last();
        let two = three.drop_last();
        let one = two.drop_last();
        assert(three.last() == digits[2] && two.last() == digits[1] && one.last() == digits[0]);
        assert(one.drop_last().len() == 0);
    }
    if c as int == code {
        vstd::utf8::char_u32_cast(c, code as u32);
        assert(code as char == c);
    }
    if 0xd800 <= code <= 0xdfff {
        assert(Seq::<char>::empty() + unescaped(text) =~= unescaped(text));
    }
}

proof fn lemma_leading_hex_all(digits: Seq<char>, text: Seq<char>, most: nat)
    requires
        forall|i: int| 0 <= i < digits.len() ==> hex_digit(#[trigger] digits[i]) is Some,
        digits.len() <= most,
        digits.len() < most && text.len() > 0 ==> hex_digit(text[0]) is None,
    ensures
        leading_hex(digits + text, most) == digits.len(),
    decreases digits.len(),
{
    let whole = digits + text;
    if digits.len() > 0 {
        let rest = digits.drop_first();
        assert(whole.drop_first() =~= rest + text);
        assert forall|i: int| 0 <= i < rest.len() implies hex_digit(#[trigger] rest[i]) is Some by {
            assert(hex_digit(digits[i + 1]) is Some);
        }
        assert(hex_digit(digits[0]) is Some);
        lemma_leading_hex_all(rest, text, (most - 1) as nat);
    } else {
        assert(whole =~= text);
    }
}

/// `\u` with fewer than four hexadecimal digits behind it stands for nothing,
/// and the digits go with it.
pub proof fn law_short_unicode_escape_is_dropped(digits: Seq<char>, text: Seq<char>)
    requires
        digits.len() < 4,
        forall|i: int| 0 <= i < digits.len() ==> spells_some(#[trigger] digits[i]),
        text.len() > 0 ==> !spells_some(text[0]),
    ensures
        unescaped(seq!['\\', 'u'] + digits + text) == unescaped(text),
{
    let whole = seq!['\\', 'u'] + digits + text;
    assert forall|i: int| 0 <= i < digits.len() implies hex_digit(#[trigger] digits[i]) is Some by {
        lemma_spells(digits[i]);
        assert(spells_some(digits[i]));
    }
    if text.len() > 0 {
        lemma_spells(text[0]);
    }
    assert(whole.skip(2) =~= digits + text);
    lemma_leading_hex_all(digits, text, 4);
    assert(whole.skip(2 + digits.len() as int) =~= text);
    assert(Seq::<char>::empty() + unescaped(text) =~= unescaped(text));
}

/// Of source code whose trimmed text starts and ends with a double quote and is a
/// JSON string, cleaning gives what the string holds. Of all other source code it
/// gives the text with its escape sequences replaced, whatever the text is about.
pub proof fn law_cleaning_opens_strings_or_unescapes(source: Seq<char>, document: Option<JsonTree>)
    ensures
        ({
            let text = trimmed(source);
            let string = text.len() > 0 && text[0] == '"' && text[text.len() - 1] == '"';
            &&& cleaned(source) == cleaned_given(source, json_parse(text))
            &&& !string ==> cleaned(source) == unescaped(source)
            &&& !string ==> cleaned_given(source, document) == unescaped(source)
            &&& document matches Some(JsonTree::Text(inner)) ==> string ==> cleaned_given(
                source,
                document,
            ) == inner
            &&& !(document matches Some(JsonTree::Text(_))) ==> cleaned_given(source, document)
                == unescaped(source)
        }),
{
}

/// Cleaning undoes escaping: of the escaped form of any source code it gives that
/// source code.
pub proof fn law_cleaning_undoes_escaping(source: Seq<char>)
    ensures
        cleaned(escaped(source)) == source,
{
    let coded = escaped(source);
    let text = trimmed(coded);
    law_unescape_undoes_escape(source);
    law_trimming_takes_white_space(coded);
    if text.len() > 0 && text[0] == '"' {
        let (left, right) = choose|left: Seq<char>, right: Seq<char>|
            blank(left) && blank(right) && coded == #[trigger] (left + text + right);
        let n = left.len() as int;
        assert(coded[n] == '"');
        lemma_escaped_quotes(source, n);
        assert(coded[n - 1] == left[n - 1]);
        assert(is_white_space(left[n - 1]));
    }
}

/// In an escaped text a backslash stands before every double quote.
proof fn lemma_escaped_quotes(text: Seq<char>, i: int)
    requires
        0 <= i < escaped(text).len(),
        escaped(text)[i] == '"',
    ensures
        i > 0,
        escaped(text)[i - 1] == '\\',
    decreases text.len(),
{
    let coded = escaped(text);
    let tail = escaped(text.skip(1));
    let n = coded.len() - tail.len();
    assert(coded.skip(n) =~= tail);
    if i >= n {
        assert(tail[i - n] == coded[i]);
        lemma_escaped_quotes(text.skip(1), i - n);
        assert(tail[i - n - 1] == coded[i - 1]);
    }
}

/// Cleaning the text gives the source code, whatever white space is put around
/// the text.
pub open spec fn cleans_to(text: Seq<char>, source: Seq<char>) -> bool {
    forall|left: Seq<char>, right: Seq<char>|
        blank(left) && blank(right) ==> cleaned(#[trigger] (left + text + right)) == source
}

/// Cleaning opens a JSON string: of a text that is one, it gives what the string
/// holds, whatever white space is put around the text.
pub proof fn law_cleaning_opens_json_string(text: Seq<char>)
    ensures
        json_parse(text) matches Some(JsonTree::Text(inner)) ==> quoted(text) ==> cleans_to(
            text,
            inner,
        ),
{
    if quoted(text) {
        assert forall|left: Seq<char>, right: Seq<char>| blank(left) && blank(right) implies trimmed(
            #[trigger] (left + text + right),
        ) == text by {
            lemma_trimmed_between_blanks(left, text, right);
        }
    }
}

} // verus!
