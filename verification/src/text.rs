//! Searching, comparing, trimming and cutting text.
//!
//! A text is modelled as the sequence of its characters. Positions count
//! characters, not bytes.

use vstd::prelude::*;
use vstd::string::*;

verus! {

/// `String::push` appends the character to the end of the string.
pub assume_specification[ String::push ](text: &mut String, c: char)
    ensures
        final(text)@ == old(text)@.push(c),
;

/// `char::is_whitespace` tells whether the character has the Unicode property
/// `White_Space`. The claim is that [`is_white_space`] lists that property.
pub assume_specification[ char::is_whitespace ](c: char) -> (r: bool)
    ensures
        r == is_white_space(c),
;

/// The characters with the Unicode property `White_Space`.
pub open spec fn is_white_space(c: char) -> bool {
    ||| '\u{9}' <= c <= '\u{d}'
    ||| c == ' '
    ||| c == '\u{85}'
    ||| c == '\u{a0}'
    ||| c == '\u{1680}'
    ||| '\u{2000}' <= c <= '\u{200a}'
    ||| c == '\u{2028}'
    ||| c == '\u{2029}'
    ||| c == '\u{202f}'
    ||| c == '\u{205f}'
    ||| c == '\u{3000}'
}

/// The characters of a text that may be missing.
pub open spec fn text_view(text: Option<String>) -> Option<Seq<char>> {
    match text {
        Some(t) => Some(t@),
        None => None,
    }
}

/// `needle` stands in `text` at position `i`.
pub open spec fn occurs_at(text: Seq<char>, needle: Seq<char>, i: int) -> bool {
    &&& 0 <= i
    &&& i + needle.len() <= text.len()
    &&& text.subrange(i, i + needle.len()) == needle
}

/// `needle` stands somewhere in `text`.
pub open spec fn contains(text: Seq<char>, needle: Seq<char>) -> bool {
    exists|i: int| occurs_at(text, needle, i)
}

/// The first position from `from` on at which `needle` stands in `text`.
pub open spec fn first_at(text: Seq<char>, needle: Seq<char>, from: int) -> Option<int>
    decreases text.len() - from + 1,
{
    if from < 0 || from + needle.len() > text.len() {
        None
    } else if occurs_at(text, needle, from) {
        Some(from)
    } else {
        first_at(text, needle, from + 1)
    }
}

/// The last position of `c` in `text`.
pub open spec fn last_at(text: Seq<char>, c: char) -> Option<int>
    decreases text.len(),
{
    if text.len() == 0 {
        None
    } else if text.last() == c {
        Some(text.len() - 1)
    } else {
        last_at(text.drop_last(), c)
    }
}

/// The text without its leading white space.
pub open spec fn trim_start(text: Seq<char>) -> Seq<char>
    decreases text.len(),
{
    if text.len() > 0 && is_white_space(text[0]) {
        trim_start(text.drop_first())
    } else {
        text
    }
}

/// The text without its trailing white space.
pub open spec fn trim_end(text: Seq<char>) -> Seq<char>
    decreases text.len(),
{
    if text.len() > 0 && is_white_space(text.last()) {
        trim_end(text.drop_last())
    } else {
        text
    }
}

/// The text without leading and trailing white space.
pub open spec fn trimmed(text: Seq<char>) -> Seq<char> {
    trim_end(trim_start(text))
}

/// The text is enclosed in double quotes.
pub open spec fn quoted(text: Seq<char>) -> bool {
    text.len() > 0 && text[0] == '"' && text.last() == '"'
}

/// The text consists of white space.
pub open spec fn blank(text: Seq<char>) -> bool {
    forall|i: int| 0 <= i < text.len() ==> is_white_space(#[trigger] text[i])
}

/// `a` comes before `b` in the order of a dictionary whose letters are ordered
/// by their code points.
pub open spec fn before(a: Seq<char>, b: Seq<char>) -> bool
    decreases a.len(),
{
    if b.len() == 0 {
        false
    } else if a.len() == 0 {
        true
    } else if a[0] != b[0] {
        a[0] < b[0]
    } else {
        before(a.drop_first(), b.drop_first())
    }
}

/// No text comes before itself.
pub proof fn lemma_before_irreflexive(a: Seq<char>)
    ensures
        !before(a, a),
    decreases a.len(),
{
    if a.len() > 0 {
        lemma_before_irreflexive(a.drop_first());
    }
}

/// The order of texts is transitive.
pub proof fn lemma_before_transitive(a: Seq<char>, b: Seq<char>, c: Seq<char>)
    requires
        before(a, b),
        before(b, c),
    ensures
        before(a, c),
    decreases a.len(),
{
    if a.len() > 0 && a[0] == b[0] && b[0] == c[0] {
        lemma_before_transitive(a.drop_first(), b.drop_first(), c.drop_first());
    }
}

/// Of two different texts one comes before the other.
pub proof fn lemma_before_total(a: Seq<char>, b: Seq<char>)
    ensures
        a == b || before(a, b) || before(b, a),
    decreases a.len(),
{
    if a.len() > 0 && b.len() > 0 && a[0] == b[0] {
        lemma_before_total(a.drop_first(), b.drop_first());
        if a.drop_first() == b.drop_first() {
            assert(a =~= seq![a[0]] + a.drop_first());
            assert(b =~= seq![b[0]] + b.drop_first());
        }
    } else if a.len() == 0 && b.len() == 0 {
        assert(a =~= b);
    }
}

/// What [`first_at`] finds is an occurrence, and nothing before it is one.
pub proof fn lemma_first_at(text: Seq<char>, needle: Seq<char>, from: int)
    requires
        0 <= from,
    ensures
        first_at(text, needle, from) matches Some(i) ==> from <= i && occurs_at(text, needle, i)
            && forall|j: int| from <= j < i ==> !occurs_at(text, needle, j),
        first_at(text, needle, from) is None ==> forall|j: int|
            from <= j ==> !occurs_at(text, needle, j),
    decreases text.len() - from + 1,
{
    if from + needle.len() <= text.len() && !occurs_at(text, needle, from) {
        lemma_first_at(text, needle, from + 1);
    }
}

/// A trimmed text is a part of the text, and neither starts nor ends with white
/// space.
pub proof fn law_trimmed(text: Seq<char>)
    ensures
        contains(text, trimmed(text)),
        trimmed(text).len() > 0 ==> !is_white_space(trimmed(text)[0]) && !is_white_space(
            trimmed(text).last(),
        ),
{
    let start = trim_start(text);
    lemma_trim_start(text);
    lemma_trim_end(start);
    let from = text.len() - start.len();
    let end = from + trimmed(text).len();
    assert(text.subrange(from, end) =~= trimmed(text));
    assert(occurs_at(text, trimmed(text), from));
}

/// White space around a text that neither starts nor ends with white space is
/// what trimming takes away.
pub proof fn lemma_trimmed_between_blanks(left: Seq<char>, text: Seq<char>, right: Seq<char>)
    requires
        blank(left),
        blank(right),
        text.len() > 0,
        !is_white_space(text[0]),
        !is_white_space(text.last()),
    ensures
        trimmed(left + text + right) == text,
{
    assert(left + text + right =~= left + (text + right));
    lemma_trim_start_blank(left, text + right);
    lemma_trim_end_blank(text, right);
}

proof fn lemma_trim_start_blank(left: Seq<char>, text: Seq<char>)
    requires
        blank(left),
        text.len() > 0,
        !is_white_space(text[0]),
    ensures
        trim_start(left + text) == text,
    decreases left.len(),
{
    if left.len() == 0 {
        assert(left + text =~= text);
    } else {
        assert(is_white_space(left[0]));
        assert((left + text).drop_first() =~= left.drop_first() + text);
        lemma_trim_start_blank(left.drop_first(), text);
    }
}

proof fn lemma_trim_end_blank(text: Seq<char>, right: Seq<char>)
    requires
        blank(right),
        text.len() > 0,
        !is_white_space(text.last()),
    ensures
        trim_end(text + right) == text,
    decreases right.len(),
{
    if right.len() == 0 {
        assert(text + right =~= text);
    } else {
        assert(is_white_space(right.last()));
        assert((text + right).drop_last() =~= text + right.drop_last());
        lemma_trim_end_blank(text, right.drop_last());
    }
}

proof fn lemma_trim_start(text: Seq<char>)
    ensures
        trim_start(text).len() <= text.len(),
        trim_start(text) == text.skip(text.len() - trim_start(text).len()),
        trim_start(text).len() > 0 ==> !is_white_space(trim_start(text)[0]),
        blank(text.take(text.len() - trim_start(text).len())),
    decreases text.len(),
{
    if text.len() > 0 && is_white_space(text[0]) {
        let rest = text.drop_first();
        lemma_trim_start(rest);
        let n = text.len() - trim_start(text).len();
        assert forall|i: int| 0 <= i < n implies is_white_space(#[trigger] text.take(n)[i]) by {
            if i > 0 {
                assert(rest.take(n - 1)[i - 1] == text[i]);
            }
        }
    }
    assert(trim_start(text) =~= text.skip(text.len() - trim_start(text).len()));
}

proof fn lemma_trim_end(text: Seq<char>)
    ensures
        trim_end(text).len() <= text.len(),
        trim_end(text) == text.take(trim_end(text).len() as int),
        trim_end(text).len() > 0 ==> !is_white_space(trim_end(text).last()),
        blank(text.skip(trim_end(text).len() as int)),
    decreases text.len(),
{
    if text.len() > 0 && is_white_space(text.last()) {
        let rest = text.drop_last();
        lemma_trim_end(rest);
        let n = trim_end(text).len() as int;
        assert forall|i: int| 0 <= i < text.len() - n implies is_white_space(
            #[trigger] text.skip(n)[i],
        ) by {
            if n + i < rest.len() {
                assert(rest.skip(n)[i] == text[n + i]);
            }
        }
    }
    assert(trim_end(text) =~= text.take(trim_end(text).len() as int));
}

/// What trimming takes away is white space, and only what surrounds the text.
pub proof fn law_trimming_takes_white_space(text: Seq<char>)
    ensures
        exists|left: Seq<char>, right: Seq<char>|
            blank(left) && blank(right) && text == #[trigger] (left + trimmed(text) + right),
        blank(text) ==> trimmed(text).len() == 0,
{
    let start = trim_start(text);
    lemma_trim_start(text);
    lemma_trim_end(start);
    let left = text.take(text.len() - start.len());
    let right = start.skip(trimmed(text).len() as int);
    assert(text =~= left + trimmed(text) + right);
    if blank(text) && trimmed(text).len() > 0 {
        law_trimmed(text);
        assert(text[left.len() as int] == trimmed(text)[0]);
    }
}

/// A text that is put between two others stands behind the first of them.
pub proof fn law_occurs_between(left: Seq<char>, needle: Seq<char>, right: Seq<char>)
    ensures
        occurs_at(left + needle + right, needle, left.len() as int),
{
    let n = left.len() as int;
    assert((left + needle + right).subrange(n, n + needle.len()) =~= needle);
}

/// Where a text stands in another, the other is made of what is before it, the
/// text, and what is behind it.
pub proof fn law_occurrence_parts_text(text: Seq<char>, needle: Seq<char>, i: int)
    requires
        occurs_at(text, needle, i),
    ensures
        0 <= i <= text.len() - needle.len(),
        text == text.take(i) + needle + text.skip(i + needle.len()),
{
    assert(text =~= text.take(i) + text.subrange(i, i + needle.len()) + text.skip(
        i + needle.len(),
    ));
}

/// A text contains another exactly where it is made of that other and anything
/// on both sides of it.
pub proof fn law_contains(text: Seq<char>, needle: Seq<char>)
    ensures
        contains(text, needle) <==> exists|left: Seq<char>, right: Seq<char>|
            text == #[trigger] (left + needle + right),
{
    if contains(text, needle) {
        let i = choose|i: int| occurs_at(text, needle, i);
        law_occurrence_parts_text(text, needle, i);
    }
    assert forall|left: Seq<char>, right: Seq<char>|
        text == #[trigger] (left + needle + right) implies contains(text, needle) by {
        law_occurs_between(left, needle, right);
    }
}

/// Of two texts that part at a character, the one with the lesser character comes
/// first, and a text comes before every longer text that starts with it.
pub proof fn law_before_is_dictionary_order(
    start: Seq<char>,
    a: char,
    b: char,
    x: Seq<char>,
    y: Seq<char>,
)
    ensures
        a < b ==> before(start + seq![a] + x, start + seq![b] + y),
        a < b ==> !before(start + seq![b] + y, start + seq![a] + x),
        before(start, start + seq![a] + x),
        !before(start + seq![a] + x, start),
    decreases start.len(),
{
    let p = start + seq![a] + x;
    let q = start + seq![b] + y;
    if start.len() > 0 {
        let rest = start.drop_first();
        law_before_is_dictionary_order(rest, a, b, x, y);
        assert(p.drop_first() =~= rest + seq![a] + x);
        assert(q.drop_first() =~= rest + seq![b] + y);
    }
}

/// The position of a text in another does not depend on what stands before the
/// place where the search starts.
pub proof fn lemma_first_at_behind(front: Seq<char>, text: Seq<char>, needle: Seq<char>, from: int)
    requires
        0 <= from,
    ensures
        first_at(front + text, needle, front.len() + from) == match first_at(text, needle, from) {
            Some(i) => Some(front.len() + i),
            None => None,
        },
        occurs_at(front + text, needle, front.len() + from) == occurs_at(text, needle, from),
    decreases text.len() - from + 1,
{
    let whole = front + text;
    if from + needle.len() <= text.len() {
        assert(whole.subrange(front.len() + from, front.len() + from + needle.len())
            =~= text.subrange(from, from + needle.len()));
        lemma_first_at_behind(front, text, needle, from + 1);
    }
}

/// Where a text stands first in another is where [`first_at`] finds it.
pub proof fn lemma_first_at_is(text: Seq<char>, needle: Seq<char>, from: int, i: int)
    requires
        0 <= from <= i,
        occurs_at(text, needle, i),
        forall|j: int| from <= j < i ==> !occurs_at(text, needle, j),
    ensures
        first_at(text, needle, from) == Some(i),
{
    lemma_first_at(text, needle, from);
}

/// The last position of a character is one at which it stands, and it stands at
/// none behind it. Where there is no last position, it stands nowhere.
pub proof fn law_last_at(text: Seq<char>, c: char)
    ensures
        last_at(text, c) matches Some(i) ==> 0 <= i < text.len() && text[i] == c && forall|j: int|
            i < j < text.len() ==> text[j] != c,
        last_at(text, c) is None ==> !text.contains(c),
    decreases text.len(),
{
    if text.len() > 0 && text.last() != c {
        let rest = text.drop_last();
        law_last_at(rest, c);
        assert forall|j: int| 0 <= j < rest.len() implies rest[j] == text[j] by {}
        if last_at(text, c) is None && text.contains(c) {
            let j = choose|j: int| 0 <= j < text.len() && text[j] == c;
            assert(rest[j] == c);
        }
    }
}

/// A text that may be missing is missing in the model exactly where it is missing.
pub proof fn law_text_view(text: Option<String>)
    ensures
        text is Some <==> text_view(text) is Some,
        text matches Some(t) ==> text_view(text) == Some(t@),
{
}

/// The characters of a text.
pub fn chars_of(text: &str) -> (r: Vec<char>)
    ensures
        r@ == text@,
{
    let mut chars: Vec<char> = Vec::new();
    for c in it: text.chars()
        invariant
            it.seq() == text@,
            chars@ == text@.take(it.index()),
    {
        assert(text@.take(it.index() + 1) =~= text@.take(it.index()).push(c));
        chars.push(c);
    }
    assert(text@.take(text@.len() as int) =~= text@);
    chars
}

/// The text made of the characters from `from` up to, not including, `to`.
pub fn text_between(chars: &Vec<char>, from: usize, to: usize) -> (r: String)
    requires
        from <= to <= chars@.len(),
    ensures
        r@ == chars@.subrange(from as int, to as int),
{
    let mut text = String::new();
    let mut i: usize = from;
    while i < to
        invariant
            from <= i <= to <= chars@.len(),
            text@ == chars@.subrange(from as int, i as int),
        decreases to - i,
    {
        assert(chars@.subrange(from as int, i + 1) =~= chars@.subrange(from as int, i as int).push(
            chars@[i as int],
        ));
        text.push(chars[i]);
        i += 1;
    }
    text
}

/// Whether two texts have the same characters.
pub fn same_text(a: &str, b: &str) -> (r: bool)
    ensures
        r == (a@ == b@),
{
    let x = chars_of(a);
    let y = chars_of(b);
    if x.len() != y.len() {
        return false;
    }
    let mut i: usize = 0;
    while i < x.len()
        invariant
            i <= x@.len() == y@.len(),
            x@ == a@,
            y@ == b@,
            forall|j: int| 0 <= j < i ==> x@[j] == y@[j],
        decreases x@.len() - i,
    {
        if x[i] != y[i] {
            return false;
        }
        i += 1;
    }
    assert(a@ =~= b@);
    true
}

/// Whether the first text comes before the second.
pub fn comes_before(a: &str, b: &str) -> (r: bool)
    ensures
        r == before(a@, b@),
{
    let x = chars_of(a);
    let y = chars_of(b);
    let mut i: usize = 0;
    assert(x@.skip(0) =~= a@);
    assert(y@.skip(0) =~= b@);
    while i < x.len() && i < y.len()
        invariant
            i <= x@.len(),
            i <= y@.len(),
            before(a@, b@) == before(x@.skip(i as int), y@.skip(i as int)),
        decreases x@.len() - i,
    {
        if x[i] != y[i] {
            return x[i] < y[i];
        }
        assert(x@.skip(i as int).drop_first() =~= x@.skip(i + 1));
        assert(y@.skip(i as int).drop_first() =~= y@.skip(i + 1));
        i += 1;
    }
    i < y.len()
}

/// The first position from `from` on at which `needle` stands in `text`.
pub fn find_from(text: &Vec<char>, needle: &Vec<char>, from: usize) -> (r: Option<usize>)
    ensures
        r is Some == first_at(text@, needle@, from as int) is Some,
        r matches Some(i) ==> first_at(text@, needle@, from as int) == Some(i as int),
{
    let n: usize = text.len();
    let m: usize = needle.len();
    if m > n || from > n - m {
        return None;
    }
    let mut i: usize = from;
    while i <= n - m
        invariant
            n == text@.len(),
            m == needle@.len(),
            m <= n,
            i <= n - m + 1,
            first_at(text@, needle@, from as int) == first_at(text@, needle@, i as int),
        decreases n - i + 1,
    {
        if stands_at(text, needle, i) {
            return Some(i);
        }
        if i == n - m {
            assert(first_at(text@, needle@, i + 1) is None);
            return None;
        }
        i += 1;
    }
    None
}

/// Whether `needle` stands in `text` at position `i`.
fn stands_at(text: &Vec<char>, needle: &Vec<char>, i: usize) -> (r: bool)
    requires
        i + needle@.len() <= text@.len(),
    ensures
        r == occurs_at(text@, needle@, i as int),
{
    let size: usize = text.len();
    let mut j: usize = 0;
    while j < needle.len()
        invariant
            size == text@.len(),
            j <= needle@.len(),
            i + needle@.len() <= text@.len(),
            forall|k: int| 0 <= k < j ==> text@[i + k] == needle@[k],
        decreases needle@.len() - j,
    {
        if text[i + j] != needle[j] {
            assert(text@.subrange(i as int, i + needle@.len())[j as int] != needle@[j as int]);
            return false;
        }
        j += 1;
    }
    assert(text@.subrange(i as int, i + needle@.len()) =~= needle@);
    true
}

/// Whether `needle` stands somewhere in `text`.
pub fn has_text(text: &str, needle: &str) -> (r: bool)
    ensures
        r == contains(text@, needle@),
{
    let found = find_from(&chars_of(text), &chars_of(needle), 0);
    proof {
        lemma_first_at(text@, needle@, 0);
    }
    found.is_some()
}

/// The last position of `c` among the characters from `from` on, counted from
/// `from`.
pub fn find_last(text: &Vec<char>, c: char, from: usize) -> (r: Option<usize>)
    requires
        from <= text@.len(),
    ensures
        r is Some == last_at(text@.skip(from as int), c) is Some,
        r matches Some(i) ==> last_at(text@.skip(from as int), c) == Some(i as int) && from + i
            < text@.len() <= usize::MAX,
{
    let mut end: usize = text.len();
    let ghost tail = text@.skip(from as int);
    assert(tail.take(end - from) =~= tail);
    while end > from
        invariant
            from <= end <= text@.len() <= usize::MAX,
            tail == text@.skip(from as int),
            last_at(tail, c) == last_at(tail.take(end - from), c),
        decreases end,
    {
        assert(tail.take(end - from).last() == text@[end - 1]);
        if text[end - 1] == c {
            return Some(end - 1 - from);
        }
        assert(tail.take(end - from).drop_last() =~= tail.take(end - 1 - from));
        end -= 1;
    }
    None
}

/// The text without leading and trailing white space.
pub fn trim(text: &str) -> (r: String)
    ensures
        r@ == trimmed(text@),
{
    let chars = chars_of(text);
    let mut start: usize = 0;
    assert(chars@.skip(0) =~= text@);
    while start < chars.len() && chars[start].is_whitespace()
        invariant
            chars@ == text@,
            start <= chars@.len(),
            trim_start(text@) == trim_start(chars@.skip(start as int)),
        decreases chars@.len() - start,
    {
        assert(chars@.skip(start as int).drop_first() =~= chars@.skip(start + 1));
        start += 1;
    }
    assert(trim_start(text@) == chars@.skip(start as int));
    let mut end: usize = chars.len();
    assert(chars@.subrange(start as int, end as int) =~= chars@.skip(start as int));
    while end > start && chars[end - 1].is_whitespace()
        invariant
            start <= end <= chars@.len(),
            trimmed(text@) == trim_end(chars@.subrange(start as int, end as int)),
        decreases end,
    {
        assert(chars@.subrange(start as int, end as int).drop_last() =~= chars@.subrange(
            start as int,
            end - 1,
        ));
        end -= 1;
    }
    text_between(&chars, start, end)
}

/// Two texts one behind the other.
pub fn joined(a: &str, b: &str) -> (r: String)
    ensures
        r@ == a@ + b@,
{
    let mut text = a.to_owned();
    text.append(b);
    text
}

} // verus!
