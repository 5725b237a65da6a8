//! Text as sequences of characters: comparison, order and construction.

use vstd::prelude::*;

verus! {

/// `String::push` appends one character to the text.
pub assume_specification[ String::push ](text: &mut String, c: char)
    ensures
        final(text)@ == old(text)@.push(c),
;

/// The texts that a sequence of strings holds.
pub open spec fn texts(strings: Seq<String>) -> Seq<Seq<char>> {
    strings.map_values(|text: String| text@)
}

/// The text of an optional argument.
pub open spec fn given(text: Option<&str>) -> Option<Seq<char>> {
    match text {
        Some(text) => Some(text@),
        None => None,
    }
}

/// Strict lexicographic order by code point, the order of Rust strings.
pub open spec fn precedes(a: Seq<char>, b: Seq<char>) -> bool
    decreases a.len(),
{
    if b.len() == 0 {
        false
    } else if a.len() == 0 {
        true
    } else if a[0] != b[0] {
        (a[0] as int) < (b[0] as int)
    } else {
        precedes(a.drop_first(), b.drop_first())
    }
}

/// The order is irreflexive and asymmetric.
pub proof fn lemma_precedes_asymmetric(a: Seq<char>, b: Seq<char>)
    ensures
        !(precedes(a, b) && precedes(b, a)),
        a == b ==> !precedes(a, b),
    decreases a.len(),
{
    if a.len() > 0 && b.len() > 0 && a[0] == b[0] {
        lemma_precedes_asymmetric(a.drop_first(), b.drop_first());
    }
}

/// Two different texts are always ordered one way or the other.
pub proof fn lemma_precedes_total(a: Seq<char>, b: Seq<char>)
    ensures
        a == b || precedes(a, b) || precedes(b, a),
    decreases a.len(),
{
    if a.len() > 0 && b.len() > 0 && a[0] == b[0] {
        lemma_precedes_total(a.drop_first(), b.drop_first());
        if a.drop_first() == b.drop_first() {
            assert(a =~= seq![a[0]] + a.drop_first());
            assert(b =~= seq![b[0]] + b.drop_first());
        }
    } else if a.len() == 0 && b.len() == 0 {
        assert(a =~= b);
    }
}

/// The order is transitive.
pub proof fn lemma_precedes_transitive(a: Seq<char>, b: Seq<char>, c: Seq<char>)
    requires
        precedes(a, b),
        precedes(b, c),
    ensures
        precedes(a, c),
    decreases a.len(),
{
    if a.len() > 0 && b.len() > 0 && c.len() > 0 && a[0] == b[0] && b[0] == c[0] {
        lemma_precedes_transitive(a.drop_first(), b.drop_first(), c.drop_first());
    }
}

/// Where two texts first differ, or where the shorter one ends, settles their order.
proof fn lemma_order_at_first_difference(a: Seq<char>, b: Seq<char>) -> (i: int)
    ensures
        0 <= i <= a.len(),
        i <= b.len(),
        a.take(i) == b.take(i),
        i < a.len() && i < b.len() ==> a[i] != b[i],
        precedes(a, b) == (i < b.len() && (i == a.len() || (a[i] as int) < (b[i] as int))),
    decreases a.len(),
{
    if a.len() > 0 && b.len() > 0 && a[0] == b[0] {
        let i = lemma_order_at_first_difference(a.drop_first(), b.drop_first());
        assert forall|j: int| 0 <= j < i + 1 implies #[trigger] a.take(i + 1)[j] == b.take(
            i + 1,
        )[j] by {
            if j > 0 {
                assert(a.drop_first().take(i)[j - 1] == b.drop_first().take(i)[j - 1]);
            }
        }
        assert(a.take(i + 1) =~= b.take(i + 1));
        i + 1
    } else {
        assert(a.take(0) =~= b.take(0));
        0
    }
}

/// Text order is lexicographic: one text comes before another exactly if the other
/// extends it, or if its code point is the smaller one at the first place where the
/// two differ. Lengths play no part in it beyond that.
pub proof fn law_text_order_is_lexicographic(a: Seq<char>, b: Seq<char>)
    ensures
        precedes(a, b) <==> {
            ||| a.len() < b.len() && forall|j: int| 0 <= j < a.len() ==> #[trigger] a[j] == b[j]
            ||| exists|i: int|
                0 <= i < a.len() && i < b.len() && (#[trigger] a[i] as int) < (b[i] as int) && (
                forall|j: int| 0 <= j < i ==> #[trigger] a[j] == b[j])
        },
{
    let i = lemma_order_at_first_difference(a, b);
    assert forall|j: int| 0 <= j < i implies #[trigger] a[j] == b[j] by {
        assert(a.take(i)[j] == b.take(i)[j]);
    }
    if i < a.len() {
        assert(a[i] == a[i]);
    }
}

/// Putting the same text in front of two texts keeps their order.
pub proof fn law_common_prefix_keeps_text_order(prefix: Seq<char>, a: Seq<char>, b: Seq<char>)
    ensures
        precedes(prefix + a, prefix + b) == precedes(a, b),
    decreases prefix.len(),
{
    if prefix.len() == 0 {
        assert(prefix + a =~= a && prefix + b =~= b);
    } else {
        law_common_prefix_keeps_text_order(prefix.drop_first(), a, b);
        assert((prefix + a).drop_first() =~= prefix.drop_first() + a);
        assert((prefix + b).drop_first() =~= prefix.drop_first() + b);
    }
}

/// The characters of a text.
pub fn chars_of(text: &str) -> (chars: Vec<char>)
    ensures
        chars@ == text@,
{
    let mut chars: Vec<char> = Vec::new();
    for c in it: text.chars()
        invariant
            chars@ == it.seq().take(it.index()),
            it.seq() == text@,
    {
        chars.push(c);
    }
    chars
}

/// The text made of the given characters.
pub fn text_of(chars: &Vec<char>) -> (text: String)
    ensures
        text@ == chars@,
{
    let mut text = String::new();
    let mut i: usize = 0;
    while i < chars.len()
        invariant
            i <= chars.len(),
            text@ == chars@.take(i as int),
        decreases chars.len() - i,
    {
        assert(chars@.take(i + 1) =~= chars@.take(i as int).push(chars@[i as int]));
        text.push(chars[i]);
        i = i + 1;
    }
    assert(chars@.take(chars.len() as int) =~= chars@);
    text
}

/// A copy of a list of characters.
pub fn copy_of(chars: &Vec<char>) -> (copy: Vec<char>)
    ensures
        copy@ == chars@,
{
    let mut copy: Vec<char> = Vec::new();
    let mut i: usize = 0;
    while i < chars.len()
        invariant
            i <= chars.len(),
            copy@ == chars@.take(i as int),
        decreases chars.len() - i,
    {
        assert(chars@.take(i + 1) =~= chars@.take(i as int).push(chars@[i as int]));
        copy.push(chars[i]);
        i = i + 1;
    }
    assert(chars@.take(chars.len() as int) =~= chars@);
    copy
}

/// Whether two texts hold the same characters.
pub fn same(a: &str, b: &str) -> (equal: bool)
    ensures
        equal == (a@ == b@),
{
    a.to_owned() == b.to_owned()
}

/// Whether one of the strings holds the text.
pub fn contains_text(strings: &Vec<String>, text: &str) -> (found: bool)
    ensures
        found == texts(strings@).contains(text@),
{
    let mut i: usize = 0;
    while i < strings.len()
        invariant
            i <= strings.len(),
            forall|j: int| 0 <= j < i ==> #[trigger] texts(strings@)[j] != text@,
        decreases strings.len() - i,
    {
        if same(&strings[i], text) {
            assert(texts(strings@)[i as int] == text@);
            return true;
        }
        i = i + 1;
    }
    false
}

/// Whether one of the names is the text.
pub fn contains_name(names: &Vec<&str>, text: &str) -> (found: bool)
    ensures
        found == names@.map_values(|name: &str| name@).contains(text@),
{
    let ghost all = names@.map_values(|name: &str| name@);
    let mut i: usize = 0;
    while i < names.len()
        invariant
            i <= names.len(),
            all == names@.map_values(|name: &str| name@),
            forall|j: int| 0 <= j < i ==> #[trigger] all[j] != text@,
        decreases names.len() - i,
    {
        if same(names[i], text) {
            assert(all[i as int] == text@);
            return true;
        }
        i = i + 1;
    }
    false
}

/// Whether two lists hold the same texts in the same order.
pub fn same_texts(a: &Vec<String>, b: &Vec<String>) -> (equal: bool)
    ensures
        equal == (texts(a@) == texts(b@)),
{
    if a.len() != b.len() {
        assert(texts(a@).len() != texts(b@).len());
        return false;
    }
    let mut i: usize = 0;
    while i < a.len()
        invariant
            i <= a.len(),
            a.len() == b.len(),
            forall|j: int| 0 <= j < i ==> #[trigger] texts(a@)[j] == texts(b@)[j],
        decreases a.len() - i,
    {
        if !same(&a[i], &b[i]) {
            assert(texts(a@)[i as int] != texts(b@)[i as int]);
            return false;
        }
        i = i + 1;
    }
    assert(texts(a@) =~= texts(b@));
    true
}

/// A copy of a list of strings.
pub fn copy_texts(strings: &Vec<String>) -> (copy: Vec<String>)
    ensures
        texts(copy@) == texts(strings@),
{
    let mut copy: Vec<String> = Vec::new();
    let mut i: usize = 0;
    while i < strings.len()
        invariant
            i <= strings.len(),
            copy@ == strings@.take(i as int),
        decreases strings.len() - i,
    {
        assert(strings@.take(i + 1) =~= strings@.take(i as int).push(strings@[i as int]));
        copy.push(strings[i].clone());
        i = i + 1;
    }
    assert(strings@.take(strings.len() as int) =~= strings@);
    copy
}

/// Whether `a` comes before `b` in text order.
pub fn before(a: &str, b: &str) -> (earlier: bool)
    ensures
        earlier == precedes(a@, b@),
{
    let x = chars_of(a);
    let y = chars_of(b);
    let mut i: usize = 0;
    assert(a@.skip(0) =~= a@);
    assert(b@.skip(0) =~= b@);
    while i < x.len() && i < y.len()
        invariant
            x@ == a@,
            y@ == b@,
            i <= x.len(),
            i <= y.len(),
            precedes(a@, b@) == precedes(a@.skip(i as int), b@.skip(i as int)),
        decreases x.len() - i,
    {
        assert(a@.skip(i as int).drop_first() =~= a@.skip(i + 1));
        assert(b@.skip(i as int).drop_first() =~= b@.skip(i + 1));
        if x[i] != y[i] {
            return x[i] < y[i];
        }
        i = i + 1;
    }
    i < y.len()
}

/// The character of a decimal digit.
pub open spec fn digit(n: nat) -> char {
    if n == 0 {
        '0'
    } else if n == 1 {
        '1'
    } else if n == 2 {
        '2'
    } else if n == 3 {
        '3'
    } else if n == 4 {
        '4'
    } else if n == 5 {
        '5'
    } else if n == 6 {
        '6'
    } else if n == 7 {
        '7'
    } else if n == 8 {
        '8'
    } else {
        '9'
    }
}

/// A number in decimal notation.
pub open spec fn digits(n: nat) -> Seq<char>
    decreases n,
{
    if n < 10 {
        seq![digit(n)]
    } else {
        digits(n / 10).push(digit(n % 10))
    }
}

/// A number in decimal notation.
pub fn decimal(n: u32) -> (text: String)
    ensures
        text@ == digits(n as nat),
    decreases n,
{
    let last = match n % 10 {
        0 => '0',
        1 => '1',
        2 => '2',
        3 => '3',
        4 => '4',
        5 => '5',
        6 => '6',
        7 => '7',
        8 => '8',
        _ => '9',
    };
    let mut text = if n < 10 {
        String::new()
    } else {
        decimal(n / 10)
    };
    text.push(last);
    text
}

/// The number that a text of decimal digits denotes, read from its code points.
pub open spec fn denoted(text: Seq<char>) -> int
    decreases text.len(),
{
    if text.len() == 0 {
        0
    } else {
        denoted(text.drop_last()) * 10 + (text.last() as int - 0x30)
    }
}

/// Decimal notation denotes its number, in digits alone and without leading zeros.
pub proof fn law_decimal_notation_denotes_its_number(n: nat)
    ensures
        denoted(digits(n)) == n,
        digits(n).len() > 0,
        forall|i: int| 0 <= i < digits(n).len() ==> 0x30 <= #[trigger] digits(n)[i] as int <= 0x39,
        n > 0 ==> digits(n)[0] as int > 0x30,
    decreases n,
{
    if n < 10 {
        assert(digits(n).drop_last() =~= Seq::<char>::empty());
        assert(denoted(Seq::<char>::empty()) == 0);
    } else {
        law_decimal_notation_denotes_its_number(n / 10);
        assert(digits(n).drop_last() =~= digits(n / 10));
        assert(digits(n)[0] == digits(n / 10)[0]);
    }
}

/// A control character.
pub open spec fn is_control(c: char) -> bool {
    c as int <= 0x1f || 0x7f <= c as int <= 0x9f
}

/// A white space character.
pub open spec fn is_space(c: char) -> bool {
    ||| 0x09 <= c as int <= 0x0d
    ||| c as int == 0x20
    ||| c as int == 0x85
    ||| c as int == 0xa0
    ||| c as int == 0x1680
    ||| 0x2000 <= c as int <= 0x200a
    ||| c as int == 0x2028
    ||| c as int == 0x2029
    ||| c as int == 0x202f
    ||| c as int == 0x205f
    ||| c as int == 0x3000
}

/// White space is what Unicode calls so, character by character, and control characters
/// are those before the space and from delete to the end of the second control block.
pub proof fn law_white_space_and_control_are_those_of_unicode(c: char)
    ensures
        is_space(c) <==> set![
            0x09int, 0x0a, 0x0b, 0x0c, 0x0d, 0x20, 0x85, 0xa0, 0x1680, 0x2000, 0x2001, 0x2002,
            0x2003, 0x2004, 0x2005, 0x2006, 0x2007, 0x2008, 0x2009, 0x200a, 0x2028, 0x2029,
            0x202f, 0x205f, 0x3000,
        ].contains(c as int),
        is_control(c) <==> (c as int) < 0x20 || (0x7f <= c as int && (c as int) < 0xa0),
{
}

/// Whether a text holds a control character.
pub open spec fn has_control(text: Seq<char>) -> bool {
    exists|i: int| 0 <= i < text.len() && is_control(#[trigger] text[i])
}

/// Whether a text holds nothing but white space.
pub open spec fn is_blank(text: Seq<char>) -> bool {
    forall|i: int| 0 <= i < text.len() ==> is_space(#[trigger] text[i])
}

/// Whether a text holds a control character.
pub fn holds_control(text: &str) -> (found: bool)
    ensures
        found == has_control(text@),
{
    let chars = chars_of(text);
    let mut i: usize = 0;
    while i < chars.len()
        invariant
            i <= chars.len(),
            chars@ == text@,
            forall|j: int| 0 <= j < i ==> !is_control(#[trigger] text@[j]),
        decreases chars.len() - i,
    {
        let c = chars[i];
        if c <= '\u{1f}' || '\u{7f}' <= c && c <= '\u{9f}' {
            assert(is_control(text@[i as int]));
            return true;
        }
        i = i + 1;
    }
    false
}

/// Whether a character is white space.
pub fn space(c: char) -> (white: bool)
    ensures
        white == is_space(c),
{
    '\u{09}' <= c && c <= '\u{0d}' || c == '\u{20}' || c == '\u{85}' || c == '\u{a0}' || c
        == '\u{1680}' || '\u{2000}' <= c && c <= '\u{200a}' || c == '\u{2028}' || c == '\u{2029}'
        || c == '\u{202f}' || c == '\u{205f}' || c == '\u{3000}'
}

/// Whether a text holds nothing but white space.
pub fn blank(text: &str) -> (empty: bool)
    ensures
        empty == is_blank(text@),
{
    let chars = chars_of(text);
    let mut i: usize = 0;
    while i < chars.len()
        invariant
            i <= chars.len(),
            chars@ == text@,
            forall|j: int| 0 <= j < i ==> is_space(#[trigger] text@[j]),
        decreases chars.len() - i,
    {
        if !space(chars[i]) {
            assert(!is_space(text@[i as int]));
            return false;
        }
        i = i + 1;
    }
    true
}

/// What stands between the separators of a text.
pub open spec fn pieces(text: Seq<char>, separator: char) -> Seq<Seq<char>>
    decreases text.len(),
{
    if text.len() == 0 {
        seq![Seq::empty()]
    } else {
        let rest = pieces(text.drop_last(), separator);
        if text.last() == separator {
            rest.push(Seq::empty())
        } else {
            rest.drop_last().push(rest.last().push(text.last()))
        }
    }
}

/// The texts that a sequence of character lists holds.
pub open spec fn spelled(parts: Seq<Vec<char>>) -> Seq<Seq<char>> {
    parts.map_values(|part: Vec<char>| part@)
}

/// What stands between the separators of a text.
pub fn split(text: &str, separator: char) -> (parts: Vec<Vec<char>>)
    ensures
        spelled(parts@) == pieces(text@, separator),
{
    let chars = chars_of(text);
    let mut parts: Vec<Vec<char>> = Vec::new();
    let mut current: Vec<char> = Vec::new();
    let mut i: usize = 0;
    assert(chars@.take(0) =~= Seq::<char>::empty());
    assert(pieces(chars@.take(0), separator) =~= spelled(parts@).push(current@));
    while i < chars.len()
        invariant
            i <= chars.len(),
            pieces(chars@.take(i as int), separator) == spelled(parts@).push(current@),
        decreases chars.len() - i,
    {
        let ghost longer = chars@.take(i + 1);
        let ghost closed = spelled(parts@);
        assert(longer.drop_last() =~= chars@.take(i as int));
        assert(closed.push(current@).drop_last() =~= closed);
        let c = chars[i];
        if c == separator {
            let ghost ended = current@;
            parts.push(current);
            assert(spelled(parts@) =~= closed.push(ended));
            current = Vec::new();
            assert(pieces(longer, separator) =~= spelled(parts@).push(current@));
        } else {
            current.push(c);
            assert(pieces(longer, separator) =~= spelled(parts@).push(current@));
        }
        i = i + 1;
    }
    assert(chars@.take(chars.len() as int) =~= text@);
    let ghost closed = spelled(parts@);
    let ghost ended = current@;
    parts.push(current);
    assert(spelled(parts@) =~= closed.push(ended));
    parts
}

/// A text without the separator is its only piece.
pub proof fn lemma_one_piece(part: Seq<char>, separator: char)
    requires
        forall|i: int| 0 <= i < part.len() ==> #[trigger] part[i] != separator,
    ensures
        pieces(part, separator) == seq![part],
    decreases part.len(),
{
    if part.len() == 0 {
        assert(part =~= Seq::<char>::empty());
    } else {
        lemma_one_piece(part.drop_last(), separator);
        assert(part.drop_last().push(part.last()) =~= part);
        assert(pieces(part, separator) =~= seq![part]);
    }
}

/// A separator and a text without one add one piece.
pub proof fn lemma_another_piece(text: Seq<char>, part: Seq<char>, separator: char)
    requires
        forall|i: int| 0 <= i < part.len() ==> #[trigger] part[i] != separator,
    ensures
        pieces(text.push(separator) + part, separator) == pieces(text, separator).push(part),
    decreases part.len(),
{
    let whole = text.push(separator) + part;
    if part.len() == 0 {
        assert(whole =~= text.push(separator));
        assert(whole.drop_last() =~= text);
        assert(part =~= Seq::<char>::empty());
    } else {
        let shorter = part.drop_last();
        assert(whole.drop_last() =~= text.push(separator) + shorter);
        assert(whole.last() == part[part.len() - 1]);
        lemma_another_piece(text, shorter, separator);
        let rest = pieces(text, separator).push(shorter);
        assert(rest.drop_last() =~= pieces(text, separator));
        assert(shorter.push(part.last()) =~= part);
    }
}

/// The pieces with a separator between each two of them.
pub open spec fn rejoined(parts: Seq<Seq<char>>, separator: char) -> Seq<char>
    decreases parts.len(),
{
    if parts.len() == 0 {
        Seq::empty()
    } else if parts.len() == 1 {
        parts[0]
    } else {
        rejoined(parts.drop_last(), separator).push(separator) + parts.last()
    }
}

/// Splitting loses nothing: the pieces hold no separator, and with one between each
/// two of them they are the text again.
pub proof fn law_pieces_make_up_the_text(text: Seq<char>, separator: char)
    ensures
        pieces(text, separator).len() > 0,
        rejoined(pieces(text, separator), separator) == text,
        forall|k: int, i: int|
            0 <= k < pieces(text, separator).len() && 0 <= i < pieces(text, separator)[k].len()
                ==> #[trigger] pieces(text, separator)[k][i] != separator,
    decreases text.len(),
{
    let all = pieces(text, separator);
    if text.len() == 0 {
        assert(rejoined(all, separator) =~= text);
    } else {
        let shorter = text.drop_last();
        let rest = pieces(shorter, separator);
        law_pieces_make_up_the_text(shorter, separator);
        assert forall|k: int, i: int| 0 <= k < all.len() && 0 <= i < all[k].len() implies
            #[trigger] all[k][i] != separator by {
            if k < rest.len() && i < rest[k].len() {
                assert(rest[k][i] != separator);
            }
        }
        if text.last() == separator {
            assert(all.drop_last() =~= rest);
            assert(rejoined(all, separator) =~= text);
        } else {
            assert(all.drop_last() =~= rest.drop_last());
            assert(rejoined(all, separator) =~= rejoined(rest, separator).push(text.last()));
            assert(shorter.push(text.last()) =~= text);
        }
    }
}

} // verus!
