//! Key chords: when two spellings mean the same shortcut.

use vstd::prelude::*;
use crate::text::{same, space, split, text_of};

verus! {

/// The Alt-chord subset that Beacon owns, normalized across Herdr modifier aliases
/// and shifted punctuation. This protects config writes from shadowing equivalent
/// user bindings; it is not a replacement for Herdr's general key parser.
#[derive(Clone, Copy, Debug, PartialEq, Eq, Structural)]
pub struct AltShortcut {
    pub key: char,
    pub shift: bool,
}

/// What the tokens of a chord have said so far.
pub struct Tally {
    pub alt: bool,
    pub shift: bool,
    pub key: Option<char>,
}

/// A text without the white space before it.
pub open spec fn trimmed_left(text: Seq<char>) -> Seq<char>
    decreases text.len(),
{
    if text.len() > 0 && crate::text::is_space(text[0]) {
        trimmed_left(text.drop_first())
    } else {
        text
    }
}

/// A text without the white space behind it.
pub open spec fn trimmed_right(text: Seq<char>) -> Seq<char>
    decreases text.len(),
{
    if text.len() > 0 && crate::text::is_space(text.last()) {
        trimmed_right(text.drop_last())
    } else {
        text
    }
}

/// A text without the white space around it.
pub open spec fn trimmed(text: Seq<char>) -> Seq<char> {
    trimmed_right(trimmed_left(text))
}

/// The lower-case form of a character, if it is an ASCII letter.
pub open spec fn lower(c: char) -> char {
    if is_upper(c) {
        (c as int + 32) as char
    } else {
        c
    }
}

/// An upper-case ASCII letter.
pub open spec fn is_upper(c: char) -> bool {
    'A' as int <= c as int <= 'Z' as int
}

/// A text with its ASCII letters in lower case.
pub open spec fn lowered(text: Seq<char>) -> Seq<char> {
    text.map_values(|c: char| lower(c))
}

/// What one more token says. A chord has one key besides its modifiers.
pub open spec fn tallied(tally: Option<Tally>, token: Seq<char>) -> Option<Tally> {
    match tally {
        None => None,
        Some(tally) => {
            let name = lowered(token);
            if name == "alt"@ || name == "option"@ || name == "meta"@ {
                Some(Tally { alt: true, ..tally })
            } else if name == "shift"@ {
                Some(Tally { shift: true, ..tally })
            } else if tally.key is Some {
                None
            } else if name == "quote"@ {
                Some(Tally { key: Some('\''), ..tally })
            } else if name == "double_quote"@ || name == "double-quote"@ {
                Some(Tally { key: Some('"'), ..tally })
            } else if token.len() == 1 {
                Some(Tally { key: Some(token[0]), ..tally })
            } else {
                None
            }
        },
    }
}

/// What all tokens of a chord say.
pub open spec fn tally(tokens: Seq<Seq<char>>) -> Option<Tally>
    decreases tokens.len(),
{
    if tokens.len() == 0 {
        Some(Tally { alt: false, shift: false, key: None })
    } else {
        tallied(tally(tokens.drop_last()), trimmed(tokens.last()))
    }
}

/// The shortcut that a key with or without Shift is. Upper-case letters mean Shift;
/// punctuation may instead arrive as its shifted character, with or without an
/// explicit Shift.
pub open spec fn shifted(key: char, shift: bool) -> AltShortcut {
    let upper = is_upper(key);
    let key = lower(key);
    let shift = shift || upper;
    if key == '"' || key == '\'' && shift {
        AltShortcut { key: '"', shift: false }
    } else {
        AltShortcut { key, shift }
    }
}

/// The Alt shortcut that a text spells, if it spells one.
pub open spec fn shortcut(text: Seq<char>) -> Option<AltShortcut> {
    match tally(crate::text::pieces(text, '+')) {
        Some(tally) => if tally.alt {
            match tally.key {
                Some(key) => Some(shifted(key, tally.shift)),
                None => None,
            }
        } else {
            None
        },
        None => None,
    }
}

/// Whether two texts spell the same Alt shortcut.
pub open spec fn matches_key(actual: Seq<char>, expected: Seq<char>) -> bool {
    shortcut(actual) is Some && shortcut(actual) == shortcut(expected)
}

/// The lower-case form of a character, if it is an ASCII letter.
fn to_lower(c: char) -> (lowercase: char)
    ensures
        lowercase == lower(c),
{
    match c {
        'A' => 'a',
        'B' => 'b',
        'C' => 'c',
        'D' => 'd',
        'E' => 'e',
        'F' => 'f',
        'G' => 'g',
        'H' => 'h',
        'I' => 'i',
        'J' => 'j',
        'K' => 'k',
        'L' => 'l',
        'M' => 'm',
        'N' => 'n',
        'O' => 'o',
        'P' => 'p',
        'Q' => 'q',
        'R' => 'r',
        'S' => 's',
        'T' => 't',
        'U' => 'u',
        'V' => 'v',
        'W' => 'w',
        'X' => 'x',
        'Y' => 'y',
        'Z' => 'z',
        _ => c,
    }
}

/// A text without the white space around it.
fn trim(chars: &Vec<char>) -> (kept: Vec<char>)
    ensures
        kept@ == trimmed(chars@),
{
    let mut start: usize = 0;
    assert(chars@.skip(0) =~= chars@);
    while start < chars.len() && space(chars[start])
        invariant
            start <= chars.len(),
            trimmed_left(chars@) == trimmed_left(chars@.skip(start as int)),
        decreases chars.len() - start,
    {
        assert(chars@.skip(start as int).drop_first() =~= chars@.skip(start + 1));
        start = start + 1;
    }
    let ghost rest = chars@.skip(start as int);
    assert(trimmed_left(chars@) == rest);
    let mut end: usize = chars.len();
    assert(chars@.subrange(start as int, end as int) =~= rest);
    while end > start && space(chars[end - 1])
        invariant
            start <= end <= chars.len(),
            trimmed_right(rest) == trimmed_right(chars@.subrange(start as int, end as int)),
        decreases end - start,
    {
        assert(chars@.subrange(start as int, end as int).drop_last() =~= chars@.subrange(
            start as int,
            end - 1,
        ));
        end = end - 1;
    }
    let ghost middle = chars@.subrange(start as int, end as int);
    assert(trimmed(chars@) == middle);
    let mut kept: Vec<char> = Vec::new();
    let mut i: usize = start;
    while i < end
        invariant
            start <= i <= end <= chars.len(),
            kept@ == chars@.subrange(start as int, i as int),
        decreases end - i,
    {
        kept.push(chars[i]);
        i = i + 1;
        assert(kept@ =~= chars@.subrange(start as int, i as int));
    }
    kept
}

/// A text with its ASCII letters in lower case.
fn lowercase(chars: &Vec<char>) -> (name: String)
    ensures
        name@ == lowered(chars@),
{
    let mut lower_chars: Vec<char> = Vec::new();
    let mut i: usize = 0;
    while i < chars.len()
        invariant
            i <= chars.len(),
            lower_chars@.len() == i,
            forall|j: int| 0 <= j < i ==> #[trigger] lower_chars@[j] == lower(chars@[j]),
        decreases chars.len() - i,
    {
        lower_chars.push(to_lower(chars[i]));
        i = i + 1;
    }
    assert(lower_chars@ =~= lowered(chars@));
    text_of(&lower_chars)
}

impl AltShortcut {
    pub fn parse(value: &str) -> (parsed: Option<AltShortcut>)
        ensures
            parsed == shortcut(value@),
    {
        let tokens = split(value, '+');
        let ghost all = crate::text::spelled(tokens@);
        let mut alt = false;
        let mut shift = false;
        let mut key: Option<char> = None;
        let mut i: usize = 0;
        assert(all.take(0) =~= Seq::<Seq<char>>::empty());
        while i < tokens.len()
            invariant
                i <= tokens.len(),
                all == crate::text::spelled(tokens@),
                all == crate::text::pieces(value@, '+'),
                tally(all.take(i as int)) == Some(Tally { alt, shift, key }),
            decreases tokens.len() - i,
        {
            assert(all.take(i + 1).drop_last() =~= all.take(i as int));
            assert(all.take(i + 1).last() == tokens@[i as int]@);
            let token = trim(&tokens[i]);
            let name = lowercase(&token);
            let ghost next = tally(all.take(i + 1));
            assert(next is None ==> shortcut(value@) is None) by {
                if next is None {
                    lemma_failed_tally(all, i + 1);
                }
            }
            if same(&name, "alt") || same(&name, "option") || same(&name, "meta") {
                alt = true;
            } else if same(&name, "shift") {
                shift = true;
            } else if key.is_some() {
                return None;
            } else if same(&name, "quote") {
                key = Some('\'');
            } else if same(&name, "double_quote") || same(&name, "double-quote") {
                key = Some('"');
            } else if token.len() == 1 {
                key = Some(token[0]);
            } else {
                return None;
            }
            i = i + 1;
        }
        assert(all.take(tokens.len() as int) =~= all);
        if !alt {
            return None;
        }
        match key {
            None => None,
            Some(key) => {
                let shift = shift || 'A' <= key && key <= 'Z';
                let key = to_lower(key);
                if key == '"' || key == '\'' && shift {
                    Some(AltShortcut { key: '"', shift: false })
                } else {
                    Some(AltShortcut { key, shift })
                }
            },
        }
    }
}

/// Once the tokens of a chord contradict each other, more tokens do not help.
proof fn lemma_failed_tally(tokens: Seq<Seq<char>>, k: int)
    requires
        0 <= k <= tokens.len(),
        tally(tokens.take(k)) is None,
    ensures
        tally(tokens) is None,
    decreases tokens.len(),
{
    if k == tokens.len() {
        assert(tokens.take(k) =~= tokens);
    } else {
        assert(tokens.drop_last().take(k) =~= tokens.take(k));
        lemma_failed_tally(tokens.drop_last(), k);
    }
}

/// Whether two texts spell the same Alt shortcut.
pub fn key_matches(actual: &str, expected: &str) -> (matching: bool)
    ensures
        matching == matches_key(actual@, expected@),
{
    match (AltShortcut::parse(actual), AltShortcut::parse(expected)) {
        (Some(a), Some(b)) => a == b,
        _ => false,
    }
}

/// A token without white space at its ends and without upper-case letters is taken
/// as it is.
proof fn lemma_plain_token(token: Seq<char>)
    requires
        token.len() > 0,
        !crate::text::is_space(token[0]),
        !crate::text::is_space(token.last()),
        forall|i: int| 0 <= i < token.len() ==> !is_upper(#[trigger] token[i]),
    ensures
        trimmed(token) == token,
        lowered(token) == token,
{
    assert(lowered(token) =~= token);
}

/// The names of modifiers and quotes are told apart.
proof fn lemma_names()
    ensures
        "alt"@.len() == 3,
        "meta"@.len() == 4,
        "option"@.len() == 6,
        "shift"@.len() == 5,
        "quote"@.len() == 5,
        "double_quote"@.len() == 12,
        "double-quote"@.len() == 12,
        "shift"@ != "quote"@,
{
    reveal_strlit("alt");
    reveal_strlit("meta");
    reveal_strlit("option");
    reveal_strlit("shift");
    reveal_strlit("quote");
    reveal_strlit("double_quote");
    reveal_strlit("double-quote");
    assert("shift"@[0] == 's' && "quote"@[0] == 'q');
}

/// `alt` and one more token without Shift.
proof fn lemma_alt_and(text: Seq<char>, token: Seq<char>)
    requires
        text == "alt"@.push('+') + token,
        token.len() > 0,
        !crate::text::is_space(token[0]),
        !crate::text::is_space(token.last()),
        forall|i: int| 0 <= i < token.len() ==> !is_upper(#[trigger] token[i]) && token[i] != '+',
    ensures
        tally(crate::text::pieces(text, '+')) == tallied(
            Some(Tally { alt: true, shift: false, key: None }),
            token,
        ),
{
    reveal_strlit("alt");
    lemma_names();
    lemma_plain_token("alt"@);
    lemma_plain_token(token);
    crate::text::lemma_one_piece("alt"@, '+');
    crate::text::lemma_another_piece("alt"@, token, '+');
    let tokens = crate::text::pieces(text, '+');
    assert(tokens =~= seq!["alt"@, token]);
    assert(tokens.drop_last() =~= seq!["alt"@]);
    assert(tokens.drop_last().drop_last() =~= Seq::<Seq<char>>::empty());
    reveal_with_fuel(tally, 3);
    assert(tally(tokens.drop_last()) == Some(Tally { alt: true, shift: false, key: None }));
}

/// What Beacon's own keys spell. The shifted quote and the double quote are one
/// shortcut; otherwise no two of the keys are.
pub proof fn lemma_own_keys()
    ensures
        shortcut("alt+u"@) == Some(AltShortcut { key: 'u', shift: false }),
        shortcut("alt+o"@) == Some(AltShortcut { key: 'o', shift: false }),
        shortcut("alt+quote"@) == Some(AltShortcut { key: '\'', shift: false }),
        shortcut("alt+shift+quote"@) == Some(AltShortcut { key: '"', shift: false }),
        shortcut("alt+double_quote"@) == Some(AltShortcut { key: '"', shift: false }),
{
    reveal_strlit("alt");
    reveal_strlit("shift");
    reveal_strlit("quote");
    reveal_strlit("double_quote");
    reveal_strlit("alt+u");
    reveal_strlit("alt+o");
    reveal_strlit("alt+quote");
    reveal_strlit("alt+shift+quote");
    reveal_strlit("alt+double_quote");
    lemma_names();
    let u = seq!['u'];
    assert("alt+u"@ =~= "alt"@.push('+') + u);
    lemma_alt_and("alt+u"@, u);
    lemma_plain_token(u);
    let o = seq!['o'];
    assert("alt+o"@ =~= "alt"@.push('+') + o);
    lemma_alt_and("alt+o"@, o);
    lemma_plain_token(o);
    assert("alt+quote"@ =~= "alt"@.push('+') + "quote"@);
    lemma_alt_and("alt+quote"@, "quote"@);
    lemma_plain_token("quote"@);
    assert("alt+double_quote"@ =~= "alt"@.push('+') + "double_quote"@);
    lemma_alt_and("alt+double_quote"@, "double_quote"@);
    lemma_plain_token("double_quote"@);
    let alt_shift = "alt"@.push('+') + "shift"@;
    assert("alt+shift+quote"@ =~= alt_shift.push('+') + "quote"@);
    lemma_alt_and(alt_shift, "shift"@);
    lemma_plain_token("shift"@);
    crate::text::lemma_another_piece(alt_shift, "quote"@, '+');
    let tokens = crate::text::pieces("alt+shift+quote"@, '+');
    assert(tokens.drop_last() =~= crate::text::pieces(alt_shift, '+'));
    assert(tokens.last() == "quote"@);
}

/// The tokens of a chord, without the white space around them.
pub open spec fn tokens_of(text: Seq<char>) -> Seq<Seq<char>> {
    crate::text::pieces(text, '+').map_values(|token: Seq<char>| trimmed(token))
}

/// A token that names the Alt modifier.
pub open spec fn names_alt(token: Seq<char>) -> bool {
    let name = lowered(token);
    name == "alt"@ || name == "option"@ || name == "meta"@
}

/// A token that names the Shift modifier.
pub open spec fn names_shift(token: Seq<char>) -> bool {
    !names_alt(token) && lowered(token) == "shift"@
}

/// The key that a token other than a modifier names, if it names one.
pub open spec fn key_named(token: Seq<char>) -> Option<char> {
    let name = lowered(token);
    if name == "quote"@ {
        Some('\'')
    } else if name == "double_quote"@ || name == "double-quote"@ {
        Some('"')
    } else if token.len() == 1 {
        Some(token[0])
    } else {
        None
    }
}

/// The tokens of a chord that are no modifiers.
pub open spec fn key_tokens(tokens: Seq<Seq<char>>) -> Seq<Seq<char>> {
    tokens.filter(|token: Seq<char>| !names_alt(token) && !names_shift(token))
}

/// A tally is what trimmed tokens say one after the other.
proof fn lemma_tally_folds(tokens: Seq<Seq<char>>)
    ensures
        tally(tokens) == tokens.map_values(|token: Seq<char>| trimmed(token)).fold_left(
            Some(Tally { alt: false, shift: false, key: None }),
            |so_far: Option<Tally>, token: Seq<char>| tallied(so_far, token),
        ),
    decreases tokens.len(),
{
    let trim_all = |token: Seq<char>| trimmed(token);
    if tokens.len() > 0 {
        lemma_tally_folds(tokens.drop_last());
        assert(tokens.map_values(trim_all).drop_last() =~= tokens.drop_last().map_values(trim_all));
    }
}

/// The order of a chord's tokens and the white space around them do not matter: two
/// texts whose tokens are the same, in whatever order, spell the same shortcut.
pub proof fn law_token_order_does_not_matter(a: Seq<char>, b: Seq<char>)
    requires
        tokens_of(a).to_multiset() == tokens_of(b).to_multiset(),
    ensures
        shortcut(a) == shortcut(b),
{
    let step = |so_far: Option<Tally>, token: Seq<char>| tallied(so_far, token);
    let start = Some(Tally { alt: false, shift: false, key: None });
    lemma_tally_folds(crate::text::pieces(a, '+'));
    lemma_tally_folds(crate::text::pieces(b, '+'));
    vstd::seq_lib::lemma_fold_left_permutation(tokens_of(a), tokens_of(b), step, start);
}

/// What tokens say, all at once.
proof fn lemma_tally(tokens: Seq<Seq<char>>)
    ensures
        ({
            let trimmed_tokens = tokens.map_values(|token: Seq<char>| trimmed(token));
            let keys = key_tokens(trimmed_tokens);
            let alt = exists|i: int|
                0 <= i < trimmed_tokens.len() && names_alt(#[trigger] trimmed_tokens[i]);
            let shift = exists|i: int|
                0 <= i < trimmed_tokens.len() && names_shift(#[trigger] trimmed_tokens[i]);
            tally(tokens) == if keys.len() == 0 {
                Some(Tally { alt, shift, key: None })
            } else if keys.len() == 1 && key_named(keys[0]) is Some {
                Some(Tally { alt, shift, key: key_named(keys[0]) })
            } else {
                None
            }
        }),
    decreases tokens.len(),
{
    reveal(Seq::filter);
    let trim_all = |token: Seq<char>| trimmed(token);
    let all = tokens.map_values(trim_all);
    if tokens.len() > 0 {
        let fewer = tokens.drop_last().map_values(trim_all);
        lemma_tally(tokens.drop_last());
        assert(all.drop_last() =~= fewer);
        assert(forall|i: int| 0 <= i < fewer.len() ==> #[trigger] all[i] == fewer[i]);
        assert(all.last() == trimmed(tokens.last()));
        let had_alt = exists|i: int| 0 <= i < fewer.len() && names_alt(#[trigger] fewer[i]);
        let had_shift = exists|i: int| 0 <= i < fewer.len() && names_shift(#[trigger] fewer[i]);
        let has_alt = exists|i: int| 0 <= i < all.len() && names_alt(#[trigger] all[i]);
        let has_shift = exists|i: int| 0 <= i < all.len() && names_shift(#[trigger] all[i]);
        let end = all.len() - 1;
        assert(has_alt == (had_alt || names_alt(all[end]))) by {
            if had_alt {
                let i = choose|i: int| 0 <= i < fewer.len() && names_alt(#[trigger] fewer[i]);
                assert(names_alt(all[i]));
            }
        }
        assert(has_shift == (had_shift || names_shift(all[end]))) by {
            if had_shift {
                let i = choose|i: int| 0 <= i < fewer.len() && names_shift(#[trigger] fewer[i]);
                assert(names_shift(all[i]));
            }
        }
    }
}

/// A chord spells a shortcut exactly if it names Alt, in one of its spellings, and one
/// key besides its modifiers.
pub proof fn law_chord_has_alt_and_one_key(text: Seq<char>)
    ensures
        ({
            let tokens = tokens_of(text);
            let keys = key_tokens(tokens);
            let alt = exists|i: int| 0 <= i < tokens.len() && names_alt(#[trigger] tokens[i]);
            let shift = exists|i: int| 0 <= i < tokens.len() && names_shift(#[trigger] tokens[i]);
            shortcut(text) == if alt && keys.len() == 1 && key_named(keys[0]) is Some {
                Some(shifted(key_named(keys[0])->0, shift))
            } else {
                None
            }
        }),
{
    lemma_tally(crate::text::pieces(text, '+'));
}

/// A shortcut has one spelling: its key is no upper-case letter, and a quote is never
/// shifted.
pub proof fn law_shortcuts_are_canonical(text: Seq<char>)
    ensures
        shortcut(text) matches Some(spelled) ==> !is_upper(spelled.key) && !(spelled.shift && (
        spelled.key == '\'' || spelled.key == '"')),
{
}

/// Trimming takes white space off both ends and nothing else: what is left starts and
/// ends with none, and what was taken is nothing but white space.
pub proof fn law_trimming_takes_only_outer_space(text: Seq<char>) -> (cut: (int, int))
    ensures
        0 <= cut.0 <= cut.1 <= text.len(),
        trimmed(text) == text.subrange(cut.0, cut.1),
        forall|i: int| 0 <= i < cut.0 ==> crate::text::is_space(#[trigger] text[i]),
        forall|i: int| cut.1 <= i < text.len() ==> crate::text::is_space(#[trigger] text[i]),
        cut.0 < cut.1 ==> !crate::text::is_space(text[cut.0]) && !crate::text::is_space(
            text[cut.1 - 1],
        ),
{
    let start = lemma_trimmed_left(text);
    let rest = text.skip(start);
    let kept = lemma_trimmed_right(rest);
    assert forall|i: int| start + kept <= i < text.len() implies crate::text::is_space(
        #[trigger] text[i],
    ) by {
        assert(rest[i - start] == text[i]);
    }
    assert(rest.take(kept) =~= text.subrange(start, start + kept));
    (start, start + kept)
}

proof fn lemma_trimmed_left(text: Seq<char>) -> (start: int)
    ensures
        0 <= start <= text.len(),
        trimmed_left(text) == text.skip(start),
        forall|i: int| 0 <= i < start ==> crate::text::is_space(#[trigger] text[i]),
        start < text.len() ==> !crate::text::is_space(text[start]),
    decreases text.len(),
{
    if text.len() > 0 && crate::text::is_space(text[0]) {
        let rest = text.drop_first();
        let start = lemma_trimmed_left(rest);
        assert forall|i: int| 0 <= i < start + 1 implies crate::text::is_space(
            #[trigger] text[i],
        ) by {
            if i > 0 {
                assert(rest[i - 1] == text[i]);
            }
        }
        assert(rest.skip(start) =~= text.skip(start + 1));
        start + 1
    } else {
        assert(text.skip(0) =~= text);
        0
    }
}

proof fn lemma_trimmed_right(text: Seq<char>) -> (end: int)
    ensures
        0 <= end <= text.len(),
        trimmed_right(text) == text.take(end),
        forall|i: int| end <= i < text.len() ==> crate::text::is_space(#[trigger] text[i]),
        end > 0 ==> !crate::text::is_space(text[end - 1]),
    decreases text.len(),
{
    if text.len() > 0 && crate::text::is_space(text.last()) {
        let rest = text.drop_last();
        let end = lemma_trimmed_right(rest);
        assert forall|i: int| end <= i < text.len() implies crate::text::is_space(
            #[trigger] text[i],
        ) by {
            if i < rest.len() {
                assert(rest[i] == text[i]);
            }
        }
        assert(rest.take(end) =~= text.take(end));
        end
    } else {
        assert(text.take(text.len() as int) =~= text);
        text.len() as int
    }
}

/// Lowering a text changes its upper-case ASCII letters, each to the letter 32 code
/// points up, and no other character.
pub proof fn law_lowering_changes_only_upper_letters(text: Seq<char>, i: int)
    requires
        0 <= i < text.len(),
    ensures
        lowered(text).len() == text.len(),
        0x41 <= text[i] as int <= 0x5a ==> lowered(text)[i] as int == text[i] as int + 32,
        !(0x41 <= text[i] as int <= 0x5a) ==> lowered(text)[i] == text[i],
{
}

/// An upper-case letter is its lower-case letter with Shift; both quotes with Shift,
/// and the double quote without, are one shortcut; every other key is itself.
pub proof fn law_shift_and_case_are_one(key: char, shift: bool)
    ensures
        0x41 <= key as int <= 0x5a ==> shifted(key, shift) == (AltShortcut {
            key: (key as int + 32) as char,
            shift: true,
        }),
        key == '"' || key == '\'' && shift ==> shifted(key, shift) == (AltShortcut {
            key: '"',
            shift: false,
        }),
        !(0x41 <= key as int <= 0x5a) && key != '"' && !(key == '\'' && shift) ==> shifted(
            key,
            shift,
        ) == (AltShortcut { key, shift }),
{
}

} // verus!
