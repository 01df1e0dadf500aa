//! Characters, blank-separated words and decimal numerals.

use crate::model::views;
use vstd::prelude::*;

verus! {

/// `String::push` of the standard library appends one character: the text
/// afterwards is the text before followed by `c`.
pub assume_specification[ String::push ](s: &mut String, c: char)
    ensures
        final(s)@ == old(s)@.push(c),
;

/// The characters that separate words: those with the Unicode property
/// `White_Space`.
pub open spec fn is_blank_spec(c: char) -> bool {
    let n = c as u32;
    ||| 0x09 <= n <= 0x0d
    ||| n == 0x20
    ||| n == 0x85
    ||| n == 0xa0
    ||| n == 0x1680
    ||| 0x2000 <= n <= 0x200a
    ||| n == 0x2028
    ||| n == 0x2029
    ||| n == 0x202f
    ||| n == 0x205f
    ||| n == 0x3000
}

/// Tells whether a character separates words.
#[verifier::when_used_as_spec(is_blank_spec)]
pub fn is_blank(c: char) -> (b: bool)
    ensures
        b == is_blank_spec(c),
{
    let n: u32 = c as u32;
    (0x09 <= n && n <= 0x0d) || n == 0x20 || n == 0x85 || n == 0xa0 || n == 0x1680 || (0x2000 <= n
        && n <= 0x200a) || n == 0x2028 || n == 0x2029 || n == 0x202f || n == 0x205f || n == 0x3000
}

/// The ten decimal digits `0` to `9`.
pub open spec fn is_digit_spec(c: char) -> bool {
    48 <= c as u32 <= 57
}

/// Tells whether a character is a decimal digit.
#[verifier::when_used_as_spec(is_digit_spec)]
pub fn is_digit(c: char) -> (b: bool)
    ensures
        b == is_digit_spec(c),
{
    let n: u32 = c as u32;
    48 <= n && n <= 57
}

/// The number that a digit stands for.
pub open spec fn digit_value(c: char) -> nat {
    (c as u32 - 48) as nat
}

/// The digit that stands for a number below ten.
pub open spec fn digit_char(d: nat) -> char {
    (d + 48) as u8 as char
}

/// A text that holds nothing but digits.
pub open spec fn all_digits(s: Seq<char>) -> bool {
    forall|i: int| 0 <= i < s.len() ==> is_digit(#[trigger] s[i])
}

/// A word that is finished: one word if it holds a character, none if not.
pub open spec fn closed_word(word: Seq<char>) -> Seq<Seq<char>> {
    if word.len() > 0 {
        seq![word]
    } else {
        Seq::empty()
    }
}

/// The words of `rest`, where `current` holds the characters of a word that
/// has begun before `rest`.
pub open spec fn words_from(current: Seq<char>, rest: Seq<char>) -> Seq<Seq<char>>
    decreases rest.len(),
{
    if rest.len() == 0 {
        closed_word(current)
    } else if is_blank(rest[0]) {
        closed_word(current) + words_from(Seq::empty(), rest.skip(1))
    } else {
        words_from(current.push(rest[0]), rest.skip(1))
    }
}

/// The words of a text: its maximal runs of characters that are not blank,
/// in their order.
///
/// The lemmas below say the same without a word in progress: blanks before
/// a text change nothing; a run without blanks that is followed by a blank
/// is the first word, and the words of the rest follow it; a run without
/// blanks that is followed by blanks alone is the only word.
pub open spec fn words(text: Seq<char>) -> Seq<Seq<char>> {
    words_from(Seq::empty(), text)
}

/// Characters that are not blank join the word in progress.
pub proof fn lemma_words_run(current: Seq<char>, run: Seq<char>, rest: Seq<char>)
    requires
        forall|i: int| 0 <= i < run.len() ==> !is_blank(#[trigger] run[i]),
    ensures
        words_from(current, run + rest) == words_from(current + run, rest),
    decreases run.len(),
{
    if run.len() == 0 {
        assert(run + rest =~= rest);
        assert(current + run =~= current);
    } else {
        let text = run + rest;
        assert(text[0] == run[0]);
        assert(text.skip(1) =~= run.skip(1) + rest);
        lemma_words_run(current.push(run[0]), run.skip(1), rest);
        assert(current.push(run[0]) + run.skip(1) =~= current + run);
    }
}

/// Blanks between words count for nothing.
pub proof fn lemma_words_blanks(blanks: Seq<char>, rest: Seq<char>)
    requires
        forall|i: int| 0 <= i < blanks.len() ==> is_blank(#[trigger] blanks[i]),
    ensures
        words_from(Seq::empty(), blanks + rest) == words_from(Seq::empty(), rest),
    decreases blanks.len(),
{
    if blanks.len() == 0 {
        assert(blanks + rest =~= rest);
    } else {
        let text = blanks + rest;
        assert(text[0] == blanks[0]);
        assert(text.skip(1) =~= blanks.skip(1) + rest);
        lemma_words_blanks(blanks.skip(1), rest);
        assert(closed_word(Seq::<char>::empty()) + words_from(Seq::empty(), text.skip(1))
            =~= words_from(Seq::empty(), text.skip(1)));
    }
}

/// A word that is followed by a blank is the first word, and the words of
/// what follows the blank come after it.
pub proof fn lemma_words_first(word: Seq<char>, blank: char, rest: Seq<char>)
    requires
        word.len() > 0,
        forall|i: int| 0 <= i < word.len() ==> !is_blank(#[trigger] word[i]),
        is_blank(blank),
    ensures
        words(word + seq![blank] + rest) == seq![word] + words(rest),
{
    let tail = seq![blank] + rest;
    assert(word + seq![blank] + rest =~= word + tail);
    lemma_words_run(Seq::empty(), word, tail);
    assert(Seq::<char>::empty() + word =~= word);
    assert(tail[0] == blank);
    assert(tail.skip(1) =~= rest);
}

/// A word that is followed by blanks alone is the only word.
pub proof fn lemma_words_last(word: Seq<char>, blanks: Seq<char>)
    requires
        word.len() > 0,
        forall|i: int| 0 <= i < word.len() ==> !is_blank(#[trigger] word[i]),
        forall|i: int| 0 <= i < blanks.len() ==> is_blank(#[trigger] blanks[i]),
    ensures
        words(word + blanks) == seq![word],
{
    lemma_words_run(Seq::empty(), word, blanks);
    assert(Seq::<char>::empty() + word =~= word);
    if blanks.len() > 0 {
        lemma_words_blanks(blanks.skip(1), Seq::empty());
        assert(blanks.skip(1) + Seq::<char>::empty() =~= blanks.skip(1));
        assert(seq![word] + Seq::<Seq<char>>::empty() =~= seq![word]);
    }
}

/// Splits a text at its blanks.
pub fn split_words(text: &str) -> (out: Vec<Vec<char>>)
    ensures
        views(out@) == words(text@),
{
    let mut out: Vec<Vec<char>> = Vec::new();
    let mut current: Vec<char> = Vec::new();
    assert(text@.skip(0) =~= text@);
    assert(views(out@) =~= Seq::<Seq<char>>::empty());
    for c in it: text.chars()
        invariant
            it.seq() == text@,
            words(text@) == views(out@) + words_from(current@, text@.skip(it.index())),
    {
        let ghost rest = text@.skip(it.index());
        assert(rest[0] == c);
        assert(rest.skip(1) == text@.skip(it.index() + 1));
        let ghost before = views(out@);
        let ghost begun = current@;
        if is_blank(c) {
            if current.len() > 0 {
                out.push(current);
                current = Vec::new();
            }
            assert(views(out@) =~= before + closed_word(begun));
            assert(current@ =~= Seq::<char>::empty());
            assert(views(out@) + words_from(current@, rest.skip(1)) =~= before + words_from(
                begun,
                rest,
            ));
        } else {
            current.push(c);
        }
    }
    if current.len() > 0 {
        let ghost before = views(out@);
        let ghost word = current@;
        out.push(current);
        assert(views(out@) =~= before + closed_word(word));
    }
    out
}

/// The text that a vector of characters spells.
pub fn text_of(chars: &Vec<char>) -> (out: String)
    ensures
        out@ == chars@,
{
    let mut out = String::new();
    let mut i: usize = 0;
    while i < chars.len()
        invariant
            i <= chars.len(),
            out@ == chars@.take(i as int),
        decreases chars.len() - i,
    {
        out.push(chars[i]);
        i += 1;
        assert(chars@.take(i as int) == chars@.take(i - 1).push(chars@[i - 1]));
    }
    assert(chars@.take(chars.len() as int) == chars@);
    out
}

/// The number that a run of digits spells, read in base ten.
pub open spec fn digits_value(s: Seq<char>) -> nat
    decreases s.len(),
{
    if s.len() == 0 {
        0
    } else {
        digits_value(s.drop_last()) * 10 + digit_value(s.last())
    }
}

/// What a word gives as an exponent: its value where it is made of digits
/// alone and the value fits the machine's index type, nothing otherwise.
pub open spec fn natural_of(word: Seq<char>) -> Option<usize> {
    if word.len() > 0 && all_digits(word) && digits_value(word) <= usize::MAX {
        Some(digits_value(word) as usize)
    } else {
        None
    }
}

/// A beginning of a run of digits never spells more than the whole run.
pub proof fn lemma_digits_value_grows(s: Seq<char>, k: int)
    requires
        0 <= k <= s.len(),
    ensures
        digits_value(s.take(k)) <= digits_value(s),
    decreases s.len() - k,
{
    if k < s.len() {
        lemma_digits_value_grows(s, k + 1);
        assert(s.take(k + 1).drop_last() == s.take(k));
    } else {
        assert(s.take(k) == s);
    }
}

/// Reads a word as an exponent.
pub fn parse_natural(word: &Vec<char>) -> (r: Option<usize>)
    ensures
        r == natural_of(word@),
{
    if word.len() == 0 {
        return None;
    }
    let mut acc: usize = 0;
    let mut i: usize = 0;
    while i < word.len()
        invariant
            i <= word.len(),
            all_digits(word@.take(i as int)),
            acc == digits_value(word@.take(i as int)),
        decreases word.len() - i,
    {
        let c = word[i];
        if !is_digit(c) {
            return None;
        }
        let d: usize = (c as u32 - 48) as usize;
        assert(word@.take(i + 1).drop_last() == word@.take(i as int));
        if acc > (usize::MAX - d) / 10 {
            proof {
                lemma_digits_value_grows(word@, i + 1);
            }
            return None;
        }
        acc = acc * 10 + d;
        i += 1;
    }
    assert(word@.take(word.len() as int) == word@);
    Some(acc)
}

/// A word made of digits and points, such as `12`, `1.5` or `1.2.3`.
pub open spec fn is_numeric(word: Seq<char>) -> bool {
    &&& word.len() > 0
    &&& forall|i: int| 0 <= i < word.len() ==> is_digit(#[trigger] word[i]) || word[i] == '.'
}

/// A decimal literal: digits with at most one point among them, and at
/// least one digit. `5`, `5.`, `.5` and `0.25` are literals; `.` and `1.2.3`
/// are not.
pub open spec fn is_decimal_literal(word: Seq<char>) -> bool {
    &&& is_numeric(word)
    &&& exists|i: int| 0 <= i < word.len() && is_digit(#[trigger] word[i])
    &&& forall|i: int, j: int|
        #![trigger word[i], word[j]]
        0 <= i < j < word.len() && word[i] == '.' ==> word[j] != '.'
}

/// Tells whether a word is made of digits and points.
pub fn check_numeric(word: &Vec<char>) -> (b: bool)
    ensures
        b == is_numeric(word@),
{
    if word.len() == 0 {
        return false;
    }
    let mut i: usize = 0;
    while i < word.len()
        invariant
            i <= word.len(),
            forall|k: int| 0 <= k < i ==> is_digit(#[trigger] word@[k]) || word@[k] == '.',
        decreases word.len() - i,
    {
        if !is_digit(word[i]) && word[i] != '.' {
            return false;
        }
        i += 1;
    }
    true
}

/// Tells whether a word is a decimal literal.
pub fn check_decimal_literal(word: &Vec<char>) -> (b: bool)
    ensures
        b == is_decimal_literal(word@),
{
    if !check_numeric(word) {
        return false;
    }
    let mut digit_seen = false;
    let mut point_seen = false;
    let mut i: usize = 0;
    while i < word.len()
        invariant
            i <= word.len(),
            digit_seen <==> exists|k: int| 0 <= k < i && is_digit(#[trigger] word@[k]),
            point_seen <==> exists|k: int| 0 <= k < i && #[trigger] word@[k] == '.',
            forall|k: int, j: int|
                #![trigger word@[k], word@[j]]
                0 <= k < j < i && word@[k] == '.' ==> word@[j] != '.',
        decreases word.len() - i,
    {
        if word[i] == '.' {
            if point_seen {
                return false;
            }
            point_seen = true;
        } else if is_digit(word[i]) {
            digit_seen = true;
        }
        i += 1;
    }
    digit_seen
}

/// The decimal digits of a number, most significant first, without leading
/// zeros.
pub open spec fn decimal_digits(n: nat) -> Seq<char>
    decreases n,
{
    if n < 10 {
        seq![digit_char(n)]
    } else {
        decimal_digits(n / 10).push(digit_char(n % 10))
    }
}

/// The digit for a number below ten.
fn digit_of(d: usize) -> (c: char)
    requires
        d < 10,
    ensures
        c == digit_char(d as nat),
{
    let b: u8 = 48 + d as u8;
    b as char
}

/// Writes a number in decimal digits.
pub fn decimal_text(n: usize) -> (out: String)
    ensures
        out@ == decimal_digits(n as nat),
{
    let mut low: Vec<char> = Vec::new();
    let mut m: usize = n;
    while m >= 10
        invariant
            decimal_digits(n as nat) == decimal_digits(m as nat) + low@.reverse(),
        decreases m,
    {
        let ghost before = low@;
        low.push(digit_of(m % 10));
        assert(low@.reverse() =~= seq![digit_char((m % 10) as nat)] + before.reverse());
        assert(decimal_digits(m as nat) + before.reverse() =~= decimal_digits((m / 10) as nat)
            + low@.reverse());
        m = m / 10;
    }
    let mut out = String::new();
    out.push(digit_of(m));
    let mut i: usize = low.len();
    while i > 0
        invariant
            i <= low.len(),
            out@ == decimal_digits(m as nat) + low@.reverse().take(low.len() - i),
        decreases i,
    {
        i -= 1;
        out.push(low[i]);
        assert(low@.reverse().take(low.len() - i) =~= low@.reverse().take(low.len() - i - 1).push(
            low@[i as int],
        ));
    }
    assert(low@.reverse().take(low.len() as int) =~= low@.reverse());
    out
}

} // verus!
