//! What holds of writing and reading taken together.

use crate::parsing::{
    equals_at, finished, fresh, lemma_spread_concat, lemma_spread_plain, parse_equation,
    parse_side, preprocess, run, spaced, spread, step, token_of, Fault, MalformedEquationView,
    StateView, TermErrorView, TermView, Token,
};
use crate::polinomial::{none_above, rendered, rendered_from, CoefficientView};
use crate::text::{
    all_digits, is_decimal_literal, is_digit, lemma_words_blanks, lemma_words_first,
    lemma_words_last, words,
};
use vstd::prelude::*;

verus! {

/// A whole number as it is written: its digits, behind a `-` where it is
/// negative.
pub open spec fn number_text(negative: bool, digits: Seq<char>) -> Seq<char> {
    if negative {
        seq!['-'] + digits
    } else {
        digits
    }
}

/// The term that a whole number is read as.
pub open spec fn number_term(negative: bool, digits: Seq<char>) -> TermView {
    TermView { negative, coefficient: digits, power: 0 }
}

/// The words of a side that holds a whole number between spaces.
proof fn lemma_number_words(negative: bool, digits: Seq<char>, lead: Seq<char>, tail: Seq<char>)
    requires
        digits.len() > 0,
        all_digits(digits),
        forall|i: int| 0 <= i < lead.len() ==> #[trigger] lead[i] == ' ',
        forall|i: int| 0 <= i < tail.len() ==> #[trigger] tail[i] == ' ',
    ensures
        words(preprocess(lead + number_text(negative, digits) + tail)) == if negative {
            seq![seq!['|'], seq!['|'], seq!['-'], digits]
        } else {
            seq![seq!['|'], digits]
        },
{
    let number = number_text(negative, digits);
    let sign: Seq<char> = if negative {
        seq!['-']
    } else {
        Seq::empty()
    };
    assert(number =~= sign + digits);
    // How the side is spaced out.
    lemma_spread_concat(lead + number, tail);
    lemma_spread_concat(lead, number);
    lemma_spread_concat(sign, digits);
    lemma_spread_plain(lead);
    lemma_spread_plain(tail);
    lemma_spread_plain(digits);
    let spread_sign: Seq<char> = if negative {
        seq![' ', '|', ' ', '-', ' ']
    } else {
        Seq::empty()
    };
    assert(spread(sign) =~= spread_sign) by {
        if negative {
            assert(sign.drop_last() =~= Seq::<char>::empty());
            assert(spread(sign) =~= spread(sign.drop_last()) + spaced('-'));
        }
    }
    let bar = seq!['|'];
    let text = preprocess(lead + number + tail);
    // The leading boundary.
    let after_bar = lead + spread_sign + digits + tail;
    assert(text =~= bar + seq![' '] + after_bar);
    lemma_words_first(bar, ' ', after_bar);
    // The spaces before the number.
    let after_lead = spread_sign + digits + tail;
    assert(after_bar =~= lead + after_lead);
    lemma_words_blanks(lead, after_lead);
    // The last word.
    lemma_words_last(digits, tail);
    if negative {
        let minus = seq!['-'];
        let after_space = bar + seq![' '] + (minus + seq![' '] + (digits + tail));
        assert(after_lead =~= seq![' '] + after_space);
        lemma_words_blanks(seq![' '], after_space);
        lemma_words_first(bar, ' ', minus + seq![' '] + (digits + tail));
        lemma_words_first(minus, ' ', digits + tail);
        assert(words(text) =~= seq![bar, bar, minus, digits]);
    } else {
        assert(after_lead =~= digits + tail);
        assert(words(text) =~= seq![bar, digits]);
    }
}

/// A side that holds a whole number between spaces is read as one term:
/// the number, with the power 0.
pub proof fn lemma_number_side(negative: bool, digits: Seq<char>, lead: Seq<char>, tail: Seq<char>)
    requires
        digits.len() > 0,
        all_digits(digits),
        forall|i: int| 0 <= i < lead.len() ==> #[trigger] lead[i] == ' ',
        forall|i: int| 0 <= i < tail.len() ==> #[trigger] tail[i] == ' ',
    ensures
        parse_side(lead + number_text(negative, digits) + tail) == Ok::<
            Seq<TermView>,
            TermErrorView,
        >(seq![number_term(negative, digits)]),
{
    lemma_number_words(negative, digits, lead, tail);
    let bar = seq!['|'];
    let minus = seq!['-'];
    let none = Seq::<TermView>::empty();
    assert(token_of(bar) == Token::Boundary);
    assert(token_of(minus) == Token::Minus);
    assert(is_digit(digits[0]));
    assert(token_of(digits) == Token::Number);
    assert(is_decimal_literal(digits));
    assert(step(fresh(), bar) == Ok::<(StateView, Seq<TermView>), Fault>((fresh(), none)));
    let signed = StateView { sign_applied: negative, negative, ..fresh() };
    let read = StateView { coef: digits, coef_parsed: true, ..signed };
    assert(step(signed, digits) == Ok::<(StateView, Seq<TermView>), Fault>((read, none)));
    assert(finished(read) == Ok::<Seq<TermView>, Fault>(seq![number_term(negative, digits)]));
    assert(none + none =~= none);
    assert(none + seq![number_term(negative, digits)] =~= seq![number_term(negative, digits)]);
    // The last word and the end of the side.
    let last = seq![digits];
    assert(last.skip(1) =~= Seq::<Seq<char>>::empty());
    assert(run(last.skip(1), read, none) == Ok::<Seq<TermView>, TermErrorView>(
        seq![number_term(negative, digits)],
    ));
    assert(run(last, signed, none) == run(last.skip(1), read, none));
    if negative {
        assert(step(fresh(), minus) == Ok::<(StateView, Seq<TermView>), Fault>((signed, none)));
        let w2 = seq![minus, digits];
        assert(w2.skip(1) =~= last);
        assert(run(w2, fresh(), none) == run(last, signed, none));
        let w3 = seq![bar, minus, digits];
        assert(w3.skip(1) =~= w2);
        assert(run(w3, fresh(), none) == run(w2, fresh(), none));
        let w4 = seq![bar, bar, minus, digits];
        assert(w4.skip(1) =~= w3);
        assert(run(w4, fresh(), none) == run(w3, fresh(), none));
    } else {
        assert(signed == fresh());
        let w2 = seq![bar, digits];
        assert(w2.skip(1) =~= last);
        assert(run(w2, fresh(), none) == run(last, fresh(), none));
    }
}

/// The term that the text of a constant polynomial is read as: the
/// constant itself, or `0` where it is zero.
pub open spec fn constant_term(c: CoefficientView) -> TermView {
    if c.zero {
        number_term(false, seq!['0'])
    } else {
        number_term(c.negative, c.magnitude)
    }
}

/// Above the highest coefficient that is not zero nothing is written.
proof fn lemma_nothing_written_above(p: Seq<CoefficientView>, i: int)
    requires
        0 <= i,
        none_above(p, i - 1),
    ensures
        rendered_from(p, i) == Seq::<char>::empty(),
    decreases p.len() - i,
{
    if i < p.len() {
        assert(p[i].zero);
        lemma_nothing_written_above(p, i + 1);
    }
}

/// Reading undoes writing for constant polynomials in whole numbers: the
/// text of a polynomial whose coefficients above the constant are all zero
/// and whose constant is written in digits alone, followed by ` = 0`, is an
/// equation whose left side is the constant as its only term and whose
/// right side is the term `0`.
///
/// A polynomial with another coefficient that is not zero is not read back:
/// the variable is written `x` and read `X`.
pub proof fn lemma_constant_round_trip(p: Seq<CoefficientView>)
    requires
        p.len() > 0,
        none_above(p, 0),
        p[0].magnitude.len() > 0,
        all_digits(p[0].magnitude),
    ensures
        parse_equation(rendered(p) + seq![' ', '=', ' ', '0']) == Ok::<
            (Seq<TermView>, Seq<TermView>),
            MalformedEquationView,
        >((seq![constant_term(p[0])], seq![number_term(false, seq!['0'])])),
{
    let c = p[0];
    let zero = seq!['0'];
    let negative = !c.zero && c.negative;
    let digits = if c.zero {
        zero
    } else {
        c.magnitude
    };
    let number = number_text(negative, digits);
    assert(rendered(p) =~= number) by {
        if c.zero {
            assert(none_above(p, -1));
        } else {
            assert(!p[0].zero);
            assert(!none_above(p, -1));
            lemma_nothing_written_above(p, 1);
        }
    }
    assert(is_digit(zero[0]));
    assert(all_digits(digits));
    let text = number + seq![' ', '=', ' ', '0'];
    let at = number.len() as int + 1;
    assert(equals_at(text, at));
    assert forall|i: int| equals_at(text, i) implies i == at by {
        if 0 <= i < number.len() {
            if negative && i > 0 {
                assert(is_digit(digits[i - 1]));
            } else if !negative {
                assert(is_digit(digits[i]));
            }
        }
    }
    let found = choose|i: int| equals_at(text, i);
    assert(found == at);
    assert(text.take(at) =~= Seq::<char>::empty() + number + seq![' ']);
    assert(text.skip(at + 1) =~= seq![' '] + number_text(false, zero) + Seq::<char>::empty());
    lemma_number_side(negative, digits, Seq::empty(), seq![' ']);
    lemma_number_side(false, zero, seq![' '], Seq::empty());
}

} // verus!
