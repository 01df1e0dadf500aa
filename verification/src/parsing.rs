//! From the text of an equation to the signed terms of its two sides.
//!
//! A side is first spaced out, so that signs, the product mark, the exponent
//! mark and the variable stand alone and every sign is preceded by a term
//! boundary `|`. It is then cut into words, and a small state machine reads
//! the words of one term after the other.

use crate::model::views;
use crate::text::{
    check_decimal_literal, check_numeric, is_decimal_literal, is_digit, is_numeric, natural_of,
    parse_natural, split_words, text_of, words,
};
use vstd::prelude::*;

verus! {

/// One monomial as it was written: `- 3 * X^2` is negative, has the
/// coefficient `3` and the power 2. The coefficient is kept as its decimal
/// literal.
#[derive(Debug, Clone, PartialEq, Eq)]
pub struct Term {
    pub negative: bool,
    pub coefficient: String,
    pub power: usize,
}

/// A term as contracts speak of it.
pub struct TermView {
    pub negative: bool,
    pub coefficient: Seq<char>,
    pub power: nat,
}

impl View for Term {
    type V = TermView;

    open spec fn view(&self) -> TermView {
        TermView {
            negative: self.negative,
            coefficient: self.coefficient@,
            power: self.power as nat,
        }
    }
}

/// Why a word cannot stand where it stands.
#[derive(Debug, Clone, Copy, PartialEq, Eq)]
pub enum Fault {
    /// A sign is followed by no coefficient and no variable.
    DanglingSign,
    /// A sign inside a term.
    MisplacedSign,
    /// A second variable in a term, or one after the exponent mark.
    MisplacedVariable,
    /// An exponent mark without a variable before it, or a second one.
    MisplacedExponentMark,
    /// A product mark without a coefficient before it, or a second one.
    MisplacedProductMark,
    /// A number where neither a coefficient nor an exponent is due.
    MisplacedNumber,
    /// Digits and points that form no decimal literal.
    BadCoefficient,
    /// An exponent that is no whole number, or one too large for an index.
    BadExponent,
    /// A word that belongs to no class.
    UnknownWord,
}

/// A fault together with the word at which it was found; the word is empty
/// where the side ended too early.
#[derive(Debug, Clone, PartialEq, Eq)]
pub struct TermError {
    pub fault: Fault,
    pub near: String,
}

/// A fault and its place as contracts speak of them.
pub struct TermErrorView {
    pub fault: Fault,
    pub near: Seq<char>,
}

impl View for TermError {
    type V = TermErrorView;

    open spec fn view(&self) -> TermErrorView {
        TermErrorView { fault: self.fault, near: self.near@ }
    }
}

/// Why a text is no equation.
#[derive(Debug, Clone, PartialEq, Eq)]
pub enum MalformedEquation {
    /// The text holds no `=`.
    MissingEquals,
    /// The text holds more than one `=`.
    RepeatedEquals,
    /// The side before the `=` is malformed.
    Left(TermError),
    /// The side after the `=` is malformed; the side before it is not.
    Right(TermError),
}

/// The reasons for which a text is no equation, as contracts speak of them.
pub enum MalformedEquationView {
    MissingEquals,
    RepeatedEquals,
    Left(TermErrorView),
    Right(TermErrorView),
}

impl View for MalformedEquation {
    type V = MalformedEquationView;

    open spec fn view(&self) -> MalformedEquationView {
        match self {
            MalformedEquation::MissingEquals => MalformedEquationView::MissingEquals,
            MalformedEquation::RepeatedEquals => MalformedEquationView::RepeatedEquals,
            MalformedEquation::Left(e) => MalformedEquationView::Left(e@),
            MalformedEquation::Right(e) => MalformedEquationView::Right(e@),
        }
    }
}

/// What takes the place of one character when a side is spaced out.
pub open spec fn spaced(c: char) -> Seq<char> {
    if c == '+' || c == '-' {
        seq![' ', '|', ' ', c, ' ']
    } else if c == '*' || c == '^' || c == 'X' {
        seq![' ', c, ' ']
    } else {
        seq![c]
    }
}

/// Every character of a text spaced out, in order.
pub open spec fn spread(text: Seq<char>) -> Seq<char>
    decreases text.len(),
{
    if text.len() == 0 {
        Seq::empty()
    } else {
        spread(text.drop_last()) + spaced(text.last())
    }
}

/// Spacing out goes through a text piece by piece.
pub proof fn lemma_spread_concat(a: Seq<char>, b: Seq<char>)
    ensures
        spread(a + b) == spread(a) + spread(b),
    decreases b.len(),
{
    if b.len() == 0 {
        assert(a + b =~= a);
        assert(spread(a) + spread(b) =~= spread(a));
    } else {
        assert((a + b).drop_last() =~= a + b.drop_last());
        assert((a + b).last() == b.last());
        lemma_spread_concat(a, b.drop_last());
        assert(spread(a + b) =~= spread(a) + spread(b));
    }
}

/// A text without signs, marks and the variable is spaced out as itself.
pub proof fn lemma_spread_plain(text: Seq<char>)
    requires
        forall|i: int| 0 <= i < text.len() ==> spaced(#[trigger] text[i]) == seq![text[i]],
    ensures
        spread(text) == text,
    decreases text.len(),
{
    if text.len() > 0 {
        lemma_spread_plain(text.drop_last());
        assert(text.drop_last() + seq![text.last()] =~= text);
    }
}

/// A side made ready for cutting into words: a leading boundary, then the
/// text spaced out.
pub open spec fn preprocess(text: Seq<char>) -> Seq<char> {
    seq!['|', ' '] + spread(text)
}

/// Spaces out one side of an equation.
pub fn preprocess_parser(textpoly: &str) -> (out: String)
    ensures
        out@ == preprocess(textpoly@),
{
    let mut out = String::new();
    out.push('|');
    out.push(' ');
    assert(textpoly@.take(0) =~= Seq::<char>::empty());
    assert(out@ =~= seq!['|', ' '] + spread(textpoly@.take(0)));
    for c in it: textpoly.chars()
        invariant
            it.seq() == textpoly@,
            out@ == seq!['|', ' '] + spread(textpoly@.take(it.index())),
    {
        let ghost before = out@;
        assert(textpoly@.take(it.index() + 1).drop_last() == textpoly@.take(it.index()));
        if c == '+' || c == '-' {
            out.push(' ');
            out.push('|');
            out.push(' ');
            out.push(c);
            out.push(' ');
        } else if c == '*' || c == '^' || c == 'X' {
            out.push(' ');
            out.push(c);
            out.push(' ');
        } else {
            out.push(c);
        }
        assert(out@ =~= before + spaced(c));
        assert(out@ =~= seq!['|', ' '] + spread(textpoly@.take(it.index() + 1)));
    }
    assert(textpoly@.take(textpoly@.len() as int) == textpoly@);
    out
}

/// The classes of words.
#[derive(Debug, Clone, Copy, PartialEq, Eq)]
pub enum Token {
    /// `|`, which ends a term.
    Boundary,
    /// `+`
    Plus,
    /// `-`
    Minus,
    /// `X`
    Variable,
    /// `^`
    ExponentMark,
    /// `*`
    ProductMark,
    /// Digits and points.
    Number,
    /// Anything else.
    Unknown,
}

/// A word that is the single character `c`.
pub open spec fn is_mark(word: Seq<char>, c: char) -> bool {
    word.len() == 1 && word[0] == c
}

/// The class of a word.
pub open spec fn token_of(word: Seq<char>) -> Token {
    if is_mark(word, '|') {
        Token::Boundary
    } else if is_mark(word, '+') {
        Token::Plus
    } else if is_mark(word, '-') {
        Token::Minus
    } else if is_mark(word, 'X') {
        Token::Variable
    } else if is_mark(word, '^') {
        Token::ExponentMark
    } else if is_mark(word, '*') {
        Token::ProductMark
    } else if is_numeric(word) {
        Token::Number
    } else {
        Token::Unknown
    }
}

/// Classifies a word.
pub fn classify(word: &Vec<char>) -> (token: Token)
    ensures
        token == token_of(word@),
{
    if word.len() == 1 {
        let c = word[0];
        if c == '|' {
            return Token::Boundary;
        } else if c == '+' {
            return Token::Plus;
        } else if c == '-' {
            return Token::Minus;
        } else if c == 'X' {
            return Token::Variable;
        } else if c == '^' {
            return Token::ExponentMark;
        } else if c == '*' {
            return Token::ProductMark;
        }
    }
    if check_numeric(word) {
        Token::Number
    } else {
        Token::Unknown
    }
}

/// What has been read of the term in progress.
#[derive(Debug, Clone, PartialEq, Eq)]
pub struct ParserState {
    /// The term is negative: an odd number of `-` stood before it.
    pub negative: bool,
    /// A sign has been read.
    pub sign_applied: bool,
    /// The coefficient as a decimal literal; it counts once `coef_parsed` holds.
    pub coef: String,
    /// A coefficient has been read, or the variable has supplied the coefficient 1.
    pub coef_parsed: bool,
    /// The product mark has been read.
    pub mult_appeared: bool,
    /// The variable has been read.
    pub x_appeared: bool,
    /// The exponent mark has been read.
    pub caret_appeared: bool,
    /// The power of the variable: 0 until the variable is read, then 1 until an exponent is.
    pub power: usize,
    /// An exponent has been read.
    pub power_parsed: bool,
}

/// A state of the term machine as contracts speak of it.
pub struct StateView {
    pub negative: bool,
    pub sign_applied: bool,
    pub coef: Seq<char>,
    pub coef_parsed: bool,
    pub mult_appeared: bool,
    pub x_appeared: bool,
    pub caret_appeared: bool,
    pub power: nat,
    pub power_parsed: bool,
}

impl View for ParserState {
    type V = StateView;

    open spec fn view(&self) -> StateView {
        StateView {
            negative: self.negative,
            sign_applied: self.sign_applied,
            coef: self.coef@,
            coef_parsed: self.coef_parsed,
            mult_appeared: self.mult_appeared,
            x_appeared: self.x_appeared,
            caret_appeared: self.caret_appeared,
            power: self.power as nat,
            power_parsed: self.power_parsed,
        }
    }
}

/// The state in which nothing of a term has been read.
pub open spec fn fresh() -> StateView {
    StateView {
        negative: false,
        sign_applied: false,
        coef: Seq::empty(),
        coef_parsed: false,
        mult_appeared: false,
        x_appeared: false,
        caret_appeared: false,
        power: 0,
        power_parsed: false,
    }
}

impl ParserState {
    /// The state in which nothing of a term has been read.
    pub fn new() -> (state: ParserState)
        ensures
            state@ == fresh(),
    {
        ParserState {
            negative: false,
            sign_applied: false,
            coef: String::new(),
            coef_parsed: false,
            mult_appeared: false,
            x_appeared: false,
            caret_appeared: false,
            power: 0,
            power_parsed: false,
        }
    }
}

/// The term that a state describes.
pub open spec fn term_of(state: StateView) -> TermView {
    TermView { negative: state.negative, coefficient: state.coef, power: state.power }
}

/// What the end of a term yields: the term, where it has a coefficient;
/// nothing, where nothing at all was read; a fault, where only a sign was.
pub open spec fn finished(state: StateView) -> Result<Seq<TermView>, Fault> {
    if state.coef_parsed {
        Ok(seq![term_of(state)])
    } else if state.sign_applied {
        Err(Fault::DanglingSign)
    } else {
        Ok(Seq::empty())
    }
}

/// A sign may only open a term.
pub open spec fn sign_allowed(state: StateView) -> bool {
    !state.caret_appeared && !state.mult_appeared && !state.x_appeared && !state.coef_parsed
}

/// One move of the term machine: the state after `word`, and the terms that
/// `word` completes, or the fault that `word` is.
pub open spec fn step(state: StateView, word: Seq<char>) -> Result<(StateView, Seq<TermView>), Fault> {
    match token_of(word) {
        Token::Boundary => match finished(state) {
            Ok(done) => Ok((fresh(), done)),
            Err(fault) => Err(fault),
        },
        Token::Plus => if sign_allowed(state) {
            Ok((StateView { sign_applied: true, ..state }, Seq::empty()))
        } else {
            Err(Fault::MisplacedSign)
        },
        Token::Minus => if sign_allowed(state) {
            Ok((StateView { sign_applied: true, negative: !state.negative, ..state }, Seq::empty()))
        } else {
            Err(Fault::MisplacedSign)
        },
        Token::Variable => if state.caret_appeared || state.x_appeared {
            Err(Fault::MisplacedVariable)
        } else {
            Ok(
                (
                    StateView {
                        coef: if state.coef_parsed {
                            state.coef
                        } else {
                            seq!['1']
                        },
                        coef_parsed: true,
                        power: 1,
                        x_appeared: true,
                        ..state
                    },
                    Seq::empty(),
                ),
            )
        },
        Token::ExponentMark => if !state.x_appeared || state.caret_appeared {
            Err(Fault::MisplacedExponentMark)
        } else {
            Ok((StateView { caret_appeared: true, ..state }, Seq::empty()))
        },
        Token::ProductMark => if !state.coef_parsed || state.mult_appeared {
            Err(Fault::MisplacedProductMark)
        } else {
            Ok((StateView { mult_appeared: true, ..state }, Seq::empty()))
        },
        Token::Number => if !state.caret_appeared {
            if state.coef_parsed {
                Err(Fault::MisplacedNumber)
            } else if is_decimal_literal(word) {
                Ok((StateView { coef: word, coef_parsed: true, ..state }, Seq::empty()))
            } else {
                Err(Fault::BadCoefficient)
            }
        } else if state.power_parsed {
            Err(Fault::MisplacedNumber)
        } else {
            match natural_of(word) {
                Some(power) => Ok(
                    (StateView { power: power as nat, power_parsed: true, ..state }, Seq::empty()),
                ),
                None => Err(Fault::BadExponent),
            }
        },
        Token::Unknown => Err(Fault::UnknownWord),
    }
}

/// The terms of a run of words, read from `state` on, after the terms
/// `terms` that were completed before; or the first fault.
pub open spec fn run(words: Seq<Seq<char>>, state: StateView, terms: Seq<TermView>) -> Result<
    Seq<TermView>,
    TermErrorView,
>
    decreases words.len(),
{
    if words.len() == 0 {
        match finished(state) {
            Ok(done) => Ok(terms + done),
            Err(fault) => Err(TermErrorView { fault, near: Seq::empty() }),
        }
    } else {
        match step(state, words[0]) {
            Ok((next, done)) => run(words.skip(1), next, terms + done),
            Err(fault) => Err(TermErrorView { fault, near: words[0] }),
        }
    }
}

/// The terms of one side of an equation, in the order in which they are
/// written, or the first fault.
pub open spec fn parse_side(text: Seq<char>) -> Result<Seq<TermView>, TermErrorView> {
    run(words(preprocess(text)), fresh(), Seq::empty())
}

/// A state whose coefficient, once read, is a decimal literal.
pub open spec fn state_ok(state: StateView) -> bool {
    state.coef_parsed ==> is_decimal_literal(state.coef)
}

/// Terms whose coefficients are decimal literals.
pub open spec fn terms_ok(terms: Seq<TermView>) -> bool {
    forall|i: int| 0 <= i < terms.len() ==> is_decimal_literal(#[trigger] terms[i].coefficient)
}

/// Puts a state back to where nothing of a term has been read.
pub fn initialize_parser_state(parser_state: &mut ParserState)
    ensures
        final(parser_state)@ == fresh(),
{
    parser_state.negative = false;
    parser_state.sign_applied = false;
    parser_state.coef = String::new();
    parser_state.coef_parsed = false;
    parser_state.mult_appeared = false;
    parser_state.x_appeared = false;
    parser_state.caret_appeared = false;
    parser_state.power = 0;
    parser_state.power_parsed = false;
}

/// Appends the term that a state describes to the terms read so far.
pub fn update_polynomial(parser_state: &ParserState, polinomial: &mut Vec<Term>)
    ensures
        views(final(polinomial)@) == views(old(polinomial)@).push(term_of(parser_state@)),
{
    let term = Term {
        negative: parser_state.negative,
        coefficient: parser_state.coef.clone(),
        power: parser_state.power,
    };
    polinomial.push(term);
    assert(views(polinomial@) =~= views(old(polinomial)@).push(term_of(parser_state@)));
}

/// Ends the term in progress: appends it to `terms` where there is one.
pub fn finish_term(state: &ParserState, terms: &mut Vec<Term>) -> (r: Result<(), Fault>)
    ensures
        match r {
            Ok(()) => finished(state@) is Ok && views(final(terms)@) == views(old(terms)@)
                + finished(state@)->Ok_0,
            Err(fault) => finished(state@) == Err::<Seq<TermView>, Fault>(fault) && final(terms)@
                == old(terms)@,
        },
{
    if state.coef_parsed {
        update_polynomial(state, terms);
        assert(views(terms@) =~= views(old(terms)@) + seq![term_of(state@)]);
        Ok(())
    } else if state.sign_applied {
        Err(Fault::DanglingSign)
    } else {
        assert(views(terms@) =~= views(old(terms)@) + Seq::<TermView>::empty());
        Ok(())
    }
}

/// Reads one word: moves the state, and appends to `terms` the term that
/// the word completes. A word that is a fault changes nothing.
pub fn read_word(state: &mut ParserState, word: &Vec<char>, terms: &mut Vec<Term>) -> (r: Result<
    (),
    Fault,
>)
    ensures
        match r {
            Ok(()) => step(old(state)@, word@) is Ok && final(state)@ == step(
                old(state)@,
                word@,
            )->Ok_0.0 && views(final(terms)@) == views(old(terms)@) + step(
                old(state)@,
                word@,
            )->Ok_0.1,
            Err(fault) => step(old(state)@, word@) == Err::<(StateView, Seq<TermView>), Fault>(
                fault,
            ) && final(state)@ == old(state)@ && final(terms)@ == old(terms)@,
        },
{
    // A word that completes no term leaves the terms as they are.
    assert(views(terms@) + Seq::<TermView>::empty() =~= views(terms@));
    match classify(word) {
        Token::Boundary => {
            match finish_term(state, terms) {
                Ok(()) => {
                    initialize_parser_state(state);
                    Ok(())
                },
                Err(fault) => Err(fault),
            }
        },
        Token::Plus => {
            if state.caret_appeared || state.mult_appeared || state.x_appeared
                || state.coef_parsed {
                return Err(Fault::MisplacedSign);
            }
            state.sign_applied = true;
            Ok(())
        },
        Token::Minus => {
            if state.caret_appeared || state.mult_appeared || state.x_appeared
                || state.coef_parsed {
                return Err(Fault::MisplacedSign);
            }
            state.sign_applied = true;
            state.negative = !state.negative;
            Ok(())
        },
        Token::Variable => {
            if state.caret_appeared || state.x_appeared {
                return Err(Fault::MisplacedVariable);
            }
            if !state.coef_parsed {
                let mut one = String::new();
                one.push('1');
                state.coef = one;
                state.coef_parsed = true;
            }
            state.power = 1;
            state.x_appeared = true;
            Ok(())
        },
        Token::ExponentMark => {
            if !state.x_appeared || state.caret_appeared {
                return Err(Fault::MisplacedExponentMark);
            }
            state.caret_appeared = true;
            Ok(())
        },
        Token::ProductMark => {
            if !state.coef_parsed || state.mult_appeared {
                return Err(Fault::MisplacedProductMark);
            }
            state.mult_appeared = true;
            Ok(())
        },
        Token::Number => {
            if !state.caret_appeared {
                if state.coef_parsed {
                    Err(Fault::MisplacedNumber)
                } else if check_decimal_literal(word) {
                    state.coef = text_of(word);
                    state.coef_parsed = true;
                    Ok(())
                } else {
                    Err(Fault::BadCoefficient)
                }
            } else if state.power_parsed {
                Err(Fault::MisplacedNumber)
            } else {
                match parse_natural(word) {
                    Some(power) => {
                        state.power = power;
                        state.power_parsed = true;
                        Ok(())
                    },
                    None => Err(Fault::BadExponent),
                }
            }
        },
        Token::Unknown => Err(Fault::UnknownWord),
    }
}

/// A step from a state that is in order leads to a state that is in order,
/// and completes only terms that are.
pub proof fn lemma_step_keeps_order(state: StateView, word: Seq<char>)
    requires
        state_ok(state),
        step(state, word) is Ok,
    ensures
        state_ok(step(state, word)->Ok_0.0),
        terms_ok(step(state, word)->Ok_0.1),
{
    if token_of(word) == Token::Variable && !state.coef_parsed {
        let one = seq!['1'];
        assert(is_digit(one[0]));
        assert(is_decimal_literal(one));
    }
}

/// Reads one side of an equation into its terms.
///
/// The side may be empty, which gives no term. A stretch that holds nothing
/// between two boundaries is no term either, so a side may begin with a
/// sign. Every coefficient that comes back is a decimal literal.
pub fn poly_parser(textpoly: &str) -> (r: Result<Vec<Term>, TermError>)
    ensures
        match r {
            Ok(terms) => parse_side(textpoly@) == Ok::<Seq<TermView>, TermErrorView>(
                views(terms@),
            ) && terms_ok(views(terms@)),
            Err(error) => parse_side(textpoly@) == Err::<Seq<TermView>, TermErrorView>(error@),
        },
{
    let spaced_out = preprocess_parser(textpoly);
    let words = split_words(spaced_out.as_str());
    let mut terms: Vec<Term> = Vec::new();
    let mut state = ParserState::new();
    let mut i: usize = 0;
    assert(views(words@).skip(0) =~= views(words@));
    assert(views(terms@) =~= Seq::<TermView>::empty());
    while i < words.len()
        invariant
            i <= words.len(),
            parse_side(textpoly@) == run(views(words@).skip(i as int), state@, views(terms@)),
            state_ok(state@),
            terms_ok(views(terms@)),
        decreases words.len() - i,
    {
        let ghost rest = views(words@).skip(i as int);
        let ghost before = state@;
        assert(rest[0] == words@[i as int]@);
        assert(rest.skip(1) =~= views(words@).skip(i + 1));
        match read_word(&mut state, &words[i], &mut terms) {
            Ok(()) => {
                proof {
                    lemma_step_keeps_order(before, rest[0]);
                }
            },
            Err(fault) => {
                return Err(TermError { fault, near: text_of(&words[i]) });
            },
        }
        i += 1;
    }
    match finish_term(&state, &mut terms) {
        Ok(()) => Ok(terms),
        Err(fault) => Err(TermError { fault, near: String::new() }),
    }
}

/// The place `i` of a text holds `=`.
pub open spec fn equals_at(text: Seq<char>, i: int) -> bool {
    0 <= i < text.len() && text[i] == '='
}

/// The two sides of an equation, each read into its terms.
///
/// A text without `=` or with more than one is no equation. The side before
/// the `=` is read first, so its fault is the one that comes back where both sides
/// are malformed.
pub open spec fn parse_equation(text: Seq<char>) -> Result<
    (Seq<TermView>, Seq<TermView>),
    MalformedEquationView,
> {
    if !exists|i: int| equals_at(text, i) {
        Err(MalformedEquationView::MissingEquals)
    } else if exists|i: int, j: int| i < j && equals_at(text, i) && equals_at(text, j) {
        Err(MalformedEquationView::RepeatedEquals)
    } else {
        let at = choose|i: int| equals_at(text, i);
        match parse_side(text.take(at)) {
            Err(error) => Err(MalformedEquationView::Left(error)),
            Ok(left) => match parse_side(text.skip(at + 1)) {
                Err(error) => Err(MalformedEquationView::Right(error)),
                Ok(right) => Ok((left, right)),
            },
        }
    }
}

/// Reads an equation into the terms of its left and of its right side.
pub fn parser(equation: &str) -> (r: Result<(Vec<Term>, Vec<Term>), MalformedEquation>)
    ensures
        match r {
            Ok((left, right)) => parse_equation(equation@) == Ok::<
                (Seq<TermView>, Seq<TermView>),
                MalformedEquationView,
            >((views(left@), views(right@))) && terms_ok(views(left@)) && terms_ok(views(right@)),
            Err(error) => parse_equation(equation@) == Err::<
                (Seq<TermView>, Seq<TermView>),
                MalformedEquationView,
            >(error@),
        },
{
    let mut left = String::new();
    let mut right = String::new();
    let mut seen = false;
    let ghost mut at: int = 0;
    for c in it: equation.chars()
        invariant
            it.seq() == equation@,
            !seen ==> left@ == equation@.take(it.index()) && right@.len() == 0 && forall|i: int|
                0 <= i < it.index() ==> !equals_at(equation@, i),
            seen ==> 0 <= at < it.index() && equals_at(equation@, at) && left@ == equation@.take(at)
                && right@ == equation@.subrange(at + 1, it.index()) && forall|i: int|
                0 <= i < it.index() && i != at ==> !equals_at(equation@, i),
    {
        let ghost k = it.index();
        if c == '=' {
            if seen {
                assert(at < k && equals_at(equation@, at) && equals_at(equation@, k));
                return Err(MalformedEquation::RepeatedEquals);
            }
            seen = true;
            proof {
                at = k;
            }
            assert(right@ =~= equation@.subrange(at + 1, k + 1));
        } else if seen {
            right.push(c);
            assert(right@ =~= equation@.subrange(at + 1, k + 1));
        } else {
            left.push(c);
            assert(left@ =~= equation@.take(k + 1));
        }
    }
    if !seen {
        return Err(MalformedEquation::MissingEquals);
    }
    assert(equals_at(equation@, at));
    assert(forall|i: int| equals_at(equation@, i) ==> i == at);
    assert(right@ =~= equation@.skip(at + 1));
    let left_terms = match poly_parser(left.as_str()) {
        Ok(terms) => terms,
        Err(error) => {
            return Err(MalformedEquation::Left(error));
        },
    };
    match poly_parser(right.as_str()) {
        Ok(right_terms) => Ok((left_terms, right_terms)),
        Err(error) => Err(MalformedEquation::Right(error)),
    }
}

} // verus!
