use computorv1::parsing::{
    classify, finish_term, initialize_parser_state, parser, poly_parser, preprocess_parser,
    read_word, update_polynomial, Fault, MalformedEquation, ParserState, Term, TermError, Token,
};

fn term(negative: bool, coefficient: &str, power: usize) -> Term {
    Term { negative, coefficient: coefficient.to_string(), power }
}

fn fault_of(side: &str) -> (Fault, String) {
    match poly_parser(side) {
        Err(TermError { fault, near }) => (fault, near),
        Ok(terms) => panic!("accepted: {:?}", terms),
    }
}

fn word(text: &str) -> Vec<char> {
    text.chars().collect()
}

fn idle() -> ParserState {
    ParserState {
        negative: false,
        sign_applied: false,
        coef: String::new(),
        coef_parsed: false,
        mult_appeared: false,
        x_appeared: false,
        caret_appeared: false,
        power: 0,
        power_parsed: false,
    }
}

#[test]
fn preprocess_puts_a_boundary_first() {
    assert_eq!(preprocess_parser(""), "| ");
    assert_eq!(preprocess_parser("5"), "| 5");
}

#[test]
fn preprocess_isolates_signs_marks_and_the_variable() {
    let expected = [
        "| ", " | - ", "3", " * ", " X ", " ^ ", "5", " ", " | + ", " ", " X ", " ^ ", "2", " ",
        " | - ", " ", "1",
    ]
    .concat();
    assert_eq!(preprocess_parser("-3*X^5 + X^2 - 1"), expected);
}

#[test]
fn preprocess_leaves_other_characters_alone() {
    assert_eq!(preprocess_parser("x y|2.5="), "| x y|2.5=");
}

#[test]
fn words_are_classified() {
    assert_eq!(classify(&word("|")), Token::Boundary);
    assert_eq!(classify(&word("+")), Token::Plus);
    assert_eq!(classify(&word("-")), Token::Minus);
    assert_eq!(classify(&word("X")), Token::Variable);
    assert_eq!(classify(&word("^")), Token::ExponentMark);
    assert_eq!(classify(&word("*")), Token::ProductMark);
    assert_eq!(classify(&word("12.5")), Token::Number);
    assert_eq!(classify(&word("1.2.3")), Token::Number);
    assert_eq!(classify(&word("x")), Token::Unknown);
    assert_eq!(classify(&word("XX")), Token::Unknown);
    assert_eq!(classify(&word("1e5")), Token::Unknown);
    assert_eq!(classify(&word("")), Token::Unknown);
}

#[test]
fn accepts_a_constant() {
    assert_eq!(poly_parser("5"), Ok(vec![term(false, "5", 0)]));
}

#[test]
fn accepts_the_bare_variable() {
    assert_eq!(poly_parser("X"), Ok(vec![term(false, "1", 1)]));
}

#[test]
fn accepts_a_leading_minus() {
    assert_eq!(poly_parser("-X"), Ok(vec![term(true, "1", 1)]));
}

#[test]
fn accepts_coefficient_times_power() {
    assert_eq!(poly_parser("3*X^2"), Ok(vec![term(false, "3", 2)]));
}

#[test]
fn accepts_a_power_without_coefficient() {
    assert_eq!(poly_parser("X^2"), Ok(vec![term(false, "1", 2)]));
}

#[test]
fn accepts_three_signed_terms() {
    assert_eq!(
        poly_parser("-3*X^5 + X^2 - 1"),
        Ok(vec![term(true, "3", 5), term(false, "1", 2), term(true, "1", 0)])
    );
}

#[test]
fn accepts_a_coefficient_next_to_the_variable() {
    assert_eq!(poly_parser("2X"), Ok(vec![term(false, "2", 1)]));
}

#[test]
fn keeps_decimal_literals_as_written() {
    assert_eq!(
        poly_parser("2.50*X + 5. + .5 + 007"),
        Ok(vec![
            term(false, "2.50", 1),
            term(false, "5.", 0),
            term(false, ".5", 0),
            term(false, "007", 0)
        ])
    );
}

#[test]
fn keeps_terms_of_the_same_power_apart() {
    assert_eq!(poly_parser("2*X + 3*X"), Ok(vec![term(false, "2", 1), term(false, "3", 1)]));
}

#[test]
fn an_explicit_exponent_overrides_the_first_power() {
    assert_eq!(poly_parser("4*X^0"), Ok(vec![term(false, "4", 0)]));
    assert_eq!(poly_parser("X^10"), Ok(vec![term(false, "1", 10)]));
}

#[test]
fn an_empty_side_has_no_term() {
    assert_eq!(poly_parser(""), Ok(vec![]));
    assert_eq!(poly_parser("   "), Ok(vec![]));
}

#[test]
fn a_leading_plus_is_accepted() {
    assert_eq!(poly_parser("+ 5"), Ok(vec![term(false, "5", 0)]));
}

#[test]
fn a_typed_boundary_ends_a_term() {
    assert_eq!(poly_parser("5 | 3"), Ok(vec![term(false, "5", 0), term(false, "3", 0)]));
}

#[test]
fn blanks_of_any_kind_separate_words() {
    assert_eq!(
        poly_parser("\t5\u{a0}+\u{2003}X\u{3000}"),
        Ok(vec![term(false, "5", 0), term(false, "1", 1)])
    );
}

#[test]
fn marks_left_open_are_accepted() {
    assert_eq!(poly_parser("2*"), Ok(vec![term(false, "2", 0)]));
    assert_eq!(poly_parser("X^"), Ok(vec![term(false, "1", 1)]));
    assert_eq!(poly_parser("X*"), Ok(vec![term(false, "1", 1)]));
}

#[test]
fn rejects_a_plus_before_a_minus() {
    assert_eq!(fault_of("+-X"), (Fault::DanglingSign, "|".to_string()));
}

#[test]
fn rejects_a_second_exponent() {
    assert_eq!(fault_of("X^2^3"), (Fault::MisplacedExponentMark, "^".to_string()));
}

#[test]
fn rejects_a_second_coefficient() {
    assert_eq!(fault_of("2*3*X"), (Fault::MisplacedNumber, "3".to_string()));
}

#[test]
fn rejects_a_sign_at_the_end() {
    assert_eq!(fault_of("5 +"), (Fault::DanglingSign, String::new()));
    assert_eq!(fault_of("-"), (Fault::DanglingSign, String::new()));
}

#[test]
fn rejects_a_second_variable() {
    assert_eq!(fault_of("X X"), (Fault::MisplacedVariable, "X".to_string()));
    assert_eq!(fault_of("X^X"), (Fault::MisplacedVariable, "X".to_string()));
}

#[test]
fn rejects_an_exponent_mark_without_variable() {
    assert_eq!(fault_of("^2"), (Fault::MisplacedExponentMark, "^".to_string()));
    assert_eq!(fault_of("2^2"), (Fault::MisplacedExponentMark, "^".to_string()));
}

#[test]
fn rejects_a_product_mark_out_of_place() {
    assert_eq!(fault_of("*X"), (Fault::MisplacedProductMark, "*".to_string()));
    assert_eq!(fault_of("2**X"), (Fault::MisplacedProductMark, "*".to_string()));
}

#[test]
fn rejects_a_number_out_of_place() {
    assert_eq!(fault_of("2 3"), (Fault::MisplacedNumber, "3".to_string()));
    assert_eq!(fault_of("X 2"), (Fault::MisplacedNumber, "2".to_string()));
    assert_eq!(fault_of("X^2 3"), (Fault::MisplacedNumber, "3".to_string()));
}

#[test]
fn rejects_a_bad_coefficient() {
    assert_eq!(fault_of("1.2.3"), (Fault::BadCoefficient, "1.2.3".to_string()));
    assert_eq!(fault_of("."), (Fault::BadCoefficient, ".".to_string()));
    assert_eq!(fault_of("5 + ..X"), (Fault::BadCoefficient, "..".to_string()));
}

#[test]
fn rejects_a_bad_exponent() {
    assert_eq!(fault_of("X^1.5"), (Fault::BadExponent, "1.5".to_string()));
    assert_eq!(fault_of("X^."), (Fault::BadExponent, ".".to_string()));
    let huge = "340282366920938463463374607431768211456";
    assert_eq!(fault_of(&format!("X^{}", huge)), (Fault::BadExponent, huge.to_string()));
}

#[test]
fn accepts_the_largest_exponent() {
    let largest = format!("{}", usize::MAX);
    assert_eq!(poly_parser(&format!("X^{}", largest)), Ok(vec![term(false, "1", usize::MAX)]));
}

#[test]
fn rejects_an_unknown_word() {
    assert_eq!(fault_of("5 + y"), (Fault::UnknownWord, "y".to_string()));
    assert_eq!(fault_of("3*x^2"), (Fault::UnknownWord, "x".to_string()));
    assert_eq!(fault_of("1e5"), (Fault::UnknownWord, "1e5".to_string()));
    assert_eq!(fault_of("5 = 5"), (Fault::UnknownWord, "=".to_string()));
}

#[test]
fn a_sign_inside_a_term_is_misplaced() {
    let mut terms = Vec::new();
    let mut state = idle();
    assert_eq!(read_word(&mut state, &word("7"), &mut terms), Ok(()));
    assert_eq!(read_word(&mut state, &word("+"), &mut terms), Err(Fault::MisplacedSign));
    assert_eq!(read_word(&mut state, &word("-"), &mut terms), Err(Fault::MisplacedSign));
    assert!(terms.is_empty());
    let mut read = idle();
    read.coef = "7".to_string();
    read.coef_parsed = true;
    assert_eq!(state, read);
}

#[test]
fn two_minus_signs_cancel() {
    let mut terms = Vec::new();
    let mut state = idle();
    assert_eq!(read_word(&mut state, &word("-"), &mut terms), Ok(()));
    assert!(state.negative && state.sign_applied);
    assert_eq!(read_word(&mut state, &word("-"), &mut terms), Ok(()));
    assert!(!state.negative && state.sign_applied);
    assert_eq!(read_word(&mut state, &word("+"), &mut terms), Ok(()));
    assert!(!state.negative);
}

#[test]
fn the_machine_moves_word_by_word() {
    let mut terms = Vec::new();
    let mut state = idle();
    assert_eq!(read_word(&mut state, &word("-"), &mut terms), Ok(()));
    assert_eq!(read_word(&mut state, &word("3"), &mut terms), Ok(()));
    assert_eq!(state.coef, "3");
    assert!(state.coef_parsed && !state.mult_appeared);
    assert_eq!(read_word(&mut state, &word("*"), &mut terms), Ok(()));
    assert!(state.mult_appeared && !state.x_appeared);
    assert_eq!(read_word(&mut state, &word("X"), &mut terms), Ok(()));
    assert!(state.x_appeared && state.power == 1 && !state.caret_appeared);
    assert_eq!(read_word(&mut state, &word("^"), &mut terms), Ok(()));
    assert!(state.caret_appeared && !state.power_parsed);
    assert_eq!(read_word(&mut state, &word("2"), &mut terms), Ok(()));
    assert!(state.power_parsed && state.power == 2);
    assert!(terms.is_empty());
    assert_eq!(read_word(&mut state, &word("|"), &mut terms), Ok(()));
    assert_eq!(terms, vec![term(true, "3", 2)]);
    assert_eq!(state, idle());
}

#[test]
fn a_new_state_has_read_nothing() {
    assert_eq!(ParserState::new(), idle());
}

#[test]
fn a_state_is_put_back() {
    let mut state = ParserState {
        negative: true,
        sign_applied: true,
        coef: "12".to_string(),
        coef_parsed: true,
        mult_appeared: true,
        x_appeared: true,
        caret_appeared: true,
        power: 4,
        power_parsed: true,
    };
    initialize_parser_state(&mut state);
    assert_eq!(state, idle());
}

#[test]
fn a_term_is_appended_as_the_state_describes_it() {
    let mut state = idle();
    state.negative = true;
    state.coef = "2.5".to_string();
    state.coef_parsed = true;
    state.power = 3;
    let mut terms = vec![term(false, "1", 0)];
    update_polynomial(&state, &mut terms);
    assert_eq!(terms, vec![term(false, "1", 0), term(true, "2.5", 3)]);
}

#[test]
fn the_end_of_a_term() {
    let mut terms = Vec::new();
    let mut state = idle();
    assert_eq!(finish_term(&state, &mut terms), Ok(()));
    assert!(terms.is_empty());
    state.sign_applied = true;
    assert_eq!(finish_term(&state, &mut terms), Err(Fault::DanglingSign));
    assert!(terms.is_empty());
    state.coef = "1".to_string();
    state.coef_parsed = true;
    assert_eq!(finish_term(&state, &mut terms), Ok(()));
    assert_eq!(terms, vec![term(false, "1", 0)]);
}

#[test]
fn an_equation_has_two_sides() {
    assert_eq!(
        parser("5 * X^0 = 4 * X^0 + 7 * X^1"),
        Ok((vec![term(false, "5", 0)], vec![term(false, "4", 0), term(false, "7", 1)]))
    );
}

#[test]
fn an_equation_may_have_an_empty_side() {
    assert_eq!(parser("= 5"), Ok((vec![], vec![term(false, "5", 0)])));
    assert_eq!(parser("X ="), Ok((vec![term(false, "1", 1)], vec![])));
    assert_eq!(parser("="), Ok((vec![], vec![])));
}

#[test]
fn an_equation_needs_an_equals_sign() {
    assert_eq!(parser("5 + X"), Err(MalformedEquation::MissingEquals));
    assert_eq!(parser(""), Err(MalformedEquation::MissingEquals));
}

#[test]
fn an_equation_has_one_equals_sign_only() {
    assert_eq!(parser("X = 1 = 2"), Err(MalformedEquation::RepeatedEquals));
    assert_eq!(parser("=="), Err(MalformedEquation::RepeatedEquals));
    assert_eq!(parser("+ = + = +"), Err(MalformedEquation::RepeatedEquals));
}

#[test]
fn a_doubled_sign_is_a_fault_of_its_side() {
    assert_eq!(
        parser("5 + + X = 0"),
        Err(MalformedEquation::Left(TermError { fault: Fault::DanglingSign, near: "|".to_string() }))
    );
    assert_eq!(
        parser("0 = 5 + + X"),
        Err(MalformedEquation::Right(TermError {
            fault: Fault::DanglingSign,
            near: "|".to_string()
        }))
    );
}

#[test]
fn the_left_side_is_read_first() {
    assert_eq!(
        parser("2*3 = y"),
        Err(MalformedEquation::Left(TermError {
            fault: Fault::MisplacedNumber,
            near: "3".to_string()
        }))
    );
}
