use rpncalc::calculator::{Calculator, Evaluation, Op, Primary};
use rpncalc::input::{
    classify, process, same_text, tokenize, Command, Scanner, Step, WORKING_PRECISION,
};
use rpncalc::value::{ComplexValue, FloatValue, Magnitude};

fn typed(n: u8) -> ComplexValue {
    let magnitude = Magnitude::Finite { significand: vec![n], exponent: 0 };
    ComplexValue::from_real(
        FloatValue::new(WORKING_PRECISION, false, magnitude).expect("an odd number"),
    )
}

fn typed_stack(values: &[u8]) -> Calculator {
    let mut calc = Calculator::new();
    for v in values {
        calc.push(typed(*v));
    }
    calc
}

fn typed_contents(calc: &Calculator) -> Vec<ComplexValue> {
    (0..calc.len()).map(|i| calc.get(i).expect("below the length").clone()).collect()
}

#[test]
fn working_precision_is_1024_bits() {
    assert_eq!(WORKING_PRECISION, 1024);
}

#[test]
fn tokenize_cuts_numbers_and_single_characters() {
    assert_eq!(tokenize("3 4 +"), vec!["3", "4", "+"]);
    assert_eq!(tokenize("3 4+"), vec!["3", "4", "+"]);
    assert_eq!(tokenize("12.5 0.25 *"), vec!["12.5", "0.25", "*"]);
    assert_eq!(tokenize("1 2 3 + -"), vec!["1", "2", "3", "+", "-"]);
}

#[test]
fn tokenize_passes_over_white_space() {
    assert_eq!(tokenize("  3\t4 \u{a0} +  "), vec!["3", "4", "+"]);
    assert_eq!(tokenize(""), Vec::<String>::new());
    assert_eq!(tokenize("   "), Vec::<String>::new());
}

#[test]
fn tokenize_passes_over_line_feeds() {
    assert_eq!(tokenize("3 4 +\n"), vec!["3", "4", "+"]);
    assert_eq!(tokenize("12\n34"), vec!["1234"]);
    assert_eq!(tokenize("\n"), Vec::<String>::new());
}

#[test]
fn tokenize_reads_a_minus_after_white_space_as_a_sign() {
    assert_eq!(tokenize("-5"), vec!["-5"]);
    assert_eq!(tokenize("3 -4"), vec!["3", "-4"]);
    assert_eq!(tokenize("3-4"), vec!["3", "-", "4"]);
    assert_eq!(tokenize("3 - 4"), vec!["3", "-", "4"]);
    assert_eq!(tokenize("3 4 -"), vec!["3", "4", "-"]);
}

#[test]
fn tokenize_joins_adjacent_number_characters() {
    assert_eq!(tokenize("1.2.3"), vec!["1.2.3"]);
    assert_eq!(tokenize("3 -4-5"), vec!["3", "-4", "-", "5"]);
    assert_eq!(tokenize("1 2"), vec!["1", "2"]);
    assert_eq!(tokenize("- -"), vec!["-", "-"]);
}

#[test]
fn tokenize_cuts_words_into_characters() {
    assert_eq!(tokenize("dup"), vec!["d", "u", "p"]);
    assert_eq!(tokenize("1e5"), vec!["1", "e", "5"]);
    assert_eq!(tokenize("2d"), vec!["2", "d"]);
    assert_eq!(tokenize("d2"), vec!["d", "2"]);
}

#[test]
fn same_text_compares_character_by_character() {
    assert!(same_text("", ""));
    assert!(same_text("swap", "swap"));
    assert!(!same_text("swap", "swat"));
    assert!(!same_text("swap", "swa"));
    assert!(!same_text("s", ""));
    assert!(same_text("µ1", "µ1"));
    assert!(!same_text("é", "e"));
}

#[test]
fn classify_reads_each_command() {
    assert_eq!(classify("q"), Command::Quit);
    assert_eq!(classify("quit"), Command::Quit);
    assert_eq!(classify("d"), Command::Drop);
    assert_eq!(classify("drop"), Command::Drop);
    assert_eq!(classify("p"), Command::Dup);
    assert_eq!(classify("dup"), Command::Dup);
    assert_eq!(classify("s"), Command::Swap);
    assert_eq!(classify("swap"), Command::Swap);
}

#[test]
fn classify_reads_each_operator() {
    assert_eq!(classify("+"), Command::Apply(Op::ADD));
    assert_eq!(classify("-"), Command::Apply(Op::SUBTRACT));
    assert_eq!(classify("*"), Command::Apply(Op::MULTIPLY));
    assert_eq!(classify("/"), Command::Apply(Op::DIVIDE));
    assert_eq!(classify("^"), Command::Apply(Op::EXP));
}

#[test]
fn classify_takes_anything_else_for_a_number() {
    assert_eq!(classify("12.5"), Command::Number);
    assert_eq!(classify("-3"), Command::Number);
    assert_eq!(classify(""), Command::Number);
    assert_eq!(classify("Q"), Command::Number);
    assert_eq!(classify("sin"), Command::Number);
    assert_eq!(classify("++"), Command::Number);
}

#[test]
fn process_quits_without_touching_the_stack() {
    let mut calc = typed_stack(&[1, 3]);
    assert_eq!(process(&mut calc, "q"), Step::Quit);
    assert_eq!(process(&mut calc, "quit"), Step::Quit);
    assert_eq!(typed_contents(&calc), vec![typed(1), typed(3)]);
}

#[test]
fn process_carries_out_the_stack_commands() {
    let mut calc = typed_stack(&[1, 3]);
    assert_eq!(process(&mut calc, "s"), Step::Done);
    assert_eq!(typed_contents(&calc), vec![typed(3), typed(1)]);
    assert_eq!(process(&mut calc, "p"), Step::Done);
    assert_eq!(typed_contents(&calc), vec![typed(3), typed(1), typed(1)]);
    assert_eq!(process(&mut calc, "d"), Step::Done);
    assert_eq!(process(&mut calc, "drop"), Step::Done);
    assert_eq!(typed_contents(&calc), vec![typed(3)]);
    assert_eq!(process(&mut calc, "swap"), Step::Done);
    assert_eq!(process(&mut calc, "dup"), Step::Done);
    assert_eq!(typed_contents(&calc), vec![typed(3), typed(3)]);
}

#[test]
fn process_hands_back_the_evaluation_of_an_operator() {
    let mut calc = typed_stack(&[1, 3, 5]);
    assert_eq!(
        process(&mut calc, "-"),
        Step::Evaluate(Evaluation {
            primary: Primary::Difference(typed(3), typed(5)),
            reciprocal: false
        })
    );
    assert_eq!(typed_contents(&calc), vec![typed(1)]);
}

#[test]
fn process_reports_a_stack_that_is_too_short() {
    let mut empty = Calculator::new();
    assert_eq!(process(&mut empty, "+"), Step::StackEmpty);
    assert_eq!(empty.len(), 0);
    let mut one = typed_stack(&[7]);
    assert_eq!(process(&mut one, "^"), Step::StackEmpty);
    assert_eq!(typed_contents(&one), vec![typed(7)]);
}

#[test]
fn process_leaves_numbers_to_be_read() {
    let mut calc = typed_stack(&[7]);
    assert_eq!(process(&mut calc, "12.5"), Step::Number);
    assert_eq!(process(&mut calc, "x"), Step::Number);
    assert_eq!(typed_contents(&calc), vec![typed(7)]);
}

#[test]
fn tokens_hold_the_line_without_white_space() {
    for line in ["3 4+ -5", "  1.5\t2 *\n", "dup 3-4", "", " \n "] {
        let tokens = tokenize(line);
        let kept: String = line.chars().filter(|c| !c.is_whitespace()).collect();
        assert_eq!(tokens.concat(), kept);
        assert!(tokens.iter().all(|token| !token.is_empty()));
    }
}

#[test]
fn tokenize_takes_any_other_character_for_a_token() {
    assert_eq!(tokenize("2µ3"), vec!["2", "µ", "3"]);
    assert_eq!(tokenize("π\u{2003}−1"), vec!["π", "−", "1"]);
}

#[test]
fn scanner_starts_after_white_space_with_nothing_read() {
    let scanner = Scanner::new();
    assert!(scanner.tokens.is_empty());
    assert_eq!(scanner.current, "");
    assert!(!scanner.in_number);
    assert!(scanner.after_space);
    assert_eq!(Scanner::new().finish(), Vec::<String>::new());
}

#[test]
fn scanner_step_goes_on_with_a_number() {
    let scanner = Scanner::new().step('1', false).step('.', false).step('5', false);
    assert!(scanner.tokens.is_empty());
    assert_eq!(scanner.current, "1.5");
    assert!(scanner.in_number);
    assert!(!scanner.after_space);
}

#[test]
fn scanner_step_ends_the_token_before_another_character() {
    let scanner = Scanner::new().step('1', false).step('+', false);
    assert_eq!(scanner.tokens, vec!["1"]);
    assert_eq!(scanner.current, "+");
    assert!(!scanner.in_number);
    let scanner = scanner.step('*', false);
    assert_eq!(scanner.tokens, vec!["1", "+"]);
    assert_eq!(scanner.current, "*");
}

#[test]
fn scanner_step_keeps_white_characters_out() {
    let scanner = Scanner::new().step('1', false).step('x', true);
    assert_eq!(scanner.tokens, vec!["1"]);
    assert_eq!(scanner.current, "");
    assert!(scanner.after_space);
    let scanner = scanner.step('-', false).step('2', false).step('-', false);
    assert_eq!(scanner.tokens, vec!["1", "-2"]);
    assert_eq!(scanner.current, "-");
    assert_eq!(scanner.finish(), vec!["1", "-2", "-"]);
}
