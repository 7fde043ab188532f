use chalc::tokens::error::TokenizeError;
use chalc::tokens::Tokenizer;
use chalc::types::{Position, Stream};

const ERRORS_CHAL: &str = "# a definition that names no variable\n(var 2 3)\n(+ 1)\n)\n";

const FIZZBUZZ_CHAL: &str = "# counts upward and tags multiples\n(fun fizzbuzz (n)\n  (var i 1)\n  (if (< $i n)\n    ((println $i) ($i (+ $i 1)))))\n(fizzbuzz 100)\n";

const MATH_CHAL: &str = "# operator sampler\n(var a (+ 1 2))\n(var b (- $a 3.5))\n(var c (* $b $b))\n(var d (/ $c 2))\n(var e (% $d 3))\n(var f (^ $e 2))\n(var g (| 5.7 2.3))\n(var h (& 6 3))\n(var i (<< 1 4))\n(var j (>> 16 2))\n(if (< $a $c) (var k 1) (var k 2))\n(if (equal $h 2) (var m \"two\") (var m \"other\"))\n";

const RECURSION_CHAL: &str = "# recursive countdown\n(fun countdown (n)\n  (if (< 0 n)\n    (countdown (- n 1))\n    n))\n(countdown 5)\n";

const STRING_CHAL: &str = "# strings in both quote styles\n(var s \"hello\")\n(var t 'single quoted')\n(append $s \" world\")\n";

const WHITESPACE_CHAL: &str = "# plenty of blank space\n\n\n   \t\t  (var a 1)\n\n  # a comment between expressions\n\r\n   (var b 2)   \n\t(+ $a $b)\n\n";

fn tokenize_all(src: &str) -> Result<Vec<chalc::lex::token::Token<'_>>, TokenizeError<'_>> {
    Tokenizer::new(src).tokens()
}

#[test]
pub fn tokens_test_eat_whitespace_end_at_non_whitespace() {
    let mut tokenizer = Tokenizer::new("  \t\r\n!");
    tokenizer.eat_whitespace_and_comments();

    let (_, last) = tokenizer.chars.next().unwrap();
    assert_eq!(last, '!');
}

#[test]
pub fn test_eat_whitespace_end_end_of_stream() {
    let mut tokenizer = Tokenizer::new("  \t\r\n");
    tokenizer.eat_whitespace_and_comments();

    assert_eq!(tokenizer.chars.next(), None);
}

#[test]
pub fn tokenizer_eat_comment_end_at_non_comment() {
    let mut tokenizer = Tokenizer::new("# This is a comment\n# This is another comment\n!");
    tokenizer.eat_whitespace_and_comments();

    assert_eq!(tokenizer.chars.next().unwrap().1, '!');
}

#[test]
pub fn tokenizer_eat_comment_end_at_end_of_stream() {
    let mut tokenizer = Tokenizer::new("# This is a comment\n# This is another comment\n");
    tokenizer.eat_whitespace_and_comments();

    assert_eq!(tokenizer.chars.next(), None);
}

#[test]
pub fn tokenizer_eat_ident_end_at_end_of_stream() {
    let mut tokenizer = Tokenizer::new("$aei\u{f6}u_0123");
    assert_eq!(tokenizer.chars.next().unwrap().1, '$');
    let var = tokenizer
        .eat_ident(Position::default().extend('$'), false)
        .unwrap();

    assert_eq!(var, "aei\u{f6}u_0123");
    assert_eq!(tokenizer.chars.next(), None);
}

#[test]
pub fn tokenizer_eat_ident_has_alpha_or_underscore_fail() {
    let mut tokenizer = Tokenizer::new("0");
    let var = tokenizer.eat_ident(Position::default(), false);
    match var {
        Err(TokenizeError::BadIdent(..)) => {}
        _ => panic!("Expected `TokenizeError::BadIdent(..)`"),
    };

    assert_eq!(tokenizer.chars.next().unwrap().1, '0');
}

#[test]
pub fn tokenizer_eat_string_end_at_end_of_stream() {
    let mut tokenizer = Tokenizer::new("\"This is a string\"");
    let beg = Position::default();

    assert_eq!(tokenizer.chars.next().unwrap().1, '"');
    assert_eq!(tokenizer.eat_string(beg, '"').unwrap(), "This is a string");
    assert_eq!(tokenizer.chars.next(), None);
}

#[test]
pub fn tokenizer_eat_string_unexpected_eof() {
    let mut tokenizer = Tokenizer::new("'This is a bad string");
    let beg = Position::default();

    assert_eq!(tokenizer.chars.next().unwrap().1, '\'');

    match tokenizer.eat_string(beg, '\'') {
        Err(TokenizeError::BadString(..)) => {}
        _ => panic!("Expected `TokenizeError::BadString(..)`"),
    };

    assert_eq!(tokenizer.chars.next(), None);
}

#[test]
pub fn tokenizer_eat_string_unexpected_eol() {
    let mut tokenizer = Tokenizer::new("'This is a bad string\n'");
    let beg = Position::default();

    assert_eq!(tokenizer.chars.next().unwrap().1, '\'');

    match tokenizer.eat_string(beg, '\'') {
        Err(TokenizeError::BadString(..)) => {}
        _ => panic!("Expected `TokenizeError::BadString(..)`"),
    };

    assert_eq!(tokenizer.chars.next().unwrap().1, '\n');
}

#[test]
pub fn tokenizer_next_if_takes_only_matching() {
    let mut chars = chalc::tokens::chars::TokenizerChars::new("ab");
    let took = chars.next_if(|pc: &(Position, char)| pc.1 == 'a');
    assert_eq!(took.unwrap().1, 'a');
    let refused = chars.next_if(|pc: &(Position, char)| pc.1 == 'x');
    assert!(refused.is_none());
    assert_eq!(chars.next().unwrap().1, 'b');
}

#[test]
pub fn test_tokenize_errors_chal() {
    tokenize_all(ERRORS_CHAL).unwrap();
}

#[test]
pub fn test_tokenize_fizzbuzz_chal() {
    tokenize_all(FIZZBUZZ_CHAL).unwrap();
}

#[test]
pub fn test_tokenize_math_chal() {
    tokenize_all(MATH_CHAL).unwrap();
}

#[test]
pub fn test_tokenize_recursion_chal() {
    tokenize_all(RECURSION_CHAL).unwrap();
}

#[test]
pub fn test_tokenize_string_chal() {
    tokenize_all(STRING_CHAL).unwrap();
}

#[test]
pub fn test_tokenize_whitespace_chal() {
    tokenize_all(WHITESPACE_CHAL).unwrap();
}

#[test]
pub fn test_tokenize_stress() {
    let merged = [
        ERRORS_CHAL,
        FIZZBUZZ_CHAL,
        MATH_CHAL,
        RECURSION_CHAL,
        STRING_CHAL,
        WHITESPACE_CHAL,
    ]
    .concat()
    .repeat(1_000);

    tokenize_all(&merged).unwrap();
}

#[test]
pub fn mod_test_eat_whitespace_end_at_non_whitespace() {
    let mut tokenizer = Tokenizer::new("  \t\r\n!");
    tokenizer.eat_whitespace_and_comments();

    assert_eq!(tokenizer.chars.next().unwrap().1, '!');
}

#[test]
pub fn mod_test_eat_whitespace_end_at_end_of_stream() {
    let mut tokenizer = Tokenizer::new("  \t\r\n");
    tokenizer.eat_whitespace_and_comments();

    assert_eq!(tokenizer.chars.next(), None);
}

#[test]
pub fn mod_test_eat_comment_end_at_non_comment() {
    let mut tokenizer = Tokenizer::new("# This is a comment\n# This is another comment\n!");
    tokenizer.eat_whitespace_and_comments();

    assert_eq!(tokenizer.chars.next().unwrap().1, '!');
}

#[test]
pub fn mod_test_eat_comment_end_at_end_of_stream() {
    let mut tokenizer = Tokenizer::new("# This is a comment\n# This is another comment\n");
    tokenizer.eat_whitespace_and_comments();

    assert_eq!(tokenizer.chars.next(), None);
}

#[test]
pub fn mod_test_eat_whitespace_and_comments() {
    let mut tokenizer = Tokenizer::new("# This is a comment\n  # This is another comment\n   \r\t!");
    tokenizer.eat_whitespace_and_comments();

    assert_eq!(tokenizer.chars.next().unwrap().1, '!');
}

#[test]
pub fn mod_test_eat_ident_end_at_end_of_stream() {
    let mut tokenizer = Tokenizer::new("$aei\u{f6}u_0123");
    assert_eq!(tokenizer.chars.next().unwrap().1, '$');
    let var = tokenizer
        .eat_ident(Position::default().extend('$'), false)
        .unwrap();

    assert_eq!(var, "aei\u{f6}u_0123");
    assert_eq!(tokenizer.chars.next(), None);
}

#[test]
pub fn mod_test_eat_ident_end_at_non_var() {
    let mut tokenizer = Tokenizer::new("$aei\u{f6}u_0123!");
    assert_eq!(tokenizer.chars.next().unwrap().1, '$');
    let var = tokenizer
        .eat_ident(Position::default().extend('$'), false)
        .unwrap();
    assert_eq!(tokenizer.chars.next().unwrap().1, '!');

    assert_eq!(var, "aei\u{f6}u_0123");
}

#[test]
pub fn mod_test_eat_ident_has_alpha_or_underscore_fail() {
    let mut tokenizer = Tokenizer::new("0");
    let var = tokenizer.eat_ident(Position::default(), false);
    match var {
        Err(TokenizeError::BadIdent(..)) => {}
        _ => panic!("Expected `TokenizeError::BadIdent(..)`"),
    };

    assert_eq!(tokenizer.chars.next().unwrap().1, '0');
}

#[test]
pub fn mod_test_eat_string_end_at_end_of_stream() {
    let mut tokenizer = Tokenizer::new("\"This is a string\"");
    let beg = Position::default();

    assert_eq!(tokenizer.chars.next().unwrap().1, '"');
    assert_eq!(tokenizer.eat_string(beg, '"').unwrap(), "This is a string");
    assert_eq!(tokenizer.chars.next(), None);
}

#[test]
pub fn mod_test_eat_string_unexpected_eof() {
    let mut tokenizer = Tokenizer::new("'This is a bad string");
    let beg = Position::default();

    assert_eq!(tokenizer.chars.next().unwrap().1, '\'');

    match tokenizer.eat_string(beg, '\'') {
        Err(TokenizeError::BadString(..)) => {}
        _ => panic!("Expected `TokenizeError::BadString(..)`"),
    };

    assert_eq!(tokenizer.chars.next(), None);
}

#[test]
pub fn mod_test_eat_string_unexpected_eol() {
    let mut tokenizer = Tokenizer::new("'This is a bad string\n'");
    let beg = Position::default();

    assert_eq!(tokenizer.chars.next().unwrap().1, '\'');

    match tokenizer.eat_string(beg, '\'') {
        Err(TokenizeError::BadString(..)) => {}
        _ => panic!("Expected `TokenizeError::BadString(..)`"),
    };

    assert_eq!(tokenizer.chars.next().unwrap().1, '\n');
}

#[test]
pub fn mod_test_eat_number_floating() {
    let mut tokenizer = Tokenizer::new("1337.60");
    let beg = Position::default();

    assert_eq!(tokenizer.chars.next().unwrap().1, '1');
    let spelled = tokenizer.eat_number(beg).unwrap();
    assert_eq!(spelled.parse::<f64>().unwrap(), 1337.60f64);
}

#[test]
pub fn mod_test_eat_number_whole() {
    let mut tokenizer = Tokenizer::new("69420");
    let beg = Position::default();

    assert_eq!(tokenizer.chars.next().unwrap().1, '6');
    let spelled = tokenizer.eat_number(beg).unwrap();
    assert_eq!(spelled.parse::<f64>().unwrap(), 69420f64);
}

#[test]
pub fn mod_test_eat_number_bad() {
    let mut tokenizer = Tokenizer::new("694.2.0");
    let beg = Position::default();

    assert_eq!(tokenizer.chars.next().unwrap().1, '6');

    match tokenizer.eat_number(beg) {
        Err(TokenizeError::BadNumber(..)) => {}
        _ => panic!("Expected `TokenizeError::BadNumber(..)`"),
    };

    assert_eq!(tokenizer.chars.next(), None);
}
