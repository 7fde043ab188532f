use chalc::lex::chars::LexerChars;
use chalc::lex::error::LexError;
use chalc::lex::Lexer;
use chalc::types::{IntoPeekableExt, Position, Span, Stream};

const ERRORS_CHAL: &str = "# a definition that names no variable\n(var 2 3)\n(+ 1)\n)\n";

const FIZZBUZZ_CHAL: &str = "# counts upward and tags multiples\n(fun fizzbuzz (n)\n  (var i 1)\n  (if (< $i n)\n    ((println $i) ($i (+ $i 1)))))\n(fizzbuzz 100)\n";

const MATH_CHAL: &str = "# operator sampler\n(var a (+ 1 2))\n(var b (- $a 3.5))\n(var c (* $b $b))\n(var d (/ $c 2))\n(var e (% $d 3))\n(var f (^ $e 2))\n(var g (| 5.7 2.3))\n(var h (& 6 3))\n(var i (<< 1 4))\n(var j (>> 16 2))\n(if (< $a $c) (var k 1) (var k 2))\n(if (equal $h 2) (var m \"two\") (var m \"other\"))\n";

const RECURSION_CHAL: &str = "# recursive countdown\n(fun countdown (n)\n  (if (< 0 n)\n    (countdown (- n 1))\n    n))\n(countdown 5)\n";

const STRING_CHAL: &str = "# strings in both quote styles\n(var s \"hello\")\n(var t 'single quoted')\n(append $s \" world\")\n";

const WHITESPACE_CHAL: &str = "# plenty of blank space\n\n\n   \t\t  (var a 1)\n\n  # a comment between expressions\n\r\n   (var b 2)   \n\t(+ $a $b)\n\n";

fn lex_all(src: &str) -> Result<Vec<chalc::lex::token::Token<'_>>, LexError<'_>> {
    Lexer::new(src).tokens()
}

#[test]
pub fn test_eat_whitespace_end_at_non_whitespace() {
    let mut lexer = Lexer::new("  \t\r\n!");
    lexer.eat_whitespace_and_comments();

    // Check last character in buffer
    assert_eq!(lexer.chars.next().unwrap().1, '!');
}

#[test]
pub fn test_eat_whitespace_end_at_end_of_stream() {
    let mut lexer = Lexer::new("  \t\r\n");
    lexer.eat_whitespace_and_comments();

    assert_eq!(lexer.chars.next(), None);
}

#[test]
pub fn test_eat_comment_end_at_non_comment() {
    let mut lexer = Lexer::new("# This is a comment\n# This is another comment\n!");
    lexer.eat_whitespace_and_comments();

    // Check last character in buffer
    assert_eq!(lexer.chars.next().unwrap().1, '!');
}

#[test]
pub fn test_eat_comment_end_at_end_of_stream() {
    let mut lexer = Lexer::new("# This is a comment\n# This is another comment\n");
    lexer.eat_whitespace_and_comments();

    // Check last character in buffer
    assert_eq!(lexer.chars.next(), None);
}

#[test]
pub fn test_eat_whitespace_and_comments() {
    let mut lexer = Lexer::new("# This is a comment\n  # This is another comment\n   \r\t!");
    lexer.eat_whitespace_and_comments();

    // Check last character in buffer
    assert_eq!(lexer.chars.next().unwrap().1, '!');
}

#[test]
pub fn test_eat_ident_end_at_end_of_stream() {
    let mut lexer = Lexer::new("$aei\u{f6}u_0123");
    // Consume leading `$` character
    assert_eq!(lexer.chars.next().unwrap().1, '$');
    // Consume var ident
    let var = lexer
        .eat_ident(Position::default().extend('$'), false)
        .unwrap();

    assert_eq!(var, "aei\u{f6}u_0123");
    // Check last character in buffer
    assert_eq!(lexer.chars.next(), None);
}

#[test]
pub fn test_eat_ident_end_at_non_var() {
    let mut lexer = Lexer::new("$aei\u{f6}u_0123!");
    // Consume leading `$` character
    assert_eq!(lexer.chars.next().unwrap().1, '$');
    // Consume var ident
    let var = lexer
        .eat_ident(Position::default().extend('$'), false)
        .unwrap();
    assert_eq!(lexer.chars.next().unwrap().1, '!');

    // Check last character in buffer
    assert_eq!(var, "aei\u{f6}u_0123");
}

#[test]
pub fn test_eat_ident_has_alpha_or_underscore_fail() {
    let mut lexer = Lexer::new("0");
    // Consume var ident
    let var = lexer.eat_ident(Position::default(), false);
    match var {
        Err(LexError::BadIdent(..)) => {}
        _ => panic!("Expected `LexError::BadIdent(..)`"),
    };

    assert_eq!(lexer.chars.next().unwrap().1, '0');
}

#[test]
pub fn test_eat_string_end_at_end_of_stream() {
    let mut lexer = Lexer::new("\"This is a string\"");
    let beg = Position::default();

    assert_eq!(lexer.chars.next().unwrap().1, '"');
    assert_eq!(lexer.eat_string(beg, '"').unwrap(), "This is a string");
    assert_eq!(lexer.chars.next(), None);
}

#[test]
pub fn test_eat_string_unexpected_eof() {
    let mut lexer = Lexer::new("'This is a bad string");
    let beg = Position::default();

    assert_eq!(lexer.chars.next().unwrap().1, '\'');

    match lexer.eat_string(beg, '\'') {
        Err(LexError::BadString(..)) => {}
        _ => panic!("Expected `LexError::BadString(..)`"),
    };

    assert_eq!(lexer.chars.next(), None);
}

#[test]
pub fn test_eat_string_unexpected_eol() {
    let mut lexer = Lexer::new("'This is a bad string\n'");
    let beg = Position::default();

    assert_eq!(lexer.chars.next().unwrap().1, '\'');

    match lexer.eat_string(beg, '\'') {
        Err(LexError::BadString(..)) => {}
        _ => panic!("Expected `LexError::BadString(..)`"),
    };

    assert_eq!(lexer.chars.next().unwrap().1, '\n');
}

#[test]
pub fn test_eat_number_floating() {
    let mut lexer = Lexer::new("1337.60");
    let beg = Position::default();

    assert_eq!(lexer.chars.next().unwrap().1, '1');
    let spelled = lexer.eat_number(beg).unwrap();
    assert_eq!(spelled.parse::<f64>().unwrap(), 1337.60f64);
}

#[test]
pub fn test_eat_number_whole() {
    let mut lexer = Lexer::new("69420");
    let beg = Position::default();

    assert_eq!(lexer.chars.next().unwrap().1, '6');
    let spelled = lexer.eat_number(beg).unwrap();
    assert_eq!(spelled.parse::<f64>().unwrap(), 69420f64);
}

#[test]
pub fn test_eat_number_bad() {
    let mut lexer = Lexer::new("694.2.0");
    let beg = Position::default();

    assert_eq!(lexer.chars.next().unwrap().1, '6');

    match lexer.eat_number(beg) {
        Err(LexError::BadNumber(..)) => {}
        _ => panic!("Expected `LexError::BadNumber(..)`"),
    };

    assert_eq!(lexer.chars.next(), None);
}

#[test]
pub fn test_lex_errors_chal() {
    lex_all(ERRORS_CHAL).unwrap();
}

#[test]
pub fn test_lex_fizzbuzz_chal() {
    lex_all(FIZZBUZZ_CHAL).unwrap();
}

#[test]
pub fn test_lex_math_chal() {
    lex_all(MATH_CHAL).unwrap();
}

#[test]
pub fn test_lex_recursion_chal() {
    lex_all(RECURSION_CHAL).unwrap();
}

#[test]
pub fn test_lex_string_chal() {
    lex_all(STRING_CHAL).unwrap();
}

#[test]
pub fn test_lex_whitespace_chal() {
    lex_all(WHITESPACE_CHAL).unwrap();
}

#[test]
pub fn test_lex_stress() {
    let merged = [
        ERRORS_CHAL,
        FIZZBUZZ_CHAL,
        MATH_CHAL,
        RECURSION_CHAL,
        STRING_CHAL,
        WHITESPACE_CHAL,
    ]
    .concat()
    .repeat(1_000);

    lex_all(&merged).unwrap();
}

#[test]
pub fn test_peekable_lookahead_leaves_stream_intact() {
    let mut peekable = LexerChars::new("ab").peekable_ext();
    assert_eq!(peekable.peek().unwrap().1, 'a');
    assert_eq!(peekable.peek().unwrap().1, 'a');
    assert_eq!(peekable.next().unwrap().1, 'a');
    let took = peekable.next_if(|pc: &(Position, char)| pc.1 == 'b');
    assert_eq!(took.unwrap().1, 'b');
    assert!(peekable.peek().is_none());
    assert!(peekable.next().is_none());
}

#[test]
pub fn test_position_extend_tracks_lines_and_columns() {
    let p = Position::default();
    let p = p.extend('a');
    assert_eq!((p.line, p.column, p.offset), (1, 1, 1));
    let p = p.extend('\n');
    assert_eq!((p.line, p.column, p.offset), (2, 1, 2));
    let p = p.extend_str("xy\nz");
    assert_eq!((p.line, p.column, p.offset), (3, 2, 6));
}

#[test]
pub fn test_span_covers_its_characters() {
    let buf = "hello there";
    let beg = Position::default().extend_str("he");
    let end = Position::default().extend_str("hello");
    let span = Span::new(beg, end, buf);
    assert_eq!(span.as_str(), "llo");
    let empty = Span::eof();
    assert_eq!(empty.beg.line, 1);
}
