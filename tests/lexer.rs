use milstian_templates::{DataType, LexerElement, LexerPosition, LexerToken, Template};
use std::collections::HashMap;

fn el(char_start: usize, char_end: usize, token: LexerToken) -> LexerElement {
    LexerElement {
        position: LexerPosition { char_end, char_start, line_end: 1, line_start: 1 },
        token,
    }
}

fn var(name: &str) -> LexerToken {
    LexerToken::Variable(name.to_string())
}

#[test]
fn test_process() {
    let template = Template::new("Random {% echo(var) %} More text here {{ \"random string\" }}".to_string(), None);
    assert_eq!(template.process(), Ok("Random  More text here ".to_string()));
}

#[test]
fn test_parse() {
    let mut elements: Vec<LexerElement> = Vec::new();
    elements.push(LexerElement {
        position: LexerPosition { char_end: 7, char_start: 0, line_end: 1, line_start: 1 },
        token: LexerToken::Inline("Random ".to_string()),
    });
    let expected_string = "Random ".to_string();
    let actual_string = Template::parse(elements, &None).unwrap();
    assert_eq!(actual_string, expected_string);
}

#[test]
fn test_lex() {
    let lexed_tokens = Template::new("Random".to_string(), None).lex().unwrap();
    let expected_lexed_tokens = vec![el(0, 6, LexerToken::Inline("Random".to_string()))];
    assert_eq!(lexed_tokens, expected_lexed_tokens);

    let lexed_tokens = Template::new(
        "Random {% echo(var) %} More text here {{ \"random string\" }}".to_string(),
        None,
    )
    .lex()
    .unwrap();
    let expected_lexed_tokens = vec![
        el(0, 7, LexerToken::Inline("Random ".to_string())),
        el(7, 10, LexerToken::OpenTag),
        el(10, 14, LexerToken::Call("echo".to_string())),
        el(14, 15, LexerToken::OpenParenthesis),
        el(15, 18, var("var")),
        el(18, 19, LexerToken::CloseParenthesis),
        el(19, 22, LexerToken::CloseTag),
        el(22, 38, LexerToken::Inline(" More text here ".to_string())),
        el(38, 41, LexerToken::OpenTagWithEcho),
        el(41, 56, LexerToken::DoubleQuotedString("random string".to_string())),
        el(56, 59, LexerToken::CloseTagWithEcho),
    ];
    assert_eq!(lexed_tokens, expected_lexed_tokens);

    let lexed_tokens = Template::new(
        "{% if a > b { echo(a); } else { echo(b); } %}".to_string(),
        None,
    )
    .lex()
    .unwrap();
    let expected_lexed_tokens = vec![
        el(0, 3, LexerToken::OpenTag),
        el(3, 5, LexerToken::If),
        el(6, 7, var("a")),
        el(8, 9, LexerToken::GreaterThan),
        el(10, 11, var("b")),
        el(12, 13, LexerToken::OpenCurlyBracket),
        el(14, 18, LexerToken::Call("echo".to_string())),
        el(18, 19, LexerToken::OpenParenthesis),
        el(19, 20, var("a")),
        el(20, 21, LexerToken::CloseParenthesis),
        el(21, 22, LexerToken::Semicolon),
        el(23, 24, LexerToken::CloseCurlyBracket),
        el(25, 29, LexerToken::Else),
        el(30, 31, LexerToken::OpenCurlyBracket),
        el(32, 36, LexerToken::Call("echo".to_string())),
        el(36, 37, LexerToken::OpenParenthesis),
        el(37, 38, var("b")),
        el(38, 39, LexerToken::CloseParenthesis),
        el(39, 40, LexerToken::Semicolon),
        el(41, 42, LexerToken::CloseCurlyBracket),
        el(42, 45, LexerToken::CloseTag),
    ];
    assert_eq!(lexed_tokens, expected_lexed_tokens);

    let lexed_tokens = Template::new(
        "{% a = 1; a++; a--; b = 3; echo(a/3); echo(\"was here\"); (a == b); a = 1.0; foreach (a as b) {} a <= b; b >= a; a || b; a && b; a - b; a + b; a * b; a <> b %}".to_string(),
        None,
    )
    .lex()
    .unwrap();
    let expected_lexed_tokens = vec![
        el(0, 3, LexerToken::OpenTag),
        el(3, 4, var("a")),
        el(5, 6, LexerToken::Assign),
        el(7, 8, LexerToken::Integer("1".to_string())),
        el(8, 9, LexerToken::Semicolon),
        el(10, 11, var("a")),
        el(11, 13, LexerToken::AddOne),
        el(13, 14, LexerToken::Semicolon),
        el(15, 16, var("a")),
        el(16, 18, LexerToken::SubtractOne),
        el(18, 19, LexerToken::Semicolon),
        el(20, 21, var("b")),
        el(22, 23, LexerToken::Assign),
        el(24, 25, LexerToken::Integer("3".to_string())),
        el(25, 26, LexerToken::Semicolon),
        el(27, 31, LexerToken::Call("echo".to_string())),
        el(31, 32, LexerToken::OpenParenthesis),
        el(32, 33, var("a")),
        el(33, 34, LexerToken::Division),
        el(34, 35, LexerToken::Integer("3".to_string())),
        el(35, 36, LexerToken::CloseParenthesis),
        el(36, 37, LexerToken::Semicolon),
        el(38, 42, LexerToken::Call("echo".to_string())),
        el(42, 43, LexerToken::OpenParenthesis),
        el(43, 53, LexerToken::DoubleQuotedString("was here".to_string())),
        el(53, 54, LexerToken::CloseParenthesis),
        el(54, 55, LexerToken::Semicolon),
        el(56, 57, LexerToken::OpenParenthesis),
        el(57, 58, var("a")),
        el(59, 61, LexerToken::Equals),
        el(62, 63, var("b")),
        el(63, 64, LexerToken::CloseParenthesis),
        el(64, 65, LexerToken::Semicolon),
        el(66, 67, var("a")),
        el(68, 69, LexerToken::Assign),
        el(70, 73, LexerToken::Float("1.0".to_string())),
        el(73, 74, LexerToken::Semicolon),
        el(75, 82, LexerToken::ForEach),
        el(83, 84, LexerToken::OpenParenthesis),
        el(84, 85, var("a")),
        el(86, 88, LexerToken::As),
        el(89, 90, var("b")),
        el(90, 91, LexerToken::CloseParenthesis),
        el(92, 93, LexerToken::OpenCurlyBracket),
        el(93, 94, LexerToken::CloseCurlyBracket),
        el(95, 96, var("a")),
        el(97, 99, LexerToken::LesserOrEqualThan),
        el(100, 101, var("b")),
        el(101, 102, LexerToken::Semicolon),
        el(103, 104, var("b")),
        el(105, 107, LexerToken::GreaterOrEqualThan),
        el(108, 109, var("a")),
        el(109, 110, LexerToken::Semicolon),
        el(111, 112, var("a")),
        el(113, 115, LexerToken::Or),
        el(116, 117, var("b")),
        el(117, 118, LexerToken::Semicolon),
        el(119, 120, var("a")),
        el(121, 123, LexerToken::And),
        el(124, 125, var("b")),
        el(125, 126, LexerToken::Semicolon),
        el(127, 128, var("a")),
        el(129, 130, LexerToken::Subtraction),
        el(131, 132, var("b")),
        el(132, 133, LexerToken::Semicolon),
        el(134, 135, var("a")),
        el(136, 137, LexerToken::Addition),
        el(138, 139, var("b")),
        el(139, 140, LexerToken::Semicolon),
        el(141, 142, var("a")),
        el(143, 144, LexerToken::Multiplication),
        el(145, 146, var("b")),
        el(146, 147, LexerToken::Semicolon),
        el(148, 149, var("a")),
        el(150, 152, LexerToken::LesserOrGreaterThan),
        el(153, 154, var("b")),
        el(154, 157, LexerToken::CloseTag),
    ];
    assert_eq!(lexed_tokens, expected_lexed_tokens);
}

#[test]
fn test_set_datum() {
    let mut map = HashMap::new();
    map.insert("n".to_string(), DataType::Integer(3));
    let template = Template::new("n is {{ n }}".to_string(), Some(map));
    assert_eq!(template.process(), Ok("n is ".to_string()));
}

#[test]
fn test_set_data() {
    let mut map = HashMap::new();
    map.insert("pi".to_string(), DataType::Float(3.25f32.to_bits()));
    map.insert("name".to_string(), DataType::String("x".to_string()));
    map.insert("list".to_string(), DataType::Vector(Box::new(DataType::Integer(1))));
    let template = Template::new("plain".to_string(), Some(map));
    assert_eq!(template.process(), Ok("plain".to_string()));
}

#[test]
fn test_set_form() {
    let template = Template::new("{% if a %}".to_string(), None);
    assert_eq!(
        template.lex().unwrap().into_iter().map(|e| e.token).collect::<Vec<_>>(),
        vec![LexerToken::OpenTag, LexerToken::If, var("a"), LexerToken::CloseTag]
    );
}

#[test]
fn test_set_file() {
    let template = Template::new(String::new(), None);
    assert_eq!(template.lex().unwrap(), vec![el(0, 0, LexerToken::Inline(String::new()))]);
    assert_eq!(template.process(), Ok(String::new()));
}
