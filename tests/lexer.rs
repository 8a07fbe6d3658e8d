use beach::lst::{Keyword, LexFault, Symbol};
use beach::parse_string_file;
use beach::utils::{Bigint, ByteReader, ReadFault, StringReader};

fn lex(text: &str) -> Vec<Symbol> {
    parse_string_file(text.to_string()).unwrap().symbols
}

#[test]
fn maximal_munch_keeps_whole_words() {
    assert_eq!(lex("mainline"), vec![Symbol::Label("mainline".to_string())]);
    assert_eq!(lex("main"), vec![Symbol::Keyword(Keyword::Kmain)]);
}

#[test]
fn operator_table() {
    assert_eq!(lex("=>"), vec![Symbol::Alias]);
    assert_eq!(lex("=>!"), vec![Symbol::ExportedAlias]);
    assert_eq!(lex("=="), vec![Symbol::Equals]);
    assert_eq!(lex("!="), vec![Symbol::DoesNotEqual]);
    assert_eq!(lex("!!"), vec![Symbol::Compiler]);
    assert_eq!(lex("!"), vec![Symbol::LogicNot]);
    assert_eq!(lex("="), vec![Symbol::Assign]);
    assert_eq!(lex("** * && & ^^ ^ -> - <- <= << < >= >> >"), vec![
        Symbol::Power,
        Symbol::Multiply,
        Symbol::LogicAnd,
        Symbol::BitAnd,
        Symbol::LogicXor,
        Symbol::BitXor,
        Symbol::Becomes,
        Symbol::Subtract,
        Symbol::Parent,
        Symbol::LessThanOrEqual,
        Symbol::LeftShift,
        Symbol::LessThan,
        Symbol::MoreThanOrEqual,
        Symbol::RightShift,
        Symbol::MoreThan,
    ]);
}

#[test]
fn string_keeps_structural_characters() {
    assert_eq!(
        lex("stdout(\"hi; there\");"),
        vec![
            Symbol::Label("stdout".to_string()),
            Symbol::OpenParenthesis,
            Symbol::String("hi; there".to_string()),
            Symbol::CloseParenthesis,
            Symbol::PhraseEnd,
        ]
    );
    assert_eq!(lex("\"a\\\"b\""), vec![Symbol::String("a\\\"b".to_string())]);
}

#[test]
fn comments() {
    assert_eq!(lex("// note\nx"), vec![Symbol::Comment(" note".to_string()), Symbol::Label("x".to_string())]);
    assert_eq!(lex("/* a * b */y"), vec![Symbol::Comments(" a * b ".to_string()), Symbol::Label("y".to_string())]);
}

#[test]
fn pipes_and_closures() {
    assert_eq!(lex("| ||"), vec![Symbol::BitOr, Symbol::LogicOr]);
    assert_eq!(
        lex("|a, b|"),
        vec![Symbol::Closure(vec![Symbol::Label("a".to_string()), Symbol::Also, Symbol::Label("b".to_string())])]
    );
}

#[test]
fn numbers_become_integers() {
    assert_eq!(lex("42"), vec![Symbol::Integer(Bigint::from_u8(42))]);
    assert_eq!(lex("4x"), vec![Symbol::Label("4x".to_string())]);
}

#[test]
fn unterminated_constructs_fail() {
    assert_eq!(parse_string_file("\"open".to_string()).unwrap_err(), LexFault::UnterminatedString);
    assert_eq!(parse_string_file("/* open".to_string()).unwrap_err(), LexFault::UnterminatedComment);
    assert_eq!(parse_string_file("|open".to_string()).unwrap_err(), LexFault::UnterminatedClosure);
}

#[test]
fn empty_and_blank_text() {
    assert_eq!(lex(""), vec![]);
    assert_eq!(lex(" \t\n "), vec![]);
}

#[test]
fn reader_words_and_lines() {
    let mut r = StringReader::from_string("ab;cd\r\nef".to_string());
    assert_eq!(r.peek_word(), "ab");
    assert_eq!(r.read_word(), "ab");
    assert_eq!(r.read_char(), Some(';'));
    assert_eq!(r.read_line(), "cd");
    assert_eq!(r.peek_char(), Some('e'));
    assert_eq!(r.read_until('x'), None);
    assert_eq!(r.read_char(), None);
    let mut w = StringReader::from_string("  q".to_string());
    assert_eq!(w.next_non_whitespace_char(), Some('q'));
}

#[test]
fn reader_from_bytes() {
    let mut bytes = ByteReader::from_bytes("h\u{e9}!".as_bytes().to_vec());
    let mut r = StringReader::from_reader(&mut bytes).unwrap();
    assert_eq!(r.read_char(), Some('h'));
    assert_eq!(r.read_char(), Some('\u{e9}'));
    assert_eq!(r.read_char(), Some('!'));
    assert_eq!(r.read_char(), None);
    let mut bad = ByteReader::from_bytes(vec![0x61, 0xFF]);
    assert!(matches!(StringReader::from_reader(&mut bad), Err(ReadFault::InvalidText)));
}
