use evm_assembler::lexer::Lexer;
use evm_assembler::opcodes::OpcodeTable;

fn tokens_of(input: &str) -> Vec<String> {
    let table = OpcodeTable::from_names(&Vec::new());
    let mut lexer = Lexer::new(input, &table);
    let mut tokens = Vec::new();
    while let Some(token) = lexer.next_token() {
        tokens.push(token);
    }
    assert_eq!(lexer.next_token(), None);
    tokens
}

#[test]
fn tokens_are_split_at_white_space() {
    assert_eq!(tokens_of("0x01 0t1023 MSTORE"), vec!["0x01", "0t1023", "MSTORE"]);
    assert_eq!(tokens_of("a\tb\nc d"), vec!["a", "b", "c", "d"]);
}

#[test]
fn runs_of_white_space_count_as_one() {
    assert_eq!(tokens_of("  a \t\n\n  b\t\t"), vec!["a", "b"]);
    assert_eq!(tokens_of("a b"), tokens_of("\n\na \t b\n"));
}

#[test]
fn no_token_in_an_empty_text() {
    assert_eq!(tokens_of(""), Vec::<String>::new());
    assert_eq!(tokens_of(" "), Vec::<String>::new());
    assert_eq!(tokens_of("\n\t \n"), Vec::<String>::new());
}

#[test]
fn a_comment_runs_to_the_end_of_its_line() {
    assert_eq!(tokens_of("a # b c\nd"), vec!["a", "d"]);
    assert_eq!(tokens_of("# first line\na\n# third line\nb"), vec!["a", "b"]);
    assert_eq!(tokens_of("a # one # two\nb"), vec!["a", "b"]);
}

#[test]
fn a_comment_may_end_with_the_text() {
    assert_eq!(tokens_of("a # b c"), vec!["a"]);
    assert_eq!(tokens_of("#"), Vec::<String>::new());
    assert_eq!(tokens_of("a #"), vec!["a"]);
}

#[test]
fn a_comment_sign_ends_the_token_before_it() {
    assert_eq!(tokens_of("ADD#note\nMUL"), vec!["ADD", "MUL"]);
    assert_eq!(tokens_of("ADD#"), vec!["ADD"]);
}

#[test]
fn a_line_feed_alone_ends_a_comment() {
    assert_eq!(tokens_of("# a b\tc d\ne"), vec!["e"]);
    assert_eq!(tokens_of("# a\n\n# b\nc"), vec!["c"]);
}

#[test]
fn other_control_characters_belong_to_tokens() {
    assert_eq!(tokens_of("a\rb"), vec!["a\rb"]);
    assert_eq!(tokens_of("a\r\nb"), vec!["a\r", "b"]);
}

#[test]
fn characters_outside_ascii_are_read_whole() {
    assert_eq!(tokens_of("añb çd"), vec!["añb", "çd"]);
    assert_eq!(tokens_of("a # ñ 日本語\nb"), vec!["a", "b"]);
    assert_eq!(tokens_of("日本語\t語"), vec!["日本語", "語"]);
}

#[test]
fn each_token_is_handed_out_once() {
    let table = OpcodeTable::new();
    let mut lexer = Lexer::new("one two", &table);
    assert_eq!(lexer.next_token(), Some("one".to_string()));
    assert_eq!(lexer.next_token(), Some("two".to_string()));
    assert_eq!(lexer.next_token(), None);
    assert_eq!(lexer.next_token(), None);
}

#[test]
fn parse_token_uses_the_table_of_the_lexer() {
    let table = OpcodeTable::new();
    let lexer = Lexer::new("", &table);
    assert_eq!(lexer.parse_token("MSTORE").unwrap(), vec![0x52]);
    assert_eq!(lexer.parse_token("0x2002").unwrap(), vec![0x61, 0x20, 0x02]);
    let empty = OpcodeTable::from_names(&Vec::new());
    let lexer = Lexer::new("", &empty);
    assert!(lexer.parse_token("MSTORE").is_err());
}
