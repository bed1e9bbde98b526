use forth_vm::forth_core;
use forth_vm::stream::StreamReader;
use forth_vm::tokens;
use forth_vm::vm::{chars_eq, VM};

fn chars(s: &str) -> Vec<char> {
    s.chars().collect()
}

#[test]
fn stream_feed_read_peek() {
    let mut sr = StreamReader::new();
    assert!(!sr.is_eos());
    sr.feed(&chars("ab"));
    assert_eq!(sr.peek_char(), Some('a'));
    assert_eq!(sr.read_char(), Some('a'));
    assert_eq!(sr.read_char(), Some('b'));
    assert_eq!(sr.read_char(), None);
    sr.close();
    assert!(sr.is_eos());
}

#[test]
fn read_token_splits_on_whitespace() {
    let mut vm = VM::new();
    let mut sr = StreamReader::new();
    sr.feed(&chars("  foo \t bar\n"));
    sr.close();
    vm.add_stream(sr);
    assert_eq!(vm.read_token(), Some(chars("foo")));
    assert_eq!(vm.read_token(), Some(chars("bar")));
    assert_eq!(vm.read_token(), None);
    assert!(vm.sources_done());
}

#[test]
fn read_token_waits_for_a_complete_word() {
    let mut vm = VM::new();
    let mut sr = StreamReader::new();
    sr.feed(&chars("par"));
    vm.add_stream(sr);
    assert_eq!(vm.read_token(), None);
    assert!(!vm.sources_done());
    vm.streams[0].feed(&chars("t\n"));
    assert_eq!(vm.read_token(), Some(chars("part")));
}

#[test]
fn token_complete_at_end_of_source() {
    let mut vm = VM::new();
    let mut sr = StreamReader::new();
    sr.feed(&chars("tok"));
    sr.close();
    vm.add_stream(sr);
    assert_eq!(vm.read_token(), Some(chars("tok")));
    assert_eq!(vm.read_token(), None);
    assert!(vm.sources_done());
}

#[test]
fn read_token_skips_spent_streams() {
    let mut vm = VM::new();
    let mut a = StreamReader::new();
    a.feed(&chars("  \n"));
    a.close();
    let mut b = StreamReader::new();
    b.feed(&chars("word\n"));
    b.close();
    vm.add_stream(a);
    vm.add_stream(b);
    assert_eq!(vm.read_token(), Some(chars("word")));
}

#[test]
fn is_digit_accepts_decimal_digits() {
    assert!(VM::is_digit('0'));
    assert!(VM::is_digit('5'));
    assert!(VM::is_digit('9'));
    assert!(!VM::is_digit('/'));
    assert!(!VM::is_digit(':'));
    assert!(!VM::is_digit('a'));
}

#[test]
fn is_number_checks_every_character() {
    assert!(VM::is_number(&chars("123")));
    assert!(VM::is_number(&chars("0")));
    assert!(!VM::is_number(&chars("12a")));
    assert!(!VM::is_number(&chars("-1")));
}

#[test]
fn parse_literal_reads_decimal() {
    assert_eq!(tokens::parse_literal(&chars("0")), Some(0));
    assert_eq!(tokens::parse_literal(&chars("42")), Some(42));
    assert_eq!(
        tokens::parse_literal(&chars("18446744073709551615")),
        Some(usize::MAX)
    );
    assert_eq!(tokens::parse_literal(&chars("18446744073709551616")), None);
    assert_eq!(tokens::parse_literal(&chars("12a")), None);
    assert_eq!(tokens::parse_literal(&chars("")), None);
}

#[test]
fn chars_eq_compares_tokens() {
    assert!(chars_eq(&chars("foo"), &chars("foo")));
    assert!(!chars_eq(&chars("foo"), &chars("fo")));
    assert!(!chars_eq(&chars("foo"), &chars("foP")));
    assert!(chars_eq(&chars(""), &chars("")));
}

#[test]
fn read_stream_char_crosses_streams() {
    let mut vm = VM::new();
    let mut a = StreamReader::new();
    a.feed(&chars("x"));
    a.close();
    let mut b = StreamReader::new();
    b.feed(&chars("y"));
    b.close();
    vm.add_stream(a);
    vm.add_stream(b);
    assert_eq!(vm.read_stream_char(), Some('x'));
    assert_eq!(vm.read_stream_char(), Some('y'));
    assert_eq!(vm.read_stream_char(), None);
}

#[test]
fn peek_stream_char_consumes_nothing() {
    let mut vm = VM::new();
    let mut sr = StreamReader::new();
    sr.feed(&chars("z"));
    sr.close();
    vm.add_stream(sr);
    assert_eq!(vm.peek_stream_char(), Some('z'));
    assert_eq!(vm.peek_stream_char(), Some('z'));
    assert_eq!(vm.read_stream_char(), Some('z'));
}

#[test]
fn find_word_prefers_last_definition() {
    let mut vm = VM::new();
    forth_core::register(&mut vm);
    assert_eq!(vm.find_word(&chars("quit")), Some(0));
    assert_eq!(vm.find_word(&chars("%")), Some(22));
    assert_eq!(vm.find_word(&chars("nosuch")), None);
    vm.register_native(chars("quit"), false, forth_vm::vm::NativeOp::Quit);
    assert_eq!(vm.find_word(&chars("quit")), Some(23));
}
