use minishell::Tokenizer;

#[test]
fn test_empty_string() {
    let mut line = Tokenizer::new(&"");
    assert_eq!(None, line.next());
    assert_eq!(None, line.current);
}

#[test]
fn test_two_word_string() {
    let mut line = Tokenizer::new(&"Hello World");
    assert_eq!("Hello".to_string(), line.next().unwrap());
    assert_eq!("World".to_string(), line.current.unwrap());
}

#[test]
fn test_multiple_calls() {
    let mut line = Tokenizer::new(&"Hello Darkness My Old Friend");

    assert_eq!("Hello".to_string(), line.next().unwrap());
    assert_eq!("Darkness".to_string(), line.next().unwrap());
    assert_eq!("My".to_string(), line.next().unwrap());
    assert_eq!("Old".to_string(), line.next().unwrap());
    assert_eq!("Friend".to_string(), line.next().unwrap());
    assert_eq!(None, line.next());
}

#[test]
fn test_peek() {
    let mut line = Tokenizer::new(&"Hello Darkness > \"My Oldie\"");
    assert_eq!("Hello".to_string(), line.peek());
    assert_eq!("Hello".to_string(), line.next().unwrap());
    assert_eq!("Darkness".to_string(), line.peek());
    line.next();
    line.next();
    assert_eq!("My Oldie".to_string(), line.peek());
}

#[test]
fn test_contains() {
    let line = Tokenizer::new("This line tests $ symbol");
    assert!(line.contains(&"$"));
}

#[test]
fn test_args_before_redirection() {
    let mut line = Tokenizer::new("Hello World > Bye");
    let v = line.args_before_redirection();
    assert_eq!(2, v.len());
    assert_eq!("Hello".to_string(), *v[0]);
    assert_eq!("World".to_string(), *v[1]);

    let a = line.get_args();
    assert_eq!(vec!["Bye".to_string()], a);
}

#[test]
fn test_commands_before_pipe() {
    let mut line = Tokenizer::new("ls -a | cat");
    let mut v = line.commands_before_pipe();
    assert_eq!("ls".to_string(), v.next().unwrap());
    assert_eq!("-a".to_string(), v.next().unwrap());
}

#[test]
fn test_prefix() {
    let line = Tokenizer::new("this line starts with this");
    assert!(line.starts_with("this"));
}

#[test]
fn test_quotation_marks() {
    let mut line = Tokenizer::new("echo \"Hello World\" 'Rust Lang' Yay!");

    assert_eq!("echo".to_string(), line.next().unwrap());
    assert_eq!("Hello World".to_string(), line.next().unwrap());
    assert_eq!("Rust Lang".to_string(), line.next().unwrap());
    assert_eq!("Yay!".to_string(), line.next().unwrap());
    assert_eq!(None, line.next());
}

#[test]
fn test_peek_is_idempotent() {
    let line = Tokenizer::new("alpha beta");
    assert_eq!("alpha".to_string(), line.peek());
    assert_eq!("alpha".to_string(), line.peek());
    let mut line = line;
    assert_eq!("alpha".to_string(), line.next().unwrap());
    assert_eq!("beta".to_string(), line.peek());
}

#[test]
fn test_unmatched_quote_runs_to_end() {
    let mut line = Tokenizer::new("echo 'one two three");
    assert_eq!("echo".to_string(), line.next().unwrap());
    assert_eq!("one two three".to_string(), line.next().unwrap());
    assert_eq!(None, line.next());
}

#[test]
fn test_whitespace_only_yields_no_tokens() {
    let mut line = Tokenizer::new("   ");
    assert_eq!(None, line.next());
    let mut line = Tokenizer::new("  a   b  ");
    assert_eq!("a".to_string(), line.next().unwrap());
    assert_eq!("b".to_string(), line.next().unwrap());
    assert_eq!(None, line.next());
}

#[test]
fn test_round_trip_requotes_spaced_tokens() {
    // consuming a whole stream and re-rendering it yields the same tokens
    let mut line = Tokenizer::new("echo 'a b' c && tail");
    let mut groups = line.get_multiple_tokens("&&");
    assert_eq!(2, groups.len());
    let first = &mut groups[0];
    assert_eq!("echo".to_string(), first.next().unwrap());
    assert_eq!("a b".to_string(), first.next().unwrap());
    assert_eq!("c".to_string(), first.next().unwrap());
    assert_eq!(None, first.next());
    let second = &mut groups[1];
    assert_eq!("tail".to_string(), second.next().unwrap());
    assert_eq!(None, second.next());
}

#[test]
fn test_get_args_consumes_the_stream() {
    let mut line = Tokenizer::new("one two");
    assert_eq!(vec!["one".to_string(), "two".to_string()], line.get_args());
    assert!(line.is_empty());
}

#[test]
fn test_is_empty_and_flags() {
    let mut line = Tokenizer::new("a | b");
    assert!(line.is_pipe());
    assert!(!line.has_redirection());
    assert!(!line.is_empty());
    while line.next().is_some() {}
    assert!(line.is_empty());
    let redirected = Tokenizer::new("a > b");
    assert!(redirected.has_redirection());
    assert!(!redirected.is_pipe());
}
