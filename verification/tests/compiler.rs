use minishell::{compile_line, compile_segment, is_builtin, CompileError, Step, Tokenizer};

#[test]
fn test_malformed_double_output_redirection() {
    // two output redirections in one segment: the compiler reports the
    // error and hands back nothing that could be spawned
    let steps = compile_line("cmd > a > b");
    assert_eq!(1, steps.len());
    match &steps[0] {
        Err(CompileError::MalformedRedirection) => (),
        _ => panic!("expected a malformed redirection"),
    }
}

#[test]
fn test_malformed_double_input_redirection() {
    let mut tok = Tokenizer::new("cmd < a < b");
    let r = compile_segment(&mut tok);
    assert_eq!(Err(CompileError::MalformedRedirection), r.map(|_| ()));
}

#[test]
fn test_single_output_redirection() {
    let steps = compile_line("ls -l > out.txt");
    assert_eq!(1, steps.len());
    match &steps[0] {
        Ok(Step::Single(seg)) => {
            assert_eq!(vec!["ls".to_string(), "-l".to_string()], seg.argv);
            assert_eq!(None, seg.input);
            assert_eq!(Some("out.txt".to_string()), seg.output);
        },
        _ => panic!("expected a single redirected segment"),
    }
}

#[test]
fn test_input_and_output_redirection() {
    let steps = compile_line("prog < in.txt > out.txt");
    assert_eq!(1, steps.len());
    match &steps[0] {
        Ok(Step::Single(seg)) => {
            assert_eq!(vec!["prog".to_string()], seg.argv);
            assert_eq!(Some("in.txt".to_string()), seg.input);
            assert_eq!(Some("out.txt".to_string()), seg.output);
        },
        _ => panic!("expected a single redirected segment"),
    }
}

#[test]
fn test_pipe_splits_into_source_and_sink() {
    let steps = compile_line("ls -a | cat");
    assert_eq!(1, steps.len());
    match &steps[0] {
        Ok(Step::Piped(source, sink)) => {
            assert_eq!(vec!["ls".to_string(), "-a".to_string()], source.argv);
            assert_eq!(vec!["cat".to_string()], sink.argv);
        },
        _ => panic!("expected a pipeline"),
    }
}

#[test]
fn test_sequencing_compiles_each_group() {
    let steps = compile_line("echo one && echo two");
    assert_eq!(2, steps.len());
    match &steps[0] {
        Ok(Step::Single(seg)) => {
            assert_eq!(vec!["echo".to_string(), "one".to_string()], seg.argv)
        },
        _ => panic!("expected a plain segment"),
    }
    match &steps[1] {
        Ok(Step::Single(seg)) => {
            assert_eq!(vec!["echo".to_string(), "two".to_string()], seg.argv)
        },
        _ => panic!("expected a plain segment"),
    }
}

#[test]
fn test_failing_group_leaves_later_groups_compiled() {
    let steps = compile_line("cmd > a > b && echo ok");
    assert_eq!(2, steps.len());
    assert!(matches!(&steps[0], Err(CompileError::MalformedRedirection)));
    match &steps[1] {
        Ok(Step::Single(seg)) => {
            assert_eq!(vec!["echo".to_string(), "ok".to_string()], seg.argv)
        },
        _ => panic!("expected a plain segment"),
    }
}

#[test]
fn test_builtin_is_routed_whole() {
    let steps = compile_line("cd /tmp");
    assert_eq!(1, steps.len());
    match &steps[0] {
        Ok(Step::Builtin(tok)) => {
            assert_eq!("cd".to_string(), tok.peek());
        },
        _ => panic!("expected a builtin step"),
    }
}

#[test]
fn test_builtin_names() {
    assert!(is_builtin("cd"));
    assert!(is_builtin("touch"));
    assert!(is_builtin("history"));
    assert!(is_builtin("source"));
    assert!(!is_builtin("ls"));
    assert!(!is_builtin(""));
}

#[test]
fn test_pipe_with_redirection_on_source() {
    let steps = compile_line("sort < data | uniq");
    assert_eq!(1, steps.len());
    match &steps[0] {
        Ok(Step::Piped(source, sink)) => {
            assert_eq!(vec!["sort".to_string()], source.argv);
            assert_eq!(Some("data".to_string()), source.input);
            assert_eq!(vec!["uniq".to_string()], sink.argv);
            assert_eq!(None, sink.input);
        },
        _ => panic!("expected a pipeline"),
    }
}
