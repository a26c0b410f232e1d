use minishell::{parse_command, touch_plan, TimeField, TouchError, Tokenizer};

#[test]
fn test_parser() {
    let mut line = Tokenizer::new("trulala -a nu 'patom paidzom'");
    let expected: Vec<String> =
        vec!["-a".to_string(), "nu".to_string(), "patom paidzom".to_string()];
    assert_eq!(expected, parse_command(&mut line).unwrap());
}

#[test]
fn test_no_file_creation() {
    // `touch -c` on a nonexistent path: the plan carries no pass at all, so
    // applying it performs no filesystem mutation and creates nothing
    let mut token = Tokenizer::new("touch -c test001.txt");
    let cmd = parse_command(&mut token).unwrap();
    let plan = touch_plan(&cmd).unwrap();
    assert!(plan.passes.is_empty());
    assert_eq!(vec!["test001.txt".to_string()], plan.files);
    assert_eq!(None, plan.reference);
}

#[test]
fn test_plan_without_flags_sets_both_times() {
    let mut token = Tokenizer::new("touch test000.txt");
    let cmd = parse_command(&mut token).unwrap();
    let plan = touch_plan(&cmd).unwrap();
    assert_eq!(vec!["test000.txt".to_string()], plan.files);
    assert_eq!(None, plan.reference);
    assert_eq!(2, plan.passes.len());
    assert_eq!(TimeField::Access, plan.passes[0].field);
    assert!(plan.passes[0].create_missing);
    assert_eq!(TimeField::Modification, plan.passes[1].field);
    assert!(plan.passes[1].create_missing);
    assert!(plan.invalid.is_empty());
}

#[test]
fn test_plan_multiple_files() {
    let mut token = Tokenizer::new("touch multi01 multi02 multi03");
    let cmd = parse_command(&mut token).unwrap();
    let plan = touch_plan(&cmd).unwrap();
    assert_eq!(
        vec!["multi01".to_string(), "multi02".to_string(), "multi03".to_string()],
        plan.files
    );
    assert_eq!(2, plan.passes.len());
}

#[test]
fn test_plan_reference_time() {
    // the modification-time pass takes its timestamp from the reference
    // path, bit for bit, rather than from the clock
    let mut token = Tokenizer::new("touch -r delme test004.txt");
    let cmd = parse_command(&mut token).unwrap();
    let plan = touch_plan(&cmd).unwrap();
    assert_eq!(Some("delme".to_string()), plan.reference);
    assert_eq!(vec!["test004.txt".to_string()], plan.files);
    assert_eq!(1, plan.passes.len());
    assert_eq!(TimeField::Modification, plan.passes[0].field);
    assert!(plan.passes[0].create_missing);
}

#[test]
fn test_plan_reference_without_path_is_rejected() {
    let mut token = Tokenizer::new("touch -r");
    let cmd = parse_command(&mut token).unwrap();
    assert_eq!(Err(TouchError::InvalidArgument), touch_plan(&cmd).map(|_| ()));
}

#[test]
fn test_flag_order_gates_creation() {
    let mut token = Tokenizer::new("touch -ca x");
    let cmd = parse_command(&mut token).unwrap();
    let plan = touch_plan(&cmd).unwrap();
    assert_eq!(1, plan.passes.len());
    assert_eq!(TimeField::Access, plan.passes[0].field);
    assert!(!plan.passes[0].create_missing);

    let mut token = Tokenizer::new("touch -ac x");
    let cmd = parse_command(&mut token).unwrap();
    let plan = touch_plan(&cmd).unwrap();
    assert_eq!(1, plan.passes.len());
    assert!(plan.passes[0].create_missing);
}

#[test]
fn test_unknown_flag_is_reported() {
    let mut token = Tokenizer::new("touch -z x");
    let cmd = parse_command(&mut token).unwrap();
    let plan = touch_plan(&cmd).unwrap();
    assert!(plan.passes.is_empty());
    assert_eq!(vec!['z'], plan.invalid);
}

#[test]
fn test_parser_filters_symbol_operands() {
    let mut line = Tokenizer::new("touch a ~b | < c");
    let cmd = parse_command(&mut line).unwrap();
    assert_eq!(vec!["a".to_string(), "c".to_string()], cmd);
}
