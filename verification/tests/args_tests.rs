use ipkg::args::{cmd_str, init, ArgumentType, Command};

fn argv(items: &[&str]) -> Vec<String> {
    items.iter().map(|s| s.to_string()).collect()
}

#[test]
fn init_parses_mixed_arguments() {
    let args = argv(&["prog", "-iv", "file.txt", "--data=a,b", "--verbose"]);
    let command = init(&args);
    assert_eq!(command.cmd_name, "prog");
    assert_eq!(command.args.len(), 5);
    assert_eq!(command.args[0].arg_str, "-i");
    assert!(matches!(command.args[0].arg_type, ArgumentType::ShortOpt));
    assert_eq!(command.args[1].arg_str, "-v");
    assert_eq!(command.args[2].arg_str, "file.txt");
    assert!(matches!(command.args[2].arg_type, ArgumentType::Simple));
    assert_eq!(command.args[3].arg_str, "--data");
    assert!(matches!(command.args[3].arg_type, ArgumentType::LongOpt));
    assert_eq!(command.args[3].arg_values, vec!["a".to_string(), "b".to_string()]);
    assert_eq!(command.args[4].arg_str, "--verbose");
    assert!(command.args[4].arg_values.is_empty());
}

#[test]
fn init_trims_and_drops_empty_values() {
    let args = argv(&["prog", "--data= a , ,b "]);
    let command = init(&args);
    assert_eq!(command.args.len(), 1);
    assert_eq!(command.args[0].arg_values, vec!["a".to_string(), "b".to_string()]);
}

#[test]
fn init_handles_empty_and_dash_arguments() {
    let command = init(&Vec::new());
    assert_eq!(command.cmd_name, "");
    assert!(command.args.is_empty());

    let args = argv(&["prog", "-"]);
    let command = init(&args);
    assert_eq!(command.args.len(), 1);
    assert!(matches!(command.args[0].arg_type, ArgumentType::Simple));
}

#[test]
fn cmd_str_joins_the_arguments() {
    let args = argv(&["prog", "pkg", "--help"]);
    assert_eq!(cmd_str(&args), "prog pkg --help");
    assert_eq!(cmd_str(&Vec::new()), "");
}

#[test]
fn command_builds_incrementally() {
    let mut command = Command::new("tool".to_string());
    assert!(command.args.is_empty());
    command.add_arg(ipkg::args::Argument {
        arg_type: ArgumentType::Simple,
        arg_str: "x".to_string(),
        arg_values: Vec::new(),
    });
    assert_eq!(command.args.len(), 1);
    assert_eq!(command.args[0].arg_str, "x");
}
