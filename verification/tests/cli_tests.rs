use oxide::cli::CliOpt;

#[test]
fn cli_opt_should_parse_when_valid_arguments() {
    let input = [
        vec!["oxide".to_string()],
        vec!["oxide".to_string(), "--version".to_string()],
        vec!["oxide".to_string(), "README.md".to_string()],
    ];

    let expect = [
        CliOpt::new(false, vec![]),
        CliOpt::new(true, vec![]),
        CliOpt::new(false, vec!["README.md".to_string()]),
    ];

    assert_eq!(input.len(), expect.len());
    let n = input.len();
    for i in 0..n {
        let actual = CliOpt::parse_from(&input[i]);
        assert_eq!(actual.file(), expect[i].file());
        assert_eq!(actual.version(), expect[i].version());
    }
}

#[test]
fn cli_opt_short_version_flag() {
    let args = vec!["oxide".to_string(), "-V".to_string(), "notes.txt".to_string()];
    let opt = CliOpt::parse_from(&args);
    assert!(opt.version());
    assert_eq!(opt.file(), &vec!["notes.txt".to_string()]);
}

#[test]
fn cli_opt_empty_argument_list() {
    let args: Vec<String> = vec![];
    let opt = CliOpt::parse_from(&args);
    assert!(!opt.version());
    assert!(opt.file().is_empty());
}
