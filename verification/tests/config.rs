use minigrep::Config;
use minigrep::ConfigError;
use minigrep::RunError;

#[test]
fn config_rejects_missing_arguments() {
    let none: Vec<String> = vec![String::from("minigrep")];
    let one = vec![String::from("minigrep"), String::from("query")];
    assert_eq!(Err(ConfigError::MissingArguments), Config::new(&none, true));
    assert_eq!(Err(ConfigError::MissingArguments), Config::new(&one, true));
    assert_eq!(
        Err(ConfigError::MissingArguments),
        Config::new(&Vec::new(), false)
    );
}

#[test]
fn config_error_message() {
    assert_eq!("not enough arguments", ConfigError::MissingArguments.message());
}

#[test]
fn config_copies_query_and_filename() {
    let args = vec![
        String::from("minigrep"),
        String::from("needle"),
        String::from("haystack.txt"),
    ];
    let config = Config::new(&args, true).unwrap();
    assert_eq!("needle", config.query);
    assert_eq!("haystack.txt", config.filename);
    assert!(config.case_sensitive);

    let config = Config::new(&args, false).unwrap();
    assert!(!config.case_sensitive);
}

#[test]
fn config_ignores_extra_arguments() {
    let args = vec![
        String::from("minigrep"),
        String::from("needle"),
        String::from("haystack.txt"),
        String::from("ignored"),
    ];
    let config = Config::new(&args, true).unwrap();
    assert_eq!("needle", config.query);
    assert_eq!("haystack.txt", config.filename);
}

#[test]
fn run_error_keeps_cause() {
    let error = RunError::SourceReadFailure(String::from("no such file"));
    assert_eq!("no such file", error.message().as_str());
}
