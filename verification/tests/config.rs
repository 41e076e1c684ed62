use minigrep::{run, Config, IGNORE_CASE_SWITCH};

fn args(list: &[&str]) -> Vec<String> {
    list.iter().map(|arg| arg.to_string()).collect()
}

#[test]
fn build_without_arguments_misses_the_query() {
    assert!(matches!(Config::build(args(&[]), None), Err("Didn't get a query string")));
}

#[test]
fn build_with_the_program_name_alone_misses_the_query() {
    assert!(matches!(Config::build(args(&["minigrep"]), None), Err("Didn't get a query string")));
}

#[test]
fn build_without_file_path_misses_the_file_path() {
    assert!(matches!(
        Config::build(args(&["minigrep", "needle"]), None),
        Err("Didn't get a file path")
    ));
    assert!(matches!(
        Config::build(args(&["minigrep", "needle"]), Some(String::new())),
        Err("Didn't get a file path")
    ));
}

#[test]
fn build_takes_query_and_file_path_after_the_program_name() {
    match Config::build(args(&["minigrep", "needle", "poem.txt"]), None) {
        Ok(config) => {
            assert_eq!("needle", config.query);
            assert_eq!("poem.txt", config.file_path);
            assert!(!config.ignore_case);
        }
        Err(message) => panic!("{}", message),
    }
}

#[test]
fn build_ignores_what_follows_the_file_path() {
    match Config::build(args(&["minigrep", "needle", "poem.txt", "more", "still more"]), None) {
        Ok(config) => {
            assert_eq!("needle", config.query);
            assert_eq!("poem.txt", config.file_path);
        }
        Err(message) => panic!("{}", message),
    }
}

#[test]
fn build_accepts_an_empty_query() {
    match Config::build(args(&["minigrep", "", "poem.txt"]), None) {
        Ok(config) => {
            assert_eq!("", config.query);
            assert_eq!("poem.txt", config.file_path);
        }
        Err(message) => panic!("{}", message),
    }
}

#[test]
fn switch_with_any_value_sets_case_aside() {
    for value in ["", "0", "1", "false", "anything"] {
        match Config::build(args(&["minigrep", "needle", "poem.txt"]), Some(value.to_string())) {
            Ok(config) => assert!(config.ignore_case),
            Err(message) => panic!("{}", message),
        }
    }
}

#[test]
fn switch_goes_by_its_name() {
    assert_eq!("IGNORE_CASE", IGNORE_CASE_SWITCH);
}

#[test]
fn run_searches_as_written_by_default() {
    let config = Config {
        query: String::from("duct"),
        file_path: String::from("poem.txt"),
        ignore_case: false,
    };
    let contents = "Rust:\nsafe, fast, productive.\nPick three.\nDuct tape.";
    assert_eq!(vec!["safe, fast, productive."], run(&config, contents));
}

#[test]
fn run_sets_case_aside_when_asked() {
    let config = Config {
        query: String::from("rUsT"),
        file_path: String::from("poem.txt"),
        ignore_case: true,
    };
    let contents = "Rust:\nsafe, fast, productive.\nPick three.\nTrust me.";
    assert_eq!(vec!["Rust:", "Trust me."], run(&config, contents));
}

#[test]
fn run_on_a_built_configuration() {
    let built = Config::build(args(&["minigrep", "the", "poem.txt"]), Some(String::new()));
    match built {
        Ok(config) => {
            let contents = "The first\nand then\nanother\nTHE END\n";
            assert_eq!(vec!["The first", "and then", "another", "THE END"], run(&config, contents));
        }
        Err(message) => panic!("{}", message),
    }
}
