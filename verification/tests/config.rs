use game_of_life::Config;

#[test]
fn missing_argument_is_an_error() {
    let args = vec!["life".to_string()];
    assert_eq!(Config::new(&args).unwrap_err(), "not enough arguments");
    let args: Vec<String> = Vec::new();
    assert_eq!(Config::new(&args).unwrap_err(), "not enough arguments");
}

#[test]
fn first_argument_becomes_the_filename() {
    let args = vec!["life".to_string(), "start.txt".to_string()];
    let config = Config::new(&args).unwrap();
    assert_eq!(config.filename, "start.txt");
    // Further arguments are ignored.
    let args = vec!["life".to_string(), "a.txt".to_string(), "b.txt".to_string()];
    assert_eq!(Config::new(&args).unwrap().filename, "a.txt");
}
