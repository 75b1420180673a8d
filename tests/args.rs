use libtrash::{parse_args, Args, ArgsError};

#[test]
fn trash_test_parse_args() {
    let i: Vec<String> = vec![String::from("-iv"), String::from("somefile")];
    let args = Args::parse(i);
    assert!(args.is_ok());
    let a = args.unwrap();
    assert!(a.interactive && a.verbose && !a.help && !a.version);
    assert!(a.file_names.len() == 1);

    let i: Vec<String> = vec![String::from("-vi"), String::from("somefile")];
    let args = Args::parse(i);
    assert!(args.is_ok());
    let a = args.unwrap();
    assert!(a.interactive && a.verbose && !a.help && !a.version);

    let i: Vec<String> = vec![String::from("--verbose"), String::from("somefile")];
    let args = Args::parse(i);
    assert!(args.is_ok());
    let a = args.unwrap();
    assert!(!a.interactive && a.verbose && !a.help && !a.version);

    let i: Vec<String> = vec![String::from("-h")];
    let args = Args::parse(i);
    assert!(args.is_ok());
    let a = args.unwrap();
    assert!(!a.interactive && !a.verbose && a.help && !a.version);

    let i: Vec<String> = vec![String::from("-V")];
    let args = Args::parse(i);
    assert!(args.is_ok());
    let a = args.unwrap();
    assert!(!a.interactive && !a.verbose && !a.help && a.version);

    let i: Vec<String> = vec![
        String::from("-iv"),
        String::from("--"),
        String::from("-somefile"),
    ];
    let args = Args::parse(i);
    assert!(args.is_ok());
    let a = args.unwrap();
    assert!(a.interactive && a.verbose && !a.help && !a.version);
    assert!(a.file_names[0] == "-somefile");

    let i: Vec<String> = vec![
        String::from("--"),
        String::from("-iv"),
        String::from("-somefile"),
    ];
    let args = Args::parse(i);
    assert!(args.is_ok());
    let a = args.unwrap();
    assert!(!a.interactive && !a.verbose && !a.help && !a.version);
    assert!(a.file_names[0] == "-iv");
    assert!(a.file_names[1] == "-somefile");

    let i: Vec<String> = vec![
        String::from("somefile"),
        String::from("--"),
        String::from("-somefile"),
    ];
    let args = Args::parse(i);
    assert!(args.is_ok());
    let a = args.unwrap();
    assert!(!a.interactive && !a.verbose && !a.help && !a.version);
    assert!(a.file_names[0] == "somefile");
    assert!(a.file_names[1] == "-somefile");

    let i: Vec<String> = vec![
        String::from("-iv"),
        String::from("somefile"),
        String::from("--"),
        String::from("-somefile"),
    ];
    let args = Args::parse(i);
    assert!(args.is_ok());
    let a = args.unwrap();
    assert!(a.interactive && a.verbose && !a.help && !a.version);
    assert!(a.file_names[0] == "somefile");
    assert!(a.file_names[1] == "-somefile");
}

#[test]
fn trash_test_parse_args_err() {
    let i: Vec<String> = vec![];
    let args = Args::parse(i);
    assert!(args.is_err());

    // need to specify a file if not help or version
    let i: Vec<String> = vec![String::from("-v")];
    let args = Args::parse(i);
    assert!(args.is_err());

    let i: Vec<String> = vec![String::from("-G")];
    let args = Args::parse(i);
    assert!(args.is_err());

    // can't use help or version with other flags
    let i: Vec<String> = vec![String::from("-ivh")];
    let args = Args::parse(i);
    assert!(args.is_err());
    let i: Vec<String> = vec![String::from("-ivV")];
    let args = Args::parse(i);
    assert!(args.is_err());

    let i: Vec<String> = vec![String::from("--")];
    let args = Args::parse(i);
    assert!(args.is_err());
}

#[test]
fn main_test_parse_args() {
    let i: Vec<String> = vec![String::from("-iv"), String::from("somefile")];
    let args = parse_args(i);
    assert!(args.is_ok());
    let a = args.unwrap();
    assert!(a.interactive && a.verbose && !a.help && !a.version);
    assert!(a.file_names.len() == 1);

    let i: Vec<String> = vec![String::from("-vi"), String::from("somefile")];
    let args = parse_args(i);
    assert!(args.is_ok());
    let a = args.unwrap();
    assert!(a.interactive && a.verbose && !a.help && !a.version);

    let i: Vec<String> = vec![String::from("--verbose"), String::from("somefile")];
    let args = parse_args(i);
    assert!(args.is_ok());
    let a = args.unwrap();
    assert!(!a.interactive && a.verbose && !a.help && !a.version);

    let i: Vec<String> = vec![String::from("-h")];
    let args = parse_args(i);
    assert!(args.is_ok());
    let a = args.unwrap();
    assert!(!a.interactive && !a.verbose && a.help && !a.version);

    let i: Vec<String> = vec![String::from("-V")];
    let args = parse_args(i);
    assert!(args.is_ok());
    let a = args.unwrap();
    assert!(!a.interactive && !a.verbose && !a.help && a.version);

    let i: Vec<String> = vec![
        String::from("-iv"),
        String::from("--"),
        String::from("-somefile"),
    ];
    let args = parse_args(i);
    assert!(args.is_ok());
    let a = args.unwrap();
    assert!(a.interactive && a.verbose && !a.help && !a.version);
    assert!(a.file_names[0] == "-somefile");

    let i: Vec<String> = vec![
        String::from("--"),
        String::from("-iv"),
        String::from("-somefile"),
    ];
    let args = parse_args(i);
    assert!(args.is_ok());
    let a = args.unwrap();
    assert!(!a.interactive && !a.verbose && !a.help && !a.version);
    assert!(a.file_names[0] == "-iv");
    assert!(a.file_names[1] == "-somefile");

    let i: Vec<String> = vec![
        String::from("somefile"),
        String::from("--"),
        String::from("-somefile"),
    ];
    let args = parse_args(i);
    assert!(args.is_ok());
    let a = args.unwrap();
    assert!(!a.interactive && !a.verbose && !a.help && !a.version);
    assert!(a.file_names[0] == "somefile");
    assert!(a.file_names[1] == "-somefile");

    let i: Vec<String> = vec![
        String::from("-iv"),
        String::from("somefile"),
        String::from("--"),
        String::from("-somefile"),
    ];
    let args = parse_args(i);
    assert!(args.is_ok());
    let a = args.unwrap();
    assert!(a.interactive && a.verbose && !a.help && !a.version);
    assert!(a.file_names[0] == "somefile");
    assert!(a.file_names[1] == "-somefile");
}

#[test]
fn main_test_parse_args_err() {
    let i: Vec<String> = vec![];
    let args = parse_args(i);
    assert!(args.is_err());

    // need to specify a file if not help or version
    let i: Vec<String> = vec![String::from("-v")];
    let args = parse_args(i);
    assert!(args.is_err());

    let i: Vec<String> = vec![String::from("-G")];
    let args = parse_args(i);
    assert!(args.is_err());

    // can't use help or version with other flags
    let i: Vec<String> = vec![String::from("-ivh")];
    let args = parse_args(i);
    assert!(args.is_err());
    let i: Vec<String> = vec![String::from("-ivV")];
    let args = parse_args(i);
    assert!(args.is_err());

    let i: Vec<String> = vec![String::from("--")];
    let args = parse_args(i);
    assert!(args.is_err());
}

#[test]
fn invalid_option_is_the_first_unknown_one() {
    let i: Vec<String> = vec![String::from("f"), String::from("-x"), String::from("-y")];
    assert_eq!(Args::parse(i).err(), Some(ArgsError::InvalidOption(String::from("-x"))));
    let i: Vec<String> = vec![String::from("--"), String::from("-x"), String::from("-y")];
    assert!(Args::parse(i).is_ok());
}
