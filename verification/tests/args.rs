use swimps::args::{generate_trace_file_name, Args};

fn strings(values: &[&str]) -> Vec<String> {
    values.iter().map(|value| value.to_string()).collect()
}

#[test]
fn trace_file_and_program() {
    let args = Args::new(Some("hi".to_string()), false, "echo".to_string(), strings(&[]));

    assert_eq!("hi", args.trace_file());
    assert_eq!("echo", args.target_program());
    assert!(!args.tui());
}

#[test]
fn trace_file_and_program_and_args() {
    let args = Args::new(
        Some("hi".to_string()),
        false,
        "echo".to_string(),
        strings(&["bingo!", "bango..."]),
    );

    assert_eq!("hi", args.trace_file());
    assert_eq!("echo", args.target_program());

    let target_program_args = args.target_program_args();
    assert_eq!(2, target_program_args.len());
    assert_eq!("bingo!", target_program_args[0]);
    assert_eq!("bango...", target_program_args[1]);
    assert!(!args.tui());
}

#[test]
fn tui() {
    let args = Args::new(Some("foobar".to_string()), true, "blah".to_string(), strings(&[]));

    assert_eq!("foobar", args.trace_file());
    assert_eq!("blah", args.target_program());
    assert!(args.tui());
}

#[test]
fn default_trace_file_is_named_after_program_and_stamp() {
    assert_eq!(
        generate_trace_file_name("echo", "2022-03-04-05-06-07"),
        "echo-2022-03-04-05-06-07.trace"
    );
    assert_eq!(
        generate_trace_file_name("/usr/bin/echo", "2022-03-04-05-06-07"),
        "echo-2022-03-04-05-06-07.trace"
    );
    assert_eq!(
        generate_trace_file_name("C:\\tools\\bin\\echo.exe", "1999-12-31-23-59-59"),
        "echo.exe-1999-12-31-23-59-59.trace"
    );
    assert_eq!(generate_trace_file_name("a/b\\c/d", "s"), "d-s.trace");
}

#[test]
fn default_trace_file_of_a_path_without_a_last_part() {
    assert_eq!(generate_trace_file_name("bin/", "t"), "-t.trace");
    assert_eq!(generate_trace_file_name("", "t"), "-t.trace");
    assert_eq!(generate_trace_file_name("/", ""), "-.trace");
}

#[test]
fn default_trace_file_keeps_characters_beyond_ascii() {
    assert_eq!(
        generate_trace_file_name("/opt/söme/prögramm", "2022-03-04-05-06-07"),
        "prögramm-2022-03-04-05-06-07.trace"
    );
    assert_eq!(generate_trace_file_name("日本/語", "x"), "語-x.trace");
}

#[test]
fn given_stamp_names_the_default_trace_file() {
    let args = Args::with_time_stamp(
        None,
        true,
        "./target/debug/worker".to_string(),
        strings(&["--fast"]),
        "2001-02-03-04-05-06",
    );
    assert_eq!(args.trace_file(), "worker-2001-02-03-04-05-06.trace");
    assert_eq!(args.target_program(), "./target/debug/worker");
    assert_eq!(args.target_program_args(), &strings(&["--fast"]));
    assert!(args.tui());
}

#[test]
fn given_trace_file_wins_over_the_stamp() {
    let args = Args::with_time_stamp(
        Some("out.trace".to_string()),
        false,
        "worker".to_string(),
        strings(&[]),
        "2001-02-03-04-05-06",
    );
    assert_eq!(args.trace_file(), "out.trace");
}

#[test]
fn default_trace_file_carries_the_local_time() {
    let args = Args::new(None, false, "/bin/echo".to_string(), strings(&["hello"]));
    let name = args.trace_file().to_string();
    assert!(name.starts_with("echo-"));
    assert!(name.ends_with(".trace"));
    let stamp = &name["echo-".len()..name.len() - ".trace".len()];
    let parts: Vec<&str> = stamp.split('-').collect();
    assert_eq!(parts.len(), 6);
    assert!(parts.iter().all(|part| !part.is_empty() && part.chars().all(|c| c.is_ascii_digit())));
    assert_eq!(args.trace_file(), name);
}
