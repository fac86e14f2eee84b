use timely_query::executor::ExecutorId;
use timely_query::submit::{brief, coordinator_address, failure, local_url, program_name};
use timely_query::placement::{
    fmt_err, parse_decimal, parse_placement, parse_usize, Executor, IntError, Placement,
    PlacementOptions,
};

fn options(w: Option<&str>, r: Option<&str>, f: Option<&str>, n: Option<&str>) -> PlacementOptions {
    PlacementOptions {
        workers: w.map(String::from),
        random: r.map(String::from),
        fixed: f.map(String::from),
        hosts: n.map(String::from),
    }
}

fn catalog() -> Vec<Executor> {
    vec![
        Executor { id: ExecutorId(10), host: String::from("alpha") },
        Executor { id: ExecutorId(11), host: String::from("beta") },
        Executor { id: ExecutorId(12), host: String::from("alpha") },
        Executor { id: ExecutorId(13), host: String::from("münchen") },
    ]
}

fn place(w: Option<&str>, r: Option<&str>, f: Option<&str>, n: Option<&str>) -> Result<Placement, String> {
    parse_placement(&options(w, r, f, n), &catalog())
}

fn random(res: Result<Placement, String>) -> (usize, usize) {
    match res {
        Ok(Placement::Random(executors, workers)) => (executors, workers),
        other => panic!("not random: {:?}", other),
    }
}

fn fixed(res: Result<Placement, String>) -> (Vec<u64>, usize) {
    match res {
        Ok(Placement::Fixed(executors, workers)) => {
            (executors.iter().map(|e| e.0).collect(), workers)
        }
        other => panic!("not fixed: {:?}", other),
    }
}

#[test]
fn no_option_means_one_random_executor() {
    assert_eq!(random(place(None, None, None, None)), (1, 1));
    assert_eq!(random(place(Some("4"), None, None, None)), (1, 4));
}

#[test]
fn random_placement() {
    assert_eq!(random(place(None, Some("3"), None, None)), (3, 1));
    assert_eq!(random(place(Some("2"), Some("+7"), None, None)), (7, 2));
    assert_eq!(random(place(None, Some("0"), None, None)), (0, 1));
}

#[test]
fn fixed_placement() {
    assert_eq!(fixed(place(None, None, Some("5"), None)), (vec![5], 1));
    assert_eq!(fixed(place(Some("8"), None, Some("3,1,2,1"), None)), (vec![3, 1, 2, 1], 8));
    assert_eq!(
        fixed(place(None, None, Some("18446744073709551615,007"), None)),
        (vec![u64::MAX, 7], 1)
    );
}

#[test]
fn placement_by_host_names() {
    assert_eq!(fixed(place(None, None, None, Some("beta"))), (vec![11], 1));
    // the first executor with the name is taken
    assert_eq!(fixed(place(Some("2"), None, None, Some("alpha,beta,alpha"))), (vec![10, 11, 10], 2));
    assert_eq!(fixed(place(None, None, None, Some("münchen,alpha"))), (vec![13, 10], 1));
}

#[test]
fn unknown_host_is_reported() {
    assert_eq!(place(None, None, None, Some("gamma")).unwrap_err(), "unknown executor 'gamma'");
    assert_eq!(place(None, None, None, Some("alpha,,beta")).unwrap_err(), "unknown executor ''");
    assert_eq!(place(None, None, None, Some("beta,")).unwrap_err(), "unknown executor ''");
    assert_eq!(place(None, None, None, Some("")).unwrap_err(), "unknown executor ''");
    assert_eq!(place(None, None, None, Some("beta, alpha")).unwrap_err(), "unknown executor ' alpha'");
}

#[test]
fn placement_options_are_mutually_exclusive() {
    let msg = "Options 'random', 'fixed', and 'hosts' are mutually exclusive";
    assert_eq!(place(None, Some("1"), Some("1"), None).unwrap_err(), msg);
    assert_eq!(place(None, Some("1"), None, Some("alpha")).unwrap_err(), msg);
    assert_eq!(place(None, None, Some("1"), Some("alpha")).unwrap_err(), msg);
    assert_eq!(place(Some("1"), Some("x"), Some("y"), Some("z")).unwrap_err(), msg);
}

#[test]
fn arguments_that_are_no_numbers_are_reported() {
    assert_eq!(
        place(Some("many"), None, None, None).unwrap_err(),
        "failed to parse argument for 'workers': invalid digit found in string"
    );
    assert_eq!(
        place(Some(""), Some("1"), None, None).unwrap_err(),
        "failed to parse argument for 'workers': cannot parse integer from empty string"
    );
    assert_eq!(
        place(None, Some("-1"), None, None).unwrap_err(),
        "failed to parse argument for 'random': invalid digit found in string"
    );
    assert_eq!(
        place(None, None, Some("1,2,x"), None).unwrap_err(),
        "failed to parse argument for 'fixed': invalid digit found in string"
    );
    assert_eq!(
        place(None, None, Some("1,,2"), None).unwrap_err(),
        "failed to parse argument for 'fixed': cannot parse integer from empty string"
    );
    assert_eq!(
        place(None, None, Some("18446744073709551616"), None).unwrap_err(),
        "failed to parse argument for 'fixed': number too large to fit in target type"
    );
    // the workers are read first
    assert_eq!(
        place(Some("w"), Some("r"), None, None).unwrap_err(),
        "failed to parse argument for 'workers': invalid digit found in string"
    );
}

#[test]
fn numbers_are_read_as_the_standard_library_reads_them() {
    let texts = vec![
        "", "0", "7", "+7", "+", "-", "-7", "++7", "007", " 7", "7 ", "1_000", "12a", "a12",
        "18446744073709551615", "18446744073709551616", "99999999999999999999999",
        "99999999999999999999999x", "+18446744073709551615", "٣", "1.5", "0x10",
    ];
    for text in texts {
        let expected = text.parse::<u64>();
        let got = parse_decimal(text, u64::MAX);
        match (expected, got) {
            (Ok(a), Ok(b)) => assert_eq!(a, b),
            (Err(a), Err(b)) => assert_eq!(a.to_string(), b.text(), "for {:?}", text),
            (a, b) => panic!("{:?}: expected {:?}, got {:?}", text, a, b),
        }
        let expected = text.parse::<usize>();
        let got = parse_usize(text);
        match (expected, got) {
            (Ok(a), Ok(b)) => assert_eq!(a, b),
            (Err(a), Err(b)) => assert_eq!(a.to_string(), b.text(), "for {:?}", text),
            (a, b) => panic!("{:?}: expected {:?}, got {:?}", text, a, b),
        }
    }
}

#[test]
fn numbers_above_the_limit_are_too_large() {
    assert_eq!(parse_decimal("255", 255), Ok(255));
    assert_eq!(parse_decimal("256", 255), Err(IntError::PosOverflow));
    assert_eq!(parse_decimal("2560", 255), Err(IntError::PosOverflow));
    assert_eq!(parse_decimal("25x", 255), Err(IntError::InvalidDigit));
    assert_eq!(parse_decimal("256x", 255), Err(IntError::PosOverflow));
}

#[test]
fn parse_failure_message() {
    assert_eq!(
        fmt_err("workers", IntError::Empty),
        "failed to parse argument for 'workers': cannot parse integer from empty string"
    );
}

#[test]
fn submit_texts() {
    assert_eq!(program_name(None), "executor");
    assert_eq!(program_name(Some(String::from("submit"))), "submit");
    assert_eq!(coordinator_address(None), "localhost:9189");
    assert_eq!(coordinator_address(Some(String::from("host:1"))), "host:1");
    assert_eq!(brief("submit"), "Usage: submit [options] -p FILE [<args>...]");
    assert_eq!(
        failure("missing 'program' argument'", &brief("x")),
        "missing 'program' argument'\n\nUsage: x [options] -p FILE [<args>...]"
    );
    assert_eq!(local_url("/bin/query"), "file:///bin/query");
}
