use port_scan::args::{parse_arguments, ArgError, Outcome};

fn argv(words: &[&str]) -> Vec<String> {
    words.iter().map(|w| w.to_string()).collect()
}

fn expect_fail(r: Outcome, want: ArgError) {
    match r {
        Outcome::Fail(e) => assert_eq!(e, want),
        Outcome::Help => panic!("got help, wanted a failure"),
        Outcome::Run(_) => panic!("got a run, wanted a failure"),
    }
}

#[test]
fn help_alone_is_help() {
    let r = parse_arguments(&argv(&["prog", "-h"]), false, false);
    assert!(matches!(r, Outcome::Help));
    let r = parse_arguments(&argv(&["prog", "--help"]), false, false);
    assert!(matches!(r, Outcome::Help));
}

#[test]
fn help_with_extra_word_is_error() {
    let r = parse_arguments(&argv(&["prog", "-h", "10.0.0.1"]), false, false);
    expect_fail(r, ArgError::TooManyArguments);
}

#[test]
fn address_alone_runs_with_four_workers() {
    match parse_arguments(&argv(&["prog", "10.0.0.1"]), true, false) {
        Outcome::Run(a) => {
            assert_eq!(a.ipaddr, "10.0.0.1");
            assert_eq!(a.threads, 4);
        },
        _ => panic!("expected a run"),
    }
}

#[test]
fn thread_flag_runs_with_given_count() {
    match parse_arguments(&argv(&["prog", "-j", "100", "::1"]), false, true) {
        Outcome::Run(a) => {
            assert_eq!(a.ipaddr, "::1");
            assert_eq!(a.threads, 100);
        },
        _ => panic!("expected a run"),
    }
}

#[test]
fn malformed_thread_count_is_parse_failure() {
    let r = parse_arguments(&argv(&["prog", "-j", "abc", "127.0.0.1"]), false, true);
    match r {
        Outcome::Fail(e) => {
            assert_eq!(e, ArgError::BadThreadCount);
            assert_eq!(e.message(), "failed to parse thread number");
        },
        _ => panic!("expected a failure"),
    }
}

#[test]
fn zero_thread_count_is_parse_failure() {
    let r = parse_arguments(&argv(&["prog", "-j", "0", "127.0.0.1"]), false, true);
    expect_fail(r, ArgError::BadThreadCount);
}

#[test]
fn bad_address_is_validation_failure() {
    let r = parse_arguments(&argv(&["prog", "-j", "4", "not-an-ip"]), false, false);
    match r {
        Outcome::Fail(e) => {
            assert_eq!(e, ArgError::InvalidIpAddr);
            assert_eq!(e.message(), "not valid IPADDR; must be iPv4 or iPv6");
        },
        _ => panic!("expected a failure"),
    }
}

#[test]
fn too_few_words() {
    let r = parse_arguments(&argv(&["prog"]), false, false);
    expect_fail(r, ArgError::NotEnoughArguments);
    let r = parse_arguments(&argv(&["prog", "-j", "4"]), false, false);
    expect_fail(r, ArgError::NotEnoughArguments);
}

#[test]
fn too_many_words() {
    let r = parse_arguments(&argv(&["prog", "-j", "4", "::1", "extra"]), false, true);
    expect_fail(r, ArgError::TooManyArguments);
}

#[test]
fn address_with_extra_words_is_error() {
    let r = parse_arguments(&argv(&["prog", "10.0.0.1", "junk"]), true, false);
    expect_fail(r, ArgError::TooManyArguments);
    let r = parse_arguments(&argv(&["prog", "10.0.0.1", "junk", "junk"]), true, false);
    expect_fail(r, ArgError::TooManyArguments);
}

#[test]
fn flags_match_whole_words_only() {
    let r = parse_arguments(&argv(&["prog", "x-j", "7", "::1"]), false, true);
    expect_fail(r, ArgError::InvalidSyntax);
    let r = parse_arguments(&argv(&["prog", "-hx"]), false, false);
    expect_fail(r, ArgError::InvalidSyntax);
    let r = parse_arguments(&argv(&["prog", "--helpme"]), false, false);
    expect_fail(r, ArgError::InvalidSyntax);
    let r = parse_arguments(&argv(&["prog", "-jj", "7", "::1"]), false, true);
    expect_fail(r, ArgError::InvalidSyntax);
}

#[test]
fn unknown_flag_is_syntax_error() {
    let r = parse_arguments(&argv(&["prog", "flowers"]), false, false);
    match r {
        Outcome::Fail(e) => {
            assert_eq!(e, ArgError::InvalidSyntax);
            assert_eq!(e.message(), "invalid syntax");
        },
        _ => panic!("expected a failure"),
    }
}
