use zgclp::{arg_parse, Arg};

#[test]
fn short_option_simple() {
    let args = vec!["-a", "1", "-f", "-g3"];
    let v = arg_parse(&args, 0);
    assert_eq!(v, (Arg::Option("-a"), Some(1), Some((2, "1"))));
    let v = arg_parse(&args, 1);
    assert_eq!(v, (Arg::Value, None, Some((1, "1"))));
    let v = arg_parse(&args, 2);
    assert_eq!(v, (Arg::Option("-f"), Some(1), None));
    let v = arg_parse(&args, 3);
    assert_eq!(v, (Arg::Option("-g"), None, Some((1, "3"))));
}

#[test]
fn short_option_complicated() {
    let args = vec!["-a=1", "-f", "-", "-g", "--", "-h"];
    let v = arg_parse(&args, 0);
    assert_eq!(v, (Arg::Option("-a"), None, Some((1, "=1"))));
    let v = arg_parse(&args, 1);
    assert_eq!(v, (Arg::Option("-f"), Some(1), Some((2, "-"))));
    let v = arg_parse(&args, 2);
    assert_eq!(v, (Arg::Value, None, Some((1, "-"))));
    let v = arg_parse(&args, 3);
    assert_eq!(v, (Arg::Option("-g"), Some(1), None));
    let v = arg_parse(&args, 4);
    assert_eq!(v, (Arg::Separator("--"), Some(1), None));
    let v = arg_parse(&args, 5);
    assert_eq!(v, (Arg::Option("-h"), Some(1), None));
}

#[test]
fn long_option_simple() {
    let args = vec!["--aa", "1", "--ff", "--gg=3"];
    let v = arg_parse(&args, 0);
    assert_eq!(v, (Arg::Option("--aa"), Some(1), Some((2, "1"))));
    let v = arg_parse(&args, 1);
    assert_eq!(v, (Arg::Value, None, Some((1, "1"))));
    let v = arg_parse(&args, 2);
    assert_eq!(v, (Arg::Option("--ff"), Some(1), None));
    let v = arg_parse(&args, 3);
    assert_eq!(v, (Arg::Option("--gg"), None, Some((1, "3"))));
}

#[test]
fn match_test() {
    let args = vec!["--aa", "1", "--bb=3"];
    let v = arg_parse(&args, 0);
    match v {
        (Arg::Option("--aa"), Some(1), Some((2, "1"))) => {}
        _ => {
            panic!("match fails.")
        }
    }
    match v {
        (Arg::Option("--aa"), _, Some((eat, "1"))) => {
            assert_eq!(eat, 2 as usize);
        }
        _ => {
            panic!("match fails.")
        }
    }

    let v = arg_parse(&args, 2);
    match v {
        (Arg::Option("--bb"), None, Some((eat, value))) => {
            assert_eq!(eat, 1 as usize);
            assert_eq!(value, "3");
        }
        _ => {
            panic!("match fails.")
        }
    }
}

#[test]
fn lone_dash_is_value_anywhere() {
    let args = vec!["-", "x", "-"];
    assert_eq!(arg_parse(&args, 0), (Arg::Value, None, Some((1, "-"))));
    assert_eq!(arg_parse(&args, 2), (Arg::Value, None, Some((1, "-"))));
}

#[test]
fn double_dash_is_separator_anywhere() {
    let args = vec!["--", "a", "--"];
    assert_eq!(arg_parse(&args, 0), (Arg::Separator("--"), Some(1), None));
    assert_eq!(arg_parse(&args, 2), (Arg::Separator("--"), Some(1), None));
}

#[test]
fn long_option_with_eq_single_token() {
    let args = vec!["--gg=3"];
    assert_eq!(arg_parse(&args, 0), (Arg::Option("--gg"), None, Some((1, "3"))));
}

#[test]
fn long_option_with_empty_inline_value() {
    let args = vec!["--out=", "next"];
    assert_eq!(arg_parse(&args, 0), (Arg::Option("--out"), None, Some((1, ""))));
}

#[test]
fn long_option_splits_at_first_eq() {
    let args = vec!["--define=a=b"];
    assert_eq!(arg_parse(&args, 0), (Arg::Option("--define"), None, Some((1, "a=b"))));
}

#[test]
fn long_option_ambiguous_before_value() {
    let args = vec!["--aa", "1"];
    assert_eq!(arg_parse(&args, 0), (Arg::Option("--aa"), Some(1), Some((2, "1"))));
}

#[test]
fn long_option_before_lone_dash_is_ambiguous() {
    let args = vec!["--input", "-"];
    assert_eq!(arg_parse(&args, 0), (Arg::Option("--input"), Some(1), Some((2, "-"))));
}

#[test]
fn long_option_last_takes_no_argument() {
    let args = vec!["x", "--verbose"];
    assert_eq!(arg_parse(&args, 1), (Arg::Option("--verbose"), Some(1), None));
}

#[test]
fn long_option_before_separator_takes_no_argument() {
    let args = vec!["--verbose", "--"];
    assert_eq!(arg_parse(&args, 0), (Arg::Option("--verbose"), Some(1), None));
}

#[test]
fn bundled_short_option_single_token() {
    let args = vec!["-g3"];
    assert_eq!(arg_parse(&args, 0), (Arg::Option("-g"), None, Some((1, "3"))));
}

#[test]
fn bare_short_option_before_option() {
    let args = vec!["-f", "-g"];
    assert_eq!(arg_parse(&args, 0), (Arg::Option("-f"), Some(1), None));
}

#[test]
fn bare_short_option_last() {
    let args = vec!["-f"];
    assert_eq!(arg_parse(&args, 0), (Arg::Option("-f"), Some(1), None));
}

#[test]
fn empty_token_is_value() {
    let args = vec![""];
    assert_eq!(arg_parse(&args, 0), (Arg::Value, None, Some((1, ""))));
}

#[test]
fn non_ascii_short_option_counts_characters() {
    let args = vec!["-é", "1", "-éx"];
    assert_eq!(arg_parse(&args, 0), (Arg::Option("-é"), Some(1), Some((2, "1"))));
    assert_eq!(arg_parse(&args, 2), (Arg::Option("-é"), None, Some((1, "x"))));
}

#[test]
fn non_ascii_long_option_with_eq() {
    let args = vec!["--naïve=café"];
    assert_eq!(arg_parse(&args, 0), (Arg::Option("--naïve"), None, Some((1, "café"))));
}

#[test]
fn full_loop_consumes_all_tokens() {
    let argv = vec!["p", "--aa", "1", "-g3", "--", "-x", "--bb=2", "-f", "-", "v"];
    for prefer_argument in [true, false] {
        let mut cursor: usize = 1;
        let mut total: usize = 0;
        let mut steps: usize = 0;
        while cursor < argv.len() {
            let (_arg, without, with) = arg_parse(&argv, cursor);
            let eat = match (without, with) {
                (Some(n), Some((m, _))) => {
                    if prefer_argument {
                        m
                    } else {
                        n
                    }
                }
                (Some(n), None) => n,
                (None, Some((m, _))) => m,
                (None, None) => panic!("no advance"),
            };
            assert!(eat >= 1);
            total += eat;
            cursor += eat;
            steps += 1;
        }
        assert_eq!(cursor, argv.len());
        assert_eq!(total, argv.len() - 1);
        assert!(steps <= argv.len() - 1);
    }
}
