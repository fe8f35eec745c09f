use shoji_probe::options::lock_seconds;
use shoji_probe::options::MonitorOptions;

fn args(list: &[&str]) -> Vec<String> {
    list.iter().map(|arg| arg.to_string()).collect()
}

fn parse(list: &[&str]) -> (u64, Option<String>, Option<String>, u64) {
    let options = MonitorOptions::parse(&args(list));
    (options.seconds, options.minimize, options.unminimize, options.after)
}

fn text(s: &str) -> Option<String> {
    Some(s.to_string())
}

#[test]
fn no_arguments_give_the_defaults() {
    assert_eq!(parse(&[]), (10, None, None, 2));
}

#[test]
fn full_command_line_is_read() {
    assert_eq!(
        parse(&["30", "--minimize", "foot", "--after", "5", "--unminimize", "kitty"]),
        (30, text("foot"), text("kitty"), 5)
    );
}

#[test]
fn values_of_flags_are_taken_as_they_are() {
    assert_eq!(parse(&["--minimize", "7"]), (10, text("7"), None, 2));
    assert_eq!(parse(&["--minimize", "--after", "7"]), (7, text("--after"), None, 2));
    assert_eq!(parse(&["--after", "x", "4"]), (4, None, None, 2));
}

#[test]
fn flag_without_a_value_resets_its_option() {
    assert_eq!(parse(&["--minimize", "a", "--minimize"]), (10, None, None, 2));
    assert_eq!(parse(&["--unminimize", "a", "--unminimize"]), (10, None, None, 2));
    assert_eq!(parse(&["--after", "9", "--after"]), (10, None, None, 9));
}

#[test]
fn later_arguments_win() {
    assert_eq!(parse(&["3", "4", "five"]), (4, None, None, 2));
    assert_eq!(parse(&["--after", "3", "--after", "6"]), (10, None, None, 6));
    assert_eq!(parse(&["--unminimize", "a", "--unminimize", "b"]), (10, None, text("b"), 2));
}

#[test]
fn numbers_out_of_range_are_ignored() {
    assert_eq!(parse(&["18446744073709551616"]), (10, None, None, 2));
    assert_eq!(parse(&["-1", "--after", "-1"]), (10, None, None, 2));
    assert_eq!(parse(&["+8"]), (8, None, None, 2));
}

#[test]
fn lock_time_is_the_first_argument() {
    assert_eq!(lock_seconds(&args(&[])), 3);
    assert_eq!(lock_seconds(&args(&["8"])), 8);
    assert_eq!(lock_seconds(&args(&["soon", "8"])), 3);
    assert_eq!(lock_seconds(&args(&["0", "8"])), 0);
}
