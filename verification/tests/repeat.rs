use xtask_todo_lib::{RepeatRule};

#[test]
fn from_str_2d_and_3w() {
    assert_eq!("2d".parse::<RepeatRule>().unwrap(), RepeatRule::Custom(2));
    assert_eq!("3w".parse::<RepeatRule>().unwrap(), RepeatRule::Custom(21));
}

#[test]
fn from_str_weekdays() {
    assert_eq!(
        "weekdays".parse::<RepeatRule>().unwrap(),
        RepeatRule::Weekdays
    );
}
