use numconverter::process::{run, ErrorCode, RunConfig};

fn config(num: &str, base: u32, bases: &[&str]) -> RunConfig {
    RunConfig {
        num: String::from(num),
        base,
        bases: bases.iter().map(|b| String::from(*b)).collect(),
        sep_length: 4,
        sep_char: '_',
        no_sep: false,
        silent: false,
        bare: false,
    }
}

#[test]
fn scenario_187_to_binary_and_hex() {
    let lines = run(&config("187", 10, &["2", "16"])).unwrap();
    assert_eq!(lines, vec!["Base 02: 1011_1011", "Base 16: BB"]);
}

#[test]
fn scenario_69_default_targets() {
    let lines = run(&config("69", 10, &[])).unwrap();
    assert_eq!(
        lines,
        vec!["Base 02: 100_0101", "Base 08: 105", "Base 10: 69", "Base 16: 45"]
    );
}

#[test]
fn scenario_target_radix_40_aborts_whole_run() {
    let err = run(&config("187", 10, &["2", "40"])).unwrap_err();
    assert_eq!(err.code, ErrorCode::InputBaseErr);
    assert_eq!(
        err.message,
        "Error with custom base:\n\tInvalid Base.  Base must be between 2 and 32"
    );
}

#[test]
fn target_token_not_a_number_aborts() {
    let err = run(&config("187", 10, &["2", "x"])).unwrap_err();
    assert_eq!(err.code, ErrorCode::TargetBaseErr);
    assert_eq!(
        err.message,
        "Error with target base x\nPlease provide target base is base 10."
    );
}

#[test]
fn unreadable_input_number_aborts() {
    let err = run(&config("zzz", 10, &["2"])).unwrap_err();
    assert_eq!(err.code, ErrorCode::BaseConversionErr);
    assert_eq!(err.message, "Could not convert zzz from base 10");
}

#[test]
fn input_radix_out_of_range_aborts() {
    let err = run(&config("187", 40, &["2"])).unwrap_err();
    assert_eq!(err.code, ErrorCode::BaseConversionErr);
    assert_eq!(err.message, "Could not convert 187 from base 40");
}

#[test]
fn no_sep_flag_disables_separators() {
    let mut cfg = config("187", 10, &["2"]);
    cfg.no_sep = true;
    assert_eq!(run(&cfg).unwrap(), vec!["Base 02: 10111011"]);
}

#[test]
fn sep_length_zero_disables_separators() {
    let mut cfg = config("187", 10, &["2"]);
    cfg.sep_length = 0;
    assert_eq!(run(&cfg).unwrap(), vec!["Base 02: 10111011"]);
}

#[test]
fn bare_mode_omits_labels() {
    let mut cfg = config("187", 10, &["2", "16"]);
    cfg.bare = true;
    assert_eq!(run(&cfg).unwrap(), vec!["1011_1011", "BB"]);
}

#[test]
fn silent_mode_prints_nothing_but_still_validates() {
    let mut cfg = config("187", 10, &["2", "16"]);
    cfg.silent = true;
    assert_eq!(run(&cfg).unwrap(), Vec::<String>::new());

    let mut bad = config("187", 10, &["40"]);
    bad.silent = true;
    assert_eq!(run(&bad).unwrap_err().code, ErrorCode::InputBaseErr);
}

#[test]
fn input_radix_other_than_ten_is_honoured() {
    let lines = run(&config("BB", 16, &["10"])).unwrap();
    assert_eq!(lines, vec!["Base 10: 187"]);
}

#[test]
fn zero_value_keeps_quirky_empty_digit_string() {
    let lines = run(&config("0", 10, &["2", "16"])).unwrap();
    assert_eq!(lines, vec!["Base 02: ", "Base 16: "]);
}

#[test]
fn error_code_messages() {
    assert_eq!(ErrorCode::BaseConversionErr.message(), "Base Conversion Error");
    assert_eq!(ErrorCode::TargetBaseErr.message(), "Target Base Error");
    assert_eq!(ErrorCode::InputBaseErr.message(), "Input Base Error");
}
