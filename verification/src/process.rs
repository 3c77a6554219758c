//! A whole conversion request: parsed options in, the output lines in
//! target order out — or the first failure, with the message to print.

use vstd::prelude::*;
use vstd::string::{StrSliceExecFns, StringExecFns};
use crate::convert::{
    as_string_base, digit_char, digit_to_char, digits_of, numeral_ok, numeral_value,
    parse_in_radix, push_char, valid_radix,
};
use crate::separator::{insert_separators, with_separators};

verus! {

/// The failure kinds of a run, each terminal for the whole invocation.
#[derive(Clone, Copy, Debug, PartialEq, Eq, Structural)]
pub enum ErrorCode {
    /// The input numeral cannot be read in the input radix.
    BaseConversionErr,
    /// A target radix token is no base-10 numeral.
    TargetBaseErr,
    /// A target radix lies outside 2 through 32.
    InputBaseErr,
}

/// A parsed conversion request: the numeral, its radix, the target radices,
/// and the formatting switches.
pub struct RunConfig {
    /// The numeral to convert, written in radix `base`.
    pub num: String,
    /// The radix the numeral is written in.
    pub base: u32,
    /// The target radices, as base-10 tokens; empty means the default set.
    pub bases: Vec<String>,
    /// Characters between separators; zero disables them.
    pub sep_length: u32,
    /// The separator character.
    pub sep_char: char,
    /// Disables separators altogether.
    pub no_sep: bool,
    /// Suppresses every output line.
    pub silent: bool,
    /// Leaves out the `Base NN: ` prefix.
    pub bare: bool,
}

/// A failed run: its kind, and the message printed for it.
#[derive(Debug)]
pub struct RunError {
    pub code: ErrorCode,
    pub message: String,
}

/// The default target radices: binary, octal, decimal, hexadecimal.
pub open spec fn default_targets() -> Seq<Seq<char>> {
    seq![seq!['2'], seq!['8'], seq!['1', '0'], seq!['1', '6']]
}

/// The label put before a converted value: `Base NN: `, the radix as two
/// decimal digits.
pub open spec fn spec_label(b: nat) -> Seq<char>
    recommends
        b < 100,
{
    seq!['B', 'a', 's', 'e', ' ', digit_char(b / 10), digit_char(b % 10), ':', ' ']
}

/// One output line for value `v` in radix `b` under the switches of `cfg`.
pub open spec fn spec_line(v: nat, b: nat, cfg: RunConfig) -> Seq<char> {
    let digits = digits_of(v, b);
    let formatted = if !cfg.no_sep && cfg.sep_length > 0 {
        with_separators(digits, cfg.sep_length as nat, cfg.sep_char)
    } else {
        digits
    };
    if cfg.bare {
        formatted
    } else {
        spec_label(b) + formatted
    }
}

/// Whether a target token names a radix at all: a well-formed base-10
/// numeral whose value fits in 32 bits.
pub open spec fn target_token_ok(t: Seq<char>) -> bool {
    numeral_ok(t, 10) && numeral_value(t, 10) <= u32::MAX
}

/// The lines for the target list, first to last. The first bad target
/// aborts the whole run: a token that is no base-10 numeral is
/// `TargetBaseErr`, a radix outside 2 through 32 is `InputBaseErr`; the
/// offending token comes along for the message.
pub open spec fn spec_lines(v: nat, targets: Seq<Seq<char>>, cfg: RunConfig) -> Result<
    Seq<Seq<char>>,
    (ErrorCode, Seq<char>),
>
    decreases targets.len(),
{
    if targets.len() == 0 {
        Ok(Seq::empty())
    } else {
        let t = targets[0];
        if !target_token_ok(t) {
            Err((ErrorCode::TargetBaseErr, t))
        } else if !(2 <= numeral_value(t, 10) <= 32) {
            Err((ErrorCode::InputBaseErr, t))
        } else {
            match spec_lines(v, targets.drop_first(), cfg) {
                Ok(rest) => Ok(seq![spec_line(v, numeral_value(t, 10), cfg)] + rest),
                Err(e) => Err(e),
            }
        }
    }
}

/// A value in decimal for a message; zero is `0` here, not the empty string.
pub open spec fn spec_decimal(v: nat) -> Seq<char> {
    if v == 0 {
        seq!['0']
    } else {
        digits_of(v, 10)
    }
}

/// The message printed for a failure, naming the offending value.
pub open spec fn spec_message(code: ErrorCode, cfg: RunConfig, token: Seq<char>) -> Seq<char> {
    match code {
        ErrorCode::BaseConversionErr => "Could not convert "@ + cfg.num@ + " from base "@
            + spec_decimal(cfg.base as nat),
        ErrorCode::TargetBaseErr => "Error with target base "@ + token
            + "\nPlease provide target base is base 10."@,
        ErrorCode::InputBaseErr => "Error with custom base:\n\tInvalid Base.  Base must be between 2 and 32"@,
    }
}

/// Whether the input numeral can be read at all: its radix in range, the
/// numeral well formed, its value within 128 bits.
pub open spec fn input_ok(cfg: RunConfig) -> bool {
    &&& valid_radix(cfg.base)
    &&& numeral_ok(cfg.num@, cfg.base as nat)
    &&& numeral_value(cfg.num@, cfg.base as nat) <= u128::MAX
}

/// What a whole run produces: the output lines in target order — none when
/// silent — or the first failure and the message printed for it. A bad
/// input numeral (or input radix) is `BaseConversionErr`; a bad target
/// aborts the run with no lines at all.
pub open spec fn spec_run(cfg: RunConfig) -> Result<Seq<Seq<char>>, (ErrorCode, Seq<char>)> {
    if !input_ok(cfg) {
        Err(
            (
                ErrorCode::BaseConversionErr,
                spec_message(ErrorCode::BaseConversionErr, cfg, Seq::empty()),
            ),
        )
    } else {
        let v = numeral_value(cfg.num@, cfg.base as nat);
        let targets = if cfg.bases@.len() == 0 {
            default_targets()
        } else {
            cfg.bases.deep_view()
        };
        match spec_lines(v, targets, cfg) {
            Ok(lines) => Ok(
                if cfg.silent {
                    Seq::empty()
                } else {
                    lines
                },
            ),
            Err((code, tok)) => Err((code, spec_message(code, cfg, tok))),
        }
    }
}

/// The short name of a failure kind, as the command shows it on exit.
pub open spec fn spec_code_message(code: ErrorCode) -> Seq<char> {
    match code {
        ErrorCode::BaseConversionErr => "Base Conversion Error"@,
        ErrorCode::TargetBaseErr => "Target Base Error"@,
        ErrorCode::InputBaseErr => "Input Base Error"@,
    }
}

impl ErrorCode {
    /// The short name of this failure kind.
    pub fn message(&self) -> (r: String)
        ensures
            r@ == spec_code_message(*self),
    {
        match self {
            ErrorCode::BaseConversionErr => String::from_str("Base Conversion Error"),
            ErrorCode::TargetBaseErr => String::from_str("Target Base Error"),
            ErrorCode::InputBaseErr => String::from_str("Input Base Error"),
        }
    }
}

/// A radix rendered in decimal for a message; renders zero as `0`.
fn decimal_string(v: u32) -> (r: String)
    ensures
        r@ == spec_decimal(v as nat),
{
    if v == 0 {
        let r = String::from_str("0");
        proof {
            reveal_strlit("0");
            assert(r@ =~= seq!['0']);
        }
        r
    } else {
        match as_string_base(&(v as u128), 10) {
            Ok(s) => s,
            Err(_) => {
                proof {
                    assert(false);
                }
                String::new()
            },
        }
    }
}

/// The message for an input numeral that cannot be read.
fn message_bad_number(cfg: &RunConfig) -> (r: String)
    ensures
        r@ == spec_message(ErrorCode::BaseConversionErr, *cfg, Seq::empty()),
{
    let mut m = String::from_str("Could not convert ");
    m.append(cfg.num.as_str());
    m.append(" from base ");
    let d = decimal_string(cfg.base);
    m.append(d.as_str());
    proof {
        assert(m@ =~= spec_message(ErrorCode::BaseConversionErr, *cfg, Seq::empty()));
    }
    m
}

/// The message for a target token that is no base-10 numeral.
fn message_bad_token(token: &String, Ghost(cfg): Ghost<RunConfig>) -> (r: String)
    ensures
        r@ == spec_message(ErrorCode::TargetBaseErr, cfg, token@),
{
    let mut m = String::from_str("Error with target base ");
    m.append(token.as_str());
    m.append("\nPlease provide target base is base 10.");
    proof {
        assert(m@ =~= spec_message(ErrorCode::TargetBaseErr, cfg, token@));
    }
    m
}

/// The message for a target radix outside 2 through 32.
fn message_bad_radix(Ghost(cfg): Ghost<RunConfig>, Ghost(token): Ghost<Seq<char>>) -> (r: String)
    ensures
        r@ == spec_message(ErrorCode::InputBaseErr, cfg, token),
{
    String::from_str("Error with custom base:\n\tInvalid Base.  Base must be between 2 and 32")
}

/// The `Base NN: ` prefix for radix `b`.
fn build_label(b: u32) -> (r: String)
    requires
        2 <= b <= 32,
    ensures
        r@ == spec_label(b as nat),
{
    let mut label = String::from_str("Base ");
    push_char(&mut label, digit_to_char((b / 10) as u8));
    push_char(&mut label, digit_to_char((b % 10) as u8));
    label.append(": ");
    proof {
        reveal_strlit("Base ");
        reveal_strlit(": ");
        assert(label@ =~= spec_label(b as nat));
    }
    label
}

/// One output line for `v` in radix `b`.
fn build_line(v: u128, b: u32, cfg: &RunConfig) -> (r: String)
    requires
        2 <= b <= 32,
    ensures
        r@ == spec_line(v as nat, b as nat, *cfg),
{
    let digits = match as_string_base(&v, b) {
        Ok(s) => s,
        Err(_) => {
            proof {
                assert(false);
            }
            String::new()
        },
    };
    let formatted = if !cfg.no_sep && cfg.sep_length > 0 {
        insert_separators(digits.as_str(), cfg.sep_length, cfg.sep_char)
    } else {
        digits
    };
    if cfg.bare {
        formatted
    } else {
        let mut line = build_label(b);
        line.append(formatted.as_str());
        line
    }
}

/// Reads one target token as a base-10 radix.
fn parse_target(t: &str) -> (r: Option<u32>)
    ensures
        match r {
            Some(b) => target_token_ok(t@) && b as nat == numeral_value(t@, 10),
            None => !target_token_ok(t@),
        },
{
    match parse_in_radix(t, 10) {
        Some(v) => {
            if v <= u32::MAX as u128 {
                Some(v as u32)
            } else {
                None
            }
        },
        None => None,
    }
}

/// Converts `v` for every target from position `i` on, stopping at the
/// first bad target.
fn convert_all(v: u128, targets: &Vec<String>, i: usize, cfg: &RunConfig) -> (r: Result<
    Vec<String>,
    (ErrorCode, String),
>)
    requires
        i <= targets.len(),
    ensures
        match r {
            Ok(lines) => spec_lines(v as nat, targets.deep_view().skip(i as int), *cfg)
                == Ok::<Seq<Seq<char>>, (ErrorCode, Seq<char>)>(lines.deep_view()),
            Err(e) => (match spec_lines(v as nat, targets.deep_view().skip(i as int), *cfg) {
                Err(err) => err.0 == e.0 && err.1 == e.1@,
                Ok(_) => false,
            }),
        },
    decreases targets.len() - i,
{
    let ghost rest_view = targets.deep_view().skip(i as int);
    if i == targets.len() {
        let lines: Vec<String> = Vec::new();
        proof {
            assert(rest_view =~= Seq::<Seq<char>>::empty());
            assert(lines.deep_view() =~= Seq::<Seq<char>>::empty());
        }
        Ok(lines)
    } else {
        let t: &String = &targets[i];
        proof {
            assert(rest_view[0] == t@);
            assert(rest_view.drop_first() =~= targets.deep_view().skip(i + 1));
        }
        match parse_target(t.as_str()) {
            None => Err((ErrorCode::TargetBaseErr, t.clone())),
            Some(b) => {
                if b < 2 || b > 32 {
                    Err((ErrorCode::InputBaseErr, t.clone()))
                } else {
                    let line = build_line(v, b, cfg);
                    match convert_all(v, targets, i + 1, cfg) {
                        Ok(rest) => {
                            let ghost rest0 = rest.deep_view();
                            let mut lines = rest;
                            lines.insert(0, line);
                            proof {
                                assert(lines.deep_view() =~~= seq![line@] + rest0);
                                assert(spec_lines(v as nat, rest_view, *cfg) == Ok::<
                                    Seq<Seq<char>>,
                                    (ErrorCode, Seq<char>),
                                >(seq![spec_line(v as nat, numeral_value(t@, 10), *cfg)] + rest0));
                            }
                            Ok(lines)
                        },
                        Err(e) => Err(e),
                    }
                }
            },
        }
    }
}

/// Carries out a whole parsed request: reads the input numeral, then
/// converts its value once for each requested target radix, in the order
/// given (or the default order). The lines come back ready to print — none
/// when silent; the first failure aborts the run with its kind and message,
/// leaving no lines at all.
pub fn run(cfg: &RunConfig) -> (r: Result<Vec<String>, RunError>)
    ensures
        match r {
            Ok(lines) => spec_run(*cfg) == Ok::<Seq<Seq<char>>, (ErrorCode, Seq<char>)>(
                lines.deep_view(),
            ),
            Err(e) => (match spec_run(*cfg) {
                Err(err) => err.0 == e.code && err.1 == e.message@,
                Ok(_) => false,
            }),
        },
{
    if cfg.base < 2 || cfg.base > 32 {
        return Err(
            RunError { code: ErrorCode::BaseConversionErr, message: message_bad_number(cfg) },
        );
    }
    let v: u128 = match parse_in_radix(cfg.num.as_str(), cfg.base) {
        Some(v) => v,
        None => {
            return Err(
                RunError { code: ErrorCode::BaseConversionErr, message: message_bad_number(cfg) },
            );
        },
    };
    let use_default = cfg.bases.len() == 0;
    let mut defaults: Vec<String> = Vec::new();
    if use_default {
        defaults.push(String::from_str("2"));
        defaults.push(String::from_str("8"));
        defaults.push(String::from_str("10"));
        defaults.push(String::from_str("16"));
        proof {
            reveal_strlit("2");
            reveal_strlit("8");
            reveal_strlit("10");
            reveal_strlit("16");
            assert(defaults.deep_view() =~~= default_targets());
        }
    }
    let targets: &Vec<String> = if use_default {
        &defaults
    } else {
        &cfg.bases
    };
    proof {
        assert(targets.deep_view().skip(0) =~= targets.deep_view());
    }
    match convert_all(v, targets, 0, cfg) {
        Ok(lines) => {
            if cfg.silent {
                let empty: Vec<String> = Vec::new();
                proof {
                    assert(empty.deep_view() =~= Seq::<Seq<char>>::empty());
                }
                Ok(empty)
            } else {
                Ok(lines)
            }
        },
        Err((code, token)) => {
            let message: String = match code {
                ErrorCode::BaseConversionErr => message_bad_number(cfg),
                ErrorCode::TargetBaseErr => message_bad_token(&token, Ghost(*cfg)),
                ErrorCode::InputBaseErr => message_bad_radix(Ghost(*cfg), Ghost(token@)),
            };
            Err(RunError { code, message })
        },
    }
}

} // verus!
