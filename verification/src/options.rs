//! The command line of the simulation program: `--turns`, `--delay-ms` and
//! `--seed`, each taking a whole number, besides `-h`/`--help` and
//! `-V`/`--version`.
//!
//! Tokens are read left to right. An option's value is either attached with
//! `=` (`--turns=3`) or is the next token (`--turns 3`); a value that is still
//! waiting is checked when the next option starts or the line ends. After a
//! bare `--` every token is a positional argument, and the program takes none.

use vstd::prelude::*;

verus! {

/// Turns simulated when `--turns` is not given.
pub const DEFAULT_TURNS: usize = 60;

/// Milliseconds between printed turns when `--delay-ms` is not given.
pub const DEFAULT_DELAY_MS: u64 = 400;

/// Command-line simulation options.
#[derive(Clone, Copy, Debug, PartialEq, Eq)]
pub struct SimOptions {
    /// Maximum number of turns to simulate.
    pub turns: usize,
    /// Delay between printed turns in milliseconds.
    pub delay_ms: u64,
    /// Optional deterministic random seed.
    pub seed: Option<u64>,
}

/// Why a command line gives no options to run with.
#[derive(Clone, Copy, Debug, PartialEq, Eq, Structural)]
pub enum OptionsError {
    /// `-h` or `--help` was asked for.
    DisplayHelp,
    /// `-V` or `--version` was asked for.
    DisplayVersion,
    /// A token that names no option, or a positional argument.
    UnknownArgument,
    /// An option that takes a number was given none.
    InvalidValue,
    /// A value that is not a whole number within the option's range.
    ValueValidation,
    /// An option given more than once.
    ArgumentConflict,
    /// A value attached to `--help` or `--version`.
    TooManyValues,
}

/// An option that takes a number.
#[derive(Clone, Copy, Debug, PartialEq, Eq, Structural)]
pub enum ValueOption {
    Turns,
    DelayMs,
    Seed,
}

/// The numbers given so far on a command line.
#[derive(Clone, Copy, Debug, PartialEq, Eq)]
pub struct GivenOptions {
    pub turns: Option<usize>,
    pub delay_ms: Option<u64>,
    pub seed: Option<u64>,
}

/// Whether a character is an ASCII decimal digit.
pub open spec fn is_digit(c: char) -> bool {
    '0' as int <= c as int <= '9' as int
}

/// The value of a string of decimal digits, most significant first.
pub open spec fn digits_value(digits: Seq<char>) -> nat
    decreases digits.len(),
{
    if digits.len() == 0 {
        0
    } else {
        digits_value(digits.drop_last()) * 10 + (digits.last() as int - '0' as int) as nat
    }
}

/// The digits of an unsigned number: the text after an optional leading `+`.
pub open spec fn unsigned_digits(text: Seq<char>) -> Seq<char> {
    if text.len() > 0 && text[0] == '+' {
        text.drop_first()
    } else {
        text
    }
}

/// The unsigned number a text spells, as the standard library reads one: an
/// optional `+`, then one or more decimal digits.
pub open spec fn number_value(text: Seq<char>) -> Option<nat> {
    let digits = unsigned_digits(text);
    if digits.len() > 0 && forall|k: int| 0 <= k < digits.len() ==> is_digit(#[trigger] digits[k]) {
        Some(digits_value(digits))
    } else {
        None
    }
}

/// The number a text spells when it is at most `limit`.
pub open spec fn bounded_number(text: Seq<char>, limit: nat) -> Option<nat> {
    match number_value(text) {
        Some(value) => if value <= limit {
            Some(value)
        } else {
            None
        },
        None => None,
    }
}

/// The largest value an option holds.
pub open spec fn option_limit(option: ValueOption) -> nat {
    match option {
        ValueOption::Turns => usize::MAX as nat,
        ValueOption::DelayMs => u64::MAX as nat,
        ValueOption::Seed => u64::MAX as nat,
    }
}

/// Whether an option already has a value.
pub open spec fn is_given(given: GivenOptions, option: ValueOption) -> bool {
    match option {
        ValueOption::Turns => given.turns is Some,
        ValueOption::DelayMs => given.delay_ms is Some,
        ValueOption::Seed => given.seed is Some,
    }
}

/// `given` with `value` for `option`.
pub open spec fn with_value(given: GivenOptions, option: ValueOption, value: nat) -> GivenOptions {
    match option {
        ValueOption::Turns => GivenOptions {
            turns: Some(value as usize),
            delay_ms: given.delay_ms,
            seed: given.seed,
        },
        ValueOption::DelayMs => GivenOptions {
            turns: given.turns,
            delay_ms: Some(value as u64),
            seed: given.seed,
        },
        ValueOption::Seed => GivenOptions {
            turns: given.turns,
            delay_ms: given.delay_ms,
            seed: Some(value as u64),
        },
    }
}

/// Records `text` as the value of `option`: an option given twice is a
/// conflict, and a text that is no number within range is refused.
pub open spec fn record(given: GivenOptions, option: ValueOption, text: Seq<char>) -> Result<
    GivenOptions,
    OptionsError,
> {
    if is_given(given, option) {
        Err(OptionsError::ArgumentConflict)
    } else {
        match bounded_number(text, option_limit(option)) {
            Some(value) => Ok(with_value(given, option, value)),
            None => Err(OptionsError::ValueValidation),
        }
    }
}

/// Settles the option still waiting for its value, if any.
pub open spec fn settled(
    given: GivenOptions,
    pending: Option<ValueOption>,
    value: Option<Seq<char>>,
) -> Result<GivenOptions, OptionsError> {
    match pending {
        None => Ok(given),
        Some(option) => match value {
            None => Err(OptionsError::InvalidValue),
            Some(text) => record(given, option, text),
        },
    }
}

/// The options a command line runs with, defaults filled in.
pub open spec fn with_defaults(given: GivenOptions) -> SimOptions {
    SimOptions {
        turns: match given.turns {
            Some(turns) => turns,
            None => DEFAULT_TURNS,
        },
        delay_ms: match given.delay_ms {
            Some(delay_ms) => delay_ms,
            None => DEFAULT_DELAY_MS,
        },
        seed: given.seed,
    }
}

/// `--` alone: every later token is positional.
pub open spec fn is_escape(token: Seq<char>) -> bool {
    token.len() == 2 && token[0] == '-' && token[1] == '-'
}

/// A long option: `--` and a name, perhaps with `=` and a value.
pub open spec fn is_long(token: Seq<char>) -> bool {
    token.len() > 2 && token[0] == '-' && token[1] == '-'
}

/// Short options: `-` and at least one more character, not a second `-`.
pub open spec fn is_short(token: Seq<char>) -> bool {
    token.len() >= 2 && token[0] == '-' && token[1] != '-'
}

/// The index of the first `=` in `token` at or after `from`, or its length.
pub open spec fn first_equals(token: Seq<char>, from: int) -> int
    decreases token.len() - from,
{
    if from >= token.len() {
        token.len() as int
    } else if token[from] == '=' {
        from
    } else {
        first_equals(token, from + 1)
    }
}

/// The name of a long option.
pub open spec fn long_name(token: Seq<char>) -> Seq<char> {
    token.subrange(2, first_equals(token, 2))
}

/// The value attached to a long option with `=`.
pub open spec fn long_value(token: Seq<char>) -> Option<Seq<char>> {
    let at = first_equals(token, 2);
    if at < token.len() {
        Some(token.subrange(at + 1, token.len() as int))
    } else {
        None
    }
}

/// The number option a long name stands for.
pub open spec fn option_named(name: Seq<char>) -> Option<ValueOption> {
    if name == "turns"@ {
        Some(ValueOption::Turns)
    } else if name == "delay-ms"@ {
        Some(ValueOption::DelayMs)
    } else if name == "seed"@ {
        Some(ValueOption::Seed)
    } else {
        None
    }
}

/// A request for help or for the version, once the waiting option is settled.
pub open spec fn display(
    given: GivenOptions,
    pending: Option<ValueOption>,
    value: Option<Seq<char>>,
    help: bool,
) -> Result<SimOptions, OptionsError> {
    match settled(given, pending, value) {
        Err(error) => Err(error),
        Ok(_) => Err(
            if help {
                OptionsError::DisplayHelp
            } else {
                OptionsError::DisplayVersion
            },
        ),
    }
}

/// Reads `args` from index `i` on, with the numbers `given` so far, the option
/// `pending` whose value is `value` (or is still to come), and whether a `--`
/// was seen.
pub open spec fn parse_tokens(
    args: Seq<Seq<char>>,
    i: int,
    given: GivenOptions,
    pending: Option<ValueOption>,
    value: Option<Seq<char>>,
    trailing: bool,
) -> Result<SimOptions, OptionsError>
    decreases args.len() - i,
{
    if i >= args.len() {
        match settled(given, pending, value) {
            Ok(given) => Ok(with_defaults(given)),
            Err(error) => Err(error),
        }
    } else {
        let token = args[i];
        if trailing {
            Err(OptionsError::UnknownArgument)
        } else if is_escape(token) {
            parse_tokens(args, i + 1, given, pending, value, true)
        } else if is_long(token) {
            let name = long_name(token);
            match option_named(name) {
                Some(option) => match settled(given, pending, value) {
                    Err(error) => Err(error),
                    Ok(now) => match long_value(token) {
                        Some(text) => match record(now, option, text) {
                            Err(error) => Err(error),
                            Ok(next) => parse_tokens(args, i + 1, next, None, None, false),
                        },
                        None => parse_tokens(args, i + 1, now, Some(option), None, false),
                    },
                },
                None => if name == "help"@ || name == "version"@ {
                    if long_value(token) is Some {
                        Err(OptionsError::TooManyValues)
                    } else {
                        display(given, pending, value, name == "help"@)
                    }
                } else {
                    Err(OptionsError::UnknownArgument)
                },
            }
        } else if is_short(token) {
            if token[1] == 'h' || token[1] == 'V' {
                display(given, pending, value, token[1] == 'h')
            } else {
                Err(OptionsError::UnknownArgument)
            }
        } else if pending is Some && value is None {
            parse_tokens(args, i + 1, given, pending, Some(token), false)
        } else {
            Err(OptionsError::UnknownArgument)
        }
    }
}

/// No number given yet.
pub open spec fn nothing_given() -> GivenOptions {
    GivenOptions { turns: None, delay_ms: None, seed: None }
}

/// The options a whole command line gives; its first token names the program.
pub open spec fn parse_command_line(args: Seq<Seq<char>>) -> Result<SimOptions, OptionsError> {
    parse_tokens(args, 1, nothing_given(), None, None, false)
}

/// The texts of the tokens of a command line.
pub open spec fn token_texts(args: Seq<&str>) -> Seq<Seq<char>> {
    args.map_values(|token: &str| token@)
}

/// The view of an optional token.
pub open spec fn text_of(token: Option<&str>) -> Option<Seq<char>> {
    match token {
        Some(text) => Some(text@),
        None => None,
    }
}

proof fn lemma_prefix_value_bound(digits: Seq<char>, m: int)
    requires
        0 <= m <= digits.len(),
        forall|k: int| 0 <= k < digits.len() ==> is_digit(#[trigger] digits[k]),
    ensures
        digits_value(digits.subrange(0, m)) <= digits_value(digits),
    decreases digits.len(),
{
    if m < digits.len() {
        let shorter = digits.drop_last();
        assert forall|k: int| 0 <= k < shorter.len() implies is_digit(#[trigger] shorter[k]) by {
            assert(shorter[k] == digits[k]);
        }
        lemma_prefix_value_bound(shorter, m);
        assert(shorter.subrange(0, m) =~= digits.subrange(0, m));
    } else {
        assert(digits.subrange(0, m) =~= digits);
    }
}

/// Whether two texts are equal, character by character.
fn same_text(a: &str, b: &str) -> (same: bool)
    ensures
        same == (a@ == b@),
{
    let n = a.unicode_len();
    if n != b.unicode_len() {
        return false;
    }
    let mut k: usize = 0;
    while k < n
        invariant
            n == a@.len(),
            n == b@.len(),
            k <= n,
            forall|j: int| 0 <= j < k ==> a@[j] == b@[j],
        decreases n - k,
    {
        if a.get_char(k) != b.get_char(k) {
            return false;
        }
        k = k + 1;
    }
    assert(a@ =~= b@);
    true
}

/// Reads the unsigned number `text` spells, if it is at most `limit`.
pub(crate) fn read_number(text: &str, limit: u64) -> (number: Option<u64>)
    ensures
        number == (match bounded_number(text@, limit as nat) {
            Some(value) => Some(value as u64),
            None => None::<u64>,
        }),
{
    let n = text.unicode_len();
    let mut start: usize = 0;
    if n > 0 && text.get_char(0) == '+' {
        start = 1;
    }
    let ghost digits = unsigned_digits(text@);
    proof {
        assert(digits =~= text@.subrange(start as int, n as int));
    }
    if start >= n {
        return None;
    }
    let mut k: usize = start;
    let mut value: u64 = 0;
    while k < n
        invariant
            n == text@.len(),
            start < n,
            start <= k <= n,
            digits == text@.subrange(start as int, n as int),
            digits == unsigned_digits(text@),
            value == digits_value(digits.subrange(0, k - start)),
            value <= limit,
            forall|j: int| 0 <= j < k - start ==> is_digit(#[trigger] digits[j]),
        decreases n - k,
    {
        let c = text.get_char(k);
        let ghost seen = digits.subrange(0, k - start + 1);
        proof {
            assert(digits[k - start] == c);
        }
        if !('0' <= c && c <= '9') {
            proof {
                assert(!is_digit(digits[k - start]));
            }
            return None;
        }
        let digit: u64 = (c as u32 - '0' as u32) as u64;
        proof {
            assert(seen.drop_last() =~= digits.subrange(0, k - start));
            assert(digits_value(seen) == value * 10 + digit);
        }
        let next = match value.checked_mul(10) {
            Some(tens) => tens.checked_add(digit),
            None => None,
        };
        match next {
            Some(next) if next <= limit => {
                value = next;
            },
            _ => {
                proof {
                    assert(digits_value(seen) > limit);
                    if forall|j: int| 0 <= j < digits.len() ==> is_digit(#[trigger] digits[j]) {
                        lemma_prefix_value_bound(digits, k - start + 1);
                    }
                }
                return None;
            },
        }
        k = k + 1;
    }
    proof {
        assert(digits.subrange(0, n - start) =~= digits);
    }
    Some(value)
}

/// Records `text` as the value of `option`.
fn record_value(given: GivenOptions, option: ValueOption, text: &str) -> (recorded: Result<
    GivenOptions,
    OptionsError,
>)
    ensures
        recorded == record(given, option, text@),
{
    match option {
        ValueOption::Turns => {
            if given.turns.is_some() {
                return Err(OptionsError::ArgumentConflict);
            }
            match read_number(text, usize::MAX as u64) {
                Some(turns) => Ok(
                    GivenOptions { turns: Some(turns as usize), delay_ms: given.delay_ms, seed: given.seed },
                ),
                None => Err(OptionsError::ValueValidation),
            }
        },
        ValueOption::DelayMs => {
            if given.delay_ms.is_some() {
                return Err(OptionsError::ArgumentConflict);
            }
            match read_number(text, u64::MAX) {
                Some(delay_ms) => Ok(
                    GivenOptions { turns: given.turns, delay_ms: Some(delay_ms), seed: given.seed },
                ),
                None => Err(OptionsError::ValueValidation),
            }
        },
        ValueOption::Seed => {
            if given.seed.is_some() {
                return Err(OptionsError::ArgumentConflict);
            }
            match read_number(text, u64::MAX) {
                Some(seed) => Ok(
                    GivenOptions { turns: given.turns, delay_ms: given.delay_ms, seed: Some(seed) },
                ),
                None => Err(OptionsError::ValueValidation),
            }
        },
    }
}

/// Settles the option still waiting for its value, if any.
fn settle(given: GivenOptions, pending: Option<ValueOption>, value: Option<&str>) -> (settled_to:
    Result<GivenOptions, OptionsError>)
    ensures
        settled_to == settled(given, pending, text_of(value)),
{
    match pending {
        None => Ok(given),
        Some(option) => match value {
            None => Err(OptionsError::InvalidValue),
            Some(text) => record_value(given, option, text),
        },
    }
}

/// The index of the first `=` in `token` at or after `from`, or its length.
fn find_equals(token: &str, from: usize) -> (at: usize)
    requires
        from <= token@.len(),
    ensures
        at == first_equals(token@, from as int),
        from <= at <= token@.len(),
{
    let n = token.unicode_len();
    let mut k = from;
    while k < n
        invariant
            n == token@.len(),
            from <= k <= n,
            first_equals(token@, from as int) == first_equals(token@, k as int),
        decreases n - k,
    {
        if token.get_char(k) == '=' {
            return k;
        }
        k = k + 1;
    }
    k
}

/// The number option a long name stands for.
fn option_for(name: &str) -> (option: Option<ValueOption>)
    ensures
        option == option_named(name@),
{
    if same_text(name, "turns") {
        Some(ValueOption::Turns)
    } else if same_text(name, "delay-ms") {
        Some(ValueOption::DelayMs)
    } else if same_text(name, "seed") {
        Some(ValueOption::Seed)
    } else {
        None
    }
}

impl SimOptions {
    /// Reads the options of a command line whose first token names the
    /// program, as `parse_command_line` describes.
    pub fn try_parse_from(args: &[&str]) -> (parsed: Result<SimOptions, OptionsError>)
        ensures
            parsed == parse_command_line(token_texts(args@)),
    {
        let ghost texts = token_texts(args@);
        let mut given = GivenOptions { turns: None, delay_ms: None, seed: None };
        let mut pending: Option<ValueOption> = None;
        let mut value: Option<&str> = None;
        let mut trailing = false;
        let mut i: usize = 1;
        while i < args.len()
            invariant
                texts == token_texts(args@),
                1 <= i,
                parse_command_line(texts) == parse_tokens(
                    texts,
                    i as int,
                    given,
                    pending,
                    text_of(value),
                    trailing,
                ),
            decreases args.len() - i,
        {
            let token = args[i];
            let n = token.unicode_len();
            proof {
                assert(texts[i as int] == token@);
            }
            if trailing {
                return Err(OptionsError::UnknownArgument);
            }
            let dash0 = n > 0 && token.get_char(0) == '-';
            let dash1 = n > 1 && token.get_char(1) == '-';
            if n == 2 && dash0 && dash1 {
                trailing = true;
            } else if n > 2 && dash0 && dash1 {
                let at = find_equals(token, 2);
                let name = token.substring_char(2, at);
                let attached = if at < n {
                    Some(token.substring_char(at + 1, n))
                } else {
                    None
                };
                match option_for(name) {
                    Some(option) => {
                        let now = match settle(given, pending, value) {
                            Ok(now) => now,
                            Err(error) => return Err(error),
                        };
                        match attached {
                            Some(text) => {
                                given = match record_value(now, option, text) {
                                    Ok(next) => next,
                                    Err(error) => return Err(error),
                                };
                                pending = None;
                                value = None;
                            },
                            None => {
                                given = now;
                                pending = Some(option);
                                value = None;
                            },
                        }
                    },
                    None => {
                        let help = same_text(name, "help");
                        if help || same_text(name, "version") {
                            if attached.is_some() {
                                return Err(OptionsError::TooManyValues);
                            }
                            return match settle(given, pending, value) {
                                Err(error) => Err(error),
                                Ok(_) => Err(
                                    if help {
                                        OptionsError::DisplayHelp
                                    } else {
                                        OptionsError::DisplayVersion
                                    },
                                ),
                            };
                        }
                        return Err(OptionsError::UnknownArgument);
                    },
                }
            } else if n > 1 && dash0 {
                let flag = token.get_char(1);
                if flag == 'h' || flag == 'V' {
                    return match settle(given, pending, value) {
                        Err(error) => Err(error),
                        Ok(_) => Err(
                            if flag == 'h' {
                                OptionsError::DisplayHelp
                            } else {
                                OptionsError::DisplayVersion
                            },
                        ),
                    };
                }
                return Err(OptionsError::UnknownArgument);
            } else if pending.is_some() && value.is_none() {
                value = Some(token);
            } else {
                return Err(OptionsError::UnknownArgument);
            }
            i = i + 1;
        }
        match settle(given, pending, value) {
            Ok(given) => Ok(
                SimOptions {
                    turns: match given.turns {
                        Some(turns) => turns,
                        None => DEFAULT_TURNS,
                    },
                    delay_ms: match given.delay_ms {
                        Some(delay_ms) => delay_ms,
                        None => DEFAULT_DELAY_MS,
                    },
                    seed: given.seed,
                },
            ),
            Err(error) => Err(error),
        }
    }
}

} // verus!
