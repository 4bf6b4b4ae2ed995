//! Command-line options, parsed by `clap`.
//!
//! A `clap::Command` is seen as the list of its option definitions, and a
//! `clap::ArgMatches` as a map from option names to values. How words on the
//! command line become values is up to `clap`.

use vstd::prelude::*;

verus! {

/// The definition of one `--name` option.
pub enum OptionRule {
    /// Takes a whole number from zero to `max`. Where it is `signed`, it is read as a
    /// number with a sign and can be spelled `-0`.
    Number { name: Seq<char>, max: u64, signed: bool, default: Option<u64> },
    /// Takes a path, which is not empty.
    Path { name: Seq<char> },
    /// Takes no value, and cannot be given together with `conflicts`.
    Switch { name: Seq<char>, conflicts: Seq<char> },
}

/// The value of one option.
pub enum OptionValue {
    Number(u64),
    Path(Seq<char>),
    Switch(bool),
}

impl OptionRule {
    /// The name of the option.
    pub open spec fn name(self) -> Seq<char> {
        match self {
            OptionRule::Number { name, .. } => name,
            OptionRule::Path { name } => name,
            OptionRule::Switch { name, .. } => name,
        }
    }
}

/// Whether `rules` defines an option called `name`.
pub open spec fn defines(rules: Seq<OptionRule>, name: Seq<char>) -> bool {
    exists|i: int| 0 <= i < rules.len() && (#[trigger] rules[i]).name() == name
}

/// Whether an option can be called `name`: it is spelled without dashes in
/// front, and `--help` and `--version` are taken.
pub open spec fn usable_name(name: Seq<char>) -> bool {
    &&& name.len() > 0
    &&& name[0] != '-'
    &&& name != "help"@
    &&& name != "version"@
}

/// Whether `rules` makes sense: names are usable and distinct, defaults are in
/// range, and conflicts are with other options that exist.
pub open spec fn consistent(rules: Seq<OptionRule>) -> bool {
    &&& forall|i: int| 0 <= i < rules.len() ==> usable_name((#[trigger] rules[i]).name())
    &&& forall|i: int, j: int|
        0 <= i < j < rules.len() ==> (#[trigger] rules[i]).name() != (#[trigger] rules[j]).name()
    &&& forall|i: int|
        0 <= i < rules.len() ==> match #[trigger] rules[i] {
            OptionRule::Number { max, default, .. } => default is Some ==> default->0 <= max,
            OptionRule::Path { .. } => true,
            OptionRule::Switch { name, conflicts } => conflicts != name && defines(
                rules,
                conflicts,
            ),
        }
}

/// What an option is worth when it is not given.
pub open spec fn unset(rule: OptionRule, values: Map<Seq<char>, OptionValue>) -> bool {
    match rule {
        OptionRule::Number { name, default: Some(n), .. } => values.contains_pair(
            name,
            OptionValue::Number(n),
        ),
        OptionRule::Switch { name, .. } => values.contains_pair(name, OptionValue::Switch(false)),
        _ => !values.dom().contains(rule.name()),
    }
}

/// Whether `rule` admits what `values` holds for its option.
pub open spec fn admits(rule: OptionRule, values: Map<Seq<char>, OptionValue>) -> bool {
    match rule {
        OptionRule::Number { name, max, default, .. } => if values.dom().contains(name) {
            values[name] matches OptionValue::Number(n) && n <= max
        } else {
            default is None
        },
        OptionRule::Path { name } => values.dom().contains(name) ==> {
            values[name] matches OptionValue::Path(path) && path.len() > 0
        },
        OptionRule::Switch { name, .. } => values.dom().contains(name) && values[name] is Switch,
    }
}

/// Whether `values` holds a conflict: a switch that is on, beside a value that
/// was given for the option it conflicts with.
pub open spec fn conflict(
    switch: OptionRule,
    other: OptionRule,
    values: Map<Seq<char>, OptionValue>,
) -> bool {
    match switch {
        OptionRule::Switch { name, conflicts } => {
            &&& values[name] == OptionValue::Switch(true)
            &&& other.name() == conflicts
            &&& other matches OptionRule::Number { default, .. } && default is None
            &&& values.dom().contains(conflicts)
        },
        _ => false,
    }
}

#[verifier::external_type_specification]
#[verifier::external_body]
pub struct ExCommand(clap::Command);

#[verifier::external_type_specification]
#[verifier::external_body]
pub struct ExArgMatches(clap::ArgMatches);

/// Why `clap` did not hand out option values: an error in the words, or text that
/// was asked for.
#[derive(Debug)]
pub struct UsageError {
    /// What to print.
    pub text: String,
    /// The code to exit with: 0 where the text was asked for, 2 on an error.
    pub exit_code: i32,
}

/// The option definitions that a command holds, in the order they were added.
pub uninterp spec fn rules_of(command: clap::Command) -> Seq<OptionRule>;

/// The texts that a command shows to the user, in the order they were added: its
/// name, version and description, and for each option what its value is called,
/// where it takes one, and what the option is for.
pub uninterp spec fn texts_of(command: clap::Command) -> Seq<Seq<char>>;

/// The values that a parse left for the options that have one.
pub uninterp spec fn values_of(matches: clap::ArgMatches) -> Map<Seq<char>, OptionValue>;

/// The option definitions that a parse went by.
pub uninterp spec fn rules_behind(matches: clap::ArgMatches) -> Seq<OptionRule>;

/// What `clap` makes of `words`, the name of the program first, under `rules`:
/// the option values, or nothing where it refuses the words or is asked for help
/// or the version.
pub uninterp spec fn clap_values(rules: Seq<OptionRule>, words: Seq<Seq<char>>) -> Option<
    Map<Seq<char>, OptionValue>,
>;

/// The code that `clap` wants to exit with after it handed out no values for `words`
/// under `rules`.
pub uninterp spec fn clap_exit_code(rules: Seq<OptionRule>, words: Seq<Seq<char>>) -> i32;

/// What `clap` wants to print, without colours, after it handed out no values for
/// `words` under `rules`, for a command with these texts.
pub uninterp spec fn clap_text(
    rules: Seq<OptionRule>,
    texts: Seq<Seq<char>>,
    words: Seq<Seq<char>>,
) -> Seq<char>;

/// `clap::Command::new`, with a version and a description: a command without
/// options of its own.
#[verifier::external_body]
pub(crate) fn new_command(
    name: &'static str,
    version: &'static str,
    about: &'static str,
) -> (command: clap::Command)
    ensures
        rules_of(command) == Seq::<OptionRule>::empty(),
        texts_of(command) == seq![name@, version@, about@],
{
    clap::Command::new(name).version(version).about(about)
}

/// `clap::Command::arg` with an option that takes a number and reads it with
/// `clap`'s parser for `u64`: the definition and its texts are added after those the
/// command holds.
#[verifier::external_body]
pub(crate) fn with_number(
    command: clap::Command,
    name: &'static str,
    value_name: &'static str,
    help: &'static str,
    max: u64,
    default: Option<u64>,
) -> (r: clap::Command)
    ensures
        rules_of(r) == rules_of(command).push(
            OptionRule::Number { name: name@, max, signed: false, default },
        ),
        texts_of(r) == texts_of(command).push(value_name@).push(help@),
{
    let arg = clap::Arg::new(name).long(name).value_name(value_name).help(help);
    let range = clap::builder::RangedU64ValueParser::<u64>::from(..=max);
    let default_text = default.map(|n| n.to_string());
    command.arg(arg.value_parser(range).default_values(default_text))
}

/// `clap::Command::arg` with an option that takes a number of at most 32 bits and
/// reads it with `clap`'s parser for integers that fit `i64`: the definition and its
/// texts are added after those the command holds.
#[verifier::external_body]
pub(crate) fn with_small_number(
    command: clap::Command,
    name: &'static str,
    value_name: &'static str,
    help: &'static str,
    max: u32,
    default: u32,
) -> (r: clap::Command)
    ensures
        rules_of(r) == rules_of(command).push(
            OptionRule::Number {
                name: name@,
                max: max as u64,
                signed: true,
                default: Some(default as u64),
            },
        ),
        texts_of(r) == texts_of(command).push(value_name@).push(help@),
{
    let arg = clap::Arg::new(name).long(name).value_name(value_name).help(help);
    let range = clap::builder::RangedI64ValueParser::<u64>::from(0..=i64::from(max));
    command.arg(arg.value_parser(range).default_value(default.to_string()))
}

/// `clap::Command::arg` with an option that takes a path: the definition and its
/// texts are added after those the command holds.
#[verifier::external_body]
pub(crate) fn with_path(
    command: clap::Command,
    name: &'static str,
    value_name: &'static str,
    help: &'static str,
) -> (r: clap::Command)
    ensures
        rules_of(r) == rules_of(command).push(OptionRule::Path { name: name@ }),
        texts_of(r) == texts_of(command).push(value_name@).push(help@),
{
    let arg = clap::Arg::new(name).long(name).value_name(value_name).help(help);
    command.arg(arg.value_parser(clap::builder::NonEmptyStringValueParser::new()))
}

/// `clap::Command::arg` with a switch that conflicts with another option: the
/// definition and its text are added after those the command holds.
#[verifier::external_body]
pub(crate) fn with_switch(
    command: clap::Command,
    name: &'static str,
    help: &'static str,
    conflicts: &'static str,
) -> (r: clap::Command)
    ensures
        rules_of(r) == rules_of(command).push(
            OptionRule::Switch { name: name@, conflicts: conflicts@ },
        ),
        texts_of(r) == texts_of(command).push(help@),
{
    let arg = clap::Arg::new(name).long(name).help(help).conflicts_with(conflicts);
    command.arg(arg.action(clap::ArgAction::SetTrue))
}

/// `clap::Command::try_get_matches_from`: which values come out, if any, is a function
/// of the definitions and the words. Every value that comes out is one its definition
/// admits, an option with a default always has a value, a switch never comes
/// out on beside the option it conflicts with, and the bare program name leaves
/// every option unset. Where no values come out, `clap::Error::exit_code` and
/// `clap::Error::render` are functions of the same and, for the text, of the texts of
/// the command; the code is 0 or 2. What else the words mean to `clap` is left unsaid.
#[verifier::external_body]
pub(crate) fn parse_words(command: clap::Command, words: Vec<String>) -> (r: Result<
    clap::ArgMatches,
    UsageError,
>)
    requires
        consistent(rules_of(command)),
    ensures
        r is Ok <==> clap_values(rules_of(command), words.deep_view()) is Some,
        r matches Ok(matches) ==> {
            let rules = rules_of(command);
            let values = values_of(matches);
            &&& rules_behind(matches) == rules
            &&& clap_values(rules, words.deep_view()) == Some(values)
            &&& forall|i: int| 0 <= i < rules.len() ==> admits(#[trigger] rules[i], values)
            &&& forall|i: int, j: int|
                0 <= i < rules.len() && 0 <= j < rules.len() ==> !conflict(
                    #[trigger] rules[i],
                    #[trigger] rules[j],
                    values,
                )
        },
        words@.len() <= 1 ==> (r matches Ok(matches) && forall|i: int|
            0 <= i < rules_of(command).len() ==> unset(
                #[trigger] rules_of(command)[i],
                values_of(matches),
            )),
        r matches Err(e) ==> {
            &&& e.exit_code == clap_exit_code(rules_of(command), words.deep_view())
            &&& e.exit_code == 0 || e.exit_code == 2
            &&& e.text@ == clap_text(rules_of(command), texts_of(command), words.deep_view())
        },
{
    command.try_get_matches_from(words).map_err(
        |e| UsageError { text: e.render().to_string(), exit_code: e.exit_code() },
    )
}

/// `clap::ArgMatches::get_one` of an option that takes a number.
#[verifier::external_body]
pub(crate) fn number_value(matches: &clap::ArgMatches, name: &str) -> (value: Option<u64>)
    requires
        exists|i: int|
            0 <= i < rules_behind(*matches).len() && #[trigger] rules_behind(*matches)[i] is Number
                && rules_behind(*matches)[i].name() == name@,
    ensures
        value is Some <==> values_of(*matches).dom().contains(name@),
        value matches Some(n) ==> values_of(*matches)[name@] == OptionValue::Number(n),
{
    matches.get_one::<u64>(name).copied()
}

/// `clap::ArgMatches::get_one` of an option that takes a path.
#[verifier::external_body]
pub(crate) fn path_value(matches: &clap::ArgMatches, name: &str) -> (value: Option<String>)
    requires
        exists|i: int|
            0 <= i < rules_behind(*matches).len() && #[trigger] rules_behind(*matches)[i] is Path
                && rules_behind(*matches)[i].name() == name@,
    ensures
        value is Some <==> values_of(*matches).dom().contains(name@),
        value matches Some(path) ==> values_of(*matches)[name@] == OptionValue::Path(path@),
{
    matches.get_one::<String>(name).cloned()
}

/// `clap::ArgMatches::get_flag` of a switch.
#[verifier::external_body]
pub(crate) fn switch_value(matches: &clap::ArgMatches, name: &str) -> (on: bool)
    requires
        exists|i: int|
            0 <= i < rules_behind(*matches).len() && #[trigger] rules_behind(*matches)[i] is Switch
                && rules_behind(*matches)[i].name() == name@,
    ensures
        values_of(*matches).contains_pair(name@, OptionValue::Switch(on)),
{
    matches.get_flag(name)
}

} // verus!
