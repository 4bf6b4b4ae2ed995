//! The settings of a run.

use vstd::prelude::*;

use crate::options::{
    new_command, number_value, parse_words, path_value, switch_value, with_number, with_path,
    with_small_number, with_switch, OptionRule, OptionValue, UsageError,
};

verus! {

/// The largest frame rate: one frame per nanosecond.
pub const MAX_FPS: u32 = 1_000_000_000;

/// How many bytes the background thread reads at a time unless told otherwise.
pub const DEFAULT_LOCK_BYTES: u64 = 67_108_864;

/// The settings of a run.
#[derive(Clone, Debug)]
pub struct Args {
    /// Target frame rate.
    pub fps: u32,
    /// Logical CPU on which all workload threads run. Defaults to the first CPU
    /// allowed by the process's affinity mask.
    pub cpu: Option<usize>,
    /// Do not pin workload threads to one CPU. Each thread instead inherits the
    /// process's allowed CPU affinity mask.
    pub no_pin: bool,
    /// Target utilization of the CPU worker thread, as a percentage.
    pub cpu_util: u8,
    /// Size of each background read performed while holding the kernel's shared
    /// file-position mutex.
    pub lock_bytes: usize,
    /// Print and reset runtime statistics at this interval, in seconds. Zero
    /// disables periodic terminal statistics.
    pub stats_interval: u64,
    /// Where to save per-frame measurements as CSV after the run.
    pub output: Option<String>,
    /// A CSV file of an earlier run whose latencies are shown as well.
    pub compare: Option<String>,
}

/// A setting that is out of range.
#[derive(Clone, Copy, Debug, PartialEq, Eq, Structural)]
pub enum ArgsError {
    Fps,
    CpuUtil,
    LockBytes,
}

impl ArgsError {
    /// What to tell the user.
    pub open spec fn text(self) -> Seq<char> {
        match self {
            ArgsError::Fps => "--fps must be between 1 and 1000000000"@,
            ArgsError::CpuUtil => "--cpu-util must be between 0 and 100"@,
            ArgsError::LockBytes => "--lock-bytes must be greater than zero"@,
        }
    }

    /// What to tell the user.
    pub fn to_string(&self) -> (text: String)
        ensures
            text@ == self.text(),
    {
        match self {
            ArgsError::Fps => "--fps must be between 1 and 1000000000".to_owned(),
            ArgsError::CpuUtil => "--cpu-util must be between 0 and 100".to_owned(),
            ArgsError::LockBytes => "--lock-bytes must be greater than zero".to_owned(),
        }
    }
}

/// The option definitions, in the order in which they are listed to the user.
pub open spec fn option_rules() -> Seq<OptionRule> {
    seq![
        OptionRule::Number { name: "fps"@, max: u32::MAX as u64, signed: true, default: Some(60) },
        OptionRule::Number { name: "cpu"@, max: usize::MAX as u64, signed: false, default: None },
        OptionRule::Switch { name: "no-pin"@, conflicts: "cpu"@ },
        OptionRule::Number {
            name: "cpu-util"@,
            max: u8::MAX as u64,
            signed: true,
            default: Some(100),
        },
        OptionRule::Number {
            name: "lock-bytes"@,
            max: usize::MAX as u64,
            signed: false,
            default: Some(DEFAULT_LOCK_BYTES),
        },
        OptionRule::Number {
            name: "stats-interval"@,
            max: u64::MAX,
            signed: false,
            default: Some(1),
        },
        OptionRule::Path { name: "output"@ },
        OptionRule::Path { name: "compare"@ },
    ]
}

/// The texts that are shown to the user: the name, version and description of the
/// program, and for each option what its value is called and what the option is for.
pub open spec fn option_texts() -> Seq<Seq<char>> {
    seq![
        "proxy-demo"@,
        "0.1.0"@,
        "Exercise a kernel mutex dependency under competing CPU load"@,
        "FPS"@,
        "Target frame rate"@,
        "CPU"@,
        "Logical CPU on which all workload threads run. Defaults to the first CPU allowed by the process's affinity mask"@,
        "Do not pin workload threads to one CPU. Each thread instead inherits the process's allowed CPU affinity mask"@,
        "PERCENT"@,
        "Target utilization of the CPU worker thread, as a percentage"@,
        "LOCK_BYTES"@,
        "Size of each worker read performed while holding the kernel's shared file-position mutex"@,
        "SECONDS"@,
        "Print and reset runtime statistics at this interval, in seconds. Use 0 to disable periodic terminal statistics"@,
        "PATH"@,
        "Save per-frame measurements as CSV after the run"@,
        "PATH"@,
        "Overlay latencies from a CSV created by --output"@,
    ]
}

proof fn lemma_option_names()
    ensures
        "fps"@.len() == 3,
        "fps"@[0] == 'f',
        "cpu"@.len() == 3,
        "cpu"@[0] == 'c',
        "no-pin"@.len() == 6,
        "no-pin"@[0] == 'n',
        "cpu-util"@.len() == 8,
        "cpu-util"@[0] == 'c',
        "lock-bytes"@.len() == 10,
        "lock-bytes"@[0] == 'l',
        "stats-interval"@.len() == 14,
        "stats-interval"@[0] == 's',
        "output"@.len() == 6,
        "output"@[0] == 'o',
        "compare"@.len() == 7,
        "compare"@[0] == 'c',
        "help"@.len() == 4,
        "version"@.len() == 7,
        "version"@[0] == 'v',
{
    reveal_strlit("fps");
    reveal_strlit("cpu");
    reveal_strlit("no-pin");
    reveal_strlit("cpu-util");
    reveal_strlit("lock-bytes");
    reveal_strlit("stats-interval");
    reveal_strlit("output");
    reveal_strlit("compare");
    reveal_strlit("help");
    reveal_strlit("version");
}

proof fn lemma_options_consistent()
    ensures
        crate::options::consistent(option_rules()),
{
    lemma_option_names();
    let rules = option_rules();
    assert(rules[1].name() == "cpu"@);
    assert(crate::options::defines(rules, "cpu"@));
}

/// The command line of the program.
fn command() -> (command: clap::Command)
    ensures
        crate::options::rules_of(command) == option_rules(),
        crate::options::texts_of(command) == option_texts(),
{
    let command = new_command(
        "proxy-demo",
        "0.1.0",
        "Exercise a kernel mutex dependency under competing CPU load",
    );
    let command = with_small_number(command, "fps", "FPS", "Target frame rate", u32::MAX, 60);
    let command = with_number(
        command,
        "cpu",
        "CPU",
        "Logical CPU on which all workload threads run. Defaults to the first CPU allowed by the process's affinity mask",
        usize::MAX as u64,
        None,
    );
    let command = with_switch(
        command,
        "no-pin",
        "Do not pin workload threads to one CPU. Each thread instead inherits the process's allowed CPU affinity mask",
        "cpu",
    );
    let command = with_small_number(
        command,
        "cpu-util",
        "PERCENT",
        "Target utilization of the CPU worker thread, as a percentage",
        u8::MAX as u32,
        100,
    );
    let command = with_number(
        command,
        "lock-bytes",
        "LOCK_BYTES",
        "Size of each worker read performed while holding the kernel's shared file-position mutex",
        usize::MAX as u64,
        Some(DEFAULT_LOCK_BYTES),
    );
    let command = with_number(
        command,
        "stats-interval",
        "SECONDS",
        "Print and reset runtime statistics at this interval, in seconds. Use 0 to disable periodic terminal statistics",
        u64::MAX,
        Some(1),
    );
    let command = with_path(
        command,
        "output",
        "PATH",
        "Save per-frame measurements as CSV after the run",
    );
    let command = with_path(
        command,
        "compare",
        "PATH",
        "Overlay latencies from a CSV created by --output",
    );
    assert(crate::options::rules_of(command) =~= option_rules());
    assert(crate::options::texts_of(command) =~= option_texts());
    command
}

/// The number that `values` holds for `name`.
pub open spec fn number_in(values: Map<Seq<char>, OptionValue>, name: Seq<char>) -> Option<u64> {
    if values.dom().contains(name) {
        Some(values[name]->Number_0)
    } else {
        None
    }
}

/// The path that `values` holds for `name`.
pub open spec fn path_in(values: Map<Seq<char>, OptionValue>, name: Seq<char>) -> Option<
    Seq<char>,
> {
    if values.dom().contains(name) {
        Some(values[name]->Path_0)
    } else {
        None
    }
}

/// The text of an optional string.
pub open spec fn text_of(text: Option<String>) -> Option<Seq<char>> {
    match text {
        Some(s) => Some(s@),
        None => None,
    }
}

/// Each setting is the value of the option of its own name, and the settings without one
/// were not given.
pub proof fn settings_are_the_values_of_their_options(
    args: Args,
    values: Map<Seq<char>, OptionValue>,
)
    requires
        forall|i: int|
            0 <= i < option_rules().len() ==> crate::options::admits(
                #[trigger] option_rules()[i],
                values,
            ),
        args.spelled_by(values),
    ensures
        values.contains_pair("fps"@, OptionValue::Number(args.fps as u64)),
        args.cpu matches Some(cpu) ==> values.contains_pair(
            "cpu"@,
            OptionValue::Number(cpu as u64),
        ),
        args.cpu is None ==> !values.dom().contains("cpu"@),
        values.contains_pair("no-pin"@, OptionValue::Switch(args.no_pin)),
        values.contains_pair("cpu-util"@, OptionValue::Number(args.cpu_util as u64)),
        values.contains_pair("lock-bytes"@, OptionValue::Number(args.lock_bytes as u64)),
        values.contains_pair("stats-interval"@, OptionValue::Number(args.stats_interval)),
        args.output matches Some(path) ==> values.contains_pair(
            "output"@,
            OptionValue::Path(path@),
        ),
        args.output is None ==> !values.dom().contains("output"@),
        args.compare matches Some(path) ==> values.contains_pair(
            "compare"@,
            OptionValue::Path(path@),
        ),
        args.compare is None ==> !values.dom().contains("compare"@),
{
    let rules = option_rules();
    assert(forall|i: int| 0 <= i < 8 ==> crate::options::admits(#[trigger] rules[i], values));
    assert(rules[0] is Number && rules[0].name() == "fps"@);
    assert(rules[1] is Number && rules[1].name() == "cpu"@);
    assert(rules[3] is Number && rules[3].name() == "cpu-util"@);
    assert(rules[4] is Number && rules[4].name() == "lock-bytes"@);
    assert(rules[5] is Number && rules[5].name() == "stats-interval"@);
    assert(rules[6] is Path && rules[6].name() == "output"@);
    assert(rules[7] is Path && rules[7].name() == "compare"@);
}

/// Any settings can be given on the command line, as long as paths are not empty and a
/// CPU is not asked for together with none.
pub proof fn any_settings_can_be_given(args: Args) -> (values: Map<Seq<char>, OptionValue>)
    requires
        !(args.no_pin && args.cpu is Some),
        args.output matches Some(path) ==> path@.len() > 0,
        args.compare matches Some(path) ==> path@.len() > 0,
    ensures
        args.spelled_by(values),
        forall|i: int|
            0 <= i < option_rules().len() ==> crate::options::admits(
                #[trigger] option_rules()[i],
                values,
            ),
        forall|i: int, j: int|
            0 <= i < option_rules().len() && 0 <= j < option_rules().len()
                ==> !crate::options::conflict(
                #[trigger] option_rules()[i],
                #[trigger] option_rules()[j],
                values,
            ),
{
    lemma_option_names();
    let given = Map::<Seq<char>, OptionValue>::empty().insert(
        "fps"@,
        OptionValue::Number(args.fps as u64),
    ).insert("no-pin"@, OptionValue::Switch(args.no_pin)).insert(
        "cpu-util"@,
        OptionValue::Number(args.cpu_util as u64),
    ).insert("lock-bytes"@, OptionValue::Number(args.lock_bytes as u64)).insert(
        "stats-interval"@,
        OptionValue::Number(args.stats_interval),
    );
    let pinned = match args.cpu {
        Some(cpu) => given.insert("cpu"@, OptionValue::Number(cpu as u64)),
        None => given,
    };
    let saved = match args.output {
        Some(path) => pinned.insert("output"@, OptionValue::Path(path@)),
        None => pinned,
    };
    match args.compare {
        Some(path) => saved.insert("compare"@, OptionValue::Path(path@)),
        None => saved,
    }
}

impl Args {
    /// Whether these are the settings that `values` spells out.
    pub open spec fn spelled_by(self, values: Map<Seq<char>, OptionValue>) -> bool {
        &&& number_in(values, "fps"@) == Some(self.fps as u64)
        &&& number_in(values, "cpu"@) == match self.cpu {
            Some(cpu) => Some(cpu as u64),
            None => None::<u64>,
        }
        &&& values.contains_pair("no-pin"@, OptionValue::Switch(self.no_pin))
        &&& number_in(values, "cpu-util"@) == Some(self.cpu_util as u64)
        &&& number_in(values, "lock-bytes"@) == Some(self.lock_bytes as u64)
        &&& number_in(values, "stats-interval"@) == Some(self.stats_interval)
        &&& path_in(values, "output"@) == text_of(self.output)
        &&& path_in(values, "compare"@) == text_of(self.compare)
    }

    /// Whether these are the settings of a run that was given none.
    pub open spec fn all_default(self) -> bool {
        &&& self.fps == 60
        &&& self.cpu is None
        &&& !self.no_pin
        &&& self.cpu_util == 100
        &&& self.lock_bytes == DEFAULT_LOCK_BYTES
        &&& self.stats_interval == 1
        &&& self.output is None
        &&& self.compare is None
    }

    /// Reads the settings from the words of a command line, the name of the
    /// program first.
    pub fn try_parse_from(words: Vec<String>) -> (r: Result<Args, UsageError>)
        ensures
            r is Ok <==> crate::options::clap_values(option_rules(), words.deep_view()) is Some,
            r matches Ok(args) ==> args.spelled_by(
                crate::options::clap_values(option_rules(), words.deep_view())->0,
            ),
            r matches Ok(args) ==> !(args.no_pin && args.cpu is Some),
            words@.len() <= 1 ==> (r matches Ok(args) && args.all_default()),
            words@.len() <= 1 ==> (r matches Ok(args) && {
                &&& args.fps == 60
                &&& args.cpu is None
                &&& !args.no_pin
                &&& args.cpu_util == 100
                &&& args.lock_bytes == 64 * 1024 * 1024
                &&& args.stats_interval == 1
                &&& args.output is None
                &&& args.compare is None
            }),
            r matches Err(e) ==> {
                &&& e.exit_code == crate::options::clap_exit_code(
                    option_rules(),
                    words.deep_view(),
                )
                &&& e.exit_code == 0 || e.exit_code == 2
                &&& e.text@ == crate::options::clap_text(
                    option_rules(),
                    option_texts(),
                    words.deep_view(),
                )
            },
    {
        let command = command();
        proof {
            lemma_options_consistent();
        }
        match parse_words(command, words) {
            Ok(matches) => Ok(Args::from_matches(&matches)),
            Err(e) => Err(e),
        }
    }

    /// The settings that a successful parse found.
    fn from_matches(matches: &clap::ArgMatches) -> (args: Args)
        requires
            crate::options::rules_behind(*matches) == option_rules(),
            forall|i: int|
                0 <= i < option_rules().len() ==> crate::options::admits(
                    #[trigger] option_rules()[i],
                    crate::options::values_of(*matches),
                ),
        ensures
            args.spelled_by(crate::options::values_of(*matches)),
    {
        proof {
            let rules = option_rules();
            let values = crate::options::values_of(*matches);
            assert(forall|i: int| 0 <= i < 8 ==> crate::options::admits(#[trigger] rules[i], values));
            assert(rules[0] is Number && rules[0].name() == "fps"@);
            assert(rules[1] is Number && rules[1].name() == "cpu"@);
            assert(rules[2] is Switch && rules[2].name() == "no-pin"@);
            assert(rules[3] is Number && rules[3].name() == "cpu-util"@);
            assert(rules[4] is Number && rules[4].name() == "lock-bytes"@);
            assert(rules[5] is Number && rules[5].name() == "stats-interval"@);
            assert(rules[6] is Path && rules[6].name() == "output"@);
            assert(rules[7] is Path && rules[7].name() == "compare"@);
        }
        Args::from_parts(
            number_value(matches, "fps").unwrap(),
            number_value(matches, "cpu"),
            switch_value(matches, "no-pin"),
            number_value(matches, "cpu-util").unwrap(),
            number_value(matches, "lock-bytes").unwrap(),
            number_value(matches, "stats-interval").unwrap(),
            path_value(matches, "output"),
            path_value(matches, "compare"),
        )
    }

    /// The settings with these values, each of which fits its option.
    pub fn from_parts(
        fps: u64,
        cpu: Option<u64>,
        no_pin: bool,
        cpu_util: u64,
        lock_bytes: u64,
        stats_interval: u64,
        output: Option<String>,
        compare: Option<String>,
    ) -> (args: Args)
        requires
            fps <= u32::MAX,
            cpu matches Some(c) ==> c <= usize::MAX,
            cpu_util <= u8::MAX,
            lock_bytes <= usize::MAX,
        ensures
            args == (Args {
                fps: fps as u32,
                cpu: match cpu {
                    Some(c) => Some(c as usize),
                    None => None,
                },
                no_pin,
                cpu_util: cpu_util as u8,
                lock_bytes: lock_bytes as usize,
                stats_interval,
                output,
                compare,
            }),
    {
        Args {
            fps: fps as u32,
            cpu: match cpu {
                Some(c) => Some(c as usize),
                None => None,
            },
            no_pin,
            cpu_util: cpu_util as u8,
            lock_bytes: lock_bytes as usize,
            stats_interval,
            output,
            compare,
        }
    }

    /// Whether every setting is in range.
    pub open spec fn in_range(self) -> bool {
        &&& 1 <= self.fps <= MAX_FPS
        &&& self.cpu_util <= 100
        &&& self.lock_bytes > 0
    }

    /// Checks that every setting is in range, and names the first that is not.
    pub fn validate(&self) -> (r: Result<(), ArgsError>)
        ensures
            r is Ok <==> self.in_range(),
            r is Ok <==> {
                &&& 1 <= self.fps <= 1_000_000_000
                &&& self.cpu_util <= 100
                &&& self.lock_bytes > 0
            },
            r == Err::<(), ArgsError>(ArgsError::Fps) <==> !(1 <= self.fps <= MAX_FPS),
            r == Err::<(), ArgsError>(ArgsError::CpuUtil) <==> {
                &&& 1 <= self.fps <= MAX_FPS
                &&& self.cpu_util > 100
            },
            r == Err::<(), ArgsError>(ArgsError::LockBytes) <==> {
                &&& 1 <= self.fps <= MAX_FPS
                &&& self.cpu_util <= 100
                &&& self.lock_bytes == 0
            },
    {
        if self.fps == 0 || self.fps > MAX_FPS {
            return Err(ArgsError::Fps);
        }
        if self.cpu_util > 100 {
            return Err(ArgsError::CpuUtil);
        }
        if self.lock_bytes == 0 {
            return Err(ArgsError::LockBytes);
        }
        Ok(())
    }
}

} // verus!
