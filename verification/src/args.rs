//! The command line of the image upload.

use crate::number;
use crate::number::read_unsigned;
use crate::text;
use crate::text::{chars_of, same_chars};
use vstd::prelude::*;

verus! {

/// Where the link to the image goes.
#[derive(Debug, Clone, Copy, PartialEq, Eq, Structural)]
pub enum OutputMode {
    Stdout,
    Clipboard,
}

/// What the command line and the environment ask for.
#[derive(Debug)]
pub struct Args {
    /// The SSH target.
    pub remote: String,
    /// The directory for images on the remote machine, if one is given.
    pub remote_dir: Option<String>,
    /// The number that the image gets in its link.
    pub number: usize,
    /// Where the link goes.
    pub mode: OutputMode,
}

/// The environment variables that count, as far as they are set.
#[derive(Debug)]
pub struct Environment {
    /// `ZAPET_SSH_REMOTE`
    pub remote: Option<String>,
    /// `ZAPET_SSH_REMOTE_DIR`
    pub remote_dir: Option<String>,
    /// `ZAPET_IMAGE_NUMBER`
    pub number: Option<String>,
}

/// What the program is to do.
#[derive(Debug)]
pub enum Invocation {
    /// Print the usage, and nothing else.
    Help,
    /// Upload the image on the clipboard.
    Upload(Args),
}

/// What is printed for `--help`.
pub const USAGE: &'static str = "Usage: zapet-ssh-image --remote user@host [--remote-dir /abs/path] [--number N] [--stdout|--clipboard]";

/// What is known part of the way through the arguments.
pub struct Settings {
    pub remote: Option<Seq<char>>,
    pub remote_dir: Option<Seq<char>>,
    pub number: nat,
    pub mode: OutputMode,
}

/// What reading the arguments comes to.
pub enum Reading {
    Help,
    Upload { remote: Seq<char>, remote_dir: Option<Seq<char>>, number: nat, mode: OutputMode },
    Refused(Seq<char>),
}

/// The argument after the first, if there is one.
pub open spec fn value_of(args: Seq<Seq<char>>) -> Option<Seq<char>> {
    if args.len() > 1 {
        Some(args[1])
    } else {
        None
    }
}

/// The arguments after an option and its value.
pub open spec fn after_value(args: Seq<Seq<char>>) -> Seq<Seq<char>> {
    if args.len() > 1 {
        args.skip(2)
    } else {
        args.skip(1)
    }
}

/// Reads the arguments from left to right, beginning with these settings: a later option
/// overrides an earlier one, and the first thing that cannot be read, or the first call for
/// help, ends it.
pub open spec fn read_args(args: Seq<Seq<char>>, s: Settings) -> Reading
    decreases args.len(),
{
    if args.len() == 0 {
        match s.remote {
            Some(remote) => Reading::Upload {
                remote,
                remote_dir: s.remote_dir,
                number: s.number,
                mode: s.mode,
            },
            None => Reading::Refused(
                "missing SSH target; pass --remote user@host or set ZAPET_SSH_REMOTE"@,
            ),
        }
    } else if args[0] == "--remote"@ {
        read_args(after_value(args), Settings { remote: value_of(args), ..s })
    } else if args[0] == "--remote-dir"@ {
        read_args(after_value(args), Settings { remote_dir: value_of(args), ..s })
    } else if args[0] == "--number"@ {
        match value_of(args) {
            None => Reading::Refused("--number requires a value"@),
            Some(value) => match number::parse_unsigned(value, usize::MAX as nat) {
                Some(n) => if n > 0 {
                    read_args(after_value(args), Settings { number: n, ..s })
                } else {
                    Reading::Refused("--number must be a positive integer"@)
                },
                None => Reading::Refused("--number must be a positive integer"@),
            },
        }
    } else if args[0] == "--stdout"@ {
        read_args(args.skip(1), Settings { mode: OutputMode::Stdout, ..s })
    } else if args[0] == "--clipboard"@ {
        read_args(args.skip(1), Settings { mode: OutputMode::Clipboard, ..s })
    } else if args[0] == "-h"@ || args[0] == "--help"@ {
        Reading::Help
    } else {
        Reading::Refused("unknown argument: "@ + args[0])
    }
}

/// The settings that the environment makes. A number that cannot be read is passed over, and the
/// link goes to standard output.
pub open spec fn initial_settings(env: Environment) -> Settings {
    Settings {
        remote: text::string_option(env.remote),
        remote_dir: text::string_option(env.remote_dir),
        number: match env.number {
            Some(value) => match number::parse_unsigned(value@, usize::MAX as nat) {
                Some(n) => n,
                None => 1,
            },
            None => 1,
        },
        mode: OutputMode::Stdout,
    }
}

/// `r` says what the reading comes to.
pub open spec fn says(r: Result<Invocation, String>, reading: Reading) -> bool {
    match reading {
        Reading::Help => r matches Ok(Invocation::Help),
        Reading::Upload { remote, remote_dir, number, mode } => {
            &&& r matches Ok(Invocation::Upload(args))
            &&& args.remote@ == remote
            &&& text::string_option(args.remote_dir) == remote_dir
            &&& args.number == number
            &&& args.mode == mode
        },
        Reading::Refused(message) => r matches Err(error) && error@ == message,
    }
}

fn read_usize(value: &str) -> (r: Option<usize>)
    ensures
        match r {
            Some(n) => number::parse_unsigned(value@, usize::MAX as nat) == Some(n as nat),
            None => number::parse_unsigned(value@, usize::MAX as nat) is None,
        },
{
    let chars = chars_of(value);
    match read_unsigned(&chars, usize::MAX as u64) {
        Some(n) => Some(n as usize),
        None => None,
    }
}

fn is_arg(arg: &String, expected: &str) -> (r: bool)
    ensures
        r == (arg@ == expected@),
{
    let arg = chars_of(arg.as_str());
    let expected = chars_of(expected);
    same_chars(&arg, &expected)
}

/// Reads the arguments, the name of the program not among them, over what the environment says.
pub fn parse_args(env: Environment, args: &Vec<String>) -> (r: Result<Invocation, String>)
    ensures
        says(r, read_args(text::texts(args@), initial_settings(env))),
{
    let ghost all = text::texts(args@);
    let ghost reading = read_args(all, initial_settings(env));
    let mut image_number: usize = match &env.number {
        Some(value) => match read_usize(value.as_str()) {
            Some(n) => n,
            None => 1,
        },
        None => 1,
    };
    let mut remote: Option<String> = env.remote;
    let mut remote_dir: Option<String> = env.remote_dir;
    let mut mode: OutputMode = OutputMode::Stdout;
    let n: usize = args.len();
    let mut i: usize = 0;
    assert(all.skip(0) =~= all);
    while i < n
        invariant
            n == args@.len(),
            i <= n,
            all == text::texts(args@),
            reading == read_args(all, initial_settings(env)),
            reading == read_args(
                all.skip(i as int),
                Settings {
                    remote: text::string_option(remote),
                    remote_dir: text::string_option(remote_dir),
                    number: image_number as nat,
                    mode,
                },
            ),
        decreases n - i,
    {
        let arg = &args[i];
        let ghost rest = all.skip(i as int);
        proof {
            assert(rest[0] == arg@);
            assert(rest.skip(1) =~= all.skip(i + 1));
            if i + 1 < n {
                assert(rest[1] == args@[i + 1]@);
                assert(rest.skip(2) =~= all.skip(i + 2));
            }
        }
        if is_arg(arg, "--remote") {
            if i + 1 < n {
                remote = Some(args[i + 1].clone());
                i = i + 2;
            } else {
                remote = None;
                i = i + 1;
            }
        } else if is_arg(arg, "--remote-dir") {
            if i + 1 < n {
                remote_dir = Some(args[i + 1].clone());
                i = i + 2;
            } else {
                remote_dir = None;
                i = i + 1;
            }
        } else if is_arg(arg, "--number") {
            if i + 1 >= n {
                return Err("--number requires a value".to_owned());
            }
            match read_usize(args[i + 1].as_str()) {
                Some(value) => {
                    if value == 0 {
                        return Err("--number must be a positive integer".to_owned());
                    }
                    image_number = value;
                },
                None => return Err("--number must be a positive integer".to_owned()),
            }
            i = i + 2;
        } else if is_arg(arg, "--stdout") {
            mode = OutputMode::Stdout;
            i = i + 1;
        } else if is_arg(arg, "--clipboard") {
            mode = OutputMode::Clipboard;
            i = i + 1;
        } else if is_arg(arg, "-h") || is_arg(arg, "--help") {
            return Ok(Invocation::Help);
        } else {
            return Err("unknown argument: ".to_owned().concat(arg.as_str()));
        }
    }
    match remote {
        Some(remote) => Ok(Invocation::Upload(Args { remote, remote_dir, number: image_number, mode })),
        None => Err(
            "missing SSH target; pass --remote user@host or set ZAPET_SSH_REMOTE".to_owned(),
        ),
    }
}

/// An option with its value makes no difference but to the setting that it sets, whatever the
/// environment or an earlier option has set that to.
pub proof fn law_option_overrides(value: Seq<char>, rest: Seq<Seq<char>>, s: Settings, t: Settings)
    ensures
        s.remote_dir == t.remote_dir && s.number == t.number && s.mode == t.mode ==> read_args(
            seq!["--remote"@, value] + rest,
            s,
        ) == read_args(seq!["--remote"@, value] + rest, t),
        s.remote == t.remote && s.number == t.number && s.mode == t.mode ==> read_args(
            seq!["--remote-dir"@, value] + rest,
            s,
        ) == read_args(seq!["--remote-dir"@, value] + rest, t),
        s.remote == t.remote && s.remote_dir == t.remote_dir && s.mode == t.mode ==> read_args(
            seq!["--number"@, value] + rest,
            s,
        ) == read_args(seq!["--number"@, value] + rest, t),
{
    reveal_strlit("--remote");
    reveal_strlit("--remote-dir");
    reveal_strlit("--number");
    assert("--remote"@.len() != "--remote-dir"@.len());
    assert("--number"@[2] != "--remote"@[2]);
    assert("--remote-dir"@.len() != "--number"@.len());
}

/// The mode that is asked for last counts.
pub proof fn law_mode_overrides(rest: Seq<Seq<char>>, s: Settings, mode: OutputMode)
    ensures
        read_args(seq!["--stdout"@] + rest, s) == read_args(
            seq!["--stdout"@] + rest,
            Settings { mode, ..s },
        ),
        read_args(seq!["--clipboard"@] + rest, s) == read_args(
            seq!["--clipboard"@] + rest,
            Settings { mode, ..s },
        ),
{
    reveal_strlit("--stdout");
    reveal_strlit("--clipboard");
    reveal_strlit("--remote");
    reveal_strlit("--remote-dir");
    reveal_strlit("--number");
    assert("--stdout"@[2] != "--remote"@[2] && "--stdout"@[2] != "--remote-dir"@[2]);
    assert("--stdout"@[2] != "--number"@[2]);
    assert("--clipboard"@[2] != "--remote"@[2] && "--clipboard"@[2] != "--remote-dir"@[2]);
    assert("--clipboard"@[2] != "--number"@[2] && "--clipboard"@[2] != "--stdout"@[2]);
}

/// Without a target nothing is uploaded: an upload names the target that the last option, or
/// else the environment, gives; and options never make the number of an image zero.
pub proof fn law_upload_has_a_target(args: Seq<Seq<char>>, s: Settings)
    ensures
        read_args(args, s) matches Reading::Upload { remote, number, .. } ==> {
            &&& s.remote == Some(remote) || args.contains(remote)
            &&& s.number > 0 ==> number > 0
        },
    decreases args.len(),
{
    if args.len() > 0 {
        let rest = after_value(args);
        let one = args.skip(1);
        law_upload_has_a_target(rest, Settings { remote: value_of(args), ..s });
        law_upload_has_a_target(rest, Settings { remote_dir: value_of(args), ..s });
        if let Some(value) = value_of(args) {
            if let Some(n) = number::parse_unsigned(value, usize::MAX as nat) {
                law_upload_has_a_target(rest, Settings { number: n, ..s });
            }
        }
        law_upload_has_a_target(one, Settings { mode: OutputMode::Stdout, ..s });
        law_upload_has_a_target(one, Settings { mode: OutputMode::Clipboard, ..s });
        assert forall|x: Seq<char>| rest.contains(x) || one.contains(x) implies args.contains(x) by {
            if rest.contains(x) {
                let k = rest.index_of(x);
                assert(args[args.len() - rest.len() + k] == x);
            } else {
                let k = one.index_of(x);
                assert(args[k + 1] == x);
            }
        }
        if args.len() > 1 {
            assert(args.contains(args[1]));
        }
    }
}

/// The options differ from each other.
proof fn lemma_options_differ()
    ensures
        "--remote"@ != "--remote-dir"@,
        "--remote"@ != "--number"@,
        "--remote"@ != "--stdout"@,
        "--remote"@ != "--clipboard"@,
        "--remote-dir"@ != "--number"@,
        "--remote-dir"@ != "--stdout"@,
        "--remote-dir"@ != "--clipboard"@,
        "--number"@ != "--stdout"@,
        "--number"@ != "--clipboard"@,
        "--stdout"@ != "--clipboard"@,
        "-h"@ != "--remote"@ && "-h"@ != "--remote-dir"@ && "-h"@ != "--number"@,
        "-h"@ != "--stdout"@ && "-h"@ != "--clipboard"@,
        "--help"@ != "--remote"@ && "--help"@ != "--remote-dir"@ && "--help"@ != "--number"@,
        "--help"@ != "--stdout"@ && "--help"@ != "--clipboard"@,
{
    reveal_strlit("--remote");
    reveal_strlit("--remote-dir");
    reveal_strlit("--number");
    reveal_strlit("--stdout");
    reveal_strlit("--clipboard");
    reveal_strlit("-h");
    reveal_strlit("--help");
    assert("--remote"@.len() == 8 && "--remote-dir"@.len() == 12 && "--number"@.len() == 8);
    assert("--stdout"@.len() == 8 && "--clipboard"@.len() == 11 && "-h"@.len() == 2);
    assert("--remote"@[2] == 'r' && "--remote-dir"@[2] == 'r' && "--number"@[2] == 'n');
    assert("--stdout"@[2] == 's' && "--clipboard"@[2] == 'c' && "--help"@[2] == 'h');
}

/// With no argument left the settings are what is done: a target makes an upload with exactly the
/// directory, number and mode that are set, and without a target nothing is done.
pub proof fn law_settings_come_out(r: Result<Invocation, String>, s: Settings)
    requires
        says(r, read_args(Seq::empty(), s)),
    ensures
        s.remote matches Some(target) ==> {
            &&& r matches Ok(Invocation::Upload(args))
            &&& args.remote@ == target
            &&& s.remote_dir is Some <==> args.remote_dir is Some
            &&& args.remote_dir matches Some(dir) ==> s.remote_dir == Some(dir@)
            &&& args.number == s.number
            &&& args.mode == s.mode
        },
        s.remote is None ==> (r matches Err(message) && message@
            == "missing SSH target; pass --remote user@host or set ZAPET_SSH_REMOTE"@),
{
}

/// Each option sets its own setting to its value and leaves the others, and what follows it is
/// read with these settings.
pub proof fn law_options_set(value: Seq<char>, rest: Seq<Seq<char>>, s: Settings, n: nat)
    ensures
        read_args(seq!["--clipboard"@] + rest, s) == read_args(
            rest,
            Settings {
                remote: s.remote,
                remote_dir: s.remote_dir,
                number: s.number,
                mode: OutputMode::Clipboard,
            },
        ),
        read_args(seq!["--stdout"@] + rest, s) == read_args(
            rest,
            Settings {
                remote: s.remote,
                remote_dir: s.remote_dir,
                number: s.number,
                mode: OutputMode::Stdout,
            },
        ),
        read_args(seq!["--remote"@, value] + rest, s) == read_args(
            rest,
            Settings {
                remote: Some(value),
                remote_dir: s.remote_dir,
                number: s.number,
                mode: s.mode,
            },
        ),
        read_args(seq!["--remote-dir"@, value] + rest, s) == read_args(
            rest,
            Settings {
                remote: s.remote,
                remote_dir: Some(value),
                number: s.number,
                mode: s.mode,
            },
        ),
        0 < n <= usize::MAX ==> read_args(seq!["--number"@, number::decimal(n)] + rest, s) == read_args(
            rest,
            Settings { remote: s.remote, remote_dir: s.remote_dir, number: n, mode: s.mode },
        ),
{
    lemma_options_differ();
    number::law_decimal_reads_back(n, if n <= usize::MAX {
        usize::MAX as nat
    } else {
        n
    });
    assert((seq!["--clipboard"@] + rest).skip(1) =~= rest);
    assert((seq!["--stdout"@] + rest).skip(1) =~= rest);
    assert((seq!["--remote"@, value] + rest).skip(2) =~= rest);
    assert((seq!["--remote-dir"@, value] + rest).skip(2) =~= rest);
    assert((seq!["--number"@, number::decimal(n)] + rest).skip(2) =~= rest);
}

/// An option for the target or the directory without a value behind it takes the setting away.
pub proof fn law_missing_value_unsets(s: Settings)
    ensures
        read_args(seq!["--remote"@], s) == Reading::Refused(
            "missing SSH target; pass --remote user@host or set ZAPET_SSH_REMOTE"@,
        ),
        s.remote matches Some(target) ==> read_args(seq!["--remote-dir"@], s) == (Reading::Upload {
            remote: target,
            remote_dir: None,
            number: s.number,
            mode: s.mode,
        }),
        read_args(seq!["--number"@], s) == Reading::Refused("--number requires a value"@),
{
    lemma_options_differ();
    reveal_with_fuel(read_args, 2);
    assert(seq!["--remote"@].skip(1) =~= Seq::<Seq<char>>::empty());
    assert(seq!["--remote-dir"@].skip(1) =~= Seq::<Seq<char>>::empty());
}

/// What is no number from one up is refused as one, what is no option is refused by its name, and
/// a call for help is answered, whatever follows.
pub proof fn law_refusals_and_help(arg: Seq<char>, i: int, n: nat, rest: Seq<Seq<char>>, s: Settings)
    ensures
        n > usize::MAX ==> read_args(seq!["--number"@, number::decimal(n)] + rest, s) == Reading::Refused(
            "--number must be a positive integer"@,
        ),
        arg.len() == 0 ==> read_args(seq!["--number"@, arg] + rest, s) == Reading::Refused(
            "--number must be a positive integer"@,
        ),
        read_args(seq!["--number"@, "0"@] + rest, s) == Reading::Refused(
            "--number must be a positive integer"@,
        ),
        0 <= i < arg.len() && (arg[i] < '0' || arg[i] > '9') && (i > 0 || arg[i] != '+') ==> read_args(
            seq!["--number"@, arg] + rest,
            s,
        ) == Reading::Refused("--number must be a positive integer"@),
        read_args(seq!["-h"@] + rest, s) is Help,
        read_args(seq!["--help"@] + rest, s) is Help,
        arg != "--remote"@ && arg != "--remote-dir"@ && arg != "--number"@ && arg != "--stdout"@ && arg
            != "--clipboard"@ && arg != "-h"@ && arg != "--help"@ ==> read_args(seq![arg] + rest, s)
            == Reading::Refused("unknown argument: "@ + arg),
{
    lemma_options_differ();
    number::law_number_shape(arg, '0', i, usize::MAX as nat);
    if n > usize::MAX {
        number::law_limit_is_kept(n, usize::MAX as nat);
    }
    assert(arg.len() == 0 ==> arg =~= Seq::<char>::empty());
    reveal_strlit("0");
    assert("0"@ =~= seq!['0']);
    assert((seq!["--number"@, "0"@] + rest)[1] == "0"@);
    assert((seq!["--number"@, number::decimal(n)] + rest)[1] == number::decimal(n));
    assert((seq!["--number"@, arg] + rest)[1] == arg);
    assert((seq!["-h"@] + rest)[0] == "-h"@);
    assert((seq!["--help"@] + rest)[0] == "--help"@);
}

/// The answer to a call for help, or to what is refused, is that and nothing else.
pub proof fn law_answers(r: Result<Invocation, String>, message: Seq<char>)
    ensures
        says(r, Reading::Help) ==> (r matches Ok(Invocation::Help)),
        says(r, Reading::Refused(message)) ==> (r matches Err(error) && error@ == message),
{
}

/// What the environment sets: target and directory as they stand, a number that can be read and
/// else one, and standard output.
pub proof fn law_environment_sets(env: Environment, n: nat, i: int)
    ensures
        env.remote matches Some(target) ==> initial_settings(env).remote == Some(target@),
        env.remote is None ==> initial_settings(env).remote is None,
        env.remote_dir matches Some(dir) ==> initial_settings(env).remote_dir == Some(dir@),
        env.remote_dir is None ==> initial_settings(env).remote_dir is None,
        env.number is None ==> initial_settings(env).number == 1,
        n <= usize::MAX ==> (env.number matches Some(value) && value@ == number::decimal(n) ==> initial_settings(
            env,
        ).number == n),
        env.number matches Some(value) && 0 <= i < value@.len() && (value@[i] < '0' || value@[i] > '9') && (i > 0
            || value@[i] != '+') ==> initial_settings(env).number == 1,
        initial_settings(env).mode is Stdout,
{
    if n <= usize::MAX {
        number::law_decimal_reads_back(n, usize::MAX as nat);
    }
    if let Some(value) = env.number {
        number::law_number_shape(value@, '0', i, usize::MAX as nat);
    }
}

} // verus!
