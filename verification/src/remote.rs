//! Commands on a remote machine over SSH, and what their outcomes mean.

use crate::number;
use crate::number::decimal_text;
use crate::path;
use crate::text;
use crate::text::{chars_of, from_utf8_lossy, string_of, trimmed, trimmed_end, white_space};
use vstd::prelude::*;

verus! {

/// A program to run, with its arguments.
#[derive(Debug)]
pub struct RemoteCommand {
    pub program: String,
    pub args: Vec<String>,
}

impl RemoteCommand {
    /// This command runs the program with exactly these arguments.
    pub open spec fn runs(self, program: Seq<char>, args: Seq<Seq<char>>) -> bool {
        self.program@ == program && text::texts(self.args@) == args
    }
}

/// The options that keep ssh and scp from asking questions and from waiting long.
pub open spec fn ssh_options() -> Seq<Seq<char>> {
    seq![
        "-o"@,
        "BatchMode=yes"@,
        "-o"@,
        "ConnectTimeout=5"@,
        "-o"@,
        "ConnectionAttempts=1"@,
        "-o"@,
        "ServerAliveInterval=3"@,
        "-o"@,
        "ServerAliveCountMax=1"@,
    ]
}

/// The text as the inside of a single-quoted word: a quote ends the word, stands behind a
/// backslash, and starts the word anew.
pub open spec fn escaped(value: Seq<char>) -> Seq<char>
    decreases value.len(),
{
    if value.len() == 0 {
        Seq::empty()
    } else if value[0] == '\'' {
        "'\\''"@ + escaped(value.skip(1))
    } else {
        seq![value[0]] + escaped(value.skip(1))
    }
}

/// The text as one word of a shell.
pub open spec fn quoted(value: Seq<char>) -> Seq<char> {
    "'"@ + escaped(value) + "'"@
}

/// What a POSIX shell reads a word as that is made of single-quoted stretches and of characters
/// behind backslashes, and nothing if there is anything else in it or a quote is left open.
pub open spec fn shell_word(s: Seq<char>, in_quotes: bool) -> Option<Seq<char>>
    decreases s.len(),
{
    if s.len() == 0 {
        if in_quotes {
            None
        } else {
            Some(Seq::empty())
        }
    } else if s[0] == '\'' {
        shell_word(s.skip(1), !in_quotes)
    } else if in_quotes {
        match shell_word(s.skip(1), true) {
            Some(rest) => Some(seq![s[0]] + rest),
            None => None,
        }
    } else if s[0] == '\\' && s.len() > 1 && s[1] != '\n' {
        match shell_word(s.skip(2), false) {
            Some(rest) => Some(seq![s[1]] + rest),
            None => None,
        }
    } else {
        None
    }
}

/// The text as one word of a shell.
pub fn shell_quote(value: &str) -> (r: String)
    ensures
        r@ == quoted(value@),
{
    let chars = chars_of(value);
    let n: usize = chars.len();
    let mut out: String = "'".to_owned();
    assert(chars@.skip(0) =~= chars@);
    for i in 0..n
        invariant
            n == chars@.len(),
            out@ + escaped(chars@.skip(i as int)) == "'"@ + escaped(chars@),
    {
        let ghost before = out@;
        let ghost rest = chars@.skip(i as int);
        if chars[i] == '\'' {
            out.append("'\\''");
        } else {
            out.push(chars[i]);
        }
        proof {
            assert(rest.skip(1) =~= chars@.skip(i + 1));
            assert(out@ + escaped(chars@.skip(i + 1)) =~= before + escaped(rest));
        }
    }
    assert(chars@.skip(n as int) =~= Seq::<char>::empty());
    assert(out@ + Seq::<char>::empty() =~= out@);
    out.append("'");
    out
}

proof fn lemma_escaped_reads_back(value: Seq<char>)
    ensures
        shell_word(escaped(value) + "'"@, true) == Some(value),
    decreases value.len(),
{
    reveal_strlit("'");
    reveal_strlit("'\\''");
    reveal_with_fuel(shell_word, 4);
    let end = "'"@;
    if value.len() == 0 {
        assert(escaped(value) + end =~= end);
        assert(end.skip(1) =~= Seq::<char>::empty());
        assert(value =~= Seq::<char>::empty());
    } else {
        let rest = value.skip(1);
        lemma_escaped_reads_back(rest);
        let tail = escaped(rest) + end;
        let word = escaped(value) + end;
        assert(seq![value[0]] + rest =~= value);
        if value[0] == '\'' {
            assert(word =~= "'\\''"@ + tail);
            assert(word.skip(1)[0] == '\\' && word.skip(1)[1] == '\'');
            assert(word.skip(1).skip(2)[0] == '\'');
            assert(word.skip(1).skip(2).skip(1) =~= tail);
            assert(shell_word(word.skip(1).skip(2), false) == shell_word(tail, true));
        } else {
            assert(word =~= seq![value[0]] + tail);
            assert(word.skip(1) =~= tail);
        }
    }
}

/// A shell reads a quoted text as one word, which is the text.
pub proof fn law_shell_reads_back(value: Seq<char>)
    ensures
        shell_word(quoted(value), false) == Some(value),
{
    reveal_strlit("'");
    lemma_escaped_reads_back(value);
    assert(quoted(value).skip(1) =~= escaped(value) + "'"@);
}

/// A link target in Markdown would end early at one of these, or be taken for more than a path.
pub open spec fn breaks_target(c: char) -> bool {
    text::is_white_space(c) || c == '(' || c == ')' || c == '<' || c == '>'
}

/// The path as the target of a Markdown link, in angle brackets where it needs them.
pub open spec fn link_target(path: Seq<char>) -> Seq<char> {
    if exists|i: int| 0 <= i < path.len() && breaks_target(#[trigger] path[i]) {
        "<"@ + path + ">"@
    } else {
        path
    }
}

/// The path as the target of a Markdown link.
pub fn markdown_path_target(path: &str) -> (r: String)
    ensures
        r@ == link_target(path@),
{
    let chars = chars_of(path);
    let n: usize = chars.len();
    for i in 0..n
        invariant
            n == chars@.len(),
            chars@ == path@,
            forall|j: int| 0 <= j < i ==> !breaks_target(#[trigger] chars@[j]),
    {
        let c = chars[i];
        if white_space(c) || c == '(' || c == ')' || c == '<' || c == '>' {
            assert(breaks_target(path@[i as int]));
            return "<".to_owned().concat(path).concat(">");
        }
    }
    path.to_owned()
}

/// What is shown for an uploaded image: a link with the number of the image.
pub open spec fn image_link(image_number: usize, path: Seq<char>) -> Seq<char> {
    "[Image #"@ + number::decimal(image_number as nat) + "]("@ + link_target(path) + ")"@
}

/// What is shown for an uploaded image.
pub fn image_markdown(image_number: usize, path: &str) -> (r: String)
    ensures
        r@ == image_link(image_number, path@),
{
    let digits = decimal_text(image_number as u64);
    let target = markdown_path_target(path);
    "[Image #".to_owned().concat(digits.as_str()).concat("](").concat(target.as_str()).concat(")")
}

fn push_ssh_options(args: &mut Vec<String>)
    ensures
        text::texts(final(args)@) == text::texts(old(args)@) + ssh_options(),
{
    args.push("-o".to_owned());
    args.push("BatchMode=yes".to_owned());
    args.push("-o".to_owned());
    args.push("ConnectTimeout=5".to_owned());
    args.push("-o".to_owned());
    args.push("ConnectionAttempts=1".to_owned());
    args.push("-o".to_owned());
    args.push("ServerAliveInterval=3".to_owned());
    args.push("-o".to_owned());
    args.push("ServerAliveCountMax=1".to_owned());
    assert(text::texts(args@) =~= text::texts(old(args)@) + ssh_options());
}

/// The arguments of ssh for running a script on the remote machine.
pub open spec fn ssh_args(remote: Seq<char>, script: Seq<char>) -> Seq<Seq<char>> {
    ssh_options() + seq![remote, script]
}

fn ssh_command(remote: &str, script: String) -> (r: RemoteCommand)
    ensures
        r.runs("ssh"@, ssh_args(remote@, script@)),
{
    let mut args: Vec<String> = Vec::new();
    push_ssh_options(&mut args);
    args.push(remote.to_owned());
    args.push(script);
    assert(text::texts(args@) =~= ssh_args(remote@, script@));
    RemoteCommand { program: "ssh".to_owned(), args }
}

/// The command that prints the remote home directory.
pub fn remote_home(remote: &str) -> (r: RemoteCommand)
    ensures
        r.runs("ssh"@, ssh_args(remote@, "printf %s \"$HOME\""@)),
{
    ssh_command(remote, "printf %s \"$HOME\"".to_owned())
}

/// The command that succeeds if there is something at the path.
pub fn remote_path_exists(remote: &str, path: &str) -> (r: RemoteCommand)
    ensures
        r.runs("ssh"@, ssh_args(remote@, "test -e -- "@ + quoted(path@))),
{
    let word = shell_quote(path);
    ssh_command(remote, "test -e -- ".to_owned().concat(word.as_str()))
}

/// The command that makes the directory, unless it is there.
pub fn create_remote_dir(remote: &str, remote_dir: &str) -> (r: RemoteCommand)
    ensures
        r.runs("ssh"@, ssh_args(remote@, "mkdir -p -- "@ + quoted(remote_dir@))),
{
    let word = shell_quote(remote_dir);
    ssh_command(remote, "mkdir -p -- ".to_owned().concat(word.as_str()))
}

/// The arguments of scp for copying a file.
pub open spec fn scp_args(remote: Seq<char>, local_path: Seq<char>, remote_path: Seq<char>) -> Seq<
    Seq<char>,
> {
    seq!["-q"@] + ssh_options() + seq![local_path, remote + ":"@ + quoted(remote_path)]
}

/// The command that copies a file to the remote machine.
pub fn upload_file(remote: &str, local_path: &str, remote_path: &str) -> (r: RemoteCommand)
    ensures
        r.runs("scp"@, scp_args(remote@, local_path@, remote_path@)),
{
    let word = shell_quote(remote_path);
    let mut args: Vec<String> = Vec::new();
    args.push("-q".to_owned());
    assert(text::texts(args@) =~= seq!["-q"@]);
    push_ssh_options(&mut args);
    let ghost options = text::texts(args@);
    args.push(local_path.to_owned());
    args.push(remote.to_owned().concat(":").concat(word.as_str()));
    assert(text::texts(args@) =~= options + seq![local_path@, remote@ + ":"@ + quoted(remote_path@)]);
    assert(text::texts(args@) =~= scp_args(remote@, local_path@, remote_path@));
    RemoteCommand { program: "scp".to_owned(), args }
}

/// What came of a command whose output matters.
#[derive(Debug)]
pub enum CommandOutput {
    /// It could not be run, for this reason.
    NotRun(String),
    /// It ran, succeeded or not, and wrote these bytes.
    Exited { success: bool, stdout: Vec<u8>, stderr: Vec<u8> },
}

/// What came of a command.
#[derive(Debug)]
pub enum CommandStatus {
    /// It could not be run, for this reason.
    NotRun(String),
    /// It ran and succeeded, or did not.
    Exited(bool),
}

/// The remote home directory by the output of the command that prints it.
pub open spec fn home_of(output: CommandOutput) -> Result<Seq<char>, Seq<char>> {
    match output {
        CommandOutput::NotRun(reason) => Err("failed to run ssh: "@ + reason@),
        CommandOutput::Exited { success, stdout, stderr } => if !success {
            Err("failed to read remote home: "@ + text::trim(text::lossy_text(stderr@)))
        } else if text::trim(text::lossy_text(stdout@)).len() == 0 {
            Err("remote home is empty"@)
        } else {
            Ok(text::trim(text::lossy_text(stdout@)))
        },
    }
}

fn trimmed_output(bytes: &Vec<u8>) -> (r: String)
    ensures
        r@ == text::trim(text::lossy_text(bytes@)),
{
    let whole = from_utf8_lossy(bytes.as_slice());
    let chars = chars_of(whole.as_str());
    string_of(trimmed(&chars))
}

/// The remote home directory by the output of the `remote_home` command.
pub fn read_remote_home(output: &CommandOutput) -> (r: Result<String, String>)
    ensures
        text::text_result(r) == home_of(*output),
{
    match output {
        CommandOutput::NotRun(reason) => Err("failed to run ssh: ".to_owned().concat(reason.as_str())),
        CommandOutput::Exited { success, stdout, stderr } => {
            if !*success {
                let said = trimmed_output(stderr);
                return Err("failed to read remote home: ".to_owned().concat(said.as_str()));
            }
            let home = trimmed_output(stdout);
            if home.as_str().is_empty() {
                return Err("remote home is empty".to_owned());
            }
            Ok(home)
        },
    }
}

/// Where images go when no directory is given.
pub open spec fn image_dir(home: Seq<char>) -> Seq<char> {
    text::trim_end_char(home, '/') + "/.tmp/.zapet/images"@
}

/// Where images go when no directory is given.
pub fn default_image_dir(home: &str) -> (r: String)
    ensures
        r@ == image_dir(home@),
{
    let chars = chars_of(home);
    string_of(trimmed_end(&chars, '/')).concat("/.tmp/.zapet/images")
}

/// The most names that are tried for one image.
pub const MAX_NAMES: u32 = 1000;

/// The file name that is tried after `suffix` others.
pub open spec fn nth_name(timestamp: Seq<char>, extension: Seq<char>, suffix: nat) -> Seq<char> {
    if suffix == 0 {
        timestamp + "."@ + extension
    } else {
        timestamp + "-"@ + number::decimal(suffix + 1) + "."@ + extension
    }
}

/// The path that is tried after `suffix` others.
pub open spec fn nth_path(remote_dir: Seq<char>, timestamp: Seq<char>, extension: Seq<char>, suffix: nat) -> Seq<
    char,
> {
    text::trim_end_char(remote_dir, '/') + "/"@ + nth_name(timestamp, extension, suffix)
}

/// The path that is tried after `suffix` others.
pub fn candidate_path(remote_dir: &str, timestamp: &str, extension: &str, suffix: u32) -> (r: String)
    ensures
        r@ == nth_path(remote_dir@, timestamp@, extension@, suffix as nat),
{
    let name: String = if suffix == 0 {
        timestamp.to_owned().concat(".").concat(extension)
    } else {
        let digits = decimal_text(suffix as u64 + 1);
        timestamp.to_owned().concat("-").concat(digits.as_str()).concat(".").concat(extension)
    };
    let chars = chars_of(remote_dir);
    string_of(trimmed_end(&chars, '/')).concat("/").concat(name.as_str())
}

/// What follows from whether a path is taken.
#[derive(Debug)]
pub enum Allocation {
    /// This path is free.
    Allocated(String),
    /// The path is taken; the one after so many others comes next.
    Next(u32),
    /// No path can be had, for this reason.
    Failed(String),
}

/// `r` follows from the status of the `remote_path_exists` command for the path that is tried
/// after `suffix` others.
pub open spec fn allocation_step(
    remote_dir: Seq<char>,
    timestamp: Seq<char>,
    extension: Seq<char>,
    suffix: u32,
    status: CommandStatus,
    r: Allocation,
) -> bool {
    match status {
        CommandStatus::NotRun(reason) => r matches Allocation::Failed(error) && error@
            == "failed to run ssh: "@ + reason@,
        CommandStatus::Exited(taken) => if !taken {
            r matches Allocation::Allocated(path) && path@ == nth_path(
                remote_dir,
                timestamp,
                extension,
                suffix as nat,
            )
        } else if suffix + 1 < MAX_NAMES {
            r matches Allocation::Next(next) && next == suffix + 1
        } else {
            r matches Allocation::Failed(error) && error@ == "could not allocate remote image filename"@
        },
    }
}

/// What follows from whether the path that is tried after `suffix` others is taken.
pub fn allocate_remote_path(
    remote_dir: &str,
    timestamp: &str,
    extension: &str,
    suffix: u32,
    status: &CommandStatus,
) -> (r: Allocation)
    ensures
        allocation_step(remote_dir@, timestamp@, extension@, suffix, *status, r),
{
    match status {
        CommandStatus::NotRun(reason) => Allocation::Failed(
            "failed to run ssh: ".to_owned().concat(reason.as_str()),
        ),
        CommandStatus::Exited(taken) => {
            if !*taken {
                Allocation::Allocated(candidate_path(remote_dir, timestamp, extension, suffix))
            } else if suffix < MAX_NAMES - 1 {
                Allocation::Next(suffix + 1)
            } else {
                Allocation::Failed("could not allocate remote image filename".to_owned())
            }
        },
    }
}

/// The first free path from the one that is tried after `suffix` others, by what is taken.
pub open spec fn first_free(
    remote_dir: Seq<char>,
    timestamp: Seq<char>,
    extension: Seq<char>,
    suffix: nat,
    taken: spec_fn(Seq<char>) -> bool,
) -> Option<Seq<char>>
    decreases MAX_NAMES - suffix,
{
    if suffix >= MAX_NAMES {
        None
    } else if taken(nth_path(remote_dir, timestamp, extension, suffix)) {
        first_free(remote_dir, timestamp, extension, suffix + 1, taken)
    } else {
        Some(nth_path(remote_dir, timestamp, extension, suffix))
    }
}

/// Step by step, the first free path is allocated, and it fails only when all are taken.
pub proof fn law_first_free_is_allocated(
    remote_dir: Seq<char>,
    timestamp: Seq<char>,
    extension: Seq<char>,
    suffix: u32,
    taken: spec_fn(Seq<char>) -> bool,
    r: Allocation,
)
    requires
        suffix < MAX_NAMES,
        allocation_step(
            remote_dir,
            timestamp,
            extension,
            suffix,
            CommandStatus::Exited(taken(nth_path(remote_dir, timestamp, extension, suffix as nat))),
            r,
        ),
    ensures
        match r {
            Allocation::Allocated(path) => first_free(remote_dir, timestamp, extension, suffix as nat, taken)
                == Some(path@),
            Allocation::Next(next) => next < MAX_NAMES && first_free(
                remote_dir,
                timestamp,
                extension,
                suffix as nat,
                taken,
            ) == first_free(remote_dir, timestamp, extension, next as nat, taken),
            Allocation::Failed(_) => first_free(remote_dir, timestamp, extension, suffix as nat, taken) is None,
        },
{
    reveal_with_fuel(first_free, 2);
}

/// The first free path is free, and every path that is tried before it is taken.
pub proof fn law_first_free_is_free(
    remote_dir: Seq<char>,
    timestamp: Seq<char>,
    extension: Seq<char>,
    suffix: nat,
    taken: spec_fn(Seq<char>) -> bool,
)
    ensures
        match first_free(remote_dir, timestamp, extension, suffix, taken) {
            Some(path) => !taken(path) && exists|k: nat|
                suffix <= k < MAX_NAMES && path == #[trigger] nth_path(remote_dir, timestamp, extension, k)
                    && forall|j: nat|
                    suffix <= j < k ==> taken(#[trigger] nth_path(remote_dir, timestamp, extension, j)),
            None => forall|j: nat|
                suffix <= j < MAX_NAMES ==> taken(#[trigger] nth_path(remote_dir, timestamp, extension, j)),
        },
    decreases MAX_NAMES - suffix,
{
    if suffix < MAX_NAMES {
        let here = nth_path(remote_dir, timestamp, extension, suffix);
        if taken(here) {
            law_first_free_is_free(remote_dir, timestamp, extension, suffix + 1, taken);
            if let Some(path) = first_free(remote_dir, timestamp, extension, suffix + 1, taken) {
                let k = choose|k: nat|
                    suffix + 1 <= k < MAX_NAMES && path == #[trigger] nth_path(remote_dir, timestamp, extension, k)
                        && forall|j: nat|
                        suffix + 1 <= j < k ==> taken(#[trigger] nth_path(remote_dir, timestamp, extension, j));
                assert(path == nth_path(remote_dir, timestamp, extension, k));
                assert forall|j: nat| suffix <= j < k implies taken(
                    #[trigger] nth_path(remote_dir, timestamp, extension, j),
                ) by {
                    if j > suffix {
                    }
                }
            }
        }
    }
}

/// No two of the paths that are tried for an image are the same.
pub proof fn law_candidates_differ(
    remote_dir: Seq<char>,
    timestamp: Seq<char>,
    extension: Seq<char>,
    i: nat,
    j: nat,
)
    requires
        i < j,
    ensures
        nth_path(remote_dir, timestamp, extension, i) != nth_path(remote_dir, timestamp, extension, j),
{
    reveal_strlit(".");
    reveal_strlit("-");
    reveal_strlit("/");
    let dir = text::trim_end_char(remote_dir, '/') + "/"@;
    let a = nth_name(timestamp, extension, i);
    let b = nth_name(timestamp, extension, j);
    number::law_decimal_reads_back(j + 1, j + 1);
    if nth_path(remote_dir, timestamp, extension, i) == nth_path(remote_dir, timestamp, extension, j) {
        assert((dir + a).skip(dir.len() as int) =~= a);
        assert((dir + b).skip(dir.len() as int) =~= b);
        assert(a == b);
        let n = timestamp.len() as int;
        let dj = number::decimal(j + 1);
        if i == 0 {
            assert(a.len() == n + 1 + extension.len());
            assert(b.len() == n + 1 + dj.len() + 1 + extension.len());
        } else {
            let di = number::decimal(i + 1);
            assert(di.len() == dj.len());
            assert(a.subrange(n + 1, n + 1 + di.len()) =~= di);
            assert(b.subrange(n + 1, n + 1 + dj.len()) =~= dj);
            number::law_decimal_reads_back(i + 1, j + 1);
        }
    }
}

proof fn lemma_trimmed_front(s: Seq<char>, c: char)
    ensures
        text::trim_end_char(s, c).len() > 0 ==> text::trim_end_char(s, c).first() == s.first(),
    decreases s.len(),
{
    if s.len() > 0 && s.last() == c {
        lemma_trimmed_front(s.drop_last(), c);
    }
}

/// Under an absolute directory every path that is tried is absolute.
pub proof fn law_candidate_is_absolute(
    remote_dir: Seq<char>,
    timestamp: Seq<char>,
    extension: Seq<char>,
    suffix: nat,
)
    requires
        path::is_absolute(remote_dir),
    ensures
        path::is_absolute(nth_path(remote_dir, timestamp, extension, suffix)),
{
    reveal_strlit("/");
    lemma_trimmed_front(remote_dir, '/');
}

/// Whether the remote directory was made.
pub fn remote_dir_created(status: &CommandStatus) -> (r: Result<(), String>)
    ensures
        match *status {
            CommandStatus::NotRun(reason) => r matches Err(error) && error@ == "failed to run ssh: "@ + reason@,
            CommandStatus::Exited(true) => r is Ok,
            CommandStatus::Exited(false) => r matches Err(error) && error@
                == "failed to create remote image directory"@,
        },
{
    match status {
        CommandStatus::NotRun(reason) => Err("failed to run ssh: ".to_owned().concat(reason.as_str())),
        CommandStatus::Exited(success) => if *success {
            Ok(())
        } else {
            Err("failed to create remote image directory".to_owned())
        },
    }
}

/// Whether the file was copied.
pub fn file_uploaded(status: &CommandStatus) -> (r: Result<(), String>)
    ensures
        match *status {
            CommandStatus::NotRun(reason) => r matches Err(error) && error@ == "failed to run scp: "@ + reason@,
            CommandStatus::Exited(true) => r is Ok,
            CommandStatus::Exited(false) => r matches Err(error) && error@ == "failed to upload image with scp"@,
        },
{
    match status {
        CommandStatus::NotRun(reason) => Err("failed to run scp: ".to_owned().concat(reason.as_str())),
        CommandStatus::Exited(success) => if *success {
            Ok(())
        } else {
            Err("failed to upload image with scp".to_owned())
        },
    }
}

/// Commands run by ssh ask no questions and do not wait long: ten words of options, then the
/// target, then what is to be run.
pub proof fn law_ssh_words(remote: Seq<char>, script: Seq<char>)
    ensures
        ssh_args(remote, script) == seq![
            "-o"@,
            "BatchMode=yes"@,
            "-o"@,
            "ConnectTimeout=5"@,
            "-o"@,
            "ConnectionAttempts=1"@,
            "-o"@,
            "ServerAliveInterval=3"@,
            "-o"@,
            "ServerAliveCountMax=1"@,
            remote,
            script,
        ],
{
    assert(ssh_args(remote, script) =~= seq![
        "-o"@,
        "BatchMode=yes"@,
        "-o"@,
        "ConnectTimeout=5"@,
        "-o"@,
        "ConnectionAttempts=1"@,
        "-o"@,
        "ServerAliveInterval=3"@,
        "-o"@,
        "ServerAliveCountMax=1"@,
        remote,
        script,
    ]);
}

/// Files are copied by scp without progress and with the options of ssh: from the local path to
/// the target, a colon, and the quoted remote path.
pub proof fn law_scp_words(remote: Seq<char>, local_path: Seq<char>, remote_path: Seq<char>, script: Seq<char>)
    ensures
        scp_args(remote, local_path, remote_path).len() == 13,
        scp_args(remote, local_path, remote_path)[0] == "-q"@,
        scp_args(remote, local_path, remote_path).subrange(1, 11) == ssh_args(remote, script).take(10),
        scp_args(remote, local_path, remote_path)[11] == local_path,
        scp_args(remote, local_path, remote_path)[12] == remote + seq![':'] + quoted(remote_path),
{
    reveal_strlit(":");
    assert(":"@ =~= seq![':']);
    assert(scp_args(remote, local_path, remote_path).subrange(1, 11) =~= ssh_args(remote, script).take(10));
}

/// Text without a single quote is quoted as it stands between two of them.
pub proof fn law_plain_text_is_quoted(value: Seq<char>)
    requires
        forall|i: int| 0 <= i < value.len() ==> value[i] != '\'',
    ensures
        quoted(value) == seq!['\''] + value + seq!['\''],
{
    reveal_strlit("'");
    assert("'"@ =~= seq!['\'']);
    lemma_escaped_plain(value);
}

proof fn lemma_escaped_plain(value: Seq<char>)
    requires
        forall|i: int| 0 <= i < value.len() ==> value[i] != '\'',
    ensures
        escaped(value) == value,
    decreases value.len(),
{
    if value.len() == 0 {
        assert(value =~= Seq::<char>::empty());
    } else {
        lemma_escaped_plain(value.skip(1));
        assert(seq![value[0]] + value.skip(1) =~= value);
    }
}

/// A target with white space, brackets or angle brackets in it stands between angle brackets, and
/// any other as it is.
pub proof fn law_targets_are_bracketed(path: Seq<char>, k: int)
    ensures
        0 <= k < path.len() && (text::is_white_space(path[k]) || path[k] == '(' || path[k] == ')' || path[k] == '<'
            || path[k] == '>') ==> link_target(path) == seq!['<'] + path + seq!['>'],
        (forall|i: int|
            0 <= i < path.len() ==> !text::is_white_space(#[trigger] path[i]) && path[i] != '(' && path[i] != ')'
                && path[i] != '<' && path[i] != '>') ==> link_target(path) == path,
{
    reveal_strlit("<");
    reveal_strlit(">");
    assert("<"@ =~= seq!['<'] && ">"@ =~= seq!['>']);
    if 0 <= k < path.len() && (text::is_white_space(path[k]) || path[k] == '(' || path[k] == ')' || path[k] == '<'
        || path[k] == '>') {
        assert(breaks_target(path[k]));
    }
}

/// What is shown is a Markdown link with the number of the image.
pub proof fn law_link_shows_the_number(image_number: usize, path: Seq<char>)
    ensures
        image_link(image_number, path) == "[Image #"@ + number::decimal(image_number as nat) + seq![']', '(']
            + link_target(path) + seq![')'],
{
    reveal_strlit("](");
    reveal_strlit(")");
    assert("]("@ =~= seq![']', '('] && ")"@ =~= seq![')']);
}

/// The first name tried is the time with the extension, and from the second on it has the count
/// of names behind the time; it lies in the directory, of which slashes at the end do not count.
pub proof fn law_names_tried(dir: Seq<char>, timestamp: Seq<char>, extension: Seq<char>, n: nat)
    requires
        dir.len() == 0 || dir[dir.len() - 1] != '/',
    ensures
        nth_path(dir, timestamp, extension, 0) == dir + seq!['/'] + timestamp + seq!['.'] + extension,
        n >= 1 ==> nth_path(dir, timestamp, extension, n) == dir + seq!['/'] + timestamp + seq!['-']
            + number::decimal(n + 1) + seq!['.'] + extension,
        nth_path(dir.push('/'), timestamp, extension, n) == nth_path(dir, timestamp, extension, n),
        nth_path(dir.push('/').push('/'), timestamp, extension, n) == nth_path(dir, timestamp, extension, n),
{
    reveal_strlit("/");
    reveal_strlit(".");
    reveal_strlit("-");
    assert("/"@ =~= seq!['/'] && "."@ =~= seq!['.'] && "-"@ =~= seq!['-']);
    text::law_end_is_trimmed(dir, '/');
    text::law_end_is_trimmed(dir.push('/'), '/');
    assert(nth_path(dir, timestamp, extension, 0) =~= dir + seq!['/'] + timestamp + seq!['.'] + extension);
    if n >= 1 {
        assert(nth_path(dir, timestamp, extension, n) =~= dir + seq!['/'] + timestamp + seq!['-']
            + number::decimal(n + 1) + seq!['.'] + extension);
    }
}

/// A thousand names are tried.
pub proof fn law_a_thousand_names()
    ensures
        MAX_NAMES == 1000,
{
}

/// Images go to `.tmp/.zapet/images` in the remote home directory.
pub proof fn law_images_go_to_the_home_directory(home: Seq<char>)
    requires
        home.len() == 0 || home[home.len() - 1] != '/',
    ensures
        image_dir(home) == home + "/.tmp/.zapet/images"@,
        image_dir(home.push('/')) == home + "/.tmp/.zapet/images"@,
{
    text::law_end_is_trimmed(home, '/');
}

/// The remote home directory is what a successful command has printed, without white space around
/// it; that nothing was printed, that the command failed, and that it was not run are told apart.
pub proof fn law_home_is_what_was_printed(
    left: Seq<char>,
    said: Seq<char>,
    right: Seq<char>,
    success: bool,
    stdout: Vec<u8>,
    stderr: Vec<u8>,
    reason: String,
)
    requires
        forall|i: int| 0 <= i < left.len() ==> text::is_white_space(#[trigger] left[i]),
        forall|i: int| 0 <= i < right.len() ==> text::is_white_space(#[trigger] right[i]),
        said.len() > 0 ==> !text::is_white_space(said[0]) && !text::is_white_space(said[said.len() - 1]),
    ensures
        success && text::lossy_text(stdout@) == left + said + right && said.len() > 0 ==> home_of(
            CommandOutput::Exited { success, stdout, stderr },
        ) == Ok::<Seq<char>, Seq<char>>(said),
        success && text::lossy_text(stdout@) == left + said + right && said.len() == 0 ==> home_of(
            CommandOutput::Exited { success, stdout, stderr },
        ) == Err::<Seq<char>, Seq<char>>("remote home is empty"@),
        !success && text::lossy_text(stderr@) == left + said + right ==> home_of(
            CommandOutput::Exited { success, stdout, stderr },
        ) == Err::<Seq<char>, Seq<char>>("failed to read remote home: "@ + said),
        home_of(CommandOutput::NotRun(reason)) == Err::<Seq<char>, Seq<char>>("failed to run ssh: "@ + reason@),
{
    text::law_trim_takes_space_only(left, said, right);
}

/// A single quote within a text ends the quoted stretch, stands behind a backslash, and starts
/// another.
pub proof fn law_quote_within_a_text(a: Seq<char>, b: Seq<char>)
    requires
        forall|i: int| 0 <= i < a.len() ==> a[i] != '\'',
    ensures
        quoted(a + seq!['\''] + b) == seq!['\''] + a + seq!['\'', '\\', '\''] + quoted(b),
{
    reveal_strlit("'");
    reveal_strlit("'\\''");
    lemma_escaped_parts(a, seq!['\''] + b);
    assert(a + seq!['\''] + b =~= a + (seq!['\''] + b));
    assert((seq!['\''] + b).skip(1) =~= b);
    lemma_escaped_plain(a);
    assert(quoted(a + seq!['\''] + b) =~= seq!['\''] + a + seq!['\'', '\\', '\''] + quoted(b));
}

proof fn lemma_escaped_parts(a: Seq<char>, b: Seq<char>)
    ensures
        escaped(a + b) == escaped(a) + escaped(b),
    decreases a.len(),
{
    if a.len() == 0 {
        assert(a + b =~= b);
        assert(Seq::<char>::empty() + escaped(b) =~= escaped(b));
    } else {
        assert((a + b).skip(1) =~= a.skip(1) + b);
        lemma_escaped_parts(a.skip(1), b);
        assert(escaped(a + b) =~= escaped(a) + escaped(b));
    }
}

/// A command runs the program and the arguments that it holds, and no others.
pub proof fn law_command_runs_what_it_holds(command: RemoteCommand, program: Seq<char>, args: Seq<Seq<char>>)
    ensures
        command.runs(program, args) <==> {
            &&& command.program@ == program
            &&& command.args@.len() == args.len()
            &&& forall|i: int| 0 <= i < args.len() ==> #[trigger] command.args@[i]@ == args[i]
        },
{
    if command.program@ == program && command.args@.len() == args.len() && (forall|i: int|
        0 <= i < args.len() ==> #[trigger] command.args@[i]@ == args[i]) {
        assert(text::texts(command.args@) =~= args);
    }
    if command.runs(program, args) {
        assert forall|i: int| 0 <= i < args.len() implies #[trigger] command.args@[i]@ == args[i] by {
            assert(text::texts(command.args@)[i] == command.args@[i]@);
        }
    }
}

} // verus!
