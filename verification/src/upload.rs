//! The upload of a clipboard image: what to do next, from what has come of it so far.

use crate::args::{Args, OutputMode};
use crate::clock::LocalTime;
use crate::image;
use crate::image::{
    clipboard_text_image_path, file_source, temporary_image_path, temporary_source,
    ClipboardImageSource, Host,
};
use crate::number;
use crate::path;
use crate::path::{absolute, HostPath, PathFacts, Place};
use crate::remote;
use crate::remote::{
    allocate_remote_path, candidate_path, create_remote_dir, default_image_dir, file_uploaded,
    image_markdown, read_remote_home, remote_dir_created, remote_home, remote_path_exists,
    upload_file, Allocation, CommandOutput, CommandStatus, RemoteCommand,
};
use crate::text;
use crate::text::chars_of;
use vstd::prelude::*;

verus! {

/// The next thing to do, and what is known by then.
#[derive(Debug)]
pub enum UploadStep {
    /// Run the command, and hand back its output.
    QueryHome { command: RemoteCommand },
    /// Read the text on the clipboard.
    ReadText { remote_dir: String },
    /// Look whether there is a file at the path.
    CheckFile { remote_dir: String, file: HostPath },
    /// Read the image on the clipboard.
    ReadImage { remote_dir: String },
    /// Write the bytes to the path.
    WriteTemporary { remote_dir: String, path: String, bytes: Vec<u8> },
    /// Read the clock.
    ReadClock { remote_dir: String, source: ClipboardImageSource },
    /// Run the command: it succeeds if the path that is tried after `suffix` others is taken.
    Probe {
        remote_dir: String,
        source: ClipboardImageSource,
        timestamp: String,
        suffix: u32,
        command: RemoteCommand,
    },
    /// Run the command: it makes the directory for the image.
    MakeDir { source: ClipboardImageSource, remote_path: String, command: RemoteCommand },
    /// Run the command: it copies the image.
    Upload { source: ClipboardImageSource, remote_path: String, command: RemoteCommand },
    /// Remove the file at the path.
    Remove { path: String, remote_path: String },
    /// Print the text.
    Print { text: String },
    /// Put the text on the clipboard.
    Copy { text: String },
    /// Nothing: the upload has succeeded, or failed for this reason.
    Finished(Result<(), String>),
}

/// What has come of a step.
#[derive(Debug)]
pub enum UploadEvent {
    /// The output of a command.
    Output(CommandOutput),
    /// The text on the clipboard, if there is one, and the machine whose paths it may name.
    Text { text: Option<String>, host: Host },
    /// Whether there is a file.
    IsFile(bool),
    /// The image on the clipboard in PNG format, if there is one, what the name of a temporary
    /// file is made of, and where it lies.
    Image { png: Option<Vec<u8>>, place: Place, pid: u32, time: LocalTime },
    /// The file was written, or could not be for this reason.
    Written(Result<(), String>),
    /// The time.
    Clock(LocalTime),
    /// What came of a command.
    Status(CommandStatus),
    /// The file was removed, or could not be.
    Removed,
    /// The text was printed or copied.
    Shown,
}

/// `next` is the end of an upload that failed with this message.
pub open spec fn fails(next: UploadStep, message: Seq<char>) -> bool {
    next matches UploadStep::Finished(Err(error)) && error@ == message
}

/// `next` comes once the remote directory is known.
pub open spec fn dir_known(next: UploadStep, dir: Seq<char>) -> bool {
    if path::is_absolute(dir) {
        next matches UploadStep::ReadText { remote_dir } && remote_dir@ == dir
    } else {
        fails(next, "remote image directory must be absolute"@)
    }
}

/// `next` is the first step of an upload: a given directory is used, and without one the
/// remote home directory is asked for.
pub open spec fn first_step(args: Args, next: UploadStep) -> bool {
    match args.remote_dir {
        Some(dir) => dir_known(next, dir@),
        None => next matches UploadStep::QueryHome { command } && command.runs(
            "ssh"@,
            remote::ssh_args(args.remote@, "printf %s \"$HOME\""@),
        ),
    }
}

/// `next` asks whether the path that is tried after `suffix` others is taken.
pub open spec fn probes(
    args: Args,
    next: UploadStep,
    dir: Seq<char>,
    from: ClipboardImageSource,
    stamp: Seq<char>,
    tried: u32,
) -> bool {
    &&& next matches UploadStep::Probe { remote_dir, source, timestamp, suffix, command }
    &&& remote_dir@ == dir
    &&& source == from
    &&& timestamp@ == stamp
    &&& suffix == tried
    &&& command.runs(
        "ssh"@,
        remote::ssh_args(
            args.remote@,
            "test -e -- "@ + remote::quoted(
                remote::nth_path(dir, stamp, from.extension@, tried as nat),
            ),
        ),
    )
}

/// `next` shows the link to the image at this path.
pub open spec fn shows(args: Args, next: UploadStep, path: Seq<char>) -> bool {
    match args.mode {
        OutputMode::Stdout => next matches UploadStep::Print { text } && text@ == remote::image_link(
            args.number,
            path,
        ),
        OutputMode::Clipboard => next matches UploadStep::Copy { text } && text@ == remote::image_link(
            args.number,
            path,
        ),
    }
}

/// `next` comes after `event` came of `step`. An event that does not belong to the step changes
/// nothing.
pub open spec fn upload_step(args: Args, step: UploadStep, event: UploadEvent, next: UploadStep) -> bool {
    match (step, event) {
        (UploadStep::QueryHome { .. }, UploadEvent::Output(output)) => match remote::home_of(output) {
            Ok(home) => dir_known(next, remote::image_dir(home)),
            Err(message) => fails(next, message),
        },
        (UploadStep::ReadText { remote_dir: dir }, UploadEvent::Text { text, host }) => match named_image(
            text,
            host,
        ) {
            Some(p) => next matches UploadStep::CheckFile { remote_dir, file } && remote_dir == dir && file@
                == p,
            None => next == (UploadStep::ReadImage { remote_dir: dir }),
        },
        (UploadStep::CheckFile { remote_dir: dir, file }, UploadEvent::IsFile(true)) => {
            next matches UploadStep::ReadClock { remote_dir, source } && remote_dir == dir && source.is_file(
                file@,
            )
        },
        (UploadStep::CheckFile { remote_dir: dir, .. }, UploadEvent::IsFile(false)) => next == (
        UploadStep::ReadImage { remote_dir: dir }),
        (UploadStep::ReadImage { remote_dir: dir }, UploadEvent::Image { png, place, pid, time }) => match png {
            Some(image) => {
                &&& next matches UploadStep::WriteTemporary { remote_dir, path, bytes }
                &&& remote_dir == dir
                &&& path@ == path::path_in(place, image::temporary_name(pid, time))
                &&& bytes == image
            },
            None => fails(next, "no image found in clipboard"@),
        },
        (UploadStep::WriteTemporary { remote_dir: dir, path: p, .. }, UploadEvent::Written(result)) => match result {
            Ok(_) => next matches UploadStep::ReadClock { remote_dir, source } && remote_dir == dir
                && source.is_temporary(p@),
            Err(reason) => fails(next, "failed to write temp image: "@ + reason@),
        },
        (UploadStep::ReadClock { remote_dir, source }, UploadEvent::Clock(time)) => probes(
            args,
            next,
            remote_dir@,
            source,
            "image-"@ + time.text(),
            0,
        ),
        (
            UploadStep::Probe { remote_dir: dir, source: from, timestamp, suffix, .. },
            UploadEvent::Status(status),
        ) => match status {
            CommandStatus::NotRun(reason) => fails(next, "failed to run ssh: "@ + reason@),
            CommandStatus::Exited(false) => {
                &&& next matches UploadStep::MakeDir { source, remote_path, command }
                &&& source == from
                &&& remote_path@ == remote::nth_path(dir@, timestamp@, from.extension@, suffix as nat)
                &&& command.runs(
                    "ssh"@,
                    remote::ssh_args(args.remote@, "mkdir -p -- "@ + remote::quoted(dir@)),
                )
            },
            CommandStatus::Exited(true) => if suffix + 1 < remote::MAX_NAMES {
                probes(args, next, dir@, from, timestamp@, (suffix + 1) as u32)
            } else {
                fails(next, "could not allocate remote image filename"@)
            },
        },
        (UploadStep::MakeDir { source: from, remote_path: p, .. }, UploadEvent::Status(status)) => match status {
            CommandStatus::NotRun(reason) => fails(next, "failed to run ssh: "@ + reason@),
            CommandStatus::Exited(false) => fails(next, "failed to create remote image directory"@),
            CommandStatus::Exited(true) => {
                &&& next matches UploadStep::Upload { source, remote_path, command }
                &&& source == from
                &&& remote_path == p
                &&& command.runs("scp"@, remote::scp_args(args.remote@, from.local_path@, p@))
            },
        },
        (UploadStep::Upload { source, remote_path: p, .. }, UploadEvent::Status(status)) => match status {
            CommandStatus::NotRun(reason) => fails(next, "failed to run scp: "@ + reason@),
            CommandStatus::Exited(false) => fails(next, "failed to upload image with scp"@),
            CommandStatus::Exited(true) => if source.remove_after_upload {
                next == (UploadStep::Remove { path: source.local_path, remote_path: p })
            } else {
                shows(args, next, p@)
            },
        },
        (UploadStep::Remove { remote_path, .. }, UploadEvent::Removed) => shows(args, next, remote_path@),
        (UploadStep::Print { .. }, UploadEvent::Shown) => next matches UploadStep::Finished(Ok(_)),
        (UploadStep::Copy { .. }, UploadEvent::Shown) => next matches UploadStep::Finished(Ok(_)),
        _ => next == step,
    }
}

/// The image file that the text on the clipboard names, if there is a text and it names one.
pub open spec fn named_image(text: Option<String>, host: Host) -> Option<PathFacts> {
    match text {
        Some(t) => image::image_path(t@, host),
        None => None,
    }
}

/// An upload under way.
#[derive(Debug)]
pub struct UploadSession {
    args: Args,
    step: UploadStep,
}

fn enter_dir(dir: String) -> (r: UploadStep)
    ensures
        dir_known(r, dir@),
{
    let chars = chars_of(dir.as_str());
    if absolute(&chars) {
        UploadStep::ReadText { remote_dir: dir }
    } else {
        UploadStep::Finished(Err("remote image directory must be absolute".to_owned()))
    }
}

fn probe(
    args: &Args,
    remote_dir: String,
    source: ClipboardImageSource,
    timestamp: String,
    suffix: u32,
) -> (r: UploadStep)
    ensures
        probes(*args, r, remote_dir@, source, timestamp@, suffix),
{
    let candidate = candidate_path(
        remote_dir.as_str(),
        timestamp.as_str(),
        source.extension,
        suffix,
    );
    let command = remote_path_exists(args.remote.as_str(), candidate.as_str());
    UploadStep::Probe { remote_dir, source, timestamp, suffix, command }
}

fn show(args: &Args, remote_path: &str) -> (r: UploadStep)
    ensures
        shows(*args, r, remote_path@),
{
    let text = image_markdown(args.number, remote_path);
    match args.mode {
        OutputMode::Stdout => UploadStep::Print { text },
        OutputMode::Clipboard => UploadStep::Copy { text },
    }
}

fn text_image(text: &Option<String>, host: &Host) -> (r: Option<HostPath>)
    ensures
        match r {
            Some(p) => named_image(*text, *host) == Some(p@),
            None => named_image(*text, *host) is None,
        },
{
    match text {
        Some(t) => clipboard_text_image_path(t.as_str(), host),
        None => None,
    }
}

impl UploadSession {
    /// What the upload was asked to do.
    pub closed spec fn asked(self) -> Args {
        self.args
    }

    /// The next thing to do.
    pub closed spec fn at(self) -> UploadStep {
        self.step
    }

    /// An upload at its start.
    pub fn start(args: Args) -> (r: UploadSession)
        ensures
            r.asked() == args,
            first_step(args, r.at()),
    {
        let step = match &args.remote_dir {
            Some(dir) => enter_dir(dir.clone()),
            None => UploadStep::QueryHome { command: remote_home(args.remote.as_str()) },
        };
        UploadSession { args, step }
    }

    /// The next thing to do.
    pub fn step(&self) -> (r: &UploadStep)
        ensures
            *r == self.at(),
    {
        &self.step
    }

    /// Takes in what has come of the step.
    pub fn advance(self, event: UploadEvent) -> (r: UploadSession)
        ensures
            r.asked() == self.asked(),
            upload_step(self.asked(), self.at(), event, r.at()),
    {
        let UploadSession { args, step } = self;
        let next: UploadStep = match (step, event) {
            (UploadStep::QueryHome { command: _ }, UploadEvent::Output(output)) => {
                match read_remote_home(&output) {
                    Ok(home) => enter_dir(default_image_dir(home.as_str())),
                    Err(error) => UploadStep::Finished(Err(error)),
                }
            },
            (UploadStep::ReadText { remote_dir }, UploadEvent::Text { text, host }) => {
                match text_image(&text, &host) {
                    Some(file) => UploadStep::CheckFile { remote_dir, file },
                    None => UploadStep::ReadImage { remote_dir },
                }
            },
            (UploadStep::CheckFile { remote_dir, file }, UploadEvent::IsFile(is_file)) => {
                if is_file {
                    UploadStep::ReadClock { remote_dir, source: file_source(file) }
                } else {
                    UploadStep::ReadImage { remote_dir }
                }
            },
            (UploadStep::ReadImage { remote_dir }, UploadEvent::Image { png, place, pid, time }) => {
                match png {
                    Some(bytes) => {
                        let path = temporary_image_path(&place, pid, &time);
                        UploadStep::WriteTemporary { remote_dir, path, bytes }
                    },
                    None => UploadStep::Finished(Err("no image found in clipboard".to_owned())),
                }
            },
            (UploadStep::WriteTemporary { remote_dir, path, bytes: _ }, UploadEvent::Written(result)) => {
                match result {
                    Ok(_) => UploadStep::ReadClock { remote_dir, source: temporary_source(path) },
                    Err(reason) => UploadStep::Finished(
                        Err("failed to write temp image: ".to_owned().concat(reason.as_str())),
                    ),
                }
            },
            (UploadStep::ReadClock { remote_dir, source }, UploadEvent::Clock(time)) => {
                let text = time.hyphenated_text();
                let timestamp = "image-".to_owned().concat(text.as_str());
                probe(&args, remote_dir, source, timestamp, 0)
            },
            (
                UploadStep::Probe { remote_dir, source, timestamp, suffix, command: _ },
                UploadEvent::Status(status),
            ) => {
                let outcome = allocate_remote_path(
                    remote_dir.as_str(),
                    timestamp.as_str(),
                    source.extension,
                    suffix,
                    &status,
                );
                match outcome {
                    Allocation::Allocated(remote_path) => {
                        let command = create_remote_dir(args.remote.as_str(), remote_dir.as_str());
                        UploadStep::MakeDir { source, remote_path, command }
                    },
                    Allocation::Next(tried) => probe(&args, remote_dir, source, timestamp, tried),
                    Allocation::Failed(error) => UploadStep::Finished(Err(error)),
                }
            },
            (UploadStep::MakeDir { source, remote_path, command: _ }, UploadEvent::Status(status)) => {
                match remote_dir_created(&status) {
                    Ok(_) => {
                        let command = upload_file(
                            args.remote.as_str(),
                            source.local_path.as_str(),
                            remote_path.as_str(),
                        );
                        UploadStep::Upload { source, remote_path, command }
                    },
                    Err(error) => UploadStep::Finished(Err(error)),
                }
            },
            (UploadStep::Upload { source, remote_path, command: _ }, UploadEvent::Status(status)) => {
                match file_uploaded(&status) {
                    Ok(_) => {
                        if source.remove_after_upload {
                            UploadStep::Remove { path: source.local_path, remote_path }
                        } else {
                            show(&args, remote_path.as_str())
                        }
                    },
                    Err(error) => UploadStep::Finished(Err(error)),
                }
            },
            (UploadStep::Remove { path: _, remote_path }, UploadEvent::Removed) => show(
                &args,
                remote_path.as_str(),
            ),
            (UploadStep::Print { text: _ }, UploadEvent::Shown) => UploadStep::Finished(Ok(())),
            (UploadStep::Copy { text: _ }, UploadEvent::Shown) => UploadStep::Finished(Ok(())),
            (step, _) => step,
        };
        UploadSession { args, step: next }
    }
}

/// The remote directory of a step, once it is known and as long as it is needed, is absolute.
pub open spec fn dir_is_absolute(step: UploadStep) -> bool {
    match step {
        UploadStep::ReadText { remote_dir } => path::is_absolute(remote_dir@),
        UploadStep::CheckFile { remote_dir, .. } => path::is_absolute(remote_dir@),
        UploadStep::ReadImage { remote_dir } => path::is_absolute(remote_dir@),
        UploadStep::WriteTemporary { remote_dir, .. } => path::is_absolute(remote_dir@),
        UploadStep::ReadClock { remote_dir, .. } => path::is_absolute(remote_dir@),
        UploadStep::Probe { remote_dir, .. } => path::is_absolute(remote_dir@),
        UploadStep::MakeDir { remote_path, .. } => path::is_absolute(remote_path@),
        UploadStep::Upload { remote_path, .. } => path::is_absolute(remote_path@),
        UploadStep::Remove { remote_path, .. } => path::is_absolute(remote_path@),
        _ => true,
    }
}

/// From the first step on, the remote directory and the path under it are absolute.
pub proof fn law_remote_paths_are_absolute(args: Args, step: UploadStep, event: UploadEvent, next: UploadStep)
    ensures
        first_step(args, next) ==> dir_is_absolute(next),
        dir_is_absolute(step) && upload_step(args, step, event, next) ==> dir_is_absolute(next),
{
    if let UploadStep::Probe { remote_dir, source, timestamp, suffix, .. } = step {
        if path::is_absolute(remote_dir@) {
            remote::law_candidate_is_absolute(remote_dir@, timestamp@, source.extension@, suffix as nat);
        }
    }
}

/// The source of a step is one that the session may remove only if it wrote it.
pub open spec fn source_of(step: UploadStep) -> Option<ClipboardImageSource> {
    match step {
        UploadStep::ReadClock { source, .. } => Some(source),
        UploadStep::Probe { source, .. } => Some(source),
        UploadStep::MakeDir { source, .. } => Some(source),
        UploadStep::Upload { source, .. } => Some(source),
        _ => None,
    }
}

/// No file is removed but the one that the upload has written: a file is removed only when its
/// source says so, a source says so only of a file just written, and no step between changes the
/// source.
pub proof fn law_only_own_files_are_removed(args: Args, step: UploadStep, event: UploadEvent, next: UploadStep)
    requires
        upload_step(args, step, event, next),
        next != step,
    ensures
        next matches UploadStep::Remove { path, .. } ==> (step matches UploadStep::Upload { source, .. }
            && source.remove_after_upload && source.local_path == path),
        source_of(next) matches Some(new) ==> match source_of(step) {
            Some(known) => new == known,
            None => new.remove_after_upload ==> (step matches UploadStep::WriteTemporary { path, .. }
                && path@ == new.local_path@),
        },
{
}

/// A path is uploaded to only after it was found free, and is then that very path.
pub proof fn law_upload_goes_to_a_free_path(args: Args, step: UploadStep, event: UploadEvent, next: UploadStep)
    requires
        upload_step(args, step, event, next),
        next != step,
    ensures
        next matches UploadStep::MakeDir { remote_path, .. } ==> (step matches UploadStep::Probe {
            remote_dir,
            source,
            timestamp,
            suffix,
            ..
        } && event == UploadEvent::Status(CommandStatus::Exited(false)) && remote_path@ == remote::nth_path(
            remote_dir@,
            timestamp@,
            source.extension@,
            suffix as nat,
        )),
        next matches UploadStep::Upload { remote_path, .. } ==> (step matches UploadStep::MakeDir {
            remote_path: made,
            ..
        } && remote_path == made),
{
}

/// The link is shown only after the image was copied, and links to where it was copied.
pub proof fn law_link_is_shown_after_upload(args: Args, step: UploadStep, event: UploadEvent, next: UploadStep)
    requires
        upload_step(args, step, event, next),
        next != step,
        next is Print || next is Copy,
    ensures
        match step {
            UploadStep::Upload { remote_path, .. } => event == UploadEvent::Status(CommandStatus::Exited(true))
                && shows(args, next, remote_path@),
            UploadStep::Remove { remote_path, .. } => shows(args, next, remote_path@),
            _ => false,
        },
{
}

/// An upload that has ended stays so, with the same outcome.
pub proof fn law_finished_stays(
    args: Args,
    outcome: Result<(), String>,
    event: UploadEvent,
    next: UploadStep,
)
    requires
        upload_step(args, UploadStep::Finished(outcome), event, next),
    ensures
        next == UploadStep::Finished(outcome),
{
}

/// The steps of an upload from its start, with what came of each.
pub open spec fn is_run(args: Args, steps: Seq<UploadStep>, events: Seq<UploadEvent>) -> bool {
    &&& steps.len() == events.len() + 1
    &&& first_step(args, steps[0])
    &&& forall|i: int|
        #![trigger events[i]]
        0 <= i < events.len() ==> upload_step(args, steps[i], events[i], steps[i + 1])
}

/// One of the first `k` steps writes a temporary file at this path.
pub open spec fn wrote(steps: Seq<UploadStep>, k: int, p: Seq<char>) -> bool {
    exists|j: int| 0 <= j < k && (#[trigger] steps[j] matches UploadStep::WriteTemporary { path, .. } && path@ == p)
}

/// Throughout an upload remote paths are absolute, and a file that it removes it has written
/// before.
pub proof fn law_run_is_sound(args: Args, steps: Seq<UploadStep>, events: Seq<UploadEvent>, k: int)
    requires
        is_run(args, steps, events),
        0 <= k < steps.len(),
    ensures
        dir_is_absolute(steps[k]),
        steps[k] matches UploadStep::Remove { path, .. } ==> wrote(steps, k, path@),
        source_of(steps[k]) matches Some(source) ==> (source.remove_after_upload ==> wrote(
            steps,
            k,
            source.local_path@,
        )),
    decreases k,
{
    if k == 0 {
        law_remote_paths_are_absolute(args, steps[0], UploadEvent::Shown, steps[0]);
    } else {
        law_run_is_sound(args, steps, events, k - 1);
        let before = steps[k - 1];
        let event = events[k - 1];
        assert(upload_step(args, before, event, steps[k]));
        law_remote_paths_are_absolute(args, before, event, steps[k]);
        assert forall|p: Seq<char>| wrote(steps, k - 1, p) implies wrote(steps, k, p) by {
            let j = choose|j: int|
                0 <= j < k - 1 && (#[trigger] steps[j] matches UploadStep::WriteTemporary { path, .. } && path@ == p);
            assert(steps[j] is WriteTemporary);
        }
        if steps[k] != before {
            law_only_own_files_are_removed(args, before, event, steps[k]);
            if let UploadStep::WriteTemporary { path, .. } = before {
                assert(wrote(steps, k, path@));
            }
        }
    }
}

/// Step `k` has made, on the remote machine, the directory that the path lies in.
pub open spec fn dir_made(args: Args, steps: Seq<UploadStep>, events: Seq<UploadEvent>, k: int, path: Seq<char>) -> bool {
    &&& makes_dir(args, steps[k], path)
    &&& events[k] == UploadEvent::Status(CommandStatus::Exited(true))
}

/// The step makes the directory that the path lies in.
pub open spec fn makes_dir(args: Args, step: UploadStep, path: Seq<char>) -> bool {
    exists|dir: Seq<char>, name: Seq<char>|
        {
            &&& path == #[trigger] in_dir(dir, name)
            &&& step matches UploadStep::MakeDir { remote_path, command, .. }
            &&& remote_path@ == path
            &&& command.runs(
                "ssh"@,
                remote::ssh_args(args.remote@, "mkdir -p -- "@ + remote::quoted(dir)),
            )
        }
}

/// The path of the file of this name in a remote directory.
pub open spec fn in_dir(dir: Seq<char>, name: Seq<char>) -> Seq<char> {
    text::trim_end_char(dir, '/') + "/"@ + name
}

/// The step copies an image to the path.
pub open spec fn copies(args: Args, step: UploadStep, path: Seq<char>) -> bool {
    &&& step matches UploadStep::Upload { source, remote_path, command }
    &&& remote_path@ == path
    &&& command.runs("scp"@, remote::scp_args(args.remote@, source.local_path@, path))
}

/// Step `k` has copied an image to the path.
pub open spec fn copied(args: Args, steps: Seq<UploadStep>, events: Seq<UploadEvent>, k: int, path: Seq<char>) -> bool {
    &&& copies(args, steps[k], path)
    &&& events[k] == UploadEvent::Status(CommandStatus::Exited(true))
}

/// Step `k` has shown a link.
pub open spec fn link_shown(steps: Seq<UploadStep>, events: Seq<UploadEvent>, k: int) -> bool {
    (steps[k] is Print || steps[k] is Copy) && events[k] is Shown
}

/// The steps that led to a step of a run: where the directory was made, where the image was
/// copied, where the link was shown, and the path of the image.
struct Course {
    made: int,
    copied: int,
    shown: int,
    path: Seq<char>,
}

spec fn course_leads_to(
    args: Args,
    steps: Seq<UploadStep>,
    events: Seq<UploadEvent>,
    c: Course,
    k: int,
) -> bool {
    let made = 0 <= c.made < k && dir_made(args, steps, events, c.made, c.path);
    let was_copied = made && c.made < c.copied < k && copied(args, steps, events, c.copied, c.path);
    match steps[k] {
        UploadStep::MakeDir { .. } => makes_dir(args, steps[k], c.path),
        UploadStep::Upload { .. } => made && copies(args, steps[k], c.path),
        UploadStep::Remove { remote_path, .. } => was_copied && remote_path@ == c.path,
        UploadStep::Print { .. } => was_copied && shows(args, steps[k], c.path),
        UploadStep::Copy { .. } => was_copied && shows(args, steps[k], c.path),
        UploadStep::Finished(Ok(_)) => {
            &&& was_copied
            &&& c.copied < c.shown < k
            &&& shows(args, steps[c.shown], c.path)
            &&& link_shown(steps, events, c.shown)
        },
        _ => true,
    }
}

proof fn lemma_course(args: Args, steps: Seq<UploadStep>, events: Seq<UploadEvent>, k: int) -> (c: Course)
    requires
        is_run(args, steps, events),
        0 <= k < steps.len(),
    ensures
        course_leads_to(args, steps, events, c, k),
    decreases k,
{
    if k == 0 {
        Course { made: 0, copied: 0, shown: 0, path: Seq::empty() }
    } else {
        let c = lemma_course(args, steps, events, k - 1);
        let before = steps[k - 1];
        let event = events[k - 1];
        let next = steps[k];
        assert(upload_step(args, before, event, next));
        if next == before {
            c
        } else {
            match next {
                UploadStep::MakeDir { remote_path, .. } => {
                    if let UploadStep::Probe { remote_dir, source, timestamp, suffix, .. } = before {
                        let name = remote::nth_name(timestamp@, source.extension@, suffix as nat);
                        assert(remote_path@ == in_dir(remote_dir@, name));
                    }
                    Course { path: remote_path@, ..c }
                },
                UploadStep::Upload { .. } => Course { made: k - 1, ..c },
                UploadStep::Remove { .. } => Course { copied: k - 1, ..c },
                UploadStep::Print { .. } => if before is Upload {
                    Course { copied: k - 1, ..c }
                } else {
                    c
                },
                UploadStep::Copy { .. } => if before is Upload {
                    Course { copied: k - 1, ..c }
                } else {
                    c
                },
                _ => Course { shown: k - 1, ..c },
            }
        }
    }
}

/// Once a link was shown the upload has ended in success.
pub proof fn law_link_ends_the_upload(
    args: Args,
    steps: Seq<UploadStep>,
    events: Seq<UploadEvent>,
    i: int,
    j: int,
)
    requires
        is_run(args, steps, events),
        0 <= i < j < steps.len(),
        link_shown(steps, events, i),
    ensures
        steps[j] matches UploadStep::Finished(Ok(_)),
    decreases j,
{
    assert(upload_step(args, steps[j - 1], events[j - 1], steps[j]));
    if i + 1 < j {
        law_link_ends_the_upload(args, steps, events, i, j - 1);
    }
}

/// An upload that ends in success has shown exactly one link, in the mode asked for, to a path
/// that the image was copied to after the directory for it was made.
pub proof fn law_success_shows_one_link(args: Args, steps: Seq<UploadStep>, events: Seq<UploadEvent>)
    requires
        is_run(args, steps, events),
        steps.last() matches UploadStep::Finished(Ok(_)),
    ensures
        exists|made: int, put: int, shown: int, path: Seq<char>|
            {
                &&& 0 <= made < put < shown < events.len()
                &&& #[trigger] dir_made(args, steps, events, made, path)
                &&& #[trigger] copied(args, steps, events, put, path)
                &&& #[trigger] link_shown(steps, events, shown)
                &&& shows(args, steps[shown], path)
            },
        forall|i: int, j: int|
            0 <= i < events.len() && 0 <= j < events.len() && #[trigger] link_shown(steps, events, i)
                && #[trigger] link_shown(steps, events, j) ==> i == j,
{
    let c = lemma_course(args, steps, events, steps.len() - 1);
    assert(dir_made(args, steps, events, c.made, c.path));
    assert(copied(args, steps, events, c.copied, c.path));
    assert(link_shown(steps, events, c.shown));
    assert forall|i: int, j: int|
        0 <= i < events.len() && 0 <= j < events.len() && #[trigger] link_shown(steps, events, i)
            && #[trigger] link_shown(steps, events, j) implies i == j by {
        if i < j {
            law_link_ends_the_upload(args, steps, events, i, j);
        } else if j < i {
            law_link_ends_the_upload(args, steps, events, j, i);
        }
    }
}

/// The path ends in a dot and this extension.
pub open spec fn ends_in(path: Seq<char>, extension: Seq<char>) -> bool {
    path.len() > extension.len() && path.skip(path.len() - extension.len() - 1) == seq!['.'] + extension
}

/// The step copies, or is to copy, to a path that ends in the extension of its source.
spec fn has_extension_of_source(step: UploadStep) -> bool {
    match step {
        UploadStep::MakeDir { source, remote_path, .. } => ends_in(remote_path@, source.extension@),
        UploadStep::Upload { source, remote_path, .. } => ends_in(remote_path@, source.extension@),
        _ => true,
    }
}

proof fn lemma_path_ends_in(dir: Seq<char>, timestamp: Seq<char>, extension: Seq<char>, n: nat)
    ensures
        ends_in(remote::nth_path(dir, timestamp, extension, n), extension),
{
    reveal_strlit(".");
    let path = remote::nth_path(dir, timestamp, extension, n);
    assert(path.skip(path.len() - extension.len() - 1) =~= seq!['.'] + extension);
}

/// Where the source of a step comes from: a file that is there, or one that was written.
proof fn lemma_source_origin(
    args: Args,
    steps: Seq<UploadStep>,
    events: Seq<UploadEvent>,
    k: int,
    source: ClipboardImageSource,
) -> (i: int)
    requires
        is_run(args, steps, events),
        0 <= k < steps.len(),
        source_of(steps[k]) == Some(source),
    ensures
        0 <= i < k,
        has_extension_of_source(steps[k]),
        match steps[i] {
            UploadStep::CheckFile { file, .. } => events[i] == UploadEvent::IsFile(true) && source.is_file(file@),
            UploadStep::WriteTemporary { path, .. } => events[i] is Written && source.is_temporary(path@),
            _ => false,
        },
    decreases k,
{
    assert(k > 0);
    let before = steps[k - 1];
    assert(upload_step(args, before, events[k - 1], steps[k]));
    if let UploadStep::Probe { remote_dir, source: from, timestamp, suffix, .. } = before {
        lemma_path_ends_in(remote_dir@, timestamp@, from.extension@, suffix as nat);
    }
    if source_of(before) is Some {
        lemma_source_origin(args, steps, events, k - 1, source)
    } else {
        k - 1
    }
}

/// Every image is copied under its own kind: where a file that the clipboard text names is copied,
/// the remote path ends in a dot and what that file's extension is kept as, and where the image on
/// the clipboard is copied, it ends in `.png`.
pub proof fn law_copies_keep_their_kind(
    args: Args,
    steps: Seq<UploadStep>,
    events: Seq<UploadEvent>,
    k: int,
    from: Seq<char>,
    to: Seq<char>,
)
    requires
        is_run(args, steps, events),
        0 <= k < steps.len(),
        steps[k] matches UploadStep::Upload { source, remote_path, .. } && source.local_path@ == from && remote_path@
            == to,
    ensures
        exists|i: int|
            0 <= i < k && match #[trigger] steps[i] {
                UploadStep::CheckFile { file, .. } => {
                    &&& events[i] == UploadEvent::IsFile(true)
                    &&& from == file.text@
                    &&& forall|ext: Seq<char>, kind: Seq<char>|
                        file@.extension == Some(ext) && #[trigger] image::is_kept_as(ext, kind) ==> ends_in(to, kind)
                },
                UploadStep::WriteTemporary { path, .. } => from == path@ && ends_in(to, "png"@),
                _ => false,
            },
{
    let source = source_of(steps[k])->0;
    let i = lemma_source_origin(args, steps, events, k, source);
    if let UploadStep::CheckFile { file, .. } = steps[i] {
        assert forall|ext: Seq<char>, kind: Seq<char>|
            file@.extension == Some(ext) && #[trigger] image::is_kept_as(ext, kind) implies ends_in(to, kind) by {
            image::law_sources_keep_their_kind(source, file@, ext, kind, from);
        }
    }
    assert(steps[i] is CheckFile || steps[i] is WriteTemporary);
}

/// The path under which an image of this time is tried after `n` others.
pub open spec fn image_name(dir: Seq<char>, time: Seq<char>, kind: Seq<char>, n: nat) -> Seq<char> {
    if n == 0 {
        dir + "/image-"@ + time + seq!['.'] + kind
    } else {
        dir + "/image-"@ + time + seq!['-'] + number::decimal(n + 1) + seq!['.'] + kind
    }
}

/// The directory is the base with slashes at its end, or with none.
pub open spec fn is_dir_of(dir: Seq<char>, base: Seq<char>, slashes: Seq<char>) -> bool {
    &&& dir == base + slashes
    &&& dir.len() > 0
    &&& dir[0] == '/'
    &&& base.len() == 0 || base[base.len() - 1] != '/'
    &&& forall|i: int| 0 <= i < slashes.len() ==> slashes[i] == '/'
}

proof fn lemma_image_name(dir: Seq<char>, base: Seq<char>, slashes: Seq<char>, time: Seq<char>, kind: Seq<char>, n: nat)
    requires
        is_dir_of(dir, base, slashes),
    ensures
        remote::nth_path(dir, "image-"@ + time, kind, n) == image_name(base, time, kind, n),
{
    reveal_strlit("image-");
    reveal_strlit("/image-");
    text::law_all_at_the_end_go(base, slashes, '/');
    text::law_end_is_trimmed(base, '/');
    remote::law_names_tried(base, "image-"@ + time, kind, n);
    assert(remote::nth_path(base, "image-"@ + time, kind, n) =~= image_name(base, time, kind, n));
}

/// As long as names are taken, the next ones are tried.
proof fn lemma_probing(
    args: Args,
    steps: Seq<UploadStep>,
    events: Seq<UploadEvent>,
    at: int,
    n: int,
    dir: Seq<char>,
    source: ClipboardImageSource,
    stamp: Seq<char>,
)
    requires
        is_run(args, steps, events),
        0 <= at,
        0 <= n < 1000,
        at + n < steps.len(),
        probes(args, steps[at], dir, source, stamp, 0),
        forall|i: int| at <= i < at + n ==> #[trigger] events[i] == UploadEvent::Status(CommandStatus::Exited(true)),
    ensures
        probes(args, steps[at + n], dir, source, stamp, n as u32),
    decreases n,
{
    if n > 0 {
        lemma_probing(args, steps, events, at, n - 1, dir, source, stamp);
        let i = at + n - 1;
        assert(events[i] == UploadEvent::Status(CommandStatus::Exited(true)));
        assert(upload_step(args, steps[i], events[i], steps[i + 1]));
    }
}

/// The end of an upload: with `n` names taken and the next one free, the directory is made and the
/// image copied.
proof fn lemma_copying(
    args: Args,
    steps: Seq<UploadStep>,
    events: Seq<UploadEvent>,
    at: int,
    n: int,
    dir: Seq<char>,
    source: ClipboardImageSource,
    stamp: Seq<char>,
)
    requires
        is_run(args, steps, events),
        0 <= at,
        0 <= n < 1000,
        at + n + 3 < steps.len(),
        probes(args, steps[at], dir, source, stamp, 0),
        forall|i: int| at <= i < at + n ==> #[trigger] events[i] == UploadEvent::Status(CommandStatus::Exited(true)),
        events[at + n] == UploadEvent::Status(CommandStatus::Exited(false)),
        events[at + n + 1] == UploadEvent::Status(CommandStatus::Exited(true)),
        events[at + n + 2] == UploadEvent::Status(CommandStatus::Exited(true)),
    ensures
        ({
            let path = remote::nth_path(dir, stamp, source.extension@, n as nat);
            &&& steps[at + n] matches UploadStep::Probe { command: asks, .. } && asks.runs(
                "ssh"@,
                remote::ssh_args(args.remote@, "test -e -- "@ + remote::quoted(path)),
            )
            &&& steps[at + n + 1] matches UploadStep::MakeDir { command: makes, .. } && makes.runs(
                "ssh"@,
                remote::ssh_args(args.remote@, "mkdir -p -- "@ + remote::quoted(dir)),
            )
            &&& steps[at + n + 2] matches UploadStep::Upload { command: copies, .. } && copies.runs(
                "scp"@,
                remote::scp_args(args.remote@, source.local_path@, path),
            )
            &&& source.remove_after_upload ==> (steps[at + n + 3] matches UploadStep::Remove {
                path: removed,
                remote_path,
            } && removed == source.local_path && remote_path@ == path)
            &&& !source.remove_after_upload ==> shows(args, steps[at + n + 3], path)
        }),
{
    lemma_probing(args, steps, events, at, n, dir, source, stamp);
    assert(upload_step(args, steps[at + n], events[at + n], steps[at + n + 1]));
    assert(upload_step(args, steps[at + n + 1], events[at + n + 1], steps[at + n + 2]));
    assert(upload_step(args, steps[at + n + 2], events[at + n + 2], steps[at + n + 3]));
}

/// The step shows the link to a path: on standard output or on the clipboard, as asked for.
pub open spec fn is_link_to(args: Args, step: UploadStep, path: Seq<char>) -> bool {
    let link = "[Image #"@ + number::decimal(args.number as nat) + seq![']', '('] + remote::link_target(path) + seq![
        ')',
    ];
    &&& args.mode is Stdout ==> (step matches UploadStep::Print { text } && text@ == link)
    &&& args.mode is Clipboard ==> (step matches UploadStep::Copy { text } && text@ == link)
}

proof fn lemma_shows_link(args: Args, step: UploadStep, path: Seq<char>)
    requires
        shows(args, step, path),
    ensures
        is_link_to(args, step, path),
{
    remote::law_link_shows_the_number(args.number, path);
}

/// A file that the clipboard text names, and that is there, is the source under its own kind.
proof fn lemma_file_is_source(
    args: Args,
    steps: Seq<UploadStep>,
    events: Seq<UploadEvent>,
    o: int,
    dir: String,
    t: String,
    home: Option<String>,
    parent: Seq<char>,
    stem: Seq<char>,
    ext: Seq<char>,
    kind: Seq<char>,
    time: LocalTime,
) -> (source: ClipboardImageSource)
    requires
        is_run(args, steps, events),
        0 <= o,
        o + 3 <= events.len(),
        steps[o] == (UploadStep::ReadText { remote_dir: dir }),
        image::is_rooted_file(t@, parent, stem, ext),
        image::is_kept_as(ext, kind),
        events[o] == (UploadEvent::Text { text: Some(t), host: Host::Posix { home } }),
        events[o + 1] == UploadEvent::IsFile(true),
        events[o + 2] == UploadEvent::Clock(time),
    ensures
        steps[o + 1] matches UploadStep::CheckFile { file, .. } && file.text@ == t@,
        probes(args, steps[o + 3], dir@, source, "image-"@ + time.text(), 0),
        source.local_path@ == t@,
        source.extension@ == kind,
        !source.remove_after_upload,
{
    let none = Seq::<char>::empty();
    let facts = path::posix_facts(t@);
    assert(image::image_path(t@, Host::Posix { home }) == Some(facts)) by {
        image::law_path_names_itself(none, t@, none, parent, stem, ext, home);
    }
    assert(facts.extension == Some(ext)) by {
        image::law_word_extension(t@, parent, stem, ext);
    }
    assert(upload_step(args, steps[o], events[o], steps[o + 1]));
    assert(upload_step(args, steps[o + 1], events[o + 1], steps[o + 2]));
    assert(upload_step(args, steps[o + 2], events[o + 2], steps[o + 3]));
    let source = source_of(steps[o + 2])->0;
    image::law_sources_keep_their_kind(source, facts, ext, kind, none);
    source
}

/// The upload of a file that the clipboard text names, from the reading of the text, which is step
/// `o`, to the link: with `n` names taken, the file is copied under the next one, which says the time and keeps the file's own kind,
/// into the directory that was asked for, and the link leads there.
pub proof fn law_course_of_a_file(
    args: Args,
    steps: Seq<UploadStep>,
    events: Seq<UploadEvent>,
    o: int,
    n: int,
    dir: String,
    base: Seq<char>,
    slashes: Seq<char>,
    t: String,
    home: Option<String>,
    parent: Seq<char>,
    stem: Seq<char>,
    ext: Seq<char>,
    kind: Seq<char>,
    time: LocalTime,
)
    requires
        is_run(args, steps, events),
        0 <= o,
        steps[o] == (UploadStep::ReadText { remote_dir: dir }),
        is_dir_of(dir@, base, slashes),
        0 <= n < 1000,
        o + n + 6 <= events.len(),
        image::is_rooted_file(t@, parent, stem, ext),
        image::is_kept_as(ext, kind),
        events[o] == (UploadEvent::Text { text: Some(t), host: Host::Posix { home } }),
        events[o + 1] == UploadEvent::IsFile(true),
        events[o + 2] == UploadEvent::Clock(time),
        forall|i: int| o + 3 <= i < o + 3 + n ==> #[trigger] events[i] == UploadEvent::Status(CommandStatus::Exited(true)),
        events[o + 3 + n] == UploadEvent::Status(CommandStatus::Exited(false)),
        events[o + 4 + n] == UploadEvent::Status(CommandStatus::Exited(true)),
        events[o + 5 + n] == UploadEvent::Status(CommandStatus::Exited(true)),
    ensures
        ({
            let path = image_name(base, time.text(), kind, n as nat);
            &&& steps[o + 1] matches UploadStep::CheckFile { file, .. } && file.text@ == t@
            &&& steps[o + 3 + n] matches UploadStep::Probe { command: asks, .. } && asks.runs(
                "ssh"@,
                remote::ssh_args(args.remote@, "test -e -- "@ + remote::quoted(path)),
            )
            &&& steps[o + 4 + n] matches UploadStep::MakeDir { command: makes, .. } && makes.runs(
                "ssh"@,
                remote::ssh_args(args.remote@, "mkdir -p -- "@ + remote::quoted(dir@)),
            )
            &&& steps[o + 5 + n] matches UploadStep::Upload { command: copies, .. } && copies.runs(
                "scp"@,
                remote::scp_args(args.remote@, t@, path),
            )
            &&& is_link_to(args, steps[o + 6 + n], path)
        }),
{
    let source = lemma_file_is_source(args, steps, events, o, dir, t, home, parent, stem, ext, kind, time);
    lemma_copying(args, steps, events, o + 3, n, dir@, source, "image-"@ + time.text());
    lemma_image_name(dir@, base, slashes, time.text(), kind, n as nat);
    lemma_shows_link(args, steps[o + 6 + n], image_name(base, time.text(), kind, n as nat));
}

/// The upload of the image on the clipboard, from its reading, which is step `o`, to the link: it is
/// written to a temporary file, copied as a PNG under the first free name, and the
/// temporary file removed before the link is shown.
pub proof fn law_course_of_an_image(
    args: Args,
    steps: Seq<UploadStep>,
    events: Seq<UploadEvent>,
    o: int,
    n: int,
    dir: String,
    base: Seq<char>,
    slashes: Seq<char>,
    png: Vec<u8>,
    place: Place,
    pid: u32,
    written_at: LocalTime,
    time: LocalTime,
)
    requires
        is_run(args, steps, events),
        0 <= o,
        steps[o] == (UploadStep::ReadImage { remote_dir: dir }),
        is_dir_of(dir@, base, slashes),
        0 <= n < 1000,
        o + n + 7 <= events.len(),
        events[o] == (UploadEvent::Image { png: Some(png), place, pid, time: written_at }),
        events[o + 1] matches UploadEvent::Written(Ok(_)),
        events[o + 2] == UploadEvent::Clock(time),
        forall|i: int| o + 3 <= i < o + 3 + n ==> #[trigger] events[i] == UploadEvent::Status(CommandStatus::Exited(true)),
        events[o + 3 + n] == UploadEvent::Status(CommandStatus::Exited(false)),
        events[o + 4 + n] == UploadEvent::Status(CommandStatus::Exited(true)),
        events[o + 5 + n] == UploadEvent::Status(CommandStatus::Exited(true)),
        events[o + 6 + n] is Removed,
    ensures
        ({
            let local = path::path_in(place, image::temporary_name(pid, written_at));
            let path = image_name(base, time.text(), "png"@, n as nat);
            &&& steps[o + 1] matches UploadStep::WriteTemporary { path: written, bytes, .. } && written@ == local && bytes
                == png
            &&& steps[o + 4 + n] matches UploadStep::MakeDir { command: makes, .. } && makes.runs(
                "ssh"@,
                remote::ssh_args(args.remote@, "mkdir -p -- "@ + remote::quoted(dir@)),
            )
            &&& steps[o + 5 + n] matches UploadStep::Upload { command: copies, .. } && copies.runs(
                "scp"@,
                remote::scp_args(args.remote@, local, path),
            )
            &&& steps[o + 6 + n] matches UploadStep::Remove { path: removed, .. } && removed@ == local
            &&& is_link_to(args, steps[o + 7 + n], path)
        }),
{
    assert(upload_step(args, steps[o], events[o], steps[o + 1]));
    assert(upload_step(args, steps[o + 1], events[o + 1], steps[o + 2]));
    assert(upload_step(args, steps[o + 2], events[o + 2], steps[o + 3]));
    let source = source_of(steps[o + 2])->0;
    lemma_copying(args, steps, events, o + 3, n, dir@, source, "image-"@ + time.text());
    lemma_image_name(dir@, base, slashes, time.text(), "png"@, n as nat);
    assert(upload_step(args, steps[o + 6 + n], events[o + 6 + n], steps[o + 7 + n]));
    lemma_shows_link(args, steps[o + 7 + n], image_name(base, time.text(), "png"@, n as nat));
}

/// How an upload starts: a directory that is asked for has to be absolute, and without one the
/// remote home directory is asked for, in which the images go to `.tmp/.zapet/images`.
pub proof fn law_start_of_an_upload(
    args: Args,
    first: UploadStep,
    output: CommandOutput,
    home: Seq<char>,
    message: Seq<char>,
    next: UploadStep,
)
    requires
        first_step(args, first),
        upload_step(args, first, UploadEvent::Output(output), next),
        home.len() > 0,
        home[home.len() - 1] != '/',
    ensures
        args.remote_dir matches Some(dir) ==> if dir@.len() > 0 && dir@[0] == '/' {
            first matches UploadStep::ReadText { remote_dir } && remote_dir@ == dir@
        } else {
            fails(first, "remote image directory must be absolute"@)
        },
        args.remote_dir is None ==> {
            &&& first matches UploadStep::QueryHome { command } && command.runs(
                "ssh"@,
                remote::ssh_args(args.remote@, "printf %s \"$HOME\""@),
            )
            &&& remote::home_of(output) == Ok::<Seq<char>, Seq<char>>(home) && home[0] == '/' ==> (
            next matches UploadStep::ReadText { remote_dir } && remote_dir@ == home + "/.tmp/.zapet/images"@)
            &&& remote::home_of(output) == Ok::<Seq<char>, Seq<char>>(home) && home[0] != '/' ==> fails(
                next,
                "remote image directory must be absolute"@,
            )
            &&& remote::home_of(output) == Err::<Seq<char>, Seq<char>>(message) ==> fails(next, message)
        },
{
    remote::law_images_go_to_the_home_directory(home);
}

/// A text that names no file that is there leads to the image on the clipboard.
pub proof fn law_no_file_leads_to_the_image(
    args: Args,
    dir: String,
    file: HostPath,
    text: String,
    host: Host,
    next: UploadStep,
)
    ensures
        upload_step(
            args,
            UploadStep::CheckFile { remote_dir: dir, file },
            UploadEvent::IsFile(false),
            next,
        ) ==> next == (UploadStep::ReadImage { remote_dir: dir }),
        upload_step(args, UploadStep::ReadText { remote_dir: dir }, UploadEvent::Text { text: None, host }, next)
            ==> next == (UploadStep::ReadImage { remote_dir: dir }),
        image::image_path(text@, host) is None && upload_step(
            args,
            UploadStep::ReadText { remote_dir: dir },
            UploadEvent::Text { text: Some(text), host },
            next,
        ) ==> next == (UploadStep::ReadImage { remote_dir: dir }),
        image::image_path(text@, host) is Some && upload_step(
            args,
            UploadStep::ReadText { remote_dir: dir },
            UploadEvent::Text { text: Some(text), host },
            next,
        ) ==> (next matches UploadStep::CheckFile { remote_dir, file } && remote_dir == dir && image::image_path(
            text@,
            host,
        ) == Some(file@)),
{
}

/// What goes wrong ends the upload, each with its own message; a command that could not be run is
/// told from one that failed.
pub proof fn law_failures_end_the_upload(
    args: Args,
    step: UploadStep,
    reason: String,
    place: Place,
    pid: u32,
    time: LocalTime,
    next: UploadStep,
)
    ensures
        step is ReadImage && upload_step(args, step, UploadEvent::Image { png: None, place, pid, time }, next)
            ==> fails(next, "no image found in clipboard"@),
        step is WriteTemporary && upload_step(args, step, UploadEvent::Written(Err(reason)), next) ==> fails(
            next,
            "failed to write temp image: "@ + reason@,
        ),
        (step is Probe || step is MakeDir) && upload_step(
            args,
            step,
            UploadEvent::Status(CommandStatus::NotRun(reason)),
            next,
        ) ==> fails(next, "failed to run ssh: "@ + reason@),
        step is Upload && upload_step(args, step, UploadEvent::Status(CommandStatus::NotRun(reason)), next)
            ==> fails(next, "failed to run scp: "@ + reason@),
        step is MakeDir && upload_step(args, step, UploadEvent::Status(CommandStatus::Exited(false)), next)
            ==> fails(next, "failed to create remote image directory"@),
        step is Upload && upload_step(args, step, UploadEvent::Status(CommandStatus::Exited(false)), next) ==> fails(
            next,
            "failed to upload image with scp"@,
        ),
        (step matches UploadStep::Probe { suffix, .. } && suffix >= 999) && upload_step(
            args,
            step,
            UploadEvent::Status(CommandStatus::Exited(true)),
            next,
        ) ==> fails(next, "could not allocate remote image filename"@),
        (step is Print || step is Copy) && upload_step(args, step, UploadEvent::Shown, next) ==> (
        next matches UploadStep::Finished(Ok(_))),
{
}

/// Only what comes of a step moves an upload on: anything else leaves it where it is.
pub proof fn law_other_events_change_nothing(args: Args, step: UploadStep, event: UploadEvent, next: UploadStep)
    requires
        upload_step(args, step, event, next),
        step is QueryHome ==> !(event is Output),
        step is ReadText ==> !(event is Text),
        step is CheckFile ==> !(event is IsFile),
        step is ReadImage ==> !(event is Image),
        step is WriteTemporary ==> !(event is Written),
        step is ReadClock ==> !(event is Clock),
        step is Probe || step is MakeDir || step is Upload ==> !(event is Status),
        step is Remove ==> !(event is Removed),
        step is Print || step is Copy ==> !(event is Shown),
    ensures
        next == step,
{
}

} // verus!
