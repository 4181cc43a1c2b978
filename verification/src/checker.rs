//! The release check: what to ask of the releases endpoint, what its reply means, and the states
//! of a check in the background.

use crate::install;
use crate::install::{detect_install_method, InstallMethod};
use crate::number;
use crate::stamp;
use crate::stamp::{should_run_update_check, UtcTime, UPDATE_CHECK_INTERVAL};
use crate::text;
use crate::version;
use crate::version::{is_newer_version, parse_version_from_json};
use vstd::prelude::*;

verus! {

/// The version of this build, the same as in Cargo.toml.
pub const CURRENT_VERSION: &'static str = "0.3.6";

/// The endpoint that lists the latest release.
pub const DEFAULT_RELEASES_URL: &'static str = "https://api.github.com/repos/maddada/gte/releases/latest";

/// A GET request to a releases endpoint.
#[derive(Debug)]
pub struct ReleaseRequest {
    pub url: String,
    /// Names and values of the headers, in order.
    pub headers: Vec<(String, String)>,
    /// Seconds after which the request as a whole is given up.
    pub timeout_secs: u64,
}

impl ReleaseRequest {
    /// This is the request for the latest release at `url`.
    pub open spec fn asks(self, url: Seq<char>) -> bool {
        &&& self.url@ == url
        &&& self.headers@.len() == 2
        &&& self.headers@[0].0@ == "User-Agent"@
        &&& self.headers@[0].1@ == "gte-update-checker"@
        &&& self.headers@[1].0@ == "Accept"@
        &&& self.headers@[1].1@ == "application/vnd.github.v3+json"@
        &&& self.timeout_secs == 15
    }
}

/// The request for the latest release at `url`.
pub fn release_request(url: &str) -> (r: ReleaseRequest)
    ensures
        r.asks(url@),
{
    let mut headers: Vec<(String, String)> = Vec::new();
    headers.push(("User-Agent".to_owned(), "gte-update-checker".to_owned()));
    headers.push(("Accept".to_owned(), "application/vnd.github.v3+json".to_owned()));
    ReleaseRequest { url: url.to_owned(), headers, timeout_secs: 15 }
}

/// What came of a request.
#[derive(Debug)]
pub enum FetchReply {
    /// The request failed, for this reason.
    RequestFailed(String),
    /// The response came, but its body could not be read, for this reason.
    BodyFailed(String),
    /// The body of the response.
    Body(String),
}

/// The latest version by a reply.
pub open spec fn replied_version(reply: FetchReply) -> Result<Seq<char>, Seq<char>> {
    match reply {
        FetchReply::RequestFailed(reason) => Err("HTTP request failed: "@ + reason@),
        FetchReply::BodyFailed(reason) => Err("Failed to read response body: "@ + reason@),
        FetchReply::Body(body) => version::listed_version(body@),
    }
}

/// The latest version by the reply to a `release_request`.
pub fn fetch_latest_version(reply: &FetchReply) -> (r: Result<String, String>)
    ensures
        text::text_result(r) == replied_version(*reply),
{
    match reply {
        FetchReply::RequestFailed(reason) => Err(
            "HTTP request failed: ".to_owned().concat(reason.as_str()),
        ),
        FetchReply::BodyFailed(reason) => Err(
            "Failed to read response body: ".to_owned().concat(reason.as_str()),
        ),
        FetchReply::Body(body) => parse_version_from_json(body.as_str()),
    }
}

/// What a release check found.
#[derive(Debug)]
pub struct ReleaseCheckResult {
    /// The latest version there is.
    pub latest_version: String,
    /// Whether it is newer than this build.
    pub update_available: bool,
    /// How this build was installed.
    pub install_method: InstallMethod,
}

impl Clone for ReleaseCheckResult {
    fn clone(&self) -> (r: Self)
        ensures
            r == *self,
    {
        ReleaseCheckResult {
            latest_version: self.latest_version.clone(),
            update_available: self.update_available,
            install_method: self.install_method,
        }
    }
}

/// What is known of a check that found the version `latest`.
pub open spec fn found(
    result: ReleaseCheckResult,
    latest: Seq<char>,
    exe_path: Option<Seq<char>>,
    os_release: Option<Seq<char>>,
) -> bool {
    &&& result.latest_version@ == latest
    &&& result.update_available == version::newer(CURRENT_VERSION@, latest)
    &&& result.install_method == install::method_of_exe(exe_path, os_release)
}

/// `result` is what a check gives: the failure of the reply, or what was found.
pub open spec fn checked(
    result: Result<ReleaseCheckResult, String>,
    reply: FetchReply,
    exe_path: Option<Seq<char>>,
    os_release: Option<Seq<char>>,
) -> bool {
    match replied_version(reply) {
        Ok(latest) => result matches Ok(check) && found(check, latest, exe_path, os_release),
        Err(error) => result matches Err(e) && e@ == error,
    }
}

/// What a check gives, with the reply to a `release_request`, the path of the running executable
/// and the text of `/etc/os-release`, as far as the two are known.
pub fn check_for_update(reply: &FetchReply, exe_path: Option<&str>, os_release: Option<&str>) -> (r: Result<
    ReleaseCheckResult,
    String,
>)
    ensures
        checked(r, *reply, text::text_option(exe_path), text::text_option(os_release)),
{
    match fetch_latest_version(reply) {
        Ok(latest_version) => {
            let install_method = detect_install_method(exe_path, os_release);
            let update_available = is_newer_version(CURRENT_VERSION, latest_version.as_str());
            Ok(ReleaseCheckResult { latest_version, update_available, install_method })
        },
        Err(error) => Err(error),
    }
}

/// What looking into the channel of a background check yields.
#[derive(Debug)]
pub enum Received {
    /// The result of the check.
    Message(Result<ReleaseCheckResult, String>),
    /// Nothing yet.
    Empty,
    /// Nothing, and nothing will come: the check has ended.
    Disconnected,
}

/// The result that a look into the channel yields.
pub open spec fn polled(received: Received) -> Option<Result<ReleaseCheckResult, String>> {
    match received {
        Received::Message(result) => Some(result),
        Received::Empty => None,
        Received::Disconnected => None,
    }
}

/// The last success after a look into the channel, with `cached` the last one before.
pub open spec fn kept(cached: Option<ReleaseCheckResult>, received: Received) -> Option<ReleaseCheckResult> {
    match received {
        Received::Message(Ok(check)) => Some(check),
        _ => cached,
    }
}

/// A background check of which the result can be asked for once.
#[derive(Debug)]
pub struct UpdateCheckHandle {}

impl UpdateCheckHandle {
    /// The result, if the check has completed; after that the check is given up.
    pub fn try_get_result(self, received: Received) -> (r: Option<Result<ReleaseCheckResult, String>>)
        ensures
            r == polled(received),
    {
        match received {
            Received::Message(result) => Some(result),
            Received::Empty => None,
            Received::Disconnected => None,
        }
    }
}

/// A background check of which the last success is kept.
#[derive(Debug)]
pub struct UpdateChecker {
    last_result: Option<ReleaseCheckResult>,
}

/// Another name of the checker.
pub type PeriodicUpdateChecker = UpdateChecker;

impl UpdateChecker {
    /// The last success.
    pub closed spec fn cached(self) -> Option<ReleaseCheckResult> {
        self.last_result
    }

    /// A checker that has seen no result yet.
    pub fn new() -> (r: UpdateChecker)
        ensures
            r.cached() is None,
    {
        UpdateChecker { last_result: None }
    }

    /// The result that the channel holds, if any. A success is kept, a failure leaves what was
    /// kept.
    pub fn poll_result(&mut self, received: Received) -> (r: Option<Result<ReleaseCheckResult, String>>)
        ensures
            r == polled(received),
            final(self).cached() == kept(old(self).cached(), received),
    {
        match received {
            Received::Message(result) => {
                if let Ok(check) = &result {
                    self.last_result = Some(check.clone());
                }
                Some(result)
            },
            Received::Empty => None,
            Received::Disconnected => None,
        }
    }

    /// The last success.
    pub fn get_cached_result(&self) -> (r: Option<&ReleaseCheckResult>)
        ensures
            match r {
                Some(check) => self.cached() == Some(*check),
                None => self.cached() is None,
            },
    {
        self.last_result.as_ref()
    }

    /// Whether the last success found an update.
    pub fn is_update_available(&self) -> (r: bool)
        ensures
            r == (self.cached() matches Some(check) && check.update_available),
    {
        match &self.last_result {
            Some(check) => check.update_available,
            None => false,
        }
    }

    /// The version that the last success found, if it is an update.
    pub fn latest_version(&self) -> (r: Option<&str>)
        ensures
            r is Some <==> (self.cached() matches Some(check) && check.update_available),
            r matches Some(latest) ==> latest@ == self.cached()->0.latest_version@,
    {
        match &self.last_result {
            Some(check) => if check.update_available {
                Some(check.latest_version.as_str())
            } else {
                None
            },
            None => None,
        }
    }
}

/// What a check in the background has to do next.
#[derive(Debug)]
pub enum CheckAction {
    /// Ask whether this is the first start of the day.
    DailyCheck,
    /// Report the start under this identifier.
    ReportOpen(String),
    /// Read the clock and the stamp file.
    ReadStamp,
    /// Write this into the stamp file.
    WriteStamp(String),
    /// Make this request, and look up where this build is installed.
    Fetch(ReleaseRequest),
    /// Send this result to whoever started the check.
    Send(Result<ReleaseCheckResult, String>),
    /// Nothing.
    Done,
}

/// What came of an action.
#[derive(Debug)]
pub enum CheckEvent {
    /// The identifier to report under, on the first start of the day.
    Daily(Option<String>),
    /// The start was reported.
    Reported,
    /// The time, and what the stamp file holds, if it can be read.
    Stamp { now: UtcTime, content: Option<String> },
    /// The stamp was written, or could not be.
    StampWritten,
    /// The reply, the path of the executable and the text of `/etc/os-release`.
    Fetched { reply: FetchReply, exe_path: Option<String>, os_release: Option<String> },
    /// The result was sent, or nobody was there to take it.
    Sent,
}

/// `next` is what a check of `url` does after `event` came of `action`. An event that does not
/// belong to the action changes nothing.
pub open spec fn check_step(
    url: Seq<char>,
    interval: nat,
    action: CheckAction,
    event: CheckEvent,
    next: CheckAction,
) -> bool {
    match (action, event) {
        (CheckAction::DailyCheck, CheckEvent::Daily(Some(id))) => next == CheckAction::ReportOpen(id),
        (CheckAction::DailyCheck, CheckEvent::Daily(None)) => next is ReadStamp,
        (CheckAction::ReportOpen(_), CheckEvent::Reported) => next is ReadStamp,
        (CheckAction::ReadStamp, CheckEvent::Stamp { now, content }) => if stamp::check_due(
            now.moment(),
            text::string_option(content),
            interval,
        ) {
            &&& next matches CheckAction::WriteStamp(text)
            &&& text@ == stamp::rfc3339_text(now.moment().0, now.moment().1)
            &&& stamp::four_digit_year(now.moment().0) ==> stamp::last_check(Some(text@)) == Some(now.moment())
        } else {
            next is Done
        },
        (CheckAction::WriteStamp(_), CheckEvent::StampWritten) => next matches CheckAction::Fetch(request)
            && request.asks(url),
        (CheckAction::Fetch(_), CheckEvent::Fetched { reply, exe_path, os_release }) => next matches CheckAction::Send(
            result,
        ) && checked(result, reply, text::string_option(exe_path), text::string_option(os_release)),
        (CheckAction::Send(_), CheckEvent::Sent) => next is Done,
        _ => next == action,
    }
}

/// A check in the background.
#[derive(Debug)]
pub struct UpdateTask {
    url: String,
    interval: u128,
    pending: CheckAction,
}

impl UpdateTask {
    /// The endpoint that is asked.
    pub closed spec fn url(self) -> Seq<char> {
        self.url@
    }

    /// Nanoseconds between two checks.
    pub closed spec fn interval(self) -> nat {
        self.interval as nat
    }

    /// What is to be done next.
    pub closed spec fn next(self) -> CheckAction {
        self.pending
    }

    /// A check at its start.
    pub fn new(releases_url: &str, interval: u128) -> (r: UpdateTask)
        ensures
            r.url() == releases_url@,
            r.interval() == interval,
            r.next() is DailyCheck,
    {
        UpdateTask { url: releases_url.to_owned(), interval, pending: CheckAction::DailyCheck }
    }

    /// What is to be done next.
    pub fn pending(&self) -> (r: &CheckAction)
        ensures
            *r == self.next(),
    {
        &self.pending
    }

    /// Takes in what came of the pending action.
    pub fn advance(&mut self, event: CheckEvent)
        ensures
            final(self).url() == old(self).url(),
            final(self).interval() == old(self).interval(),
            check_step(old(self).url(), old(self).interval(), old(self).next(), event, final(self).next()),
    {
        let next: Option<CheckAction> = match (&self.pending, event) {
            (CheckAction::DailyCheck, CheckEvent::Daily(Some(id))) => Some(CheckAction::ReportOpen(id)),
            (CheckAction::DailyCheck, CheckEvent::Daily(None)) => Some(CheckAction::ReadStamp),
            (CheckAction::ReportOpen(_), CheckEvent::Reported) => Some(CheckAction::ReadStamp),
            (CheckAction::ReadStamp, CheckEvent::Stamp { now, content }) => {
                let mut stamp = content;
                if should_run_update_check(&now, &mut stamp, self.interval) {
                    match stamp {
                        Some(text) => Some(CheckAction::WriteStamp(text)),
                        None => None,
                    }
                } else {
                    Some(CheckAction::Done)
                }
            },
            (CheckAction::WriteStamp(_), CheckEvent::StampWritten) => Some(
                CheckAction::Fetch(release_request(self.url.as_str())),
            ),
            (CheckAction::Fetch(_), CheckEvent::Fetched { reply, exe_path, os_release }) => {
                let exe = match &exe_path {
                    Some(s) => Some(s.as_str()),
                    None => None,
                };
                let os = match &os_release {
                    Some(s) => Some(s.as_str()),
                    None => None,
                };
                Some(CheckAction::Send(check_for_update(&reply, exe, os)))
            },
            (CheckAction::Send(_), CheckEvent::Sent) => Some(CheckAction::Done),
            _ => None,
        };
        if let Some(action) = next {
            self.pending = action;
        }
    }
}

/// Starts a check of which the result is asked for once.
pub fn start_update_check(releases_url: &str) -> (r: (UpdateCheckHandle, UpdateTask))
    ensures
        r.1.url() == releases_url@,
        r.1.interval() == UPDATE_CHECK_INTERVAL,
        r.1.next() is DailyCheck,
{
    (UpdateCheckHandle {  }, UpdateTask::new(releases_url, UPDATE_CHECK_INTERVAL))
}

/// Starts a check of which the last success is kept.
pub fn start_periodic_update_check(releases_url: &str) -> (r: (UpdateChecker, UpdateTask))
    ensures
        r.0.cached() is None,
        r.1.url() == releases_url@,
        r.1.interval() == UPDATE_CHECK_INTERVAL,
        r.1.next() is DailyCheck,
{
    start_periodic_update_check_with_interval(releases_url, UPDATE_CHECK_INTERVAL)
}

/// Starts a check that may be repeated after `interval` nanoseconds.
pub fn start_periodic_update_check_with_interval(releases_url: &str, interval: u128) -> (r: (
    UpdateChecker,
    UpdateTask,
))
    ensures
        r.0.cached() is None,
        r.1.url() == releases_url@,
        r.1.interval() == interval,
        r.1.next() is DailyCheck,
{
    (UpdateChecker::new(), UpdateTask::new(releases_url, interval))
}

/// A check that is not due ends without a request and without a result.
pub proof fn law_no_request_unless_due(
    url: Seq<char>,
    interval: nat,
    now: UtcTime,
    content: Option<String>,
    next: CheckAction,
)
    requires
        check_step(url, interval, CheckAction::ReadStamp, CheckEvent::Stamp { now, content }, next),
        !stamp::check_due(now.moment(), text::string_option(content), interval),
    ensures
        next is Done,
{
}

/// A check that finds the stamp of another one runs exactly when the interval has passed between
/// the two. Dates after the year 9999 are written in a way that no stamp is read in.
pub proof fn law_checks_keep_the_interval(
    url: Seq<char>,
    interval: nat,
    then: UtcTime,
    content: Option<String>,
    written: String,
    now: UtcTime,
    next: CheckAction,
)
    requires
        stamp::four_digit_year(then.moment().0),
        check_step(
            url,
            interval,
            CheckAction::ReadStamp,
            CheckEvent::Stamp { now: then, content },
            CheckAction::WriteStamp(written),
        ),
        check_step(
            url,
            interval,
            CheckAction::ReadStamp,
            CheckEvent::Stamp { now, content: Some(written) },
            next,
        ),
    ensures
        stamp::nanos_between(now.moment(), then.moment()) >= interval ==> next is WriteStamp,
        stamp::nanos_between(now.moment(), then.moment()) < interval ==> next is Done,
{
}

/// A check that has ended stays so.
pub proof fn law_done_stays(url: Seq<char>, interval: nat, event: CheckEvent, next: CheckAction)
    requires
        check_step(url, interval, CheckAction::Done, event, next),
    ensures
        next is Done,
{
}

/// A request is made only after a stamp was written, and a stamp is written only when a check is
/// due.
pub proof fn law_request_follows_stamp(
    url: Seq<char>,
    interval: nat,
    action: CheckAction,
    event: CheckEvent,
    next: CheckAction,
)
    requires
        check_step(url, interval, action, event, next),
    ensures
        next is Fetch ==> action is Fetch || action is WriteStamp && event is StampWritten,
        next is WriteStamp ==> action is WriteStamp || action is ReadStamp && (event matches CheckEvent::Stamp {
            now,
            content,
        } && stamp::check_due(now.moment(), text::string_option(content), interval)),
        next is Send ==> action is Send || action is Fetch && event is Fetched,
{
}

/// The actions of a check from its start, with what came of each.
pub open spec fn is_check(
    url: Seq<char>,
    interval: nat,
    actions: Seq<CheckAction>,
    events: Seq<CheckEvent>,
) -> bool {
    &&& actions.len() == events.len() + 1
    &&& actions[0] is DailyCheck
    &&& forall|i: int|
        #![trigger events[i]]
        0 <= i < events.len() ==> check_step(url, interval, actions[i], events[i], actions[i + 1])
}

/// Among the first `k` events is a stamp by which a check is due.
pub open spec fn found_due(events: Seq<CheckEvent>, k: int, interval: nat) -> bool {
    exists|j: int|
        0 <= j < k && (#[trigger] events[j] matches CheckEvent::Stamp { now, content } && stamp::check_due(
            now.moment(),
            text::string_option(content),
            interval,
        ))
}

/// Throughout a check nothing is requested, and no result is sent, unless the stamp was found to
/// be old enough.
pub proof fn law_check_asks_only_when_due(
    url: Seq<char>,
    interval: nat,
    actions: Seq<CheckAction>,
    events: Seq<CheckEvent>,
    k: int,
)
    requires
        is_check(url, interval, actions, events),
        0 <= k < actions.len(),
    ensures
        actions[k] is WriteStamp || actions[k] is Fetch || actions[k] is Send ==> found_due(
            events,
            k,
            interval,
        ),
    decreases k,
{
    if k > 0 {
        law_check_asks_only_when_due(url, interval, actions, events, k - 1);
        let event = events[k - 1];
        assert(check_step(url, interval, actions[k - 1], event, actions[k]));
        law_request_follows_stamp(url, interval, actions[k - 1], event, actions[k]);
        if found_due(events, k - 1, interval) {
            let j = choose|j: int|
                0 <= j < k - 1 && (#[trigger] events[j] matches CheckEvent::Stamp { now, content }
                    && stamp::check_due(now.moment(), text::string_option(content), interval));
            assert(events[j] is Stamp);
        }
    }
}

/// A check sends a single result: once it is sent the check has ended.
pub proof fn law_check_sends_one_result(
    url: Seq<char>,
    interval: nat,
    actions: Seq<CheckAction>,
    events: Seq<CheckEvent>,
    i: int,
    j: int,
)
    requires
        is_check(url, interval, actions, events),
        0 <= i < j < actions.len(),
        actions[i] is Send,
        events[i] is Sent,
    ensures
        actions[j] is Done,
    decreases j,
{
    assert(check_step(url, interval, actions[j - 1], events[j - 1], actions[j]));
    if i + 1 < j {
        law_check_sends_one_result(url, interval, actions, events, i, j - 1);
    }
}

/// The results that the first `k` events of a check have put into its channel.
pub open spec fn sent(actions: Seq<CheckAction>, events: Seq<CheckEvent>, k: nat) -> Seq<
    Result<ReleaseCheckResult, String>,
>
    decreases k,
{
    if k == 0 {
        Seq::empty()
    } else {
        let before = sent(actions, events, (k - 1) as nat);
        match (actions[k - 1], events[k - 1]) {
            (CheckAction::Send(result), CheckEvent::Sent) => before.push(result),
            _ => before,
        }
    }
}

/// The results that the first `k` looks into a channel have taken out of it.
pub open spec fn taken(received: Seq<Received>, k: nat) -> Seq<Result<ReleaseCheckResult, String>>
    decreases k,
{
    if k == 0 {
        Seq::empty()
    } else {
        let before = taken(received, (k - 1) as nat);
        match received[k - 1] {
            Received::Message(result) => before.push(result),
            _ => before,
        }
    }
}

/// What a channel yields is what was put into it, each result once and in order, as far as it has
/// been taken out.
pub open spec fn is_channel(
    actions: Seq<CheckAction>,
    events: Seq<CheckEvent>,
    received: Seq<Received>,
) -> bool {
    taken(received, received.len()).is_prefix_of(sent(actions, events, events.len()))
}

/// The last success of a checker before each of its looks into the channel, and at the end.
pub open spec fn is_polling(cached: Seq<Option<ReleaseCheckResult>>, received: Seq<Received>) -> bool {
    &&& cached.len() == received.len() + 1
    &&& cached[0] is None
    &&& forall|i: int|
        #![trigger received[i]]
        0 <= i < received.len() ==> cached[i + 1] == kept(cached[i], received[i])
}

proof fn lemma_sent_at_most_one(
    url: Seq<char>,
    interval: nat,
    actions: Seq<CheckAction>,
    events: Seq<CheckEvent>,
    k: nat,
)
    requires
        is_check(url, interval, actions, events),
        k <= events.len(),
    ensures
        sent(actions, events, k).len() <= 1,
        sent(actions, events, k).len() == 1 ==> actions[k as int] is Done,
    decreases k,
{
    if k > 0 {
        lemma_sent_at_most_one(url, interval, actions, events, (k - 1) as nat);
        assert(check_step(url, interval, actions[k - 1], events[k - 1], actions[k as int]));
    }
}

proof fn lemma_taken_grows(received: Seq<Received>, j: nat, k: nat)
    requires
        j <= k,
    ensures
        taken(received, j).len() <= taken(received, k).len(),
    decreases k,
{
    if j < k {
        lemma_taken_grows(received, j, (k - 1) as nat);
    }
}

/// Of the polls of a checker at most one gives a result: after it every poll gives none, and
/// leaves the last success as it was. `first` and `later` are two polls, `received` is what they
/// find in the channel of the check.
pub proof fn law_one_poll_gives_a_result(
    url: Seq<char>,
    interval: nat,
    actions: Seq<CheckAction>,
    events: Seq<CheckEvent>,
    received: Seq<Received>,
    cached: Seq<Option<ReleaseCheckResult>>,
    first: int,
    later: int,
)
    requires
        is_check(url, interval, actions, events),
        is_channel(actions, events, received),
        is_polling(cached, received),
        0 <= first < later < received.len(),
        polled(received[first]) is Some,
    ensures
        polled(received[later]) is None,
        cached[later + 1] == cached[first + 1],
    decreases later,
{
    lemma_sent_at_most_one(url, interval, actions, events, events.len());
    lemma_taken_grows(received, (first + 1) as nat, later as nat);
    lemma_taken_grows(received, (later + 1) as nat, received.len());
    assert(cached[later + 1] == kept(cached[later], received[later]));
    if first + 1 < later {
        law_one_poll_gives_a_result(url, interval, actions, events, received, cached, first, later - 1);
    }
}

/// An update is offered only for a version newer than this build, and never for this build.
pub proof fn law_update_is_newer(
    result: Result<ReleaseCheckResult, String>,
    reply: FetchReply,
    exe_path: Option<Seq<char>>,
    os_release: Option<Seq<char>>,
)
    requires
        checked(result, reply, exe_path, os_release),
    ensures
        result matches Ok(check) ==> (check.update_available <==> version::newer(
            CURRENT_VERSION@,
            check.latest_version@,
        )),
        replied_version(reply) == Ok::<Seq<char>, Seq<char>>(CURRENT_VERSION@) ==> (result matches Ok(check)
            && !check.update_available),
{
    version::law_not_newer_than_itself(CURRENT_VERSION@);
}

/// What a request has come to: its failure and that of its body, each with the reason, or the
/// version that the body lists.
pub proof fn law_replies(reason: String, body: String)
    ensures
        replied_version(FetchReply::RequestFailed(reason)) == Err::<Seq<char>, Seq<char>>(
            "HTTP request failed: "@ + reason@,
        ),
        replied_version(FetchReply::BodyFailed(reason)) == Err::<Seq<char>, Seq<char>>(
            "Failed to read response body: "@ + reason@,
        ),
        replied_version(FetchReply::Body(body)) == version::listed_version(body@),
{
}

/// A check of a release with three numbers offers it as an update exactly when its numbers come
/// after those of this build, which are 0, 3 and 6; it tells the version and how this build was
/// installed.
pub proof fn law_later_release_is_offered(
    result: Result<ReleaseCheckResult, String>,
    body: String,
    x: nat,
    y: nat,
    z: nat,
    exe_path: Option<Seq<char>>,
    os_release: Option<Seq<char>>,
)
    requires
        checked(result, FetchReply::Body(body), exe_path, os_release),
        body@ == "{\"tag_name\": \"v"@ + version::dotted(x, y, z) + "\"}"@,
        x <= u32::MAX && y <= u32::MAX && z <= u32::MAX,
    ensures
        result matches Ok(check) && {
            &&& check.latest_version@ == version::dotted(x, y, z)
            &&& check.update_available <==> x > 0 || x == 0 && (y > 3 || y == 3 && z > 6)
            &&& check.install_method == install::method_of_exe(exe_path, os_release)
        },
{
    let v = version::dotted(x, y, z);
    lemma_dotted_has_no_quote(x, y, z);
    version::law_bare_listing_gives_its_version(v);
    lemma_this_build();
    version::law_versions_go_by_their_numbers(0, 3, 6, Seq::empty(), x, y, z, Seq::empty());
}

proof fn lemma_this_build()
    ensures
        CURRENT_VERSION@ == version::dotted(0, 3, 6),
{
    number::law_decimal_notation(0, 0);
    number::law_decimal_notation(0, 3);
    number::law_decimal_notation(0, 6);
    reveal_strlit("0.3.6");
    assert(CURRENT_VERSION@ =~= version::dotted(0, 3, 6));
}

proof fn lemma_dotted_has_no_quote(x: nat, y: nat, z: nat)
    ensures
        !version::dotted(x, y, z).contains('"'),
{
    let v = version::dotted(x, y, z);
    let (a, b, c) = (number::decimal(x), number::decimal(y), number::decimal(z));
    number::law_decimal_digits(x);
    number::law_decimal_digits(y);
    number::law_decimal_digits(z);
    assert forall|i: int| 0 <= i < v.len() implies v[i] != '"' by {
        if i < a.len() {
            assert('0' <= a[i] <= '9');
        } else if a.len() < i < a.len() + 1 + b.len() {
            assert('0' <= b[i - a.len() - 1] <= '9');
        } else if i > a.len() + 1 + b.len() {
            assert('0' <= c[i - a.len() - b.len() - 2] <= '9');
        }
    }
}

/// A reply that gives no version makes a check that fails for that reason, and one that gives a
/// version makes a check that tells it.
pub proof fn law_reply_is_passed_on(
    result: Result<ReleaseCheckResult, String>,
    reply: FetchReply,
    message: Seq<char>,
    exe_path: Option<Seq<char>>,
    os_release: Option<Seq<char>>,
)
    requires
        checked(result, reply, exe_path, os_release),
    ensures
        replied_version(reply) == Err::<Seq<char>, Seq<char>>(message) ==> (result matches Err(error) && error@
            == message),
        replied_version(reply) == Ok::<Seq<char>, Seq<char>>(message) ==> (result matches Ok(check)
            && check.latest_version@ == message && check.install_method == install::method_of_exe(
            exe_path,
            os_release,
        )),
{
}

/// A result that comes is handed on, and a success is kept; nothing else changes what is kept.
pub proof fn law_success_is_kept(cached: Option<ReleaseCheckResult>, check: ReleaseCheckResult, error: String)
    ensures
        polled(Received::Message(Ok(check))) == Some(Ok::<ReleaseCheckResult, String>(check)),
        polled(Received::Message(Err(error))) == Some(Err::<ReleaseCheckResult, String>(error)),
        polled(Received::Empty) is None,
        polled(Received::Disconnected) is None,
        kept(cached, Received::Message(Ok(check))) == Some(check),
        kept(cached, Received::Message(Err(error))) == cached,
        kept(cached, Received::Empty) == cached,
        kept(cached, Received::Disconnected) == cached,
{
}

/// A check that is due runs through, whether or not the start is reported: it stamps the time,
/// makes the request, and sends what came of it; one that is not due ends at the stamp.
pub proof fn law_course_of_a_check(
    url: Seq<char>,
    interval: nat,
    actions: Seq<CheckAction>,
    events: Seq<CheckEvent>,
    at: int,
    now: UtcTime,
    content: Option<String>,
    reply: FetchReply,
    exe_path: Option<String>,
    os_release: Option<String>,
)
    requires
        is_check(url, interval, actions, events),
        at == 0 || at == 1,
        events.len() == at + 5,
        at == 0 ==> events[0] == CheckEvent::Daily(None),
        at == 1 ==> events[0] is Daily && events[0] != CheckEvent::Daily(None) && events[1] is Reported,
        events[at + 1] == (CheckEvent::Stamp { now, content }),
        events[at + 2] is StampWritten,
        events[at + 3] == (CheckEvent::Fetched { reply, exe_path, os_release }),
        events[at + 4] is Sent,
    ensures
        at == 1 ==> (events[0] matches CheckEvent::Daily(Some(id)) ==> actions[1] == CheckAction::ReportOpen(id)),
        actions[at + 1] is ReadStamp,
        stamp::check_due(now.moment(), text::string_option(content), interval) ==> {
            &&& actions[at + 2] matches CheckAction::WriteStamp(written) && written@ == stamp::rfc3339_text(
                now.moment().0,
                now.moment().1,
            )
            &&& actions[at + 3] matches CheckAction::Fetch(request) && request.url@ == url && request.timeout_secs
                == 15
            &&& actions[at + 4] matches CheckAction::Send(result) && checked(
                result,
                reply,
                text::string_option(exe_path),
                text::string_option(os_release),
            )
            &&& actions[at + 5] is Done
        },
        !stamp::check_due(now.moment(), text::string_option(content), interval) ==> actions[at + 2] is Done
            && actions[at + 5] is Done,
{
    assert(check_step(url, interval, actions[0], events[0], actions[1]));
    if at == 1 {
        assert(check_step(url, interval, actions[1], events[1], actions[2]));
    }
    assert(check_step(url, interval, actions[at + 1], events[at + 1], actions[at + 2]));
    assert(check_step(url, interval, actions[at + 2], events[at + 2], actions[at + 3]));
    assert(check_step(url, interval, actions[at + 3], events[at + 3], actions[at + 4]));
    assert(check_step(url, interval, actions[at + 4], events[at + 4], actions[at + 5]));
}

/// The request is a GET for the address with two headers and fifteen seconds to answer.
pub proof fn law_request(request: ReleaseRequest, url: Seq<char>)
    requires
        request.asks(url),
    ensures
        request.url@ == url,
        request.headers@.len() == 2,
        request.headers@[0].0@ == "User-Agent"@ && request.headers@[0].1@ == "gte-update-checker"@,
        request.headers@[1].0@ == "Accept"@ && request.headers@[1].1@ == "application/vnd.github.v3+json"@,
        request.timeout_secs == 15,
{
}

/// Only what comes of an action moves a check on: anything else leaves it where it is.
pub proof fn law_other_events_change_nothing(
    url: Seq<char>,
    interval: nat,
    action: CheckAction,
    event: CheckEvent,
    next: CheckAction,
)
    requires
        check_step(url, interval, action, event, next),
        action is DailyCheck ==> !(event is Daily),
        action is ReportOpen ==> !(event is Reported),
        action is ReadStamp ==> !(event is Stamp),
        action is WriteStamp ==> !(event is StampWritten),
        action is Fetch ==> !(event is Fetched),
        action is Send ==> !(event is Sent),
    ensures
        next == action,
{
}

} // verus!
