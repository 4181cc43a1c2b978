//! The stamp of the last update check: one check an interval, however often the editor starts.

use crate::path;
use crate::path::join_paths;
use crate::text;
use crate::text::{chars_of, string_of, trimmed};
use chrono::{DateTime, Utc};
use vstd::prelude::*;

verus! {

/// Nanoseconds that have to pass between two update checks: six hours.
pub const UPDATE_CHECK_INTERVAL: u128 = 6 * 60 * 60 * 1_000_000_000;

/// The directory of the stamp file, seen from the data directory.
pub const UPDATE_STAMP_DIR: &'static str = "fresh";

/// The name of the stamp file.
pub const UPDATE_STAMP_FILE_NAME: &'static str = "update_check_stamp";

/// Seconds since the start of 1970 in UTC and nanoseconds into the second name a moment of the
/// calendar that chrono covers. Nanoseconds from a full second on are a leap second, which only
/// follows the last second of a minute.
pub open spec fn is_moment(secs: i64, nanos: u32) -> bool {
    &&& -8_334_601_228_800 <= secs <= 8_210_266_876_799
    &&& nanos < 2_000_000_000
    &&& nanos >= 1_000_000_000 ==> secs % 60 == 59
}

/// The moment lies in one of the years 0 to 9999, which four digits write.
pub open spec fn four_digit_year(secs: i64) -> bool {
    -62_167_219_200 <= secs <= 253_402_300_799
}

/// Nanoseconds from `then` to `now`, of which the leap second that `then` lies in counts in full
/// when `now` is later in its day, and that of `now` does when it is earlier.
pub open spec fn nanos_between(now: (i64, u32), then: (i64, u32)) -> int {
    let day_now = now.0 as int % 86_400;
    let day_then = then.0 as int % 86_400;
    let leap: int = if day_now > day_then && then.1 >= 1_000_000_000 {
        1
    } else if day_now < day_then && now.1 >= 1_000_000_000 {
        -1
    } else {
        0
    };
    (now.0 - then.0 + leap) * 1_000_000_000 + (now.1 - then.1)
}

/// The moment that `DateTime::parse_from_rfc3339` reads out of a text, in UTC.
pub uninterp spec fn rfc3339_moment(text: Seq<char>) -> Option<(i64, u32)>;

/// The text that `DateTime::<Utc>::to_rfc3339` writes for a moment.
pub uninterp spec fn rfc3339_text(secs: i64, nanos: u32) -> Seq<char>;

/// `DateTime::parse_from_rfc3339`: what it accepts is a moment that chrono covers.
#[verifier::external_body]
fn parse_from_rfc3339(text: &str) -> (r: Option<(i64, u32)>)
    ensures
        r == rfc3339_moment(text@),
        r matches Some(m) ==> is_moment(m.0, m.1),
{
    match DateTime::parse_from_rfc3339(text) {
        Ok(moment) => Some((moment.timestamp(), moment.timestamp_subsec_nanos())),
        Err(_) => None,
    }
}

/// `DateTime::<Utc>::to_rfc3339`: the text has no white space at either end, and for a year of
/// four digits `DateTime::parse_from_rfc3339` reads the same moment out of it.
#[verifier::external_body]
fn to_rfc3339(secs: i64, nanos: u32) -> (r: String)
    requires
        is_moment(secs, nanos),
    ensures
        r@ == rfc3339_text(secs, nanos),
        r@.len() > 0 && !text::is_white_space(r@.first()) && !text::is_white_space(r@.last()),
        four_digit_year(secs) ==> rfc3339_moment(r@) == Some((secs, nanos)),
{
    let moment: DateTime<Utc> = DateTime::from_timestamp(secs, nanos).unwrap();
    moment.to_rfc3339()
}

/// `DateTime::signed_duration_since`: the time from `then` to `now` in seconds and nanoseconds,
/// both of the sign of the whole.
#[verifier::external_body]
fn signed_duration_since(now: (i64, u32), then: (i64, u32)) -> (r: (i64, i32))
    requires
        is_moment(now.0, now.1),
        is_moment(then.0, then.1),
    ensures
        r.0 * 1_000_000_000 + r.1 == nanos_between(now, then),
        -1_000_000_000 < r.1 < 1_000_000_000,
        r.0 > 0 ==> r.1 >= 0,
        r.0 < 0 ==> r.1 <= 0,
{
    let now: DateTime<Utc> = DateTime::from_timestamp(now.0, now.1).unwrap();
    let then: DateTime<Utc> = DateTime::from_timestamp(then.0, then.1).unwrap();
    let passed = now.signed_duration_since(then);
    (passed.num_seconds(), passed.subsec_nanos())
}

/// A moment in UTC.
#[derive(Debug, Clone, Copy)]
pub struct UtcTime {
    secs: i64,
    nanos: u32,
}

impl UtcTime {
    #[verifier::type_invariant]
    spec fn covered(self) -> bool {
        is_moment(self.secs, self.nanos)
    }

    /// The moment as seconds since the start of 1970 and nanoseconds.
    pub closed spec fn moment(self) -> (i64, u32) {
        (self.secs, self.nanos)
    }

    /// The moment so many seconds after the start of 1970, and nanoseconds more, if chrono
    /// covers it.
    pub fn new(secs: i64, nanos: u32) -> (r: Option<UtcTime>)
        ensures
            r is Some <==> is_moment(secs, nanos),
            r matches Some(time) ==> time.moment() == (secs, nanos),
    {
        if secs < -8_334_601_228_800 || secs > 8_210_266_876_799 || nanos >= 2_000_000_000 {
            return None;
        }
        if nanos >= 1_000_000_000 {
            let into_minute: i64 = if secs >= 0 {
                secs % 60
            } else {
                (60 - (-secs) % 60) % 60
            };
            if into_minute != 59 {
                return None;
            }
        }
        Some(UtcTime { secs, nanos })
    }
}

/// The directory that the stamp file lies in.
pub open spec fn stamp_dir(data_dir: Seq<char>) -> Seq<char> {
    path::join(data_dir, "fresh"@)
}

/// The directory that has to exist before the stamp is written.
pub fn update_stamp_dir(data_dir: &str) -> (r: String)
    ensures
        r@ == stamp_dir(data_dir@),
{
    join_paths(data_dir, UPDATE_STAMP_DIR)
}

/// The path of the stamp file under the data directory.
pub fn update_stamp_file_path(data_dir: &str) -> (r: String)
    ensures
        r@ == path::join(stamp_dir(data_dir@), "update_check_stamp"@),
{
    let dir = update_stamp_dir(data_dir);
    join_paths(dir.as_str(), UPDATE_STAMP_FILE_NAME)
}

/// The moment of the last check by what the stamp file holds, if it can be read: a date and time
/// of RFC 3339 with any white space around it.
pub open spec fn last_check(stamp: Option<Seq<char>>) -> Option<(i64, u32)> {
    match stamp {
        Some(content) => rfc3339_moment(text::trim(content)),
        None => None,
    }
}

/// A check is due: there is no stamp that can be read, or at least the interval has passed since
/// it. With the clock set back behind the stamp no check is due.
pub open spec fn check_due(now: (i64, u32), stamp: Option<Seq<char>>, interval: nat) -> bool {
    match last_check(stamp) {
        Some(then) => nanos_between(now, then) >= interval,
        None => true,
    }
}

/// Reads the moment of the last check out of what the stamp file holds.
pub fn read_update_stamp_file(content: Option<&str>) -> (r: Option<UtcTime>)
    ensures
        match content {
            Some(text) => match r {
                Some(time) => last_check(Some(text@)) == Some(time.moment()),
                None => last_check(Some(text@)) is None,
            },
            None => r is None,
        },
        r matches Some(time) ==> is_moment(time.moment().0, time.moment().1),
{
    match content {
        Some(text) => {
            let chars = chars_of(text);
            let text = string_of(trimmed(&chars));
            match parse_from_rfc3339(text.as_str()) {
                Some(m) => Some(UtcTime { secs: m.0, nanos: m.1 }),
                None => None,
            }
        },
        None => None,
    }
}

/// What the stamp file holds after a check at the moment `checked_at`.
pub fn write_update_stamp_file(checked_at: &UtcTime) -> (r: String)
    ensures
        r@ == rfc3339_text(checked_at.moment().0, checked_at.moment().1),
        four_digit_year(checked_at.moment().0) ==> last_check(Some(r@)) == Some(checked_at.moment()),
{
    proof {
        use_type_invariant(checked_at);
    }
    let text = to_rfc3339(checked_at.secs, checked_at.nanos);
    proof {
        text::lemma_trim_nothing(text@);
    }
    text
}

/// Whether an update check is to run at the moment `now`, where `stamp` is what the stamp file
/// holds and `interval` the nanoseconds between two checks. A check that is to run leaves its
/// own stamp.
pub fn should_run_update_check(now: &UtcTime, stamp: &mut Option<String>, interval: u128) -> (r: bool)
    ensures
        r == check_due(now.moment(), text::string_option(*old(stamp)), interval as nat),
        !r ==> *final(stamp) == *old(stamp),
        r ==> text::string_option(*final(stamp)) == Some(rfc3339_text(now.moment().0, now.moment().1)),
        r && four_digit_year(now.moment().0) ==> last_check(text::string_option(*final(stamp))) == Some(
            now.moment(),
        ),
{
    let last = match stamp {
        Some(text) => read_update_stamp_file(Some(text.as_str())),
        None => None,
    };
    if let Some(then) = last {
        proof {
            use_type_invariant(now);
            use_type_invariant(&then);
        }
        let passed = signed_duration_since((now.secs, now.nanos), (then.secs, then.nanos));
        let nanos: i128 = passed.0 as i128 * 1_000_000_000 + passed.1 as i128;
        if nanos < 0 || (nanos as u128) < interval {
            return false;
        }
    }
    *stamp = Some(write_update_stamp_file(now));
    true
}

/// After a check no other is due until the interval has passed on the clock, and from then on
/// one is. `stamp` is what the check at the moment `then` has left.
pub proof fn law_one_check_an_interval(then: (i64, u32), now: (i64, u32), stamp: Seq<char>, interval: nat)
    requires
        last_check(Some(stamp)) == Some(then),
    ensures
        check_due(now, Some(stamp), interval) <==> nanos_between(now, then) >= interval,
{
}

/// With the clock set back behind the last check no check is due, however short the interval;
/// a clock that reads the leap second at the end of a day is not behind the second after it.
pub proof fn law_clock_set_back(then: (i64, u32), now: (i64, u32), stamp: Seq<char>, interval: nat)
    requires
        last_check(Some(stamp)) == Some(then),
        is_moment(then.0, then.1),
        is_moment(now.0, now.1),
        now.0 < then.0 || now.0 == then.0 && now.1 < then.1,
        !(then.0 == now.0 + 1 && then.0 as int % 86_400 == 0 && now.1 >= then.1 + 1_000_000_000),
    ensures
        !check_due(now, Some(stamp), interval),
{
}

/// Away from leap seconds the time between two moments is the plain difference.
pub proof fn law_plain_difference(now: (i64, u32), then: (i64, u32))
    requires
        now.1 < 1_000_000_000,
        then.1 < 1_000_000_000,
    ensures
        nanos_between(now, then) == (now.0 - then.0) * 1_000_000_000 + now.1 - then.1,
{
}

/// Without a stamp that can be read a check is due.
pub proof fn law_due_without_stamp(now: (i64, u32), stamp: Option<Seq<char>>, interval: nat)
    requires
        last_check(stamp) is None,
    ensures
        check_due(now, stamp, interval),
{
}

/// Checks are six hours apart, unless another interval is asked for.
pub proof fn law_six_hours()
    ensures
        UPDATE_CHECK_INTERVAL as int == 6 * 3600 * 1_000_000_000,
{
}

/// A check is due exactly when the clock has gone on by the interval since the last one: seconds
/// and nanoseconds are counted in full, away from leap seconds.
pub proof fn law_due_after_the_interval(then: (i64, u32), now: (i64, u32), stamp: Seq<char>, interval: nat)
    requires
        last_check(Some(stamp)) == Some(then),
        now.1 < 1_000_000_000,
        then.1 < 1_000_000_000,
    ensures
        check_due(now, Some(stamp), interval) <==> now.0 * 1_000_000_000 + now.1 >= then.0 * 1_000_000_000 + then.1
            + interval,
{
}

/// White space around a stamp makes no difference to when the last check was.
pub proof fn law_space_around_a_stamp(left: Seq<char>, stamp: Seq<char>, right: Seq<char>)
    requires
        forall|i: int| 0 <= i < left.len() ==> text::is_white_space(#[trigger] left[i]),
        forall|i: int| 0 <= i < right.len() ==> text::is_white_space(#[trigger] right[i]),
        stamp.len() > 0 ==> !text::is_white_space(stamp[0]) && !text::is_white_space(stamp[stamp.len() - 1]),
    ensures
        last_check(Some(left + stamp + right)) == rfc3339_moment(stamp),
        last_check(None) is None,
{
    text::law_trim_takes_space_only(left, stamp, right);
}

/// The stamp lies in the file `update_check_stamp` in the directory `fresh` of the data directory.
pub proof fn law_stamp_lies_in_the_data_directory(dir: Seq<char>)
    requires
        dir.len() > 0,
    ensures
        dir[dir.len() - 1] != '/' ==> stamp_dir(dir) == dir + "/fresh"@ && path::join(
            stamp_dir(dir),
            "update_check_stamp"@,
        ) == dir + "/fresh/update_check_stamp"@,
        dir[dir.len() - 1] == '/' ==> stamp_dir(dir) == dir + "fresh"@ && path::join(
            stamp_dir(dir),
            "update_check_stamp"@,
        ) == dir + "fresh/update_check_stamp"@,
{
    reveal_strlit("/fresh");
    reveal_strlit("fresh");
    reveal_strlit("update_check_stamp");
    reveal_strlit("/fresh/update_check_stamp");
    reveal_strlit("fresh/update_check_stamp");
    path::law_join_puts_one_slash(dir, "fresh"@);
    path::law_join_puts_one_slash(stamp_dir(dir), "update_check_stamp"@);
    if dir[dir.len() - 1] != '/' {
        assert(stamp_dir(dir) =~= dir + "/fresh"@);
        assert(stamp_dir(dir) + seq!['/'] + "update_check_stamp"@ =~= dir + "/fresh/update_check_stamp"@);
    } else {
        assert(stamp_dir(dir) =~= dir + "fresh"@);
        assert(stamp_dir(dir) + seq!['/'] + "update_check_stamp"@ =~= dir + "fresh/update_check_stamp"@);
    }
}

} // verus!
