use vstd::prelude::*;
use crate::domain::TimezoneSource;
use crate::error::{AppError, ErrorCode, error_is};
use crate::text::push_str;
use crate::timeline::{instant_from_parts, instant_of};
use chrono::TimeZone;

verus! {

// ---------------------------------------------------------------------------------------------
// Calendar parsing and time zones (chrono, chrono-tz)
// ---------------------------------------------------------------------------------------------

/// The instant chrono's `DateTime::parse_from_str` reads from `text` with `format` (a format
/// that includes a UTC offset), as seconds since the epoch and nanoseconds within the second.
pub uninterp spec fn offset_datetime(text: Seq<char>, format: Seq<char>) -> Option<(i64, u32)>;

/// The wall-clock time chrono's `NaiveDateTime::parse_from_str` reads from `text` with
/// `format`, as seconds and nanoseconds counted as if the wall clock were UTC.
pub uninterp spec fn naive_datetime(text: Seq<char>, format: Seq<char>) -> Option<(i64, u32)>;

/// chrono-tz knows an IANA time zone by this exact name.
pub uninterp spec fn tz_known(name: Seq<char>) -> bool;

/// How a wall-clock time maps to instants in a time zone.
#[derive(Debug, Clone, Copy, PartialEq, Eq, Structural)]
pub enum LocalTime {
    Single(i64, u32),
    Ambiguous,
    Missing,
}

/// What chrono-tz's `TimeZone::from_local_datetime` gives for a wall-clock time (given as by
/// `naive_datetime`) in the named zone.
pub uninterp spec fn local_in_zone(zone: Seq<char>, secs: i64, nanos: u32) -> LocalTime;

/// chrono `DateTime::parse_from_str`, read as a UTC instant (`timestamp`,
/// `timestamp_subsec_nanos`); claimed to give the named parts.
#[verifier::external_body]
pub(crate) fn parse_offset_datetime(text: &str, format: &str) -> (instant: Option<(i64, u32)>)
    ensures
        instant == offset_datetime(text@, format@),
{
    chrono::DateTime::parse_from_str(text, format).ok().map(|t| (t.timestamp(), t.timestamp_subsec_nanos()))
}

/// chrono `NaiveDateTime::parse_from_str`, read through `and_utc`; claimed to give the named
/// parts.
#[verifier::external_body]
pub(crate) fn parse_naive_datetime(text: &str, format: &str) -> (wall: Option<(i64, u32)>)
    ensures
        wall == naive_datetime(text@, format@),
{
    chrono::NaiveDateTime::parse_from_str(text, format).ok().map(|t| (t.and_utc().timestamp(), t.and_utc().timestamp_subsec_nanos()))
}

/// Whether `name.parse::<chrono_tz::Tz>()` succeeds; claimed to be the named fact.
#[verifier::external_body]
pub(crate) fn is_known_timezone(name: &str) -> (known: bool)
    ensures
        known == tz_known(name@),
{
    name.parse::<chrono_tz::Tz>().is_ok()
}

/// chrono-tz `TimeZone::from_local_datetime` in the named zone, for the wall-clock time given
/// by its parts (parts that name no date-time count as missing); claimed to give the named
/// outcome. The zone must be known, so that its name parses.
#[verifier::external_body]
pub(crate) fn resolve_local(zone: &str, secs: i64, nanos: u32) -> (outcome: LocalTime)
    requires
        tz_known(zone@),
    ensures
        outcome == local_in_zone(zone@, secs, nanos),
{
    let tz: chrono_tz::Tz = zone.parse().unwrap();
    match chrono::DateTime::from_timestamp(secs, nanos).map(|t| tz.from_local_datetime(&t.naive_utc())) {
        Some(chrono::LocalResult::Single(t)) => LocalTime::Single(t.timestamp(), t.timestamp_subsec_nanos()),
        Some(chrono::LocalResult::Ambiguous(_, _)) => LocalTime::Ambiguous,
        _ => LocalTime::Missing,
    }
}

// ---------------------------------------------------------------------------------------------
// The project's time zone
// ---------------------------------------------------------------------------------------------

/// An IANA time zone that chrono-tz knows, by name.
#[derive(Debug)]
pub struct ProjectTimezone {
    name: String,
}

impl ProjectTimezone {
    #[verifier::type_invariant]
    spec fn known(self) -> bool {
        tz_known(self.name@)
    }

    pub closed spec fn name_spec(self) -> Seq<char> {
        self.name@
    }

    /// The zone's name (as chrono-tz displays the zone).
    pub fn name(&self) -> (name: &str)
        ensures
            name@ == self.name_spec(),
            tz_known(name@),
    {
        proof { use_type_invariant(self); }
        self.name.as_str()
    }

    /// The zone of this name, or the error for a name chrono-tz does not know.
    pub fn parse(name: &str) -> (result: Result<ProjectTimezone, AppError>)
        ensures
            tz_known(name@) <==> result is Ok,
            result is Ok ==> result->Ok_0.name_spec() == name@,
            result is Err ==> error_is(
                result->Err_0,
                ErrorCode::PhotoTimeAmbiguous,
                "无效时区："@ + name@,
                "请选择 IANA 时区，例如 Asia/Shanghai。"@,
                true,
            ),
    {
        if is_known_timezone(name) {
            Ok(ProjectTimezone { name: name.to_owned() })
        } else {
            let mut message = "无效时区：".to_owned();
            push_str(&mut message, name);
            Err(AppError::new(ErrorCode::PhotoTimeAmbiguous, message, "请选择 IANA 时区，例如 Asia/Shanghai。".to_owned(), true))
        }
    }
}

// ---------------------------------------------------------------------------------------------
// Capture times
// ---------------------------------------------------------------------------------------------

/// Formats of capture times that carry their own UTC offset, tried in order.
pub open spec fn offset_formats() -> Seq<Seq<char>> {
    seq!["%Y:%m:%d %H:%M:%S%.f%:z"@, "%Y:%m:%d %H:%M:%S%.f%z"@, "%Y-%m-%dT%H:%M:%S%.f%:z"@, "%Y-%m-%dT%H:%M:%S%.f%z"@]
}

/// Formats for a capture time followed by a separately recorded offset, tried in order.
pub open spec fn combined_formats() -> Seq<Seq<char>> {
    seq!["%Y:%m:%d %H:%M:%S%.f%:z"@, "%Y:%m:%d %H:%M:%S%.f%z"@]
}

/// Formats of wall-clock capture times, tried in order.
pub open spec fn naive_formats() -> Seq<Seq<char>> {
    seq!["%Y:%m:%d %H:%M:%S%.f"@, "%Y-%m-%d %H:%M:%S%.f"@, "%Y-%m-%dT%H:%M:%S%.f"@]
}

/// The first format (from position `i` on) that reads the text, with what it reads.
pub open spec fn first_offset_parse(text: Seq<char>, formats: Seq<Seq<char>>, i: int) -> Option<(i64, u32)>
    decreases formats.len() - i,
{
    if i < 0 || i >= formats.len() {
        None
    } else {
        match offset_datetime(text, formats[i]) {
            Some(t) => Some(t),
            None => first_offset_parse(text, formats, i + 1),
        }
    }
}

pub open spec fn first_naive_parse(text: Seq<char>, formats: Seq<Seq<char>>, i: int) -> Option<(i64, u32)>
    decreases formats.len() - i,
{
    if i < 0 || i >= formats.len() {
        None
    } else {
        match naive_datetime(text, formats[i]) {
            Some(t) => Some(t),
            None => first_naive_parse(text, formats, i + 1),
        }
    }
}

/// The outcome of reading a capture time.
pub enum CaptureReading {
    /// The instant and where its offset came from.
    Read(int, TimezoneSource),
    /// The text is no date-time in a known format.
    Unreadable,
    /// The wall-clock time occurs twice in the zone.
    Ambiguous,
    /// The wall-clock time does not occur in the zone.
    Skipped,
}

/// How a capture time is read: with its own offset if it has one, else with the separately
/// recorded offset, else as wall-clock time in the project's time zone.
pub open spec fn capture_reading(value: Seq<char>, separate_offset: Option<Seq<char>>, zone: Seq<char>) -> CaptureReading {
    match first_offset_parse(value, offset_formats(), 0) {
        Some((s, n)) => CaptureReading::Read(instant_of(s, n), TimezoneSource::MetadataOffset),
        None => {
            let combined = match separate_offset {
                Some(offset) => first_offset_parse(value + offset, combined_formats(), 0),
                None => None,
            };
            match combined {
                Some((s, n)) => CaptureReading::Read(instant_of(s, n), TimezoneSource::MetadataOffset),
                None => match first_naive_parse(value, naive_formats(), 0) {
                    None => CaptureReading::Unreadable,
                    Some((s, n)) => match local_in_zone(zone, s, n) {
                        LocalTime::Single(us, un) => CaptureReading::Read(instant_of(us, un), TimezoneSource::ProjectDefault),
                        LocalTime::Ambiguous => CaptureReading::Ambiguous,
                        LocalTime::Missing => CaptureReading::Skipped,
                    },
                },
            }
        },
    }
}

/// The message for a capture time that could not be read.
pub open spec fn capture_failure_message(reading: CaptureReading, value: Seq<char>, zone: Seq<char>) -> Seq<char> {
    match reading {
        CaptureReading::Ambiguous => "拍摄时间 "@ + value + " 在时区 "@ + zone + " 的夏令时切换中有两个可能值。"@,
        CaptureReading::Skipped => "拍摄时间 "@ + value + " 在时区 "@ + zone + " 中不存在（夏令时跳变）。"@,
        _ => "无法解析拍摄时间："@ + value,
    }
}

/// The result of reading a capture time, with the message for each failure.
pub open spec fn capture_result_is(value: Seq<char>, separate_offset: Option<Seq<char>>, zone: Seq<char>, r: Result<(i128, TimezoneSource), String>) -> bool {
    let reading = capture_reading(value, separate_offset, zone);
    match reading {
        CaptureReading::Read(t, source) => r == Ok::<(i128, TimezoneSource), String>((t as i128, source)),
        _ => r is Err && r->Err_0@ == capture_failure_message(reading, value, zone),
    }
}

fn first_offset_parse_exec(text: &str, formats: &Vec<&str>, ghost_formats: Ghost<Seq<Seq<char>>>) -> (r: Option<(i64, u32)>)
    requires
        formats.len() == ghost_formats@.len(),
        forall|i: int| 0 <= i < formats.len() ==> #[trigger] formats@[i]@ == ghost_formats@[i],
    ensures
        r == first_offset_parse(text@, ghost_formats@, 0),
{
    let mut i: usize = 0;
    while i < formats.len()
        invariant
            i <= formats.len() == ghost_formats@.len(),
            forall|j: int| 0 <= j < formats.len() ==> #[trigger] formats@[j]@ == ghost_formats@[j],
            first_offset_parse(text@, ghost_formats@, 0) == first_offset_parse(text@, ghost_formats@, i as int),
        decreases formats.len() - i,
    {
        match parse_offset_datetime(text, formats[i]) {
            Some(t) => {
                return Some(t);
            },
            None => {},
        }
        i = i + 1;
    }
    None
}

fn first_naive_parse_exec(text: &str, formats: &Vec<&str>, ghost_formats: Ghost<Seq<Seq<char>>>) -> (r: Option<(i64, u32)>)
    requires
        formats.len() == ghost_formats@.len(),
        forall|i: int| 0 <= i < formats.len() ==> #[trigger] formats@[i]@ == ghost_formats@[i],
    ensures
        r == first_naive_parse(text@, ghost_formats@, 0),
{
    let mut i: usize = 0;
    while i < formats.len()
        invariant
            i <= formats.len() == ghost_formats@.len(),
            forall|j: int| 0 <= j < formats.len() ==> #[trigger] formats@[j]@ == ghost_formats@[j],
            first_naive_parse(text@, ghost_formats@, 0) == first_naive_parse(text@, ghost_formats@, i as int),
        decreases formats.len() - i,
    {
        match parse_naive_datetime(text, formats[i]) {
            Some(t) => {
                return Some(t);
            },
            None => {},
        }
        i = i + 1;
    }
    None
}

/// Reads a capture time: with its own UTC offset if it has one, else with the separately
/// recorded offset, else as wall-clock time in the project's time zone. The error message
/// says why the time could not be read.
pub fn parse_capture_time(value: &str, separate_offset: Option<&str>, timezone: &ProjectTimezone) -> (result: Result<(i128, TimezoneSource), String>)
    ensures
        capture_result_is(value@, match separate_offset { Some(o) => Some(o@), None => None }, timezone.name_spec(), result),
{
    let offsets = vec!["%Y:%m:%d %H:%M:%S%.f%:z", "%Y:%m:%d %H:%M:%S%.f%z", "%Y-%m-%dT%H:%M:%S%.f%:z", "%Y-%m-%dT%H:%M:%S%.f%z"];
    match first_offset_parse_exec(value, &offsets, Ghost(offset_formats())) {
        Some((s, n)) => {
            return Ok((instant_from_parts(s, n), TimezoneSource::MetadataOffset));
        },
        None => {},
    }
    match separate_offset {
        Some(offset) => {
            let mut combined = value.to_owned();
            push_str(&mut combined, offset);
            let formats = vec!["%Y:%m:%d %H:%M:%S%.f%:z", "%Y:%m:%d %H:%M:%S%.f%z"];
            match first_offset_parse_exec(combined.as_str(), &formats, Ghost(combined_formats())) {
                Some((s, n)) => {
                    return Ok((instant_from_parts(s, n), TimezoneSource::MetadataOffset));
                },
                None => {},
            }
        },
        None => {},
    }
    let naive = vec!["%Y:%m:%d %H:%M:%S%.f", "%Y-%m-%d %H:%M:%S%.f", "%Y-%m-%dT%H:%M:%S%.f"];
    match first_naive_parse_exec(value, &naive, Ghost(naive_formats())) {
        None => {
            let mut message = "无法解析拍摄时间：".to_owned();
            push_str(&mut message, value);
            Err(message)
        },
        Some((s, n)) => {
            let zone = timezone.name();
            match resolve_local(zone, s, n) {
                LocalTime::Single(us, un) => Ok((instant_from_parts(us, un), TimezoneSource::ProjectDefault)),
                LocalTime::Ambiguous => {
                    let mut message = "拍摄时间 ".to_owned();
                    push_str(&mut message, value);
                    push_str(&mut message, " 在时区 ");
                    push_str(&mut message, zone);
                    push_str(&mut message, " 的夏令时切换中有两个可能值。");
                    Err(message)
                },
                LocalTime::Missing => {
                    let mut message = "拍摄时间 ".to_owned();
                    push_str(&mut message, value);
                    push_str(&mut message, " 在时区 ");
                    push_str(&mut message, zone);
                    push_str(&mut message, " 中不存在（夏令时跳变）。");
                    Err(message)
                },
            }
        },
    }
}

/// What the first format that reads a text gives is what one of the formats reads from it;
/// when none does, no format reads it.
pub proof fn lemma_first_offset_parse_reads(text: Seq<char>, formats: Seq<Seq<char>>, i: int)
    requires
        0 <= i,
    ensures
        match first_offset_parse(text, formats, i) {
            Some(t) => exists|k: int| i <= k < formats.len() && #[trigger] offset_datetime(text, formats[k]) == Some(t),
            None => forall|k: int| i <= k < formats.len() ==> #[trigger] offset_datetime(text, formats[k]) is None,
        },
    decreases formats.len() - i,
{
    if i < formats.len() {
        lemma_first_offset_parse_reads(text, formats, i + 1);
    }
}

/// The instant a capture time gives when read with a separately recorded offset.
pub open spec fn read_at_offset(reading: CaptureReading, value: Seq<char>, offset: Seq<char>) -> bool {
    match reading {
        CaptureReading::Read(t, source) => source == TimezoneSource::MetadataOffset
            && exists|k: int| 0 <= k < combined_formats().len()
                && (#[trigger] offset_datetime(value + offset, combined_formats()[k])) is Some
                && t == instant_of(offset_datetime(value + offset, combined_formats()[k])->Some_0.0,
                    offset_datetime(value + offset, combined_formats()[k])->Some_0.1),
        _ => false,
    }
}

/// A capture time without an offset of its own, read together with a separately recorded
/// offset that reads with it, is the wall-clock time at that offset: the instant chrono reads
/// from the time followed by the offset, the same whatever the project's time zone.
pub proof fn law_separate_offset_fixes_the_instant(value: Seq<char>, offset: Seq<char>, zone: Seq<char>, other_zone: Seq<char>)
    requires
        forall|k: int| 0 <= k < offset_formats().len() ==> #[trigger] offset_datetime(value, offset_formats()[k]) is None,
        exists|k: int| 0 <= k < combined_formats().len() && #[trigger] offset_datetime(value + offset, combined_formats()[k]) is Some,
    ensures
        read_at_offset(capture_reading(value, Some(offset), zone), value, offset),
        capture_reading(value, Some(offset), zone) == capture_reading(value, Some(offset), other_zone),
{
    lemma_first_offset_parse_reads(value, offset_formats(), 0);
    lemma_first_offset_parse_reads(value + offset, combined_formats(), 0);
    let k0 = choose|k: int| 0 <= k < combined_formats().len() && #[trigger] offset_datetime(value + offset, combined_formats()[k]) is Some;
    assert(first_offset_parse(value + offset, combined_formats(), 0) is Some);
}

/// What the first wall-clock format that reads a text gives is what one of them reads.
pub proof fn lemma_first_naive_parse_reads(text: Seq<char>, formats: Seq<Seq<char>>, i: int)
    requires
        0 <= i,
    ensures
        match first_naive_parse(text, formats, i) {
            Some(t) => exists|k: int| i <= k < formats.len() && #[trigger] naive_datetime(text, formats[k]) == Some(t),
            None => forall|k: int| i <= k < formats.len() ==> #[trigger] naive_datetime(text, formats[k]) is None,
        },
    decreases formats.len() - i,
{
    if i < formats.len() {
        lemma_first_naive_parse_reads(text, formats, i + 1);
    }
}

/// A capture time that carries its own offset is read at that offset, whatever offset was
/// recorded separately and whatever the project's time zone.
pub proof fn law_own_offset_wins(value: Seq<char>, offset: Option<Seq<char>>, other_offset: Option<Seq<char>>, zone: Seq<char>, other_zone: Seq<char>)
    requires
        exists|k: int| 0 <= k < offset_formats().len() && #[trigger] offset_datetime(value, offset_formats()[k]) is Some,
    ensures
        capture_reading(value, offset, zone) == capture_reading(value, other_offset, other_zone),
        capture_reading(value, offset, zone) is Read,
        capture_reading(value, offset, zone)->Read_1 == TimezoneSource::MetadataOffset,
{
    lemma_first_offset_parse_reads(value, offset_formats(), 0);
}

/// The project's time zone is used only for a time with no offset of its own and no
/// separately recorded offset that reads with it.
pub proof fn law_project_zone_only_without_offsets(value: Seq<char>, offset: Option<Seq<char>>, zone: Seq<char>)
    ensures
        (capture_reading(value, offset, zone) is Read && capture_reading(value, offset, zone)->Read_1 == TimezoneSource::ProjectDefault) ==> {
            &&& forall|k: int| 0 <= k < offset_formats().len() ==> #[trigger] offset_datetime(value, offset_formats()[k]) is None
            &&& offset matches Some(o) ==> forall|k: int| 0 <= k < combined_formats().len() ==> #[trigger] offset_datetime(value + o, combined_formats()[k]) is None
            &&& exists|k: int| 0 <= k < naive_formats().len() && #[trigger] naive_datetime(value, naive_formats()[k]) is Some
        },
{
    lemma_first_offset_parse_reads(value, offset_formats(), 0);
    lemma_first_naive_parse_reads(value, naive_formats(), 0);
    if let Some(o) = offset {
        lemma_first_offset_parse_reads(value + o, combined_formats(), 0);
    }
}

} // verus!
