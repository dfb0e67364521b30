use vstd::prelude::*;
use crate::domain::{CoordinateSystem, TrackWarning};
use crate::error::{AppError, ErrorCode, error_is, error_of};
use crate::paths::{file_name_in, file_stem, stem_of_name};
use crate::text::{decimal, decimal_text, float_syntax, float_syntax_ok, push_str, trim_spaces, trimmed};
use crate::timeline::{instant_from_parts, instant_of, is_plausible_instant, millis_between, millis_toward_zero, parse_rfc3339, rfc3339_instant, seconds_between, seconds_toward_zero};
use quick_xml::events::{BytesStart, Event};
use quick_xml::Reader;

verus! {

// ---------------------------------------------------------------------------------------------
// XML events, as quick-xml reports them
// ---------------------------------------------------------------------------------------------

/// One attribute of a start tag: its local name and its decoded, unescaped value, or why the
/// attribute could not be read.
pub type XmlAttribute = Result<(Vec<u8>, Result<String, String>), String>;

/// An XML event: tag names are local names, texts are unescaped; a start tag is kept whole so
/// that its attributes can be read.
#[derive(Debug)]
pub enum XmlEvent {
    Start(Vec<u8>, BytesStart<'static>),
    End(Vec<u8>),
    Empty(Vec<u8>),
    Text(Result<String, String>),
    Eof,
    Other,
    Failed(u64, String),
}

#[verifier::external_type_specification]
#[verifier::external_body]
#[verifier::reject_recursive_types(R)]
pub struct ExXmlReader<R>(Reader<R>);

#[verifier::external_type_specification]
#[verifier::external_body]
pub struct ExStartTag<'a>(BytesStart<'a>);

/// The attributes of a start tag, in order: what `BytesStart::attributes` with duplicate checks
/// off reports, each with its local name and its value unescaped.
pub uninterp spec fn tag_attributes(tag: BytesStart<'static>) -> Seq<XmlAttribute>;

/// `BytesStart::attributes` (with `with_checks(false)`), each attribute described by its local
/// name and `unescape_value`, or by the error's message. The list is claimed to be the named
/// one of the tag.
#[verifier::external_body]
pub(crate) fn start_tag_attributes(tag: &BytesStart<'static>) -> (attributes: Vec<XmlAttribute>)
    ensures
        attributes@ == tag_attributes(*tag),
{
    tag.attributes().with_checks(false).map(|a| a.map(|a| (a.key.local_name().as_ref().to_vec(), a.unescape_value().map(String::from).map_err(|x| x.to_string()))).map_err(|x| x.to_string())).collect()
}

/// The end of the event stream: the end of input, or an error after which nothing is read.
pub open spec fn ends_stream(e: XmlEvent) -> bool {
    e is Eof || e is Failed
}

/// A stream that stops at its first end-of-input or error event.
pub open spec fn well_ended(events: Seq<XmlEvent>) -> bool {
    &&& events.len() > 0
    &&& ends_stream(events.last())
    &&& forall|i: int| 0 <= i < events.len() - 1 ==> !ends_stream(#[trigger] events[i])
}

/// The events quick-xml's reader reports for `input` with text trimmed at both ends, up to
/// and including the end of input or the first error.
pub uninterp spec fn xml_event_stream(input: Seq<u8>) -> Seq<XmlEvent>;

/// The events a reader has still to report.
pub uninterp spec fn xml_events_left(reader: Reader<&[u8]>) -> Seq<XmlEvent>;

/// `quick_xml::Reader::from_reader` over the bytes, with `trim_text(true)`. The reader is
/// claimed to report the named event stream of the bytes, which ends at the first end-of-input
/// or error event (every other event consumes input, so the stream is finite).
#[verifier::external_body]
fn xml_reader(bytes: &[u8]) -> (reader: Reader<&[u8]>)
    ensures
        xml_events_left(reader) == xml_event_stream(bytes@),
        well_ended(xml_events_left(reader)),
{
    let mut reader = Reader::from_reader(bytes);
    reader.config_mut().trim_text(true);
    reader
}

/// `quick_xml::Reader::read_event`, with the event described by local names, an owned start
/// tag, texts unescaped (`unescape`), an error with the reader's byte position. It is claimed
/// to report the next event of the stream.
#[verifier::external_body]
fn next_xml_event(reader: &mut Reader<&[u8]>) -> (event: XmlEvent)
    requires
        xml_events_left(*old(reader)).len() > 0,
    ensures
        event == xml_events_left(*old(reader))[0],
        xml_events_left(*final(reader)) == xml_events_left(*old(reader)).drop_first(),
{
    match reader.read_event() {
        Ok(Event::Start(e)) => XmlEvent::Start(e.local_name().as_ref().to_vec(), e.into_owned()),
        Ok(Event::End(e)) => XmlEvent::End(e.local_name().as_ref().to_vec()),
        Ok(Event::Empty(e)) => XmlEvent::Empty(e.local_name().as_ref().to_vec()),
        Ok(Event::Text(t)) => XmlEvent::Text(t.unescape().map(String::from).map_err(|x| x.to_string())),
        Ok(Event::Eof) => XmlEvent::Eof,
        Ok(_) => XmlEvent::Other,
        Err(x) => XmlEvent::Failed(reader.buffer_position(), x.to_string()),
    }
}

/// The events of the bytes, read until the end of input or the first error.
pub fn xml_events(bytes: &[u8]) -> (events: Vec<XmlEvent>)
    ensures
        events@ == xml_event_stream(bytes@),
{
    let mut reader = xml_reader(bytes);
    let mut events: Vec<XmlEvent> = Vec::new();
    loop
        invariant
            events@ + xml_events_left(reader) == xml_event_stream(bytes@),
            well_ended(xml_event_stream(bytes@)),
            xml_events_left(reader).len() > 0,
        decreases xml_events_left(reader).len(),
    {
        let ghost left = xml_events_left(reader);
        let event = next_xml_event(&mut reader);
        let last = match &event {
            XmlEvent::Eof => true,
            XmlEvent::Failed(_, _) => true,
            _ => false,
        };
        let ghost before = events@;
        events.push(event);
        assert(events@ + xml_events_left(reader) =~= before + left);
        proof {
            let stream = xml_event_stream(bytes@);
            assert(stream[before.len() as int] == left[0]);
            if xml_events_left(reader).len() > 0 {
                assert(before.len() < stream.len() - 1);
            } else {
                assert(events@ =~= stream);
            }
        }
        if last {
            proof {
                let stream = xml_event_stream(bytes@);
                if xml_events_left(reader).len() > 0 {
                    assert(!ends_stream(stream[before.len() as int]));
                }
                assert(events@ =~= stream);
            }
            return events;
        }
    }
}


// ---------------------------------------------------------------------------------------------
// The GPX structure: segments of track points, read event by event
// ---------------------------------------------------------------------------------------------

/// The element whose text is being read.
#[derive(Debug, Clone, Copy, PartialEq, Eq, Structural)]
pub enum TextField {
    TrackName,
    Time,
    Elevation,
    Hdop,
}

/// A track point as written in the file: the texts of its coordinates, time, elevation and
/// HDOP (the last one given for each).
#[derive(Debug)]
pub struct RawPoint {
    pub lat: Option<String>,
    pub lon: Option<String>,
    pub time: Option<String>,
    pub elevation: Option<String>,
    pub hdop: Option<String>,
}

/// The texts of a raw point.
pub struct PointText {
    pub lat: Option<Seq<char>>,
    pub lon: Option<Seq<char>>,
    pub time: Option<Seq<char>>,
    pub elevation: Option<Seq<char>>,
    pub hdop: Option<Seq<char>>,
}

pub open spec fn opt_text(o: Option<String>) -> Option<Seq<char>> {
    match o {
        None => None,
        Some(s) => Some(s@),
    }
}

impl View for RawPoint {
    type V = PointText;

    open spec fn view(&self) -> PointText {
        PointText {
            lat: opt_text(self.lat),
            lon: opt_text(self.lon),
            time: opt_text(self.time),
            elevation: opt_text(self.elevation),
            hdop: opt_text(self.hdop),
        }
    }
}

pub open spec fn points_text(points: Seq<RawPoint>) -> Seq<PointText> {
    points.map_values(|p: RawPoint| p@)
}

pub open spec fn segments_text(segments: Seq<Vec<RawPoint>>) -> Seq<Seq<PointText>> {
    segments.map_values(|s: Vec<RawPoint>| points_text(s@))
}

/// Where the reading of a GPX document stands.
pub struct ScanState {
    pub track_name: Option<Seq<char>>,
    pub inside_track: bool,
    pub segment: Option<Seq<PointText>>,
    pub segments: Seq<Seq<PointText>>,
    pub point: Option<PointText>,
    pub field: Option<TextField>,
}

pub open spec fn initial_scan() -> ScanState {
    ScanState { track_name: None, inside_track: false, segment: None, segments: Seq::empty(), point: None, field: None }
}

pub open spec fn empty_point() -> PointText {
    PointText { lat: None, lon: None, time: None, elevation: None, hdop: None }
}

/// Why a GPX document was refused while reading it.
pub enum GpxFailure {
    NestedSegment,
    BadAttribute(Seq<char>),
    BadAttributeValue(Seq<char>),
    BadText(Seq<char>),
    UnmatchedPointEnd,
    PointOutsideSegment,
    UnmatchedSegmentEnd,
    EmptyPoint,
    Xml(u64, Seq<char>),
    Unterminated,
    NoSegments,
}

pub enum ScanStep {
    Continue(ScanState),
    Finished(ScanState),
    Refused(GpxFailure),
}

/// The bytes spell the (ASCII) text.
pub open spec fn spells(name: Seq<u8>, text: Seq<char>) -> bool {
    name.len() == text.len() && forall|i: int| 0 <= i < name.len() ==> #[trigger] name[i] as char == text[i]
}

/// The point after its start tag's attributes, read in order: `lat` and `lon` set the
/// coordinate texts, the first unreadable attribute refuses the document.
pub open spec fn point_from_attributes(attrs: Seq<XmlAttribute>, point: PointText) -> Result<PointText, GpxFailure>
    decreases attrs.len(),
{
    if attrs.len() == 0 {
        Ok(point)
    } else {
        match attrs[0] {
            Err(m) => Err(GpxFailure::BadAttribute(m@)),
            Ok((_, Err(m))) => Err(GpxFailure::BadAttributeValue(m@)),
            Ok((key, Ok(v))) => {
                let next = if spells(key@, "lat"@) {
                    PointText { lat: Some(v@), ..point }
                } else if spells(key@, "lon"@) {
                    PointText { lon: Some(v@), ..point }
                } else {
                    point
                };
                point_from_attributes(attrs.drop_first(), next)
            },
        }
    }
}

pub open spec fn start_step(s: ScanState, name: Seq<u8>, attrs: Seq<XmlAttribute>) -> ScanStep {
    if spells(name, "trk"@) {
        ScanStep::Continue(ScanState { inside_track: true, ..s })
    } else if spells(name, "trkseg"@) {
        if s.segment is Some {
            ScanStep::Refused(GpxFailure::NestedSegment)
        } else {
            ScanStep::Continue(ScanState { segment: Some(Seq::empty()), ..s })
        }
    } else if spells(name, "trkpt"@) {
        match point_from_attributes(attrs, empty_point()) {
            Err(f) => ScanStep::Refused(f),
            Ok(p) => ScanStep::Continue(ScanState { point: Some(p), ..s }),
        }
    } else if spells(name, "name"@) && s.inside_track && s.point is None && s.track_name is None {
        ScanStep::Continue(ScanState { field: Some(TextField::TrackName), ..s })
    } else if spells(name, "time"@) && s.point is Some {
        ScanStep::Continue(ScanState { field: Some(TextField::Time), ..s })
    } else if spells(name, "ele"@) && s.point is Some {
        ScanStep::Continue(ScanState { field: Some(TextField::Elevation), ..s })
    } else if spells(name, "hdop"@) && s.point is Some {
        ScanStep::Continue(ScanState { field: Some(TextField::Hdop), ..s })
    } else {
        ScanStep::Continue(s)
    }
}

pub open spec fn text_step(s: ScanState, value: Seq<char>) -> ScanState {
    match (s.field, s.point) {
        (Some(TextField::TrackName), _) => if value.len() > 0 { ScanState { track_name: Some(value), ..s } } else { s },
        (Some(TextField::Time), Some(p)) => ScanState { point: Some(PointText { time: Some(value), ..p }), ..s },
        (Some(TextField::Elevation), Some(p)) => ScanState { point: Some(PointText { elevation: Some(value), ..p }), ..s },
        (Some(TextField::Hdop), Some(p)) => ScanState { point: Some(PointText { hdop: Some(value), ..p }), ..s },
        _ => s,
    }
}

pub open spec fn end_step(s: ScanState, name: Seq<u8>) -> ScanStep {
    if spells(name, "trk"@) {
        ScanStep::Continue(ScanState { inside_track: false, ..s })
    } else if spells(name, "name"@) || spells(name, "time"@) || spells(name, "ele"@) || spells(name, "hdop"@) {
        ScanStep::Continue(ScanState { field: None, ..s })
    } else if spells(name, "trkpt"@) {
        match (s.point, s.segment) {
            (None, _) => ScanStep::Refused(GpxFailure::UnmatchedPointEnd),
            (Some(_), None) => ScanStep::Refused(GpxFailure::PointOutsideSegment),
            (Some(p), Some(seg)) => ScanStep::Continue(ScanState { point: None, segment: Some(seg.push(p)), ..s }),
        }
    } else if spells(name, "trkseg"@) {
        match s.segment {
            None => ScanStep::Refused(GpxFailure::UnmatchedSegmentEnd),
            Some(seg) => ScanStep::Continue(ScanState {
                segment: None,
                segments: if seg.len() > 0 { s.segments.push(seg) } else { s.segments },
                ..s
            }),
        }
    } else {
        ScanStep::Continue(s)
    }
}

/// What one event does to the reading of a GPX document.
pub open spec fn scan_step(s: ScanState, e: XmlEvent) -> ScanStep {
    match e {
        XmlEvent::Start(name, tag) => start_step(s, name@, tag_attributes(tag)),
        XmlEvent::End(name) => end_step(s, name@),
        XmlEvent::Empty(name) => if spells(name@, "trkpt"@) {
            ScanStep::Refused(GpxFailure::EmptyPoint)
        } else {
            ScanStep::Continue(s)
        },
        XmlEvent::Text(Err(m)) => ScanStep::Refused(GpxFailure::BadText(m@)),
        XmlEvent::Text(Ok(v)) => ScanStep::Continue(text_step(s, trimmed(v@))),
        XmlEvent::Eof => ScanStep::Finished(s),
        XmlEvent::Other => ScanStep::Continue(s),
        XmlEvent::Failed(pos, m) => ScanStep::Refused(GpxFailure::Xml(pos, m@)),
    }
}

/// The state after reading the events in order, stopping at the end of input or the first
/// refusal (running out of events counts as the end of input).
pub open spec fn scan_events(events: Seq<XmlEvent>, s: ScanState) -> Result<ScanState, GpxFailure>
    decreases events.len(),
{
    if events.len() == 0 {
        Ok(s)
    } else {
        match scan_step(s, events[0]) {
            ScanStep::Continue(t) => scan_events(events.drop_first(), t),
            ScanStep::Finished(t) => Ok(t),
            ScanStep::Refused(f) => Err(f),
        }
    }
}

/// The track name and the non-empty segments of a document, or why it is refused.
pub open spec fn gpx_structure(events: Seq<XmlEvent>) -> Result<(Option<Seq<char>>, Seq<Seq<PointText>>), GpxFailure> {
    match scan_events(events, initial_scan()) {
        Err(f) => Err(f),
        Ok(s) => if s.point is Some || s.segment is Some {
            Err(GpxFailure::Unterminated)
        } else if s.segments.len() == 0 {
            Err(GpxFailure::NoSegments)
        } else {
            Ok((s.track_name, s.segments))
        },
    }
}

pub open spec fn gpx_parse_suggestion() -> Seq<char> {
    "请确认文件是结构完整的 GPX，并检查轨迹点、时间和坐标字段。"@
}

pub open spec fn is_parse_error(e: AppError, message: Seq<char>) -> bool {
    error_is(e, ErrorCode::TrackParseFailed, message, gpx_parse_suggestion(), true)
}

pub open spec fn no_time_suggestion() -> Seq<char> {
    "请选择包含 ISO 8601 time 的 GPX，或先修复轨迹时间。"@
}

/// The error reported for each refusal.
pub open spec fn failure_error(f: GpxFailure, e: AppError) -> bool {
    match f {
        GpxFailure::NestedSegment => is_parse_error(e, "GPX 包含嵌套 trkseg。"@),
        GpxFailure::BadAttribute(m) => is_parse_error(e, "轨迹点属性无效："@ + m),
        GpxFailure::BadAttributeValue(m) => is_parse_error(e, "轨迹点属性编码无效："@ + m),
        GpxFailure::BadText(m) => is_parse_error(e, "GPX 文本编码无效："@ + m),
        GpxFailure::UnmatchedPointEnd => is_parse_error(e, "GPX 轨迹点结束标签没有对应开始标签。"@),
        GpxFailure::PointOutsideSegment => is_parse_error(e, "GPX trkpt 必须位于 trkseg 内。"@),
        GpxFailure::UnmatchedSegmentEnd => is_parse_error(e, "GPX 分段结束标签没有对应开始标签。"@),
        GpxFailure::EmptyPoint => error_is(e, ErrorCode::TrackNoTime, "GPX 包含没有 time 的空轨迹点。"@, no_time_suggestion(), true),
        GpxFailure::Xml(pos, m) => is_parse_error(e, "GPX XML 解析失败（字节 "@ + decimal(pos as nat) + "）："@ + m),
        GpxFailure::Unterminated => is_parse_error(e, "GPX 在轨迹或分段结束前终止。"@),
        GpxFailure::NoSegments => is_parse_error(e, "GPX 未包含有效 trkseg/trkpt。"@),
    }
}

pub fn parse_error(message: String) -> (e: AppError)
    ensures
        is_parse_error(e, message@),
{
    AppError::new(
        ErrorCode::TrackParseFailed,
        message,
        "请确认文件是结构完整的 GPX，并检查轨迹点、时间和坐标字段。".to_owned(),
        true,
    )
}

fn parse_error_with(prefix: &str, detail: &String) -> (e: AppError)
    ensures
        is_parse_error(e, prefix@ + detail@),
{
    let mut m = prefix.to_owned();
    push_str(&mut m, detail.as_str());
    parse_error(m)
}


/// Whether the bytes spell the (ASCII) text.
pub fn spells_text(name: &Vec<u8>, text: &str) -> (b: bool)
    ensures
        b == spells(name@, text@),
{
    let chars = crate::text::chars_of(text);
    if name.len() != chars.len() {
        return false;
    }
    let mut i: usize = 0;
    while i < name.len()
        invariant
            i <= name.len() == chars.len(),
            chars@ == text@,
            forall|j: int| 0 <= j < i ==> #[trigger] name@[j] as char == text@[j],
        decreases name.len() - i,
    {
        if name[i] as char != chars[i] {
            return false;
        }
        i = i + 1;
    }
    true
}

fn clone_opt(o: &Option<String>) -> (out: Option<String>)
    ensures
        opt_text(out) == opt_text(*o),
{
    match o {
        None => None,
        Some(s) => Some(s.clone()),
    }
}

/// The point described by a `trkpt` start tag's attributes.
fn point_from_attrs(attrs: &Vec<XmlAttribute>) -> (r: Result<RawPoint, AppError>)
    ensures
        match point_from_attributes(attrs@, empty_point()) {
            Ok(p) => r is Ok && r->Ok_0@ == p,
            Err(f) => r is Err && failure_error(f, r->Err_0),
        },
{
    let mut point = RawPoint { lat: None, lon: None, time: None, elevation: None, hdop: None };
    let mut i: usize = 0;
    assert(attrs@.skip(0) =~= attrs@);
    while i < attrs.len()
        invariant
            i <= attrs.len(),
            point_from_attributes(attrs@, empty_point()) == point_from_attributes(attrs@.skip(i as int), point@),
        decreases attrs.len() - i,
    {
        assert(attrs@.skip(i as int)[0] == attrs@[i as int]);
        assert(attrs@.skip(i as int).drop_first() =~= attrs@.skip(i + 1));
        match &attrs[i] {
            Err(m) => {
                return Err(parse_error_with("轨迹点属性无效：", m));
            },
            Ok((_, Err(m))) => {
                return Err(parse_error_with("轨迹点属性编码无效：", m));
            },
            Ok((key, Ok(v))) => {
                if spells_text(key, "lat") {
                    point.lat = Some(v.clone());
                } else if spells_text(key, "lon") {
                    point.lon = Some(v.clone());
                }
            },
        }
        i = i + 1;
    }
    Ok(point)
}


/// The reading of a GPX document in progress.
struct GpxScanner {
    track_name: Option<String>,
    inside_track: bool,
    segment: Option<Vec<RawPoint>>,
    segments: Vec<Vec<RawPoint>>,
    point: Option<RawPoint>,
    field: Option<TextField>,
}

impl View for GpxScanner {
    type V = ScanState;

    closed spec fn view(&self) -> ScanState {
        ScanState {
            track_name: opt_text(self.track_name),
            inside_track: self.inside_track,
            segment: match self.segment {
                None => None,
                Some(v) => Some(points_text(v@)),
            },
            segments: segments_text(self.segments@),
            point: match self.point {
                None => None,
                Some(p) => Some(p@),
            },
            field: self.field,
        }
    }
}

enum Step {
    Continue(GpxScanner),
    Finished(GpxScanner),
    Refused(AppError),
}

spec fn step_matches(r: Step, expected: ScanStep) -> bool {
    match expected {
        ScanStep::Continue(t) => r is Continue && r->Continue_0@ == t,
        ScanStep::Finished(t) => r is Finished && r->Finished_0@ == t,
        ScanStep::Refused(f) => r is Refused && failure_error(f, r->Refused_0),
    }
}

impl GpxScanner {
    fn start(self, name: &Vec<u8>, tag: &BytesStart<'static>) -> (r: Step)
        ensures
            step_matches(r, start_step(self@, name@, tag_attributes(*tag))),
    {
        let mut s = self;
        if spells_text(name, "trk") {
            s.inside_track = true;
            Step::Continue(s)
        } else if spells_text(name, "trkseg") {
            if s.segment.is_some() {
                Step::Refused(parse_error("GPX 包含嵌套 trkseg。".to_owned()))
            } else {
                s.segment = Some(Vec::new());
                assert(points_text(Seq::<RawPoint>::empty()) =~= Seq::<PointText>::empty());
                Step::Continue(s)
            }
        } else if spells_text(name, "trkpt") {
            let attrs = start_tag_attributes(tag);
            match point_from_attrs(&attrs) {
                Err(e) => Step::Refused(e),
                Ok(p) => {
                    s.point = Some(p);
                    Step::Continue(s)
                },
            }
        } else if spells_text(name, "name") && s.inside_track && s.point.is_none() && s.track_name.is_none() {
            s.field = Some(TextField::TrackName);
            Step::Continue(s)
        } else if spells_text(name, "time") && s.point.is_some() {
            s.field = Some(TextField::Time);
            Step::Continue(s)
        } else if spells_text(name, "ele") && s.point.is_some() {
            s.field = Some(TextField::Elevation);
            Step::Continue(s)
        } else if spells_text(name, "hdop") && s.point.is_some() {
            s.field = Some(TextField::Hdop);
            Step::Continue(s)
        } else {
            Step::Continue(s)
        }
    }

    fn text(self, raw: &String) -> (r: GpxScanner)
        ensures
            r@ == text_step(self@, trimmed(raw@)),
    {
        let mut s = self;
        let value = trim_spaces(raw.as_str());
        match s.field {
            Some(TextField::TrackName) => {
                if !value.as_str().is_empty() {
                    s.track_name = Some(value);
                }
                s
            },
            Some(TextField::Time) => {
                match s.point {
                    Some(mut p) => {
                        p.time = Some(value);
                        s.point = Some(p);
                        s
                    },
                    None => s,
                }
            },
            Some(TextField::Elevation) => {
                match s.point {
                    Some(mut p) => {
                        p.elevation = Some(value);
                        s.point = Some(p);
                        s
                    },
                    None => s,
                }
            },
            Some(TextField::Hdop) => {
                match s.point {
                    Some(mut p) => {
                        p.hdop = Some(value);
                        s.point = Some(p);
                        s
                    },
                    None => s,
                }
            },
            None => s,
        }
    }

    fn end(self, name: &Vec<u8>) -> (r: Step)
        ensures
            step_matches(r, end_step(self@, name@)),
    {
        let mut s = self;
        if spells_text(name, "trk") {
            s.inside_track = false;
            Step::Continue(s)
        } else if spells_text(name, "name") || spells_text(name, "time") || spells_text(name, "ele") || spells_text(name, "hdop") {
            s.field = None;
            Step::Continue(s)
        } else if spells_text(name, "trkpt") {
            match s.point {
                None => Step::Refused(parse_error("GPX 轨迹点结束标签没有对应开始标签。".to_owned())),
                Some(p) => {
                    match s.segment {
                        None => Step::Refused(parse_error("GPX trkpt 必须位于 trkseg 内。".to_owned())),
                        Some(mut seg) => {
                            let ghost before = seg@;
                            let ghost pv = p@;
                            seg.push(p);
                            assert(points_text(seg@) =~= points_text(before).push(pv));
                            s.point = None;
                            s.segment = Some(seg);
                            Step::Continue(s)
                        },
                    }
                },
            }
        } else if spells_text(name, "trkseg") {
            match s.segment {
                None => Step::Refused(parse_error("GPX 分段结束标签没有对应开始标签。".to_owned())),
                Some(seg) => {
                    s.segment = None;
                    if seg.len() > 0 {
                        let ghost before = s.segments@;
                        let ghost sv = points_text(seg@);
                        s.segments.push(seg);
                        assert(segments_text(s.segments@) =~= segments_text(before).push(sv));
                    }
                    Step::Continue(s)
                },
            }
        } else {
            Step::Continue(s)
        }
    }

    fn step(self, e: &XmlEvent) -> (r: Step)
        ensures
            step_matches(r, scan_step(self@, *e)),
    {
        match e {
            XmlEvent::Start(name, tag) => self.start(name, tag),
            XmlEvent::End(name) => self.end(name),
            XmlEvent::Empty(name) => {
                if spells_text(name, "trkpt") {
                    Step::Refused(error_of(
                        ErrorCode::TrackNoTime,
                        "GPX 包含没有 time 的空轨迹点。",
                        "请选择包含 ISO 8601 time 的 GPX，或先修复轨迹时间。",
                        true,
                    ))
                } else {
                    Step::Continue(self)
                }
            },
            XmlEvent::Text(Err(m)) => Step::Refused(parse_error_with("GPX 文本编码无效：", m)),
            XmlEvent::Text(Ok(v)) => Step::Continue(self.text(v)),
            XmlEvent::Eof => Step::Finished(self),
            XmlEvent::Other => Step::Continue(self),
            XmlEvent::Failed(pos, m) => {
                let mut msg = "GPX XML 解析失败（字节 ".to_owned();
                let digits = decimal_text(*pos);
                push_str(&mut msg, digits.as_str());
                push_str(&mut msg, "）：");
                push_str(&mut msg, m.as_str());
                Step::Refused(parse_error(msg))
            },
        }
    }
}


/// The track name and the non-empty segments of raw points of a GPX document.
#[derive(Debug)]
pub struct GpxStructure {
    pub track_name: Option<String>,
    pub segments: Vec<Vec<RawPoint>>,
}

/// The document's structure as the events describe it, or the error of its refusal.
pub open spec fn structure_result(events: Seq<XmlEvent>, result: Result<GpxStructure, AppError>) -> bool {
    match gpx_structure(events) {
        Ok((name, segments)) => result is Ok && opt_text(result->Ok_0.track_name) == name
            && segments_text(result->Ok_0.segments@) == segments,
        Err(f) => result is Err && failure_error(f, result->Err_0),
    }
}

/// Reads the GPX structure from XML events: segments (`trkseg`) of points (`trkpt`) with their
/// coordinate attributes and their `time`, `ele` and `hdop` texts, and the first non-empty
/// track `name`. Nested or unbalanced segments, points outside segments, empty `trkpt`
/// elements, unreadable attributes or texts, XML errors, unterminated documents and documents
/// without points are refused.
pub fn scan_gpx_events(events: &Vec<XmlEvent>) -> (result: Result<GpxStructure, AppError>)
    ensures
        structure_result(events@, result),
{
    let mut scanner = GpxScanner {
        track_name: None,
        inside_track: false,
        segment: None,
        segments: Vec::new(),
        point: None,
        field: None,
    };
    assert(segments_text(Seq::<Vec<RawPoint>>::empty()) =~= Seq::<Seq<PointText>>::empty());
    assert(scanner@ == initial_scan());
    let mut i: usize = 0;
    assert(events@.skip(0) =~= events@);
    loop
        invariant_except_break
            i <= events.len(),
            scan_events(events@, initial_scan()) == scan_events(events@.skip(i as int), scanner@),
        ensures
            scan_events(events@, initial_scan()) == Ok::<ScanState, GpxFailure>(scanner@),
        decreases events.len() - i,
    {
        if i == events.len() {
            assert(events@.skip(i as int) =~= Seq::<XmlEvent>::empty());
            break;
        }
        assert(events@.skip(i as int)[0] == events@[i as int]);
        assert(events@.skip(i as int).drop_first() =~= events@.skip(i + 1));
        match scanner.step(&events[i]) {
            Step::Refused(e) => {
                return Err(e);
            },
            Step::Finished(t) => {
                scanner = t;
                break;
            },
            Step::Continue(t) => {
                scanner = t;
            },
        }
        i = i + 1;
    }
    if scanner.point.is_some() || scanner.segment.is_some() {
        return Err(parse_error("GPX 在轨迹或分段结束前终止。".to_owned()));
    }
    if scanner.segments.len() == 0 {
        return Err(parse_error("GPX 未包含有效 trkseg/trkpt。".to_owned()));
    }
    Ok(GpxStructure { track_name: scanner.track_name, segments: scanner.segments })
}

/// Reads the GPX structure of a document's bytes (see `scan_gpx_events`).
pub fn scan_gpx_bytes(bytes: &[u8]) -> (result: Result<GpxStructure, AppError>)
    ensures
        structure_result(xml_event_stream(bytes@), result),
{
    let events = xml_events(bytes);
    scan_gpx_events(&events)
}


// ---------------------------------------------------------------------------------------------
// Checking the points and ordering them by time
// ---------------------------------------------------------------------------------------------

/// What the coordinate arithmetic found for one point: the rank of its WGS 84 coordinates
/// among its segment's points (latitude first, then longitude; equal coordinates share a
/// rank), or the error of converting them.
pub type PointConversion = Result<u64, AppError>;

/// Why a point is refused.
pub enum PointFailure {
    MissingLat,
    MissingLon,
    MissingTime,
    Conversion(AppError),
}

/// The instant of a point's time text, when it is an RFC 3339 date-time.
pub open spec fn point_instant(p: PointText) -> Option<int> {
    match p.time {
        None => None,
        Some(t) => match rfc3339_instant(t) {
            None => None,
            Some((secs, nanos)) => Some(instant_of(secs, nanos)),
        },
    }
}

/// The checks of one point, in order: latitude, longitude, time, coordinate conversion.
pub open spec fn point_failure(p: PointText, c: PointConversion) -> Option<PointFailure> {
    if p.lat is None || !float_syntax(p.lat->0) {
        Some(PointFailure::MissingLat)
    } else if p.lon is None || !float_syntax(p.lon->0) {
        Some(PointFailure::MissingLon)
    } else if point_instant(p) is None {
        Some(PointFailure::MissingTime)
    } else {
        match c {
            Err(e) => Some(PointFailure::Conversion(e)),
            Ok(_) => None,
        }
    }
}

/// The first refused point of a segment from position `k` on: its position and failure.
pub open spec fn first_failure_in(points: Seq<PointText>, conv: Seq<PointConversion>, k: int) -> Option<(int, PointFailure)>
    decreases points.len() - k,
{
    if k < 0 || k >= points.len() {
        None
    } else {
        match point_failure(points[k], conv[k]) {
            Some(f) => Some((k, f)),
            None => first_failure_in(points, conv, k + 1),
        }
    }
}

/// The first refused point of the document from segment `s` on: its segment, position and
/// failure.
pub open spec fn first_failure(segments: Seq<Seq<PointText>>, conv: Seq<Seq<PointConversion>>, s: int) -> Option<(int, int, PointFailure)>
    decreases segments.len() - s,
{
    if s < 0 || s >= segments.len() {
        None
    } else {
        match first_failure_in(segments[s], conv[s], 0) {
            Some((k, f)) => Some((s, k, f)),
            None => first_failure(segments, conv, s + 1),
        }
    }
}

pub open spec fn point_label(s: int, k: int) -> Seq<char> {
    "分段 "@ + decimal((s + 1) as nat) + " 的轨迹点 "@ + decimal((k + 1) as nat)
}

/// The error reported for a refused point.
pub open spec fn point_error_is(s: int, k: int, f: PointFailure, e: AppError) -> bool {
    match f {
        PointFailure::MissingLat => is_parse_error(e, point_label(s, k) + " 缺少纬度。"@),
        PointFailure::MissingLon => is_parse_error(e, point_label(s, k) + " 缺少经度。"@),
        PointFailure::MissingTime => error_is(e, ErrorCode::TrackNoTime, point_label(s, k) + " 缺少有效时间。"@, no_time_suggestion(), true),
        PointFailure::Conversion(c) => e == c,
    }
}

/// `a` comes before `b` when ordered by time, then coordinate rank, then position.
pub open spec fn comes_before(times: Seq<i128>, ranks: Seq<u64>, a: int, b: int) -> bool {
    times[a] < times[b] || (times[a] == times[b] && (ranks[a] < ranks[b] || (ranks[a] == ranks[b] && a < b)))
}

/// `order` lists every position once, by time, then coordinate rank; points that tie keep
/// their order in the file.
pub open spec fn is_time_order(times: Seq<i128>, ranks: Seq<u64>, order: Seq<usize>) -> bool {
    &&& order.len() == times.len()
    &&& forall|i: int| 0 <= i < order.len() ==> #[trigger] order[i] < times.len()
    &&& forall|i: int, j: int| 0 <= i < j < order.len() ==> comes_before(times, ranks, #[trigger] order[i] as int, #[trigger] order[j] as int)
}

/// Some point's time is later than the next point's.
pub open spec fn out_of_order(times: Seq<i128>) -> bool {
    exists|i: int| 0 <= i < times.len() - 1 && #[trigger] times[i] > times[i + 1]
}

/// The positions of a segment ordered stably by time and coordinate rank.
pub fn time_order(times: &Vec<i128>, ranks: &Vec<u64>) -> (order: Vec<usize>)
    requires
        times.len() == ranks.len(),
    ensures
        is_time_order(times@, ranks@, order@),
{
    let mut order: Vec<usize> = Vec::new();
    let mut k: usize = 0;
    while k < times.len()
        invariant
            k <= times.len() == ranks.len(),
            order.len() == k,
            forall|i: int| 0 <= i < order.len() ==> #[trigger] order@[i] < k,
            forall|i: int, j: int| 0 <= i < j < order.len() ==> comes_before(times@, ranks@, #[trigger] order@[i] as int, #[trigger] order@[j] as int),
        decreases times.len() - k,
    {
        let mut p: usize = 0;
        while p < order.len()
            && !(times[k] < times[order[p]] || (times[k] == times[order[p]] && ranks[k] < ranks[order[p]]))
            invariant
                p <= order.len() == k < times.len() == ranks.len(),
                forall|i: int| 0 <= i < order.len() ==> #[trigger] order@[i] < k,
                forall|i: int| 0 <= i < p ==> comes_before(times@, ranks@, #[trigger] order@[i] as int, k as int),
            decreases order.len() - p,
        {
            p = p + 1;
        }
        let ghost before = order@;
        proof {
            assert forall|i: int| p <= i < before.len() implies comes_before(times@, ranks@, k as int, #[trigger] before[i] as int) by {
                if p < before.len() && i > p {
                    assert(comes_before(times@, ranks@, before[p as int] as int, before[i] as int));
                }
            }
        }
        order.insert(p, k);
        assert forall|i: int, j: int| 0 <= i < j < order.len() implies comes_before(times@, ranks@, #[trigger] order@[i] as int, #[trigger] order@[j] as int) by {
            if j < p {
                assert(order@[i] == before[i] && order@[j] == before[j]);
            } else if j == p {
                assert(order@[i] == before[i]);
            } else if i == p {
                assert(order@[j] == before[j - 1]);
            } else if i < p {
                assert(order@[i] == before[i] && order@[j] == before[j - 1]);
            } else {
                assert(order@[i] == before[i - 1] && order@[j] == before[j - 1]);
            }
        }
        k = k + 1;
    }
    order
}

/// Whether some time is later than the next one.
pub fn has_time_inversion(times: &Vec<i128>) -> (b: bool)
    ensures
        b == out_of_order(times@),
{
    let mut i: usize = 0;
    while i < times.len()
        invariant
            i <= times.len(),
            forall|j: int| 0 <= j < i && j < times.len() - 1 ==> !(#[trigger] times@[j] > times@[j + 1]),
        decreases times.len() - i,
    {
        if i + 1 < times.len() && times[i] > times[i + 1] {
            return true;
        }
        i = i + 1;
    }
    false
}


pub open spec fn ranks_of(conv: Seq<PointConversion>) -> Seq<u64> {
    conv.map_values(|c: PointConversion| match c {
        Ok(r) => r,
        Err(_) => 0,
    })
}

pub open spec fn conversions_view(conv: Seq<Vec<PointConversion>>) -> Seq<Seq<PointConversion>> {
    conv.map_values(|v: Vec<PointConversion>| v@)
}

/// A segment's points ordered by time: the segment's position among the document's segments,
/// the instants of its points in file order, their order by time, and whether the file had them
/// out of order.
#[derive(Debug)]
pub struct OrderedSegment {
    pub source_index: usize,
    pub times: Vec<i128>,
    pub order: Vec<usize>,
    pub unsorted: bool,
}

pub open spec fn segment_ordered(points: Seq<PointText>, conv: Seq<PointConversion>, s: int, o: OrderedSegment) -> bool {
    &&& o.source_index == s
    &&& o.times@.len() == points.len()
    &&& forall|k: int| 0 <= k < points.len() ==> point_instant(#[trigger] points[k]) == Some(o.times@[k] as int)
    &&& is_time_order(o.times@, ranks_of(conv), o.order@)
    &&& o.unsorted == out_of_order(o.times@)
}

pub open spec fn points_ordered(segments: Seq<Seq<PointText>>, conv: Seq<Seq<PointConversion>>, out: Seq<OrderedSegment>) -> bool {
    &&& out.len() == segments.len()
    &&& forall|s: int| 0 <= s < segments.len() ==> segment_ordered(segments[s], conv[s], s, #[trigger] out[s])
}

fn point_label_text(s: usize, k: usize, suffix: &str) -> (m: String)
    requires
        s < usize::MAX,
        k < usize::MAX,
    ensures
        m@ == point_label(s as int, k as int) + suffix@,
{
    let mut m = "分段 ".to_owned();
    push_str(&mut m, decimal_text((s + 1) as u64).as_str());
    push_str(&mut m, " 的轨迹点 ");
    push_str(&mut m, decimal_text((k + 1) as u64).as_str());
    push_str(&mut m, suffix);
    m
}

fn check_point(p: &RawPoint, c: &PointConversion, s: usize, k: usize) -> (r: Result<i128, AppError>)
    requires
        s < usize::MAX,
        k < usize::MAX,
    ensures
        match point_failure(p@, *c) {
            Some(f) => r is Err && point_error_is(s as int, k as int, f, r->Err_0),
            None => r is Ok && point_instant(p@) == Some(r->Ok_0 as int),
        },
{
    let lat_ok = match &p.lat {
        None => false,
        Some(t) => float_syntax_ok(t.as_str()),
    };
    if !lat_ok {
        return Err(parse_error(point_label_text(s, k, " 缺少纬度。")));
    }
    let lon_ok = match &p.lon {
        None => false,
        Some(t) => float_syntax_ok(t.as_str()),
    };
    if !lon_ok {
        return Err(parse_error(point_label_text(s, k, " 缺少经度。")));
    }
    let instant = match &p.time {
        None => None,
        Some(t) => parse_rfc3339(t.as_str()),
    };
    match instant {
        None => Err(AppError::new(
            ErrorCode::TrackNoTime,
            point_label_text(s, k, " 缺少有效时间。"),
            "请选择包含 ISO 8601 time 的 GPX，或先修复轨迹时间。".to_owned(),
            true,
        )),
        Some((secs, nanos)) => match c {
            Err(e) => Err(e.clone()),
            Ok(_) => Ok(instant_from_parts(secs, nanos)),
        },
    }
}

/// Checks every point in file order (latitude, longitude, time, then the coordinate
/// conversion done outside the library) and orders each segment's points by time. The first
/// refused point gives the error.
pub fn order_track_points(structure: &GpxStructure, conversions: &Vec<Vec<PointConversion>>) -> (result: Result<Vec<OrderedSegment>, AppError>)
    requires
        conversions.len() == structure.segments.len(),
        forall|s: int| 0 <= s < conversions.len() ==> (#[trigger] conversions@[s]).len() == structure.segments@[s].len(),
    ensures
        match first_failure(segments_text(structure.segments@), conversions_view(conversions@), 0) {
            Some((s, k, f)) => result is Err && point_error_is(s, k, f, result->Err_0),
            None => result is Ok && points_ordered(segments_text(structure.segments@), conversions_view(conversions@), result->Ok_0@),
        },
{
    let ghost segs = segments_text(structure.segments@);
    let ghost conv = conversions_view(conversions@);
    let mut out: Vec<OrderedSegment> = Vec::new();
    let mut s: usize = 0;
    while s < structure.segments.len()
        invariant
            s <= structure.segments.len() == conversions.len(),
            segs == segments_text(structure.segments@),
            conv == conversions_view(conversions@),
            forall|t: int| 0 <= t < conversions.len() ==> (#[trigger] conversions@[t]).len() == structure.segments@[t].len(),
            first_failure(segs, conv, 0) == first_failure(segs, conv, s as int),
            out.len() == s,
            forall|t: int| 0 <= t < s ==> segment_ordered(segs[t], conv[t], t, #[trigger] out@[t]),
        decreases structure.segments.len() - s,
    {
        let points = &structure.segments[s];
        let convs = &conversions[s];
        assert(segs[s as int] == points_text(points@));
        assert(conv[s as int] == convs@);
        let mut times: Vec<i128> = Vec::new();
        let mut ranks: Vec<u64> = Vec::new();
        let mut k: usize = 0;
        while k < points.len()
            invariant
                s < structure.segments.len() == conversions.len(),
                points == &structure.segments@[s as int],
                convs == &conversions@[s as int],
                convs.len() == points.len(),
                segs == segments_text(structure.segments@),
                conv == conversions_view(conversions@),
                first_failure(segs, conv, 0) == first_failure(segs, conv, s as int),
                segs[s as int] == points_text(points@),
                conv[s as int] == convs@,
                k <= points.len(),
                first_failure_in(segs[s as int], conv[s as int], 0) == first_failure_in(segs[s as int], conv[s as int], k as int),
                times.len() == k,
                ranks@ == ranks_of(convs@).take(k as int),
                forall|j: int| 0 <= j < k ==> point_instant(#[trigger] segs[s as int][j]) == Some(times@[j] as int),
            decreases points.len() - k,
        {
            assert(segs[s as int][k as int] == points[k as int]@);
            match check_point(&points[k], &convs[k], s, k) {
                Err(e) => {
                    return Err(e);
                },
                Ok(t) => {
                    times.push(t);
                    let r = match &convs[k] {
                        Ok(r) => *r,
                        Err(_) => 0,
                    };
                    ranks.push(r);
                    assert(ranks_of(convs@).take(k + 1) =~= ranks_of(convs@).take(k as int).push(r));
                },
            }
            k = k + 1;
        }
        assert(ranks@ =~= ranks_of(convs@));
        assert(first_failure_in(segs[s as int], conv[s as int], k as int) is None);
        let order = time_order(&times, &ranks);
        let unsorted = has_time_inversion(&times);
        out.push(OrderedSegment { source_index: s, times, order, unsorted });
        s = s + 1;
    }
    Ok(out)
}


// ---------------------------------------------------------------------------------------------
// Identities, warnings and statistics of a track
// ---------------------------------------------------------------------------------------------

/// The name-based (version 5) UUID that the `uuid` crate derives from a name in the URL
/// namespace, as a 128-bit value.
pub uninterp spec fn uuid_v5_url(name: Seq<char>) -> u128;

/// `uuid::Uuid::new_v5(&Uuid::NAMESPACE_URL, name.as_bytes())`, as a 128-bit value
/// (`as_u128`). The value is claimed to be the named one of the name.
#[verifier::external_body]
pub(crate) fn uuid_v5_of(name: &str) -> (id: u128)
    ensures
        id == uuid_v5_url(name@),
{
    uuid::Uuid::new_v5(&uuid::Uuid::NAMESPACE_URL, name.as_bytes()).as_u128()
}

/// How a coordinate system is named in identity keys (its `Debug` name).
pub open spec fn crs_name(crs: CoordinateSystem) -> Seq<char> {
    match crs {
        CoordinateSystem::Wgs84 => "Wgs84"@,
        CoordinateSystem::Gcj02 => "Gcj02"@,
        CoordinateSystem::Bd09 => "Bd09"@,
        CoordinateSystem::Unknown => "Unknown"@,
    }
}

fn crs_name_text(crs: CoordinateSystem) -> (name: &'static str)
    ensures
        name@ == crs_name(crs),
{
    match crs {
        CoordinateSystem::Wgs84 => "Wgs84",
        CoordinateSystem::Gcj02 => "Gcj02",
        CoordinateSystem::Bd09 => "Bd09",
        CoordinateSystem::Unknown => "Unknown",
    }
}

/// The key a track's identity is derived from: its source path, content hash and coordinate
/// system.
pub open spec fn track_key(source_path: Seq<char>, hash: Seq<char>, crs: CoordinateSystem) -> Seq<char> {
    source_path + "|"@ + hash + "|"@ + crs_name(crs)
}

/// The identity of a track: stable for the same file, contents and coordinate system.
pub open spec fn track_id(source_path: Seq<char>, hash: Seq<char>, crs: CoordinateSystem) -> u128 {
    uuid_v5_url(track_key(source_path, hash, crs))
}

/// The identity of a track's segment at a position.
pub open spec fn segment_id(track: u128, s: nat) -> u128 {
    uuid_v5_url(crate::text::uuid_hyphenated(track) + ":"@ + decimal(s))
}

pub struct WarningText {
    pub code: Seq<char>,
    pub message: Seq<char>,
    pub segment_index: Option<usize>,
    pub point_index: Option<usize>,
}

pub open spec fn warning_text(w: TrackWarning) -> WarningText {
    WarningText { code: w.code@, message: w.message@, segment_index: w.segment_index, point_index: w.point_index }
}

pub open spec fn warnings_text(ws: Seq<TrackWarning>) -> Seq<WarningText> {
    ws.map_values(|w: TrackWarning| warning_text(w))
}

pub open spec fn unsorted_warning(s: int) -> WarningText {
    WarningText {
        code: "TRACK_TIME_NOT_SORTED"@,
        message: "轨迹点时间不是递增顺序，已在该分段内稳定排序。"@,
        segment_index: Some(s as usize),
        point_index: None,
    }
}

pub open spec fn duplicate_warning(s: int, k: int) -> WarningText {
    WarningText {
        code: "TRACK_DUPLICATE_TIME"@,
        message: "同一分段包含重复时间点；精确匹配将选择排序后的第一个点。"@,
        segment_index: Some(s as usize),
        point_index: Some(k as usize),
    }
}

pub open spec fn jump_warning(s: int, k: int, message: Seq<char>) -> WarningText {
    WarningText { code: "TRACK_SUSPICIOUS_JUMP"@, message, segment_index: Some(s as usize), point_index: Some(k as usize) }
}

/// The instants of a segment's points in time order.
pub open spec fn sorted_times(o: OrderedSegment) -> Seq<i128> {
    o.order@.map_values(|i: usize| o.times@[i as int])
}

/// Warnings about the neighbouring points `j` and `j + 1` (in time order) and the later
/// pairs: points less than a millisecond apart are duplicates; other pairs carry the jump
/// found by the coordinate arithmetic, if any.
pub open spec fn pair_warnings(s: int, st: Seq<i128>, jumps: Seq<Option<String>>, j: int) -> Seq<WarningText>
    decreases st.len() - j,
{
    if j < 0 || j + 1 >= st.len() {
        Seq::empty()
    } else {
        let here = if millis_toward_zero(st[j + 1] - st[j]) == 0 {
            seq![duplicate_warning(s, j + 1)]
        } else {
            match jumps[j] {
                Some(m) => seq![jump_warning(s, j + 1, m@)],
                None => Seq::empty(),
            }
        };
        here + pair_warnings(s, st, jumps, j + 1)
    }
}

pub open spec fn segment_warnings(s: int, o: OrderedSegment, jumps: Seq<Option<String>>) -> Seq<WarningText> {
    (if o.unsorted { seq![unsorted_warning(s)] } else { Seq::empty() }) + pair_warnings(s, sorted_times(o), jumps, 0)
}

/// The warnings of the segments from `s` on, segment by segment.
pub open spec fn track_warnings(ordered: Seq<OrderedSegment>, jumps: Seq<Seq<Option<String>>>, s: int) -> Seq<WarningText>
    decreases ordered.len() - s,
{
    if s < 0 || s >= ordered.len() {
        Seq::empty()
    } else {
        segment_warnings(s, ordered[s], jumps[s]) + track_warnings(ordered, jumps, s + 1)
    }
}

pub open spec fn jumps_view(jumps: Seq<Vec<Option<String>>>) -> Seq<Seq<Option<String>>> {
    jumps.map_values(|v: Vec<Option<String>>| v@)
}

/// Number of neighbouring pairs among `n` points.
pub open spec fn pair_count(n: int) -> int {
    if n > 0 { n - 1 } else { 0 }
}

/// Ordered segments whose orders index their times, whose instants are plausible, and with one
/// jump finding per neighbouring pair.
pub open spec fn layout_inputs_ok(ordered: Seq<OrderedSegment>, jumps: Seq<Seq<Option<String>>>) -> bool {
    &&& jumps.len() == ordered.len()
    &&& forall|s: int| 0 <= s < ordered.len() ==> (#[trigger] jumps[s]).len() == pair_count(ordered[s].order@.len() as int)
    &&& forall|s: int, i: int| 0 <= s < ordered.len() && 0 <= i < ordered[s].order@.len() ==> (#[trigger] ordered[s].order@[i]) < ordered[s].times@.len()
    &&& forall|s: int, k: int| 0 <= s < ordered.len() && 0 <= k < ordered[s].times@.len() ==> is_plausible_instant(#[trigger] ordered[s].times@[k] as int)
}

fn warning(code: &str, message: String, segment_index: usize, point_index: Option<usize>) -> (w: TrackWarning)
    ensures
        warning_text(w) == (WarningText { code: code@, message: message@, segment_index: Some(segment_index), point_index }),
{
    TrackWarning { code: code.to_owned(), message, segment_index: Some(segment_index), point_index }
}

/// Appends the warnings of one segment.
fn push_segment_warnings(out: &mut Vec<TrackWarning>, s: usize, o: &OrderedSegment, jumps: &Vec<Option<String>>)
    requires
        jumps.len() == pair_count(o.order@.len() as int),
        forall|i: int| 0 <= i < o.order@.len() ==> (#[trigger] o.order@[i]) < o.times@.len(),
        forall|k: int| 0 <= k < o.times@.len() ==> is_plausible_instant(#[trigger] o.times@[k] as int),
    ensures
        warnings_text(final(out)@) == warnings_text(old(out)@) + segment_warnings(s as int, *o, jumps@),
{
    let ghost start = warnings_text(out@);
    if o.unsorted {
        out.push(warning("TRACK_TIME_NOT_SORTED", "轨迹点时间不是递增顺序，已在该分段内稳定排序。".to_owned(), s, None));
    }
    let ghost head = if o.unsorted { seq![unsorted_warning(s as int)] } else { Seq::<WarningText>::empty() };
    assert(warnings_text(out@) =~= start + head);
    let ghost st = sorted_times(*o);
    let mut j: usize = 0;
    while j < o.order.len() && j + 1 < o.order.len()
        invariant
            j <= o.order.len(),
            jumps.len() == pair_count(o.order@.len() as int),
            st == sorted_times(*o),
            forall|i: int| 0 <= i < o.order@.len() ==> (#[trigger] o.order@[i]) < o.times@.len(),
            forall|k: int| 0 <= k < o.times@.len() ==> is_plausible_instant(#[trigger] o.times@[k] as int),
            warnings_text(out@) + pair_warnings(s as int, st, jumps@, j as int) == start + segment_warnings(s as int, *o, jumps@),
        decreases o.order.len() - j,
    {
        let later = o.times[o.order[j + 1]];
        let earlier = o.times[o.order[j]];
        assert(st[j + 1] == later && st[j as int] == earlier);
        let ghost before = warnings_text(out@);
        let ms = millis_between(later, earlier);
        if ms == 0 {
            out.push(warning("TRACK_DUPLICATE_TIME", "同一分段包含重复时间点；精确匹配将选择排序后的第一个点。".to_owned(), s, Some(j + 1)));
            assert(warnings_text(out@) =~= before.push(duplicate_warning(s as int, j + 1)));
        } else {
            match &jumps[j] {
                Some(m) => {
                    out.push(warning("TRACK_SUSPICIOUS_JUMP", m.clone(), s, Some(j + 1)));
                    assert(warnings_text(out@) =~= before.push(jump_warning(s as int, j + 1, m@)));
                },
                None => {},
            }
        }
        assert(warnings_text(out@) + pair_warnings(s as int, st, jumps@, j + 1) =~= before + pair_warnings(s as int, st, jumps@, j as int));
        j = j + 1;
    }
    assert(pair_warnings(s as int, st, jumps@, j as int) =~= Seq::<WarningText>::empty());
    assert(warnings_text(out@) =~= start + segment_warnings(s as int, *o, jumps@));
}


/// A segment of the imported track: its identity, its position among the document's segments,
/// the file positions of its points in time order and their instants.
#[derive(Debug)]
pub struct SegmentLayout {
    pub id: u128,
    pub source_index: usize,
    pub points: Vec<usize>,
    pub times: Vec<i128>,
}

/// Everything of an imported track but its coordinates: identity, name, source, counts, time
/// span, segments and warnings.
#[derive(Debug)]
pub struct TrackLayout {
    pub id: u128,
    pub name: String,
    pub source_path: String,
    pub relative_path: String,
    pub hash_sha256: String,
    pub source_crs: CoordinateSystem,
    pub point_count: usize,
    pub segment_count: usize,
    pub start_utc: i128,
    pub end_utc: i128,
    pub duration_seconds: i128,
    pub segments: Vec<SegmentLayout>,
    pub warnings: Vec<TrackWarning>,
}

/// Number of points in the segments from `s` on.
pub open spec fn points_from(ordered: Seq<OrderedSegment>, s: int) -> int
    decreases ordered.len() - s,
{
    if s < 0 || s >= ordered.len() {
        0
    } else {
        ordered[s].times@.len() + points_from(ordered, s + 1)
    }
}

/// Some point of the first `n` segments has instant `t`.
pub open spec fn has_instant(ordered: Seq<OrderedSegment>, t: i128, n: int) -> bool {
    exists|s: int, k: int| 0 <= s < n && s < ordered.len() && 0 <= k < ordered[s].times@.len() && #[trigger] ordered[s].times@[k] == t
}

/// No point of the first `n` segments is earlier than `t`.
pub open spec fn none_before(ordered: Seq<OrderedSegment>, t: i128, n: int) -> bool {
    forall|s: int, k: int| 0 <= s < n && s < ordered.len() && 0 <= k < ordered[s].times@.len() ==> t <= #[trigger] ordered[s].times@[k]
}

/// No point of the first `n` segments is later than `t`.
pub open spec fn none_after(ordered: Seq<OrderedSegment>, t: i128, n: int) -> bool {
    forall|s: int, k: int| 0 <= s < n && s < ordered.len() && 0 <= k < ordered[s].times@.len() ==> #[trigger] ordered[s].times@[k] <= t
}

/// The name a track is shown with: its own non-blank name, else the stem of its file name,
/// else a placeholder.
pub open spec fn display_name(track_name: Option<Seq<char>>, source_path: Seq<char>, windows: bool) -> Seq<char> {
    match track_name {
        Some(n) if trimmed(n).len() > 0 => n,
        _ => match file_name_in(source_path, windows) {
            Some(f) => stem_of_name(f),
            None => "未命名轨迹"@,
        },
    }
}

pub open spec fn segment_laid_out(track: u128, s: int, o: OrderedSegment, l: SegmentLayout) -> bool {
    &&& l.id == segment_id(track, s as nat)
    &&& l.source_index == s
    &&& l.points@ == o.order@
    &&& l.times@ == sorted_times(o)
}

/// The layout of a track built from its ordered segments.
pub open spec fn track_laid_out(
    track_name: Option<Seq<char>>,
    source_path: Seq<char>,
    relative_path: Seq<char>,
    hash: Seq<char>,
    crs: CoordinateSystem,
    ordered: Seq<OrderedSegment>,
    jumps: Seq<Seq<Option<String>>>,
    windows: bool,
    t: TrackLayout,
) -> bool {
    &&& t.id == track_id(source_path, hash, crs)
    &&& t.name@ == display_name(track_name, source_path, windows)
    &&& t.source_path@ == source_path
    &&& t.relative_path@ == relative_path
    &&& t.hash_sha256@ == hash
    &&& t.source_crs == crs
    &&& t.point_count == points_from(ordered, 0)
    &&& t.segment_count == ordered.len()
    &&& has_instant(ordered, t.start_utc, ordered.len() as int) && none_before(ordered, t.start_utc, ordered.len() as int)
    &&& has_instant(ordered, t.end_utc, ordered.len() as int) && none_after(ordered, t.end_utc, ordered.len() as int)
    &&& t.duration_seconds == seconds_toward_zero(t.end_utc - t.start_utc)
    &&& t.segments@.len() == ordered.len()
    &&& forall|s: int| 0 <= s < ordered.len() ==> segment_laid_out(t.id, s, ordered[s], #[trigger] t.segments@[s])
    &&& warnings_text(t.warnings@) == track_warnings(ordered, jumps, 0)
}

fn track_name_or_fallback(track_name: Option<String>, source_path: &str, windows: bool) -> (name: String)
    ensures
        name@ == display_name(opt_text(track_name), source_path@, windows),
{
    match track_name {
        Some(n) => {
            let t = trim_spaces(n.as_str());
            if !t.as_str().is_empty() {
                return n;
            }
        },
        None => {},
    }
    match file_stem(source_path, windows) {
        Some(stem) => stem,
        None => "未命名轨迹".to_owned(),
    }
}

fn sorted_times_of(o: &OrderedSegment) -> (st: Vec<i128>)
    requires
        forall|i: int| 0 <= i < o.order@.len() ==> (#[trigger] o.order@[i]) < o.times@.len(),
    ensures
        st@ == sorted_times(*o),
{
    let mut st: Vec<i128> = Vec::new();
    let mut i: usize = 0;
    while i < o.order.len()
        invariant
            i <= o.order.len(),
            forall|j: int| 0 <= j < o.order@.len() ==> (#[trigger] o.order@[j]) < o.times@.len(),
            st@ == sorted_times(*o).take(i as int),
        decreases o.order.len() - i,
    {
        st.push(o.times[o.order[i]]);
        assert(sorted_times(*o).take(i + 1) =~= sorted_times(*o).take(i as int).push(o.times@[o.order@[i as int] as int]));
        i = i + 1;
    }
    assert(sorted_times(*o).take(i as int) =~= sorted_times(*o));
    st
}

fn copy_order(order: &Vec<usize>) -> (out: Vec<usize>)
    ensures
        out@ == order@,
{
    let mut out: Vec<usize> = Vec::new();
    let mut i: usize = 0;
    while i < order.len()
        invariant
            i <= order.len(),
            out@ == order@.take(i as int),
        decreases order.len() - i,
    {
        out.push(order[i]);
        assert(order@.take(i + 1) =~= order@.take(i as int).push(order@[i as int]));
        i = i + 1;
    }
    assert(order@.take(i as int) =~= order@);
    out
}


fn segment_span(times: &Vec<i128>) -> (span: Option<(i128, i128)>)
    ensures
        match span {
            None => times.len() == 0,
            Some((lo, hi)) => times@.contains(lo) && times@.contains(hi)
                && forall|k: int| 0 <= k < times.len() ==> lo <= #[trigger] times@[k] <= hi,
        },
{
    if times.len() == 0 {
        return None;
    }
    let mut lo = times[0];
    let mut hi = times[0];
    let mut k: usize = 1;
    while k < times.len()
        invariant
            1 <= k <= times.len(),
            times@.contains(lo),
            times@.contains(hi),
            forall|j: int| 0 <= j < k ==> lo <= #[trigger] times@[j] <= hi,
        decreases times.len() - k,
    {
        if times[k] < lo {
            lo = times[k];
        }
        if times[k] > hi {
            hi = times[k];
        }
        k = k + 1;
    }
    Some((lo, hi))
}

fn segment_key(track: u128, s: usize) -> (key: String)
    ensures
        key@ == crate::text::uuid_hyphenated(track) + ":"@ + decimal(s as nat),
{
    let mut key = crate::text::uuid_text(track);
    push_str(&mut key, ":");
    push_str(&mut key, decimal_text(s as u64).as_str());
    key
}

pub open spec fn is_no_points_error(e: AppError) -> bool {
    is_parse_error(e, "轨迹没有有效点。"@)
}

/// Builds everything of a track but its coordinates from its ordered segments: its identity
/// (derived from its source path, content hash and coordinate system), its name, its segments
/// with their identities and points in time order, its time span and duration, its counts and
/// its warnings (segments out of order, points less than a millisecond apart, and the jumps
/// found by the coordinate arithmetic). A track without points is refused.
pub fn lay_out_track(
    track_name: Option<String>,
    source_path: String,
    relative_path: String,
    hash_sha256: String,
    source_crs: CoordinateSystem,
    ordered: &Vec<OrderedSegment>,
    jumps: &Vec<Vec<Option<String>>>,
    windows: bool,
) -> (result: Result<TrackLayout, AppError>)
    requires
        layout_inputs_ok(ordered@, jumps_view(jumps@)),
        points_from(ordered@, 0) <= usize::MAX,
    ensures
        match result {
            Ok(t) => points_from(ordered@, 0) > 0 && track_laid_out(
                opt_text(track_name),
                source_path@,
                relative_path@,
                hash_sha256@,
                source_crs,
                ordered@,
                jumps_view(jumps@),
                windows,
                t,
            ),
            Err(e) => points_from(ordered@, 0) == 0 && is_no_points_error(e),
        },
{
    let ghost jv = jumps_view(jumps@);
    let mut key = source_path.clone();
    push_str(&mut key, "|");
    push_str(&mut key, hash_sha256.as_str());
    push_str(&mut key, "|");
    push_str(&mut key, crs_name_text(source_crs));
    let id = uuid_v5_of(key.as_str());
    let mut segments: Vec<SegmentLayout> = Vec::new();
    let mut warnings: Vec<TrackWarning> = Vec::new();
    let mut count: usize = 0;
    let mut span: Option<(i128, i128)> = None;
    let mut s: usize = 0;
    assert(warnings_text(warnings@) =~= Seq::<WarningText>::empty());
    proof { lemma_points_from_nonneg(ordered@, 0); }
    while s < ordered.len()
        invariant
            s <= ordered.len(),
            jv == jumps_view(jumps@),
            layout_inputs_ok(ordered@, jv),
            points_from(ordered@, 0) <= usize::MAX,
            id == track_id(source_path@, hash_sha256@, source_crs),
            count == points_from(ordered@, 0) - points_from(ordered@, s as int),
            0 <= points_from(ordered@, s as int),
            segments@.len() == s,
            forall|t: int| 0 <= t < s ==> segment_laid_out(id, t, ordered@[t], #[trigger] segments@[t]),
            warnings_text(warnings@) + track_warnings(ordered@, jv, s as int) == track_warnings(ordered@, jv, 0),
            match span {
                None => count == 0,
                Some((lo, hi)) => count > 0 && has_instant(ordered@, lo, s as int) && none_before(ordered@, lo, s as int)
                    && has_instant(ordered@, hi, s as int) && none_after(ordered@, hi, s as int),
            },
        decreases ordered.len() - s,
    {
        let o = &ordered[s];
        assert(jv[s as int] == jumps@[s as int]@);
        assert(points_from(ordered@, s as int) == o.times@.len() + points_from(ordered@, s + 1));
        proof { lemma_points_from_nonneg(ordered@, s + 1); }
        let ghost before = warnings_text(warnings@);
        push_segment_warnings(&mut warnings, s, o, &jumps[s]);
        assert(track_warnings(ordered@, jv, s as int) == segment_warnings(s as int, ordered@[s as int], jv[s as int]) + track_warnings(ordered@, jv, s + 1));
        assert(warnings_text(warnings@) + track_warnings(ordered@, jv, s + 1) =~= before + track_warnings(ordered@, jv, s as int));
        let key = segment_key(id, s);
        let seg_id = uuid_v5_of(key.as_str());
        let points = copy_order(&o.order);
        let times = sorted_times_of(o);
        segments.push(SegmentLayout { id: seg_id, source_index: s, points, times });
        let ghost old_span = span;
        match segment_span(&o.times) {
            None => {},
            Some((lo, hi)) => {
                let (a, b) = match span {
                    None => (lo, hi),
                    Some((a, b)) => (if lo < a { lo } else { a }, if hi > b { hi } else { b }),
                };
                span = Some((a, b));
            },
        }
        count = count + o.times.len();
        proof {
            let n = s + 1;
            match span {
                None => {},
                Some((lo, hi)) => {
                    assert forall|t: int, k: int| 0 <= t < n && t < ordered@.len() && 0 <= k < ordered@[t].times@.len()
                        implies lo <= #[trigger] ordered@[t].times@[k] && ordered@[t].times@[k] <= hi by {
                        if t < s {
                            match old_span {
                                Some((a, b)) => {
                                    assert(none_before(ordered@, a, s as int));
                                    assert(none_after(ordered@, b, s as int));
                                },
                                None => {
                                    assert(points_from(ordered@, 0) - points_from(ordered@, s as int) == 0);
                                    lemma_points_before(ordered@, t, s as int);
                                },
                            }
                        }
                    }
                    lemma_instant_witness(ordered@, old_span, o.times@, s as int, lo);
                    lemma_instant_witness(ordered@, old_span, o.times@, s as int, hi);
                },
            }
        }
        s = s + 1;
    }
    assert(track_warnings(ordered@, jv, s as int) =~= Seq::<WarningText>::empty());
    assert(warnings_text(warnings@) =~= track_warnings(ordered@, jv, 0));
    match span {
        None => Err(parse_error("轨迹没有有效点。".to_owned())),
        Some((start, end)) => {
            let name = track_name_or_fallback(track_name, source_path.as_str(), windows);
            let duration_seconds = seconds_between(end, start);
            Ok(TrackLayout {
                id,
                name,
                source_path,
                relative_path,
                hash_sha256,
                source_crs,
                point_count: count,
                segment_count: ordered.len(),
                start_utc: start,
                end_utc: end,
                duration_seconds,
                segments,
                warnings,
            })
        },
    }
}

proof fn lemma_points_from_nonneg(ordered: Seq<OrderedSegment>, s: int)
    ensures
        points_from(ordered, s) >= 0,
    decreases ordered.len() - s,
{
    if 0 <= s < ordered.len() {
        lemma_points_from_nonneg(ordered, s + 1);
    }
}

/// When the first `s` segments hold no points, segment `t < s` is empty.
proof fn lemma_points_before(ordered: Seq<OrderedSegment>, t: int, s: int)
    requires
        0 <= t < s <= ordered.len(),
        points_from(ordered, 0) == points_from(ordered, s),
    ensures
        ordered[t].times@.len() == 0,
{
    lemma_points_split(ordered, 0, t);
    lemma_points_split(ordered, t + 1, s);
    lemma_points_from_nonneg(ordered, t + 1);
    lemma_points_between_nonneg(ordered, 0, t);
    lemma_points_between_nonneg(ordered, t + 1, s);
}

proof fn lemma_points_split(ordered: Seq<OrderedSegment>, a: int, b: int)
    requires
        0 <= a <= b <= ordered.len(),
    ensures
        points_from(ordered, a) - points_from(ordered, b) >= 0,
    decreases b - a,
{
    if a < b {
        lemma_points_split(ordered, a + 1, b);
    }
}

proof fn lemma_points_between_nonneg(ordered: Seq<OrderedSegment>, a: int, b: int)
    requires
        0 <= a <= b <= ordered.len(),
    ensures
        points_from(ordered, a) - points_from(ordered, b) >= 0,
{
    lemma_points_split(ordered, a, b);
}

proof fn lemma_instant_witness(ordered: Seq<OrderedSegment>, old_span: Option<(i128, i128)>, times: Seq<i128>, s: int, t: i128)
    requires
        0 <= s < ordered.len(),
        times == ordered[s].times@,
        times.contains(t) || (old_span matches Some((a, b)) && (t == a || t == b)),
        old_span matches Some((a, b)) ==> has_instant(ordered, a, s) && has_instant(ordered, b, s),
    ensures
        has_instant(ordered, t, s + 1),
{
    if times.contains(t) {
        let k = choose|k: int| 0 <= k < times.len() && times[k] == t;
        assert(ordered[s].times@[k] == t);
    } else {
        match old_span {
            Some((a, b)) => {
                if t == a {
                    let (u, k) = choose|u: int, k: int| 0 <= u < s && u < ordered.len() && 0 <= k < ordered[u].times@.len() && #[trigger] ordered[u].times@[k] == a;
                    assert(ordered[u].times@[k] == t);
                } else {
                    let (u, k) = choose|u: int, k: int| 0 <= u < s && u < ordered.len() && 0 <= k < ordered[u].times@.len() && #[trigger] ordered[u].times@[k] == b;
                    assert(ordered[u].times@[k] == t);
                }
            },
            None => {},
        }
    }
}


// ---------------------------------------------------------------------------------------------
// Entry points
// ---------------------------------------------------------------------------------------------

/// The error for importing a track file whose coordinate system is not confirmed.
pub open spec fn is_unconfirmed_file_error(e: AppError) -> bool {
    error_is(e, ErrorCode::CrsUnconfirmed, "无法导入未确认坐标系的轨迹。"@, "请先选择 WGS84、GCJ-02 或 BD-09。"@, true)
}

/// The error for parsing track bytes whose coordinate system is not confirmed.
pub open spec fn is_unconfirmed_bytes_error(e: AppError) -> bool {
    error_is(e, ErrorCode::CrsUnconfirmed, "轨迹坐标系尚未确认。"@, "请确认轨迹原始坐标系后再导入。"@, true)
}

/// A track file can only be imported once its coordinate system is confirmed.
pub fn check_file_crs(source_crs: CoordinateSystem) -> (result: Result<(), AppError>)
    ensures
        source_crs == CoordinateSystem::Unknown <==> result is Err,
        result is Err ==> is_unconfirmed_file_error(result->Err_0),
{
    if source_crs == CoordinateSystem::Unknown {
        Err(error_of(ErrorCode::CrsUnconfirmed, "无法导入未确认坐标系的轨迹。", "请先选择 WGS84、GCJ-02 或 BD-09。", true))
    } else {
        Ok(())
    }
}

/// The structure of GPX bytes whose coordinate system is confirmed (see `scan_gpx_events`).
pub fn parse_gpx_structure(bytes: &[u8], source_crs: CoordinateSystem) -> (result: Result<GpxStructure, AppError>)
    ensures
        source_crs == CoordinateSystem::Unknown ==> result is Err && is_unconfirmed_bytes_error(result->Err_0),
        source_crs != CoordinateSystem::Unknown ==> structure_result(xml_event_stream(bytes@), result),
{
    if source_crs == CoordinateSystem::Unknown {
        return Err(error_of(ErrorCode::CrsUnconfirmed, "轨迹坐标系尚未确认。", "请确认轨迹原始坐标系后再导入。", true));
    }
    scan_gpx_bytes(bytes)
}

// ---------------------------------------------------------------------------------------------
// Laws
// ---------------------------------------------------------------------------------------------

/// Within a segment, points come out in time order, and no point comes out twice.
pub proof fn law_segment_in_time_order(times: Seq<i128>, ranks: Seq<u64>, order: Seq<usize>)
    requires
        is_time_order(times, ranks, order),
    ensures
        forall|i: int, j: int| 0 <= i < j < order.len() ==> times[#[trigger] order[i] as int] <= times[#[trigger] order[j] as int],
        forall|i: int, j: int| 0 <= i < j < order.len() ==> #[trigger] order[i] != #[trigger] order[j],
        order.len() == times.len(),
{
}

/// A track's identity depends on its source path, content hash and coordinate system alone:
/// importing the same file again gives the same track, and so do its segments.
pub proof fn law_track_identity_is_stable(a: TrackLayout, b: TrackLayout)
    requires
        a.source_path@ == b.source_path@,
        a.hash_sha256@ == b.hash_sha256@,
        a.source_crs == b.source_crs,
        a.id == track_id(a.source_path@, a.hash_sha256@, a.source_crs),
        b.id == track_id(b.source_path@, b.hash_sha256@, b.source_crs),
    ensures
        a.id == b.id,
        forall|s: nat| segment_id(a.id, s) == segment_id(b.id, s),
{
}

/// Laying out a track is deterministic: two layouts of the same ordered segments, with the same
/// name, source, hash, coordinate system and jumps, agree on the identity, name, counts, time
/// span, every segment (identity, point order and times) and the warnings.
pub proof fn law_track_layout_is_determined(
    track_name: Option<Seq<char>>,
    source_path: Seq<char>,
    relative_path: Seq<char>,
    hash: Seq<char>,
    crs: CoordinateSystem,
    ordered: Seq<OrderedSegment>,
    jumps: Seq<Seq<Option<String>>>,
    windows: bool,
    a: TrackLayout,
    b: TrackLayout,
)
    requires
        track_laid_out(track_name, source_path, relative_path, hash, crs, ordered, jumps, windows, a),
        track_laid_out(track_name, source_path, relative_path, hash, crs, ordered, jumps, windows, b),
    ensures
        a.id == b.id,
        a.name@ == b.name@,
        a.point_count == b.point_count,
        a.segment_count == b.segment_count,
        a.start_utc == b.start_utc,
        a.end_utc == b.end_utc,
        a.duration_seconds == b.duration_seconds,
        a.segments@.len() == b.segments@.len(),
        forall|s: int| 0 <= s < a.segments@.len() ==> {
            &&& (#[trigger] a.segments@[s]).id == b.segments@[s].id
            &&& a.segments@[s].points@ == b.segments@[s].points@
            &&& a.segments@[s].times@ == b.segments@[s].times@
        },
        warnings_text(a.warnings@) == warnings_text(b.warnings@),
{
    let n = ordered.len() as int;
    let (s1, k1) = choose|s: int, k: int| 0 <= s < n && s < ordered.len() && 0 <= k < ordered[s].times@.len() && #[trigger] ordered[s].times@[k] == a.start_utc;
    let (s2, k2) = choose|s: int, k: int| 0 <= s < n && s < ordered.len() && 0 <= k < ordered[s].times@.len() && #[trigger] ordered[s].times@[k] == b.start_utc;
    assert(b.start_utc <= ordered[s1].times@[k1]);
    assert(a.start_utc <= ordered[s2].times@[k2]);
    let (s3, k3) = choose|s: int, k: int| 0 <= s < n && s < ordered.len() && 0 <= k < ordered[s].times@.len() && #[trigger] ordered[s].times@[k] == a.end_utc;
    let (s4, k4) = choose|s: int, k: int| 0 <= s < n && s < ordered.len() && 0 <= k < ordered[s].times@.len() && #[trigger] ordered[s].times@[k] == b.end_utc;
    assert(ordered[s3].times@[k3] <= b.end_utc);
    assert(ordered[s4].times@[k4] <= a.end_utc);
    assert forall|s: int| 0 <= s < a.segments@.len() implies {
        &&& (#[trigger] a.segments@[s]).id == b.segments@[s].id
        &&& a.segments@[s].points@ == b.segments@[s].points@
        &&& a.segments@[s].times@ == b.segments@[s].times@
    } by {
        assert(segment_laid_out(a.id, s, ordered[s], a.segments@[s]));
        assert(segment_laid_out(b.id, s, ordered[s], b.segments@[s]));
    }
}

/// Reading stops only at the end of input: no event but the end of input (an end tag of a
/// `trk` included) ever finishes the reading.
pub proof fn law_only_end_of_input_finishes(s: ScanState, e: XmlEvent)
    ensures
        scan_step(s, e) is Finished ==> e is Eof,
{
}

/// The segments read so far are never dropped or changed: each step that goes on keeps them
/// as a prefix of what it collects.
pub proof fn law_segments_only_grow(s: ScanState, e: XmlEvent)
    ensures
        scan_step(s, e) matches ScanStep::Continue(t) ==> t.segments.len() >= s.segments.len()
            && t.segments.take(s.segments.len() as int) == s.segments,
{
    if let ScanStep::Continue(t) = scan_step(s, e) {
        assert(t.segments.take(s.segments.len() as int) =~= s.segments);
    }
}

/// Reading a document is reading its parts in turn: when a first part holds no end of input
/// and reads without refusal into some state, the whole document reads as the rest does from
/// that state. So everything after a `</trk>` (further tracks and their segments) is read.
pub proof fn law_reading_continues_past_any_part(first: Seq<XmlEvent>, rest: Seq<XmlEvent>, s: ScanState, t: ScanState)
    requires
        forall|i: int| 0 <= i < first.len() ==> !(#[trigger] first[i] is Eof),
        scan_events(first, s) == Ok::<ScanState, GpxFailure>(t),
    ensures
        scan_events(first + rest, s) == scan_events(rest, t),
    decreases first.len(),
{
    if first.len() == 0 {
        assert(first + rest =~= rest);
    } else {
        assert((first + rest)[0] == first[0]);
        assert((first + rest).drop_first() =~= first.drop_first() + rest);
        law_only_end_of_input_finishes(s, first[0]);
        match scan_step(s, first[0]) {
            ScanStep::Continue(u) => {
                assert forall|i: int| 0 <= i < first.drop_first().len() implies !(#[trigger] first.drop_first()[i] is Eof) by {
                    assert(first.drop_first()[i] == first[i + 1]);
                }
                law_reading_continues_past_any_part(first.drop_first(), rest, u, t);
            },
            ScanStep::Finished(_) => {},
            ScanStep::Refused(_) => {},
        }
    }
}

/// Every closed point joins its segment, and every closed non-empty segment joins the
/// structure, in document order.
pub proof fn law_closed_points_and_segments_are_kept(s: ScanState, name: Vec<u8>)
    ensures
        spells(name@, "trkpt"@) && s.point is Some && s.segment is Some ==> ({
            let r = scan_step(s, XmlEvent::End(name));
            &&& r is Continue
            &&& r->Continue_0.segment == Some(s.segment->Some_0.push(s.point->Some_0))
            &&& r->Continue_0.point is None
            &&& r->Continue_0.segments == s.segments
        }),
        spells(name@, "trkseg"@) && s.segment is Some && s.segment->Some_0.len() > 0 ==> ({
            let r = scan_step(s, XmlEvent::End(name));
            &&& r is Continue
            &&& r->Continue_0.segments == s.segments.push(s.segment->Some_0)
            &&& r->Continue_0.segment is None
        }),
{
    if spells(name@, "trkpt"@) || spells(name@, "trkseg"@) {
        proof_spellings_differ(name@);
    }
}

/// A name spelling `trkpt` or `trkseg` spells none of the other tag names the reading knows.
proof fn proof_spellings_differ(name: Seq<u8>)
    ensures
        spells(name, "trkpt"@) ==> !spells(name, "trk"@) && !spells(name, "name"@) && !spells(name, "time"@)
            && !spells(name, "ele"@) && !spells(name, "hdop"@),
        spells(name, "trkseg"@) ==> !spells(name, "trk"@) && !spells(name, "name"@) && !spells(name, "time"@)
            && !spells(name, "ele"@) && !spells(name, "hdop"@) && !spells(name, "trkpt"@),
{
    reveal_strlit("trkpt");
    reveal_strlit("trkseg");
    reveal_strlit("trk");
    reveal_strlit("name");
    reveal_strlit("time");
    reveal_strlit("ele");
    reveal_strlit("hdop");
}

} // verus!
