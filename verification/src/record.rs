//! Recordings: the events they hold, and how events are framed in a file.
//!
//! A file is a run of gzip members, one per event, and each member holds one
//! line. Completed events can be read while the file still grows, and what an
//! interrupted writer leaves behind the last of them is passed over. A plain
//! file of lines is read as well.

use crate::bytes;
use crate::gzip::{self, cut_behind, gunzipped, gzipped, is_member};
use crate::inspection::Inspection;
use crate::names::{self, is_ascending, text_before};
use crate::num::{self, digits, signed_digits};
use crate::text::{self, begins, ends, texts};
use crate::types::Sample;
use std::collections::VecDeque;
use vstd::prelude::*;
use vstd::string::*;
use vstd::utf8::*;

verus! {

/// The schema that this version writes and reads.
pub const SCHEMA: u32 = 1;

/// One event of a recording. Times count millionths of a second.
#[derive(Debug, Clone, PartialEq, Eq)]
pub enum Record {
    Session {
        schema: u32,
        timestamp: i64,
        interval_s: u64,
        chip: String,
        model: String,
        recorder_pid: u32,
    },
    Sample { timestamp: i64, elapsed_s: i64, gap: bool, sampler_ms: u64, sample: Box<Sample> },
    Marker { timestamp: i64, elapsed_s: i64, label: String },
    Context { timestamp: i64, elapsed_s: i64, assertions: String },
    Notice { timestamp: i64, message: String },
    Vm { elapsed_s: i64, inspection: Box<Inspection> },
    End { timestamp: i64 },
}

impl Record {
    /// The event starts no session, or one whose schema is known.
    pub open spec fn known(self) -> bool {
        match self {
            Record::Session { schema, .. } => schema == SCHEMA,
            _ => true,
        }
    }

    /// Whether a reader may take the event.
    pub fn is_known(&self) -> (r: bool)
        ensures
            r == self.known(),
    {
        match self {
            Record::Session { schema, .. } => *schema == SCHEMA,
            _ => true,
        }
    }
}

/// How a recording ends behind its last complete line.
#[derive(Debug, PartialEq, Eq)]
pub enum Ending {
    /// With that line.
    Whole,
    /// With a line that was not finished.
    PartialRecord,
    /// With a gzip member that was not finished.
    PartialMember,
    /// With a line that is not UTF-8.
    NotText,
    /// With a stream that cannot be decoded, and why.
    Damaged(String),
}

/// `Ending` with its message as a sequence.
pub ghost enum EndingView {
    Whole,
    PartialRecord,
    PartialMember,
    NotText,
    Damaged(Seq<char>),
}

impl View for Ending {
    type V = EndingView;

    open spec fn view(&self) -> EndingView {
        match self {
            Ending::Whole => EndingView::Whole,
            Ending::PartialRecord => EndingView::PartialRecord,
            Ending::PartialMember => EndingView::PartialMember,
            Ending::NotText => EndingView::NotText,
            Ending::Damaged(e) => EndingView::Damaged(e@),
        }
    }
}

/// The complete lines of a recording and what follows them.
#[derive(Debug, PartialEq, Eq)]
pub struct Recording {
    /// Each with its line feed.
    pub lines: Vec<String>,
    pub ending: Ending,
}

/// How a stream of bytes ended: behind its last unit, inside it, or with an
/// error.
pub type StreamEnd = Result<bool, Seq<char>>;

/// The place of the first line feed, or the length.
pub open spec fn line_end(data: Seq<u8>) -> int
    decreases data.len(),
{
    if data.len() == 0 || data[0] == 10 {
        0
    } else {
        1 + line_end(data.skip(1))
    }
}

/// What bytes without a line feed at the end of a stream come to.
pub open spec fn trailer(rest: Seq<u8>, end: StreamEnd) -> EndingView {
    match end {
        Err(e) => EndingView::Damaged(e),
        Ok(false) => EndingView::PartialMember,
        Ok(true) => if rest.len() == 0 {
            EndingView::Whole
        } else {
            EndingView::PartialRecord
        },
    }
}

/// The complete lines of a stream up to the first that is not UTF-8, and what
/// the reader meets behind them.
pub open spec fn records_in(data: Seq<u8>, end: StreamEnd) -> (Seq<Seq<char>>, EndingView)
    decreases data.len(),
{
    let n = line_end(data);
    if n < 0 || n >= data.len() {
        (seq![], trailer(data, end))
    } else if !valid_utf8(data.take(n + 1)) {
        (seq![], EndingView::NotText)
    } else {
        let (lines, ending) = records_in(data.skip(n + 1), end);
        (seq![decode_utf8(data.take(n + 1))] + lines, ending)
    }
}

/// The bytes start as a gzip member does.
pub open spec fn compressed(data: Seq<u8>) -> bool {
    data.len() >= 2 && data[0] == 0x1f && data[1] == 0x8b
}

/// The lines of a recording and its ending.
pub open spec fn recording_in(data: Seq<u8>) -> (Seq<Seq<char>>, EndingView) {
    if compressed(data) {
        records_in(gunzipped(data).0, gunzipped(data).1)
    } else {
        records_in(data, Ok(true))
    }
}

/// How an exec stream end reads.
pub open spec fn end_view(end: Result<bool, String>) -> StreamEnd {
    match end {
        Ok(whole) => Ok(whole),
        Err(e) => Err(e@),
    }
}

proof fn line_end_is_first(data: Seq<u8>)
    ensures
        0 <= line_end(data) <= data.len(),
        line_end(data) < data.len() ==> data[line_end(data)] == 10,
        forall|i: int| 0 <= i < line_end(data) ==> data[i] != 10,
    decreases data.len(),
{
    if data.len() > 0 && data[0] != 10 {
        line_end_is_first(data.skip(1));
        assert forall|i: int| 0 <= i < line_end(data) implies data[i] != 10 by {
            if i > 0 {
                assert(data.skip(1)[i - 1] == data[i]);
            }
        }
    }
}

proof fn line_end_is(data: Seq<u8>, n: int)
    requires
        0 <= n <= data.len(),
        n < data.len() ==> data[n] == 10,
        forall|i: int| 0 <= i < n ==> data[i] != 10,
    ensures
        line_end(data) == n,
{
    line_end_is_first(data);
}

/// Splits a decoded stream into lines. A line counts only with its line feed.
pub fn split_records(data: &[u8], end: Result<bool, String>) -> (r: Recording)
    ensures
        (texts(r.lines@), r.ending@) == records_in(data@, end_view(end)),
{
    let ghost all = records_in(data@, end_view(end));
    let mut lines: Vec<String> = Vec::new();
    let mut from: usize = 0;
    let mut at: usize = 0;
    let n: usize = data.len();
    proof {
        assert(data@.skip(0) =~= data@);
        assert(texts(lines@) + all.0 =~= all.0);
    }
    while at < n
        invariant
            from <= at <= n,
            n == data@.len(),
            forall|i: int| from <= i < at ==> data@[i] != 10,
            all == records_in(data@, end_view(end)),
            all.0 == texts(lines@) + records_in(data@.skip(from as int), end_view(end)).0,
            all.1 == records_in(data@.skip(from as int), end_view(end)).1,
        decreases n - at,
    {
        if data[at] == 10 {
            let ghost rest = data@.skip(from as int);
            proof {
                line_end_is(rest, at - from);
                assert(rest.take(at - from + 1) =~= data@.subrange(from as int, at + 1));
                assert(rest.skip(at - from + 1) =~= data@.skip(at + 1));
            }
            match bytes::utf8(vstd::slice::slice_subrange(data, from, at + 1)) {
                Some(line) => {
                    let ghost before = lines@;
                    lines.push(line);
                    proof {
                        assert(texts(lines@) =~= texts(before).push(line@));
                        assert(texts(before) + (seq![line@] + records_in(
                            data@.skip(at + 1),
                            end_view(end),
                        ).0) =~= texts(lines@) + records_in(data@.skip(at + 1), end_view(end)).0);
                    }
                    from = at + 1;
                },
                None => {
                    proof {
                        assert(texts(lines@) + seq![] =~= texts(lines@));
                    }
                    return Recording { lines, ending: Ending::NotText };
                },
            }
        }
        at += 1;
    }
    let ghost rest = data@.skip(from as int);
    proof {
        line_end_is(rest, rest.len() as int);
        assert(texts(lines@) + seq![] =~= texts(lines@));
    }
    let ending = match end {
        Err(e) => Ending::Damaged(e),
        Ok(false) => Ending::PartialMember,
        Ok(true) => {
            if from == n {
                Ending::Whole
            } else {
                Ending::PartialRecord
            }
        },
    };
    Recording { lines, ending }
}

/// Reads the bytes of a recording, compressed or not.
pub fn read(data: &[u8]) -> (r: Recording)
    ensures
        (texts(r.lines@), r.ending@) == recording_in(data@),
{
    let n: usize = data.len();
    if n >= 2 && data[0] == 0x1f && data[1] == 0x8b {
        let (out, end) = gzip::gunzip(data);
        split_records(&out, end)
    } else {
        split_records(data, Ok(true))
    }
}

/// Frames one serialized event: its line becomes a gzip member of its own.
pub fn frame(json: &[u8]) -> (r: Result<Vec<u8>, String>)
    ensures
        match r {
            Ok(v) => gzipped(json@.push(10)) == Ok::<Seq<u8>, Seq<char>>(v@) && is_member(
                v@,
                json@.push(10),
            ),
            Err(e) => gzipped(json@.push(10)) == Err::<Seq<u8>, Seq<char>>(e@),
        },
{
    let mut line: Vec<u8> = vstd::slice::slice_to_vec(json);
    line.push(10);
    gzip::gzip(&line)
}

/// The bytes of several parts, one after the other.
pub open spec fn run(parts: Seq<Seq<u8>>) -> Seq<u8>
    decreases parts.len(),
{
    if parts.len() == 0 {
        seq![]
    } else {
        parts[0] + run(parts.skip(1))
    }
}

/// One line of UTF-8: a line feed at its end and nowhere else.
pub open spec fn is_line(line: Seq<u8>) -> bool {
    &&& line.len() > 0
    &&& line.last() == 10
    &&& forall|i: int| 0 <= i < line.len() - 1 ==> line[i] != 10
    &&& valid_utf8(line)
}

/// The texts of some lines.
pub open spec fn line_texts(lines: Seq<Seq<u8>>) -> Seq<Seq<char>> {
    lines.map_values(|line: Seq<u8>| decode_utf8(line))
}

/// Whole lines at the front of a stream are read one by one, whatever follows
/// them.
pub proof fn whole_lines_are_read(lines: Seq<Seq<u8>>, rest: Seq<u8>, end: StreamEnd)
    requires
        forall|i: int| 0 <= i < lines.len() ==> is_line(#[trigger] lines[i]),
    ensures
        records_in(run(lines) + rest, end).0 == line_texts(lines) + records_in(rest, end).0,
        records_in(run(lines) + rest, end).1 == records_in(rest, end).1,
    decreases lines.len(),
{
    if lines.len() == 0 {
        assert(run(lines) + rest =~= rest);
        assert(line_texts(lines) + records_in(rest, end).0 =~= records_in(rest, end).0);
    } else {
        let first = lines[0];
        let more = lines.skip(1);
        let data = run(lines) + rest;
        assert(is_line(first));
        assert forall|i: int| 0 <= i < more.len() implies is_line(#[trigger] more[i]) by {
            assert(more[i] == lines[i + 1]);
        }
        whole_lines_are_read(more, rest, end);
        assert(data =~= first + (run(more) + rest));
        line_end_is(data, first.len() - 1);
        assert(data.take(first.len() as int) =~= first);
        assert(data.skip(first.len() as int) =~= run(more) + rest);
        assert(line_texts(lines) + records_in(rest, end).0 =~= seq![decode_utf8(first)] + (
        line_texts(more) + records_in(rest, end).0));
    }
}

proof fn run_of_last(parts: Seq<Seq<u8>>)
    requires
        parts.len() > 0,
    ensures
        run(parts) == run(parts.drop_last()) + parts.last(),
    decreases parts.len(),
{
    if parts.len() == 1 {
        assert(run(parts.skip(1)) =~= seq![]);
        assert(run(parts) =~= parts[0]);
        assert(run(parts.drop_last()) + parts.last() =~= parts[0]);
    } else {
        run_of_last(parts.skip(1));
        assert(parts.skip(1).drop_last() =~= parts.drop_last().skip(1));
        assert(run(parts) =~= run(parts.drop_last()) + parts.last());
    }
}

/// The members, one after the other, decode to their contents.
proof fn members_decode(members: Seq<Seq<u8>>, contents: Seq<Seq<u8>>)
    requires
        members.len() == contents.len(),
        members.len() > 0,
        forall|i: int|
            0 <= i < members.len() ==> is_member(#[trigger] members[i], contents[i]),
    ensures
        gunzipped(run(members)) == (run(contents), Ok::<bool, Seq<char>>(true)),
        compressed(run(members)),
    decreases members.len(),
{
    let less = members.drop_last();
    let inner = contents.drop_last();
    assert(is_member(members.last(), contents.last()));
    assert(is_member(members[0], contents[0]));
    run_of_last(members);
    run_of_last(contents);
    if less.len() == 0 {
        assert(run(less) + members.last() =~= members.last());
        assert(run(inner) + contents.last() =~= contents.last());
    } else {
        assert forall|i: int| 0 <= i < less.len() implies is_member(
            #[trigger] less[i],
            inner[i],
        ) by {
            assert(is_member(members[i], contents[i]));
        }
        members_decode(less, inner);
    }
    assert(run(members)[0] == members[0][0]);
    assert(run(members)[1] == members[0][1]);
}

/// What was written is read back: a file of framed events gives the line of
/// each, in the order in which they were written, and nothing else.
pub proof fn written_events_are_read_back(members: Seq<Seq<u8>>, lines: Seq<Seq<u8>>)
    requires
        members.len() == lines.len(),
        forall|i: int| 0 <= i < members.len() ==> is_member(#[trigger] members[i], lines[i]),
        forall|i: int| 0 <= i < lines.len() ==> is_line(#[trigger] lines[i]),
    ensures
        recording_in(run(members)) == (line_texts(lines), EndingView::Whole),
{
    let nothing = Seq::<u8>::empty();
    assert(run(lines) + nothing =~= run(lines));
    whole_lines_are_read(lines, nothing, Ok(true));
    assert(line_texts(lines) + records_in(nothing, Ok(true)).0 =~= line_texts(lines));
    if members.len() == 0 {
        assert(run(members) =~= run(lines));
    } else {
        members_decode(members, lines);
    }
}

/// A line that was cut off holds no line feed, or it is the whole line.
proof fn front_of_line(line: Seq<u8>, front: Seq<u8>, end: StreamEnd)
    requires
        is_line(line),
        front.is_prefix_of(line),
        end == Ok::<bool, Seq<char>>(false),
    ensures
        front != line ==> records_in(front, end) == (
            Seq::<Seq<char>>::empty(),
            EndingView::PartialMember,
        ),
        front == line ==> records_in(front, end) == (
            seq![decode_utf8(line)],
            EndingView::PartialMember,
        ),
{
    if front == line {
        line_end_is(front, line.len() - 1);
        assert(front.take(line.len() as int) =~= line);
        assert(front.skip(line.len() as int) =~= seq![]);
        assert(records_in(seq![], end) == (Seq::<Seq<char>>::empty(), EndingView::PartialMember));
        assert(seq![decode_utf8(line)] + Seq::<Seq<char>>::empty() =~= seq![decode_utf8(line)]);
    } else {
        if front.len() == line.len() {
            assert(front =~= line);
        }
        line_end_is(front, front.len() as int);
    }
}

/// An interrupted writer costs at most the event it was writing: a file whose
/// last member was cut off anywhere gives the line of every event before it,
/// possibly the line of that event, and nothing else.
pub proof fn completed_events_survive_an_interrupted_writer(
    members: Seq<Seq<u8>>,
    lines: Seq<Seq<u8>>,
    cut: int,
)
    requires
        members.len() == lines.len(),
        members.len() > 0,
        forall|i: int| 0 <= i < members.len() ==> is_member(#[trigger] members[i], lines[i]),
        forall|i: int| 0 <= i < lines.len() ==> is_line(#[trigger] lines[i]),
        0 < cut < members.last().len(),
    ensures
        ({
            let r = recording_in(run(members.drop_last()) + members.last().take(cut));
            &&& r.1 == EndingView::PartialMember || r.1 == EndingView::PartialRecord
            &&& r.0 == line_texts(lines.drop_last()) || r.0 == line_texts(lines)
        }),
{
    let whole = members.drop_last();
    let before = lines.drop_last();
    let part = members.last().take(cut);
    let data = run(whole) + part;
    assert(is_member(members.last(), lines.last()));
    assert(is_line(lines.last()));
    assert forall|i: int| 0 <= i < whole.len() implies is_member(
        #[trigger] whole[i],
        before[i],
    ) by {
        assert(is_member(members[i], lines[i]));
    }
    assert forall|i: int| 0 <= i < before.len() implies is_line(#[trigger] before[i]) by {
        assert(is_line(lines[i]));
    }
    let got = gunzipped(data).0;
    let front = got.skip(run(before).len() as int);
    if whole.len() > 0 {
        members_decode(whole, before);
        assert(cut_behind(gunzipped(data), run(before), lines.last()));
        assert(got =~= run(before) + front);
        assert(front.is_prefix_of(lines.last())) by {
            assert(front =~= (run(before) + lines.last()).skip(run(before).len() as int).take(
                front.len() as int,
            ));
            assert((run(before) + lines.last()).skip(run(before).len() as int) =~= lines.last());
        }
        assert(compressed(data)) by {
            assert(data[0] == run(whole)[0]);
            assert(data[1] == run(whole)[1]);
        }
    } else {
        assert(run(whole) =~= seq![]);
        assert(run(before) =~= seq![]);
        assert(data =~= part);
        assert(front =~= got);
        assert(run(before) + front =~= got);
        if cut == 1 {
            line_end_is(data, 1);
            assert(recording_in(data).0 =~= line_texts(before));
        } else {
            assert(compressed(data));
        }
    }
    whole_lines_are_read(before, front, Ok(false));
    front_of_line(lines.last(), front, Ok(false));
    assert(line_texts(before) + Seq::<Seq<char>>::empty() =~= line_texts(before));
    assert(line_texts(before) + seq![decode_utf8(lines.last())] =~= line_texts(lines));
}

/// An interrupted writer of a plain file costs the line it was writing and no
/// other, wherever it was cut, be it inside a character.
pub proof fn completed_lines_survive_an_interrupted_writer(lines: Seq<Seq<u8>>, partial: Seq<u8>)
    requires
        forall|i: int| 0 <= i < lines.len() ==> is_line(#[trigger] lines[i]),
        partial.len() > 0,
        forall|i: int| 0 <= i < partial.len() ==> partial[i] != 10,
        !compressed(run(lines) + partial),
    ensures
        recording_in(run(lines) + partial) == (line_texts(lines), EndingView::PartialRecord),
{
    whole_lines_are_read(lines, partial, Ok(true));
    line_end_is(partial, partial.len() as int);
    assert(line_texts(lines) + Seq::<Seq<char>>::empty() =~= line_texts(lines));
}

/// The events that a reader takes from the lines it parsed, and what it
/// returns: their number, or the first error.
pub open spec fn accepted(
    parsed: Seq<Result<Record, String>>,
    ending: EndingView,
    count: int,
) -> (Seq<Record>, Result<int, Seq<char>>)
    decreases parsed.len(),
{
    if parsed.len() == 0 {
        (seq![], match ending {
            EndingView::NotText => Err("stream did not contain valid UTF-8"@),
            EndingView::Damaged(e) => Err(e),
            _ => Ok(count),
        })
    } else {
        match parsed[0] {
            Err(e) => (seq![], Err("record "@ + digits((count + 1) as nat) + ": "@ + e@)),
            Ok(record) => if !record.known() {
                (seq![], Err("Unsupported recording schema"@))
            } else {
                let (more, end) = accepted(parsed.skip(1), ending, count + 1);
                (seq![record] + more, end)
            },
        }
    }
}

/// What the result of a read says.
pub open spec fn outcome(r: Result<usize, String>) -> Result<int, Seq<char>> {
    match r {
        Ok(n) => Ok(n as int),
        Err(e) => Err(e@),
    }
}

/// Takes the parsed lines of a recording in order, up to the first that is no
/// event or that starts a session of another schema. A partial record or
/// member at the end is passed over.
pub fn accept(parsed: VecDeque<Result<Record, String>>, ending: Ending) -> (r: (
    Vec<Record>,
    Result<usize, String>,
))
    ensures
        (r.0@, outcome(r.1)) == accepted(parsed@, ending@, 0),
{
    let ghost all = accepted(parsed@, ending@, 0);
    let mut taken: Vec<Record> = Vec::new();
    let mut rest = parsed;
    let n: usize = rest.len();
    let mut i: usize = 0;
    proof {
        assert(parsed@.skip(0) =~= parsed@);
        assert(seq![] + all.0 =~= all.0);
    }
    while i < n
        invariant
            i <= n,
            n == parsed@.len(),
            rest@ == parsed@.skip(i as int),
            all == accepted(parsed@, ending@, 0),
            all.0 == taken@ + accepted(parsed@.skip(i as int), ending@, i as int).0,
            all.1 == accepted(parsed@.skip(i as int), ending@, i as int).1,
        decreases n - i,
    {
        let ghost here = parsed@.skip(i as int);
        let next = rest.pop_front();
        proof {
            assert(here.skip(1) =~= parsed@.skip(i + 1));
            assert(rest@ =~= here.skip(1));
            assert(next == Some(here[0]));
            assert(taken@ + seq![] =~= taken@);
        }
        match next {
            Some(Ok(record)) => {
                if !record.is_known() {
                    return (taken, Err(text::copy("Unsupported recording schema")));
                }
                let ghost before = taken@;
                taken.push(record);
                proof {
                    let more = accepted(parsed@.skip(i + 1), ending@, i + 1).0;
                    assert(before + (seq![record] + more) =~= taken@ + more);
                }
            },
            Some(Err(e)) => {
                let mut m = text::copy("record ");
                m.append(num::decimal(i as u128 + 1).as_str());
                m.append(": ");
                m.append(e.as_str());
                return (taken, Err(m));
            },
            None => {},
        }
        i += 1;
    }
    proof {
        assert(taken@ + seq![] =~= taken@);
    }
    match ending {
        Ending::NotText => (taken, Err(text::copy("stream did not contain valid UTF-8"))),
        Ending::Damaged(e) => (taken, Err(e)),
        _ => (taken, Ok(n)),
    }
}

/// An event that can be taken.
pub open spec fn is_sound(parsed: Result<Record, String>) -> bool {
    parsed is Ok && parsed->Ok_0.known()
}

/// The events of some parsed lines that can all be taken.
pub open spec fn events(parsed: Seq<Result<Record, String>>) -> Seq<Record> {
    parsed.map_values(|r: Result<Record, String>| r->Ok_0)
}

/// What an interrupted writer left at the end is passed over: if every
/// complete line is an event of a known schema, all of them are taken.
pub proof fn partial_endings_are_passed_over(
    parsed: Seq<Result<Record, String>>,
    ending: EndingView,
    count: int,
)
    requires
        forall|i: int| 0 <= i < parsed.len() ==> is_sound(#[trigger] parsed[i]),
        ending is Whole || ending is PartialRecord || ending is PartialMember,
    ensures
        accepted(parsed, ending, count) == (
            events(parsed),
            Ok::<int, Seq<char>>(count + parsed.len()),
        ),
    decreases parsed.len(),
{
    if parsed.len() == 0 {
        assert(events(parsed) =~= seq![]);
    } else {
        let rest = parsed.skip(1);
        assert(is_sound(parsed[0]));
        assert forall|i: int| 0 <= i < rest.len() implies is_sound(#[trigger] rest[i]) by {
            assert(is_sound(parsed[i + 1]));
        }
        partial_endings_are_passed_over(rest, ending, count + 1);
        assert(events(parsed) =~= seq![parsed[0]->Ok_0] + events(rest));
    }
}

/// A corrupt complete line, or a session of another schema, is an error. The
/// events before it are taken and nothing after it.
pub proof fn corrupt_lines_are_errors(
    parsed: Seq<Result<Record, String>>,
    ending: EndingView,
    count: int,
    bad: int,
)
    requires
        0 <= bad < parsed.len(),
        !is_sound(parsed[bad]),
        forall|i: int| 0 <= i < bad ==> is_sound(#[trigger] parsed[i]),
    ensures
        accepted(parsed, ending, count).0 == events(parsed.take(bad)),
        accepted(parsed, ending, count).1 is Err,
    decreases parsed.len(),
{
    if bad == 0 {
        assert(events(parsed.take(0)) =~= seq![]);
    } else {
        let rest = parsed.skip(1);
        assert(is_sound(parsed[0]));
        assert forall|i: int| 0 <= i < bad - 1 implies is_sound(#[trigger] rest[i]) by {
            assert(is_sound(parsed[i + 1]));
        }
        corrupt_lines_are_errors(rest, ending, count + 1, bad - 1);
        assert(events(parsed.take(bad)) =~= seq![parsed[0]->Ok_0] + events(rest.take(bad - 1)));
    }
}

/// The name is that of a recording.
pub open spec fn names_recording(name: Seq<char>) -> bool {
    begins(name, "session-"@) && (ends(name, ".jsonl"@) || ends(name, ".jsonl.gz"@))
}

/// Whether a file name is that of a recording.
pub fn is_recording(name: &str) -> (r: bool)
    ensures
        r == names_recording(name@),
{
    let n = text::chars(name);
    text::starts_with(&n, "session-") && (text::ends_with(&n, ".jsonl") || text::ends_with(
        &n,
        ".jsonl.gz",
    ))
}

/// The name of the file that a session started at `millis` by process `pid`
/// records to.
pub fn session_name(millis: u64, pid: u32) -> (r: String)
    ensures
        r@ == "session-"@ + digits(millis as nat) + "-"@ + digits(pid as nat) + ".jsonl.gz"@,
{
    let mut r = text::copy("session-");
    r.append(num::decimal(millis as u128).as_str());
    r.append("-");
    r.append(num::decimal(pid as u128).as_str());
    r.append(".jsonl.gz");
    r
}

/// A name that a session gives its file is that of a recording.
pub proof fn a_session_names_a_recording(millis: nat, pid: nat)
    ensures
        names_recording(
            "session-"@ + digits(millis) + "-"@ + digits(pid) + ".jsonl.gz"@,
        ),
{
    let head = "session-"@;
    let tail = ".jsonl.gz"@;
    let name = head + digits(millis) + "-"@ + digits(pid) + tail;
    assert(name.subrange(0, head.len() as int) =~= head);
    assert(name.take(head.len() as int) =~= head);
    assert(name.skip(name.len() - tail.len()) =~= tail);
    assert(name.subrange(name.len() - tail.len(), name.len() as int) =~= tail);
}

/// Finds the recording whose name comes last, among equals the last of them.
pub fn latest(entries: &Vec<String>) -> (r: Option<usize>)
    ensures
        match r {
            Some(i) => i < entries@.len() && names_recording(entries@[i as int]@) && forall|j: int|
                0 <= j < entries@.len() && names_recording(#[trigger] entries@[j]@) ==> text_before(
                    entries@[j]@,
                    entries@[i as int]@,
                ) || (entries@[j]@ == entries@[i as int]@ && j <= i),
            None => forall|j: int|
                0 <= j < entries@.len() ==> !names_recording(#[trigger] entries@[j]@),
        },
{
    let mut best: Option<usize> = None;
    let mut i: usize = 0;
    while i < entries.len()
        invariant
            i <= entries@.len(),
            match best {
                Some(b) => b < i && names_recording(entries@[b as int]@) && forall|j: int|
                    0 <= j < i && names_recording(#[trigger] entries@[j]@) ==> text_before(
                        entries@[j]@,
                        entries@[b as int]@,
                    ) || (entries@[j]@ == entries@[b as int]@ && j <= b),
                None => forall|j: int| 0 <= j < i ==> !names_recording(#[trigger] entries@[j]@),
            },
        decreases entries.len() - i,
    {
        if is_recording(entries[i].as_str()) {
            match best {
                None => {
                    best = Some(i);
                },
                Some(b) => {
                    let here = text::chars(entries[i].as_str());
                    let there = text::chars(entries[b].as_str());
                    if !names::is_before(&here, &there) {
                        proof {
                            names::text_order_is_total(here@, there@);
                            assert forall|j: int|
                                0 <= j < i && names_recording(#[trigger] entries@[j]@) implies
                                text_before(entries@[j]@, here@) || entries@[j]@ == here@ by {
                                if text_before(entries@[j]@, there@) && text_before(there@, here@) {
                                    names::text_order_is_transitive(entries@[j]@, there@, here@);
                                }
                            }
                        }
                        best = Some(i);
                    } else {
                        proof {
                            names::text_order_is_total(here@, there@);
                        }
                    }
                },
            }
        }
        i += 1;
    }
    best
}

/// The names of recordings among some names.
pub open spec fn recordings(entries: Seq<String>) -> Seq<Seq<char>>
    decreases entries.len(),
{
    if entries.len() == 0 {
        seq![]
    } else if names_recording(entries.last()@) {
        recordings(entries.drop_last()).push(entries.last()@)
    } else {
        recordings(entries.drop_last())
    }
}

/// The recordings among some names, in ascending order.
pub fn sessions(entries: &Vec<String>) -> (r: Vec<String>)
    ensures
        exists|order: Seq<usize>| #[trigger]
            is_ascending(recordings(entries@), order) && texts(r@) == Seq::new(
                order.len(),
                |i: int| recordings(entries@)[order[i] as int],
            ),
{
    let mut found: Vec<String> = Vec::new();
    let mut i: usize = 0;
    proof {
        assert(entries@.take(0) =~= seq![]);
        assert(texts(found@) =~= seq![]);
    }
    while i < entries.len()
        invariant
            i <= entries@.len(),
            texts(found@) == recordings(entries@.take(i as int)),
        decreases entries.len() - i,
    {
        assert(entries@.take(i + 1).drop_last() =~= entries@.take(i as int));
        if is_recording(entries[i].as_str()) {
            let ghost before = found@;
            found.push(text::copy(entries[i].as_str()));
            assert(texts(found@) =~= texts(before).push(entries@[i as int]@));
        }
        i += 1;
    }
    assert(entries@.take(i as int) =~= entries@);
    let order = names::ascending(&found);
    let mut out: Vec<String> = Vec::new();
    let mut k: usize = 0;
    assert(texts(found@).len() == found@.len());
    while k < order.len()
        invariant
            k <= order@.len(),
            texts(found@) == recordings(entries@),
            texts(found@).len() == found@.len(),
            forall|p: int| 0 <= p < order@.len() ==> (#[trigger] order@[p]) < found@.len(),
            out@.len() == k,
            forall|p: int|
                0 <= p < k ==> (#[trigger] out@[p])@ == recordings(entries@)[order@[p] as int],
        decreases order.len() - k,
    {
        assert(texts(found@)[order@[k as int] as int] == found@[order@[k as int] as int]@);
        out.push(text::copy(found[order[k]].as_str()));
        k += 1;
    }
    assert(texts(out@) =~= Seq::new(
        order@.len(),
        |i: int| recordings(entries@)[order@[i] as int],
    ));
    out
}

/// The name of the file that an inspection of a virtual machine is saved to.
pub fn inspection_name(pid: i32, millis: u64) -> (r: String)
    ensures
        r@ == "vm-"@ + signed_digits(pid as int) + "-"@ + digits(millis as nat) + ".json"@,
{
    let mut r = text::copy("vm-");
    r.append(num::signed(pid as i64).as_str());
    r.append("-");
    r.append(num::decimal(millis as u128).as_str());
    r.append(".json");
    r
}

/// The name of the file that the stacks of a process are saved to.
pub fn stack_name(pid: i32, seconds: u64) -> (r: String)
    ensures
        r@ == "stack-"@ + signed_digits(pid as int) + "-"@ + digits(seconds as nat) + ".txt"@,
{
    let mut r = text::copy("stack-");
    r.append(num::signed(pid as i64).as_str());
    r.append("-");
    r.append(num::decimal(seconds as u128).as_str());
    r.append(".txt");
    r
}

} // verus!
