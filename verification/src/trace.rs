//! Traces: what one run of a rule read and wrote, and the line-oriented file
//! that records it.

use crate::build_id::{parse_build_id, uuid_of_text, uuid_text, BuildId};
use crate::error::ParseError;
use crate::filestamp::{
    lemma_stamp_round_trip, parse_stamp, plain_stamp, stamp_text, FileStamp, StampModel,
};
use crate::hash::{hex_text, lemma_hex_round_trip, parse_hash, ContentHash};
use crate::job::{
    env_var_text, job_text, lemma_env_var_round_trip, lemma_job_round_trip, parse_env_var,
    parse_job, plain_job, EnvVar, EnvVarModel, JobModel, JobSpec,
};
use crate::text::{
    chars_of, find, lemma_first_index_concat, push_chars, push_str, same_chars, slice, split,
    split_chars, split_once, string_of, views,
};
use crate::timestamp::{
    earliest, parse_timestamp, rfc3339_of_text, rfc3339_text, writable, Timestamp,
};
use vstd::prelude::*;
use vstd::string::*;

verus! {

/// One record of a trace file.
pub enum LineModel {
    Job(JobModel),
    Source(StampModel),
    Generated(StampModel),
    Produced(StampModel),
    EnvVar(EnvVarModel),
    Data(Seq<u8>),
    ValidFor(BuildId),
    ValidUntil(Timestamp),
}

/// The word that a line starts with.
pub open spec fn tag_text(l: LineModel) -> Seq<char> {
    match l {
        LineModel::Job(_) => "job"@,
        LineModel::Source(_) => "source"@,
        LineModel::Generated(_) => "generated"@,
        LineModel::Produced(_) => "produced"@,
        LineModel::EnvVar(_) => "env_var"@,
        LineModel::Data(_) => "data"@,
        LineModel::ValidFor(_) => "valid_for"@,
        LineModel::ValidUntil(_) => "valid_until"@,
    }
}

/// What follows the tag and the space.
pub open spec fn payload_text(l: LineModel) -> Seq<char> {
    match l {
        LineModel::Job(j) => job_text(j),
        LineModel::Source(s) => stamp_text(s),
        LineModel::Generated(s) => stamp_text(s),
        LineModel::Produced(s) => stamp_text(s),
        LineModel::EnvVar(e) => env_var_text(e),
        LineModel::Data(h) => hex_text(h),
        LineModel::ValidFor(id) => uuid_text(id.0),
        LineModel::ValidUntil(t) => rfc3339_text(t.secs, t.nanos),
    }
}

/// The textual form of a line: the tag, a space, the payload.
pub open spec fn line_text(l: LineModel) -> Seq<char> {
    tag_text(l) + seq![' '] + payload_text(l)
}

/// The tag of a text and what follows its first space; a text without a space
/// is all tag.
pub open spec fn tag_and_rest(text: Seq<char>) -> (Seq<char>, Seq<char>) {
    match split_once(text, ' ') {
        Some(p) => p,
        None => (text, Seq::empty()),
    }
}

/// The kinds of line, one for each tag.
#[derive(Clone, Copy, Debug, PartialEq, Eq, Structural)]
pub enum LineTag {
    Job,
    Source,
    Generated,
    Produced,
    EnvVar,
    Data,
    ValidFor,
    ValidUntil,
}

/// The kind of line that a tag announces.
pub open spec fn tag_of(tag: Seq<char>) -> Option<LineTag> {
    if tag == "job"@ {
        Some(LineTag::Job)
    } else if tag == "source"@ {
        Some(LineTag::Source)
    } else if tag == "generated"@ {
        Some(LineTag::Generated)
    } else if tag == "produced"@ {
        Some(LineTag::Produced)
    } else if tag == "env_var"@ {
        Some(LineTag::EnvVar)
    } else if tag == "data"@ {
        Some(LineTag::Data)
    } else if tag == "valid_for"@ {
        Some(LineTag::ValidFor)
    } else if tag == "valid_until"@ {
        Some(LineTag::ValidUntil)
    } else {
        None
    }
}

/// The line of a given kind that a payload stands for.
pub open spec fn parse_payload(tag: LineTag, rest: Seq<char>) -> Result<LineModel, ParseError> {
    match tag {
        LineTag::Job => match parse_job(rest) {
            Ok(j) => Ok(LineModel::Job(j)),
            Err(e) => Err(e),
        },
        LineTag::Source => match parse_stamp(rest) {
            Ok(s) => Ok(LineModel::Source(s)),
            Err(e) => Err(e),
        },
        LineTag::Generated => match parse_stamp(rest) {
            Ok(s) => Ok(LineModel::Generated(s)),
            Err(e) => Err(e),
        },
        LineTag::Produced => match parse_stamp(rest) {
            Ok(s) => Ok(LineModel::Produced(s)),
            Err(e) => Err(e),
        },
        LineTag::EnvVar => match parse_env_var(rest) {
            Ok(x) => Ok(LineModel::EnvVar(x)),
            Err(e) => Err(e),
        },
        LineTag::Data => match parse_hash(rest) {
            Ok(h) => Ok(LineModel::Data(h)),
            Err(e) => Err(e),
        },
        LineTag::ValidFor => match parse_build_id(rest) {
            Ok(id) => Ok(LineModel::ValidFor(id)),
            Err(e) => Err(e),
        },
        LineTag::ValidUntil => match parse_timestamp(rest) {
            Ok(t) => Ok(LineModel::ValidUntil(t)),
            Err(e) => Err(e),
        },
    }
}

/// The line that a text stands for: its tag says which kind, the rest is the
/// payload.
pub open spec fn parse_line(text: Seq<char>) -> Result<LineModel, ParseError> {
    let (tag, rest) = tag_and_rest(text);
    match tag_of(tag) {
        Some(kind) => parse_payload(kind, rest),
        None => Err(ParseError::UnknownTag),
    }
}

/// A line whose fields do not disturb its text.
pub open spec fn plain_line(l: LineModel) -> bool {
    match l {
        LineModel::Job(j) => plain_job(j),
        LineModel::Source(s) => plain_stamp(s),
        LineModel::Generated(s) => plain_stamp(s),
        LineModel::Produced(s) => plain_stamp(s),
        LineModel::EnvVar(e) => !e.key.contains('='),
        LineModel::Data(h) => h.len() == 32,
        LineModel::ValidFor(_) => true,
        LineModel::ValidUntil(t) => writable(t),
    }
}

/// The text of the line's id or time reads back as that id or time. This holds
/// of every text that `to_string` returns.
pub open spec fn reads_back(l: LineModel) -> bool {
    match l {
        LineModel::ValidFor(id) => uuid_of_text(uuid_text(id.0)) == Some(id.0),
        LineModel::ValidUntil(t) => rfc3339_of_text(rfc3339_text(t.secs, t.nanos)) == Some(
            (t.secs, t.nanos),
        ),
        _ => true,
    }
}

/// No tag holds a space or a line break.
pub proof fn lemma_tags(l: LineModel)
    ensures
        !tag_text(l).contains(' '),
        !tag_text(l).contains('\n'),
{
    reveal_strlit("job");
    reveal_strlit("source");
    reveal_strlit("generated");
    reveal_strlit("produced");
    reveal_strlit("env_var");
    reveal_strlit("data");
    reveal_strlit("valid_for");
    reveal_strlit("valid_until");
    let tag = tag_text(l);
    assert forall|i: int| 0 <= i < tag.len() implies tag[i] != ' ' && tag[i] != '\n' by {}
}

/// No two tags are the same word.
pub proof fn lemma_tags_differ()
    ensures
        "job"@ != "source"@,
        "job"@ != "generated"@,
        "job"@ != "produced"@,
        "job"@ != "env_var"@,
        "job"@ != "data"@,
        "job"@ != "valid_for"@,
        "job"@ != "valid_until"@,
        "source"@ != "generated"@,
        "source"@ != "produced"@,
        "source"@ != "env_var"@,
        "source"@ != "data"@,
        "source"@ != "valid_for"@,
        "source"@ != "valid_until"@,
        "generated"@ != "produced"@,
        "generated"@ != "env_var"@,
        "generated"@ != "data"@,
        "generated"@ != "valid_for"@,
        "generated"@ != "valid_until"@,
        "produced"@ != "env_var"@,
        "produced"@ != "data"@,
        "produced"@ != "valid_for"@,
        "produced"@ != "valid_until"@,
        "env_var"@ != "data"@,
        "env_var"@ != "valid_for"@,
        "env_var"@ != "valid_until"@,
        "data"@ != "valid_for"@,
        "data"@ != "valid_until"@,
        "valid_for"@ != "valid_until"@,
{
    reveal_strlit("job");
    reveal_strlit("source");
    reveal_strlit("generated");
    reveal_strlit("produced");
    reveal_strlit("env_var");
    reveal_strlit("data");
    reveal_strlit("valid_for");
    reveal_strlit("valid_until");
    assert("job"@.len() == 3);
    assert("source"@.len() == 6);
    assert("generated"@.len() == 9);
    assert("produced"@.len() == 8);
    assert("env_var"@.len() == 7);
    assert("data"@.len() == 4);
    assert("valid_for"@.len() == 9);
    assert("valid_until"@.len() == 11);
    assert("generated"@[0] == 'g');
    assert("valid_for"@[0] == 'v');
}

/// The text of a line splits into its tag and its payload.
pub proof fn lemma_line_parts(l: LineModel)
    ensures
        tag_and_rest(line_text(l)) == (tag_text(l), payload_text(l)),
{
    lemma_tags(l);
    lemma_first_index_concat(tag_text(l), ' ', payload_text(l));
}

/// A plain `job` line reads back.
proof fn lemma_job_line(j: JobModel)
    requires
        plain_job(j),
    ensures
        parse_line(line_text(LineModel::Job(j))) == Ok::<LineModel, ParseError>(LineModel::Job(j)),
{
    lemma_line_parts(LineModel::Job(j));
    lemma_job_round_trip(j);
}

/// A plain `source` line reads back.
proof fn lemma_source_line(s: StampModel)
    requires
        plain_stamp(s),
    ensures
        parse_line(line_text(LineModel::Source(s))) == Ok::<LineModel, ParseError>(
            LineModel::Source(s),
        ),
{
    lemma_line_parts(LineModel::Source(s));
    lemma_tags_differ();
    lemma_stamp_round_trip(s);
}

/// A plain `generated` line reads back.
proof fn lemma_generated_line(s: StampModel)
    requires
        plain_stamp(s),
    ensures
        parse_line(line_text(LineModel::Generated(s))) == Ok::<LineModel, ParseError>(
            LineModel::Generated(s),
        ),
{
    lemma_line_parts(LineModel::Generated(s));
    lemma_tags_differ();
    lemma_stamp_round_trip(s);
}

/// A plain `produced` line reads back.
proof fn lemma_produced_line(s: StampModel)
    requires
        plain_stamp(s),
    ensures
        parse_line(line_text(LineModel::Produced(s))) == Ok::<LineModel, ParseError>(
            LineModel::Produced(s),
        ),
{
    lemma_line_parts(LineModel::Produced(s));
    lemma_tags_differ();
    lemma_stamp_round_trip(s);
}

/// A plain `env_var` line reads back.
proof fn lemma_env_var_line(e: EnvVarModel)
    requires
        !e.key.contains('='),
    ensures
        parse_line(line_text(LineModel::EnvVar(e))) == Ok::<LineModel, ParseError>(
            LineModel::EnvVar(e),
        ),
{
    lemma_line_parts(LineModel::EnvVar(e));
    lemma_tags_differ();
    lemma_env_var_round_trip(e);
}

/// A plain `data` line reads back.
proof fn lemma_data_line(h: Seq<u8>)
    requires
        h.len() == 32,
    ensures
        parse_line(line_text(LineModel::Data(h))) == Ok::<LineModel, ParseError>(LineModel::Data(h)),
{
    lemma_line_parts(LineModel::Data(h));
    lemma_tags_differ();
    lemma_hex_round_trip(h);
}

/// A plain `valid_for` line reads back.
proof fn lemma_valid_for_line(id: BuildId)
    requires
        reads_back(LineModel::ValidFor(id)),
    ensures
        parse_line(line_text(LineModel::ValidFor(id))) == Ok::<LineModel, ParseError>(
            LineModel::ValidFor(id),
        ),
{
    lemma_line_parts(LineModel::ValidFor(id));
    lemma_tags_differ();
}

/// A plain `valid_until` line reads back.
proof fn lemma_valid_until_line(t: Timestamp)
    requires
        reads_back(LineModel::ValidUntil(t)),
    ensures
        parse_line(line_text(LineModel::ValidUntil(t))) == Ok::<LineModel, ParseError>(
            LineModel::ValidUntil(t),
        ),
{
    lemma_line_parts(LineModel::ValidUntil(t));
    lemma_tags_differ();
}

/// Writing a plain line and reading the text gives the line back.
pub proof fn lemma_line_round_trip(l: LineModel)
    requires
        plain_line(l),
        reads_back(l),
    ensures
        parse_line(line_text(l)) == Ok::<LineModel, ParseError>(l),
{
    match l {
        LineModel::Job(j) => {
            lemma_job_line(j);
        },
        LineModel::Source(s) => {
            lemma_source_line(s);
        },
        LineModel::Generated(s) => {
            lemma_generated_line(s);
        },
        LineModel::Produced(s) => {
            lemma_produced_line(s);
        },
        LineModel::EnvVar(e) => {
            lemma_env_var_line(e);
        },
        LineModel::Data(h) => {
            lemma_data_line(h);
        },
        LineModel::ValidFor(id) => {
            lemma_valid_for_line(id);
        },
        LineModel::ValidUntil(t) => {
            lemma_valid_until_line(t);
        },
    }
}

/// One record of a trace file.
#[derive(Debug, PartialEq, Eq)]
pub enum TraceFileLine {
    /// The header: which job the trace belongs to.
    Job(JobSpec),
    /// A file that the rule read and that no rule produced.
    Source(FileStamp),
    /// A file that the rule read and that another rule produced.
    Generated(FileStamp),
    /// The file that the rule wrote.
    Produced(FileStamp),
    /// An environment variable that the rule declared itself sensitive to.
    EnvVar(EnvVar),
    /// Data that was streamed in and counts as one more dependency.
    Data(ContentHash),
    /// The output can be used again only within this build.
    ValidFor(BuildId),
    /// The output can be used again only until this time.
    ValidUntil(Timestamp),
}

impl View for TraceFileLine {
    type V = LineModel;

    open spec fn view(&self) -> LineModel {
        match self {
            TraceFileLine::Job(j) => LineModel::Job(j@),
            TraceFileLine::Source(s) => LineModel::Source(s@),
            TraceFileLine::Generated(s) => LineModel::Generated(s@),
            TraceFileLine::Produced(s) => LineModel::Produced(s@),
            TraceFileLine::EnvVar(e) => LineModel::EnvVar(e@),
            TraceFileLine::Data(h) => LineModel::Data(h@),
            TraceFileLine::ValidFor(id) => LineModel::ValidFor(*id),
            TraceFileLine::ValidUntil(t) => LineModel::ValidUntil(*t),
        }
    }
}

impl Clone for TraceFileLine {
    fn clone(&self) -> (r: Self)
        ensures
            r@ == self@,
    {
        match self {
            TraceFileLine::Job(j) => TraceFileLine::Job(j.clone()),
            TraceFileLine::Source(s) => TraceFileLine::Source(s.clone()),
            TraceFileLine::Generated(s) => TraceFileLine::Generated(s.clone()),
            TraceFileLine::Produced(s) => TraceFileLine::Produced(s.clone()),
            TraceFileLine::EnvVar(e) => TraceFileLine::EnvVar(e.clone()),
            TraceFileLine::Data(h) => TraceFileLine::Data(*h),
            TraceFileLine::ValidFor(id) => TraceFileLine::ValidFor(*id),
            TraceFileLine::ValidUntil(t) => TraceFileLine::ValidUntil(*t),
        }
    }
}

/// A line that can be written: its time, if it has one, is before year 10000.
pub open spec fn writable_line(l: LineModel) -> bool {
    l matches LineModel::ValidUntil(t) ==> writable(t)
}

impl TraceFileLine {
    /// The textual form: the tag, a space, the payload. The text of a plain
    /// line reads back as the same line.
    pub fn to_string(&self) -> (s: String)
        requires
            writable_line(self@),
        ensures
            s@ == line_text(self@),
            reads_back(self@),
            plain_line(self@) ==> parse_line(s@) == Ok::<LineModel, ParseError>(self@),
    {
        let chars = self.to_chars();
        string_of(&chars)
    }

    /// The characters of the textual form.
    pub fn to_chars(&self) -> (out: Vec<char>)
        requires
            writable_line(self@),
        ensures
            out@ == line_text(self@),
            reads_back(self@),
            plain_line(self@) ==> parse_line(out@) == Ok::<LineModel, ParseError>(self@),
    {
        let mut out: Vec<char> = Vec::new();
        match self {
            TraceFileLine::Job(j) => {
                push_str(&mut out, "job");
                out.push(' ');
                let payload = j.to_chars();
                push_chars(&mut out, &payload);
            },
            TraceFileLine::Source(s) => {
                push_str(&mut out, "source");
                out.push(' ');
                push_str(&mut out, s.to_string().as_str());
            },
            TraceFileLine::Generated(s) => {
                push_str(&mut out, "generated");
                out.push(' ');
                push_str(&mut out, s.to_string().as_str());
            },
            TraceFileLine::Produced(s) => {
                push_str(&mut out, "produced");
                out.push(' ');
                push_str(&mut out, s.to_string().as_str());
            },
            TraceFileLine::EnvVar(e) => {
                push_str(&mut out, "env_var");
                out.push(' ');
                push_str(&mut out, e.to_string().as_str());
            },
            TraceFileLine::Data(h) => {
                push_str(&mut out, "data");
                out.push(' ');
                push_str(&mut out, h.to_string().as_str());
            },
            TraceFileLine::ValidFor(id) => {
                push_str(&mut out, "valid_for");
                out.push(' ');
                push_str(&mut out, id.to_string().as_str());
            },
            TraceFileLine::ValidUntil(t) => {
                push_str(&mut out, "valid_until");
                out.push(' ');
                push_str(&mut out, t.to_string().as_str());
            },
        }
        assert(out@ =~= line_text(self@));
        proof {
            if plain_line(self@) {
                lemma_line_round_trip(self@);
            }
        }
        out
    }

    /// Reads a line from its text.
    pub fn from_str(line: &str) -> (r: Result<TraceFileLine, ParseError>)
        ensures
            r matches Ok(x) ==> parse_line(line@) == Ok::<LineModel, ParseError>(x@),
            r matches Err(e) ==> parse_line(line@) == Err::<LineModel, ParseError>(e),
    {
        let chars = chars_of(line);
        TraceFileLine::from_chars(&chars)
    }

    /// Reads a line from the characters of its text.
    pub fn from_chars(chars: &Vec<char>) -> (r: Result<TraceFileLine, ParseError>)
        ensures
            r matches Ok(x) ==> parse_line(chars@) == Ok::<LineModel, ParseError>(x@),
            r matches Err(e) ==> parse_line(chars@) == Err::<LineModel, ParseError>(e),
    {
        let i = find(chars, ' ');
        let tag = slice(chars, 0, i);
        let rest = if i < chars.len() {
            slice(chars, i + 1, chars.len())
        } else {
            Vec::new()
        };
        proof {
            if i < chars.len() {
                assert(tag@ == chars@.take(i as int));
                assert(rest@ == chars@.skip(i + 1));
            } else {
                assert(tag@ =~= chars@);
                assert(rest@ =~= Seq::<char>::empty());
            }
            assert(tag_and_rest(chars@) == (tag@, rest@));
        }
        match read_tag(&tag) {
            None => Err(ParseError::UnknownTag),
            Some(kind) => read_payload(kind, &rest),
        }
    }
}

/// Which kind of line does the tag announce?
fn read_tag(tag: &Vec<char>) -> (r: Option<LineTag>)
    ensures
        r == tag_of(tag@),
{
    if same_chars(tag, &chars_of("job")) {
        Some(LineTag::Job)
    } else if same_chars(tag, &chars_of("source")) {
        Some(LineTag::Source)
    } else if same_chars(tag, &chars_of("generated")) {
        Some(LineTag::Generated)
    } else if same_chars(tag, &chars_of("produced")) {
        Some(LineTag::Produced)
    } else if same_chars(tag, &chars_of("env_var")) {
        Some(LineTag::EnvVar)
    } else if same_chars(tag, &chars_of("data")) {
        Some(LineTag::Data)
    } else if same_chars(tag, &chars_of("valid_for")) {
        Some(LineTag::ValidFor)
    } else if same_chars(tag, &chars_of("valid_until")) {
        Some(LineTag::ValidUntil)
    } else {
        None
    }
}

/// Reads the payload of a line of the given kind.
fn read_payload(kind: LineTag, rest: &Vec<char>) -> (r: Result<TraceFileLine, ParseError>)
    ensures
        r matches Ok(x) ==> parse_payload(kind, rest@) == Ok::<LineModel, ParseError>(x@),
        r matches Err(e) ==> parse_payload(kind, rest@) == Err::<LineModel, ParseError>(e),
{
    match kind {
        LineTag::Job => match JobSpec::from_chars(rest) {
            Ok(j) => Ok(TraceFileLine::Job(j)),
            Err(e) => Err(e),
        },
        LineTag::Source => match FileStamp::from_chars(rest) {
            Ok(s) => Ok(TraceFileLine::Source(s)),
            Err(e) => Err(e),
        },
        LineTag::Generated => match FileStamp::from_chars(rest) {
            Ok(s) => Ok(TraceFileLine::Generated(s)),
            Err(e) => Err(e),
        },
        LineTag::Produced => match FileStamp::from_chars(rest) {
            Ok(s) => Ok(TraceFileLine::Produced(s)),
            Err(e) => Err(e),
        },
        LineTag::EnvVar => match EnvVar::from_str(string_of(rest).as_str()) {
            Ok(x) => Ok(TraceFileLine::EnvVar(x)),
            Err(e) => Err(e),
        },
        LineTag::Data => match ContentHash::from_str(string_of(rest).as_str()) {
            Ok(h) => Ok(TraceFileLine::Data(h)),
            Err(e) => Err(e),
        },
        LineTag::ValidFor => match BuildId::from_str(string_of(rest).as_str()) {
            Ok(id) => Ok(TraceFileLine::ValidFor(id)),
            Err(e) => Err(e),
        },
        LineTag::ValidUntil => match Timestamp::from_str(string_of(rest).as_str()) {
            Ok(t) => Ok(TraceFileLine::ValidUntil(t)),
            Err(e) => Err(e),
        },
    }
}

/// What a trace says, in the order in which the lines came.
pub struct TraceModel {
    pub env_vars: Seq<EnvVarModel>,
    pub data: Seq<Seq<u8>>,
    pub sources: Seq<StampModel>,
    pub intermediates: Seq<StampModel>,
    pub outputs: Seq<StampModel>,
    pub valid_for: Option<BuildId>,
    pub valid_until: Option<Timestamp>,
}

/// The trace of no line at all.
pub open spec fn empty_trace() -> TraceModel {
    TraceModel {
        env_vars: Seq::empty(),
        data: Seq::empty(),
        sources: Seq::empty(),
        intermediates: Seq::empty(),
        outputs: Seq::empty(),
        valid_for: None,
        valid_until: None,
    }
}

/// The horizon after one more `valid_until` line: the earliest time wins.
pub open spec fn merged_until(old: Option<Timestamp>, t: Timestamp) -> Option<Timestamp> {
    match old {
        Some(x) => Some(earliest(x, t)),
        None => Some(t),
    }
}

/// The trace after one more line. A `job` line changes nothing; a later
/// `valid_for` replaces an earlier one.
pub open spec fn merge_line(t: TraceModel, l: LineModel) -> TraceModel {
    match l {
        LineModel::Job(_) => t,
        LineModel::Source(x) => TraceModel { sources: t.sources.push(x), ..t },
        LineModel::Generated(x) => TraceModel { intermediates: t.intermediates.push(x), ..t },
        LineModel::Produced(x) => TraceModel { outputs: t.outputs.push(x), ..t },
        LineModel::EnvVar(x) => TraceModel { env_vars: t.env_vars.push(x), ..t },
        LineModel::Data(x) => TraceModel { data: t.data.push(x), ..t },
        LineModel::ValidFor(x) => TraceModel { valid_for: Some(x), ..t },
        LineModel::ValidUntil(x) => TraceModel { valid_until: merged_until(t.valid_until, x), ..t },
    }
}

/// The trace that the lines add up to.
pub open spec fn fold_lines(lines: Seq<LineModel>) -> TraceModel
    decreases lines.len(),
{
    if lines.len() == 0 {
        empty_trace()
    } else {
        merge_line(fold_lines(lines.drop_last()), lines.last())
    }
}

/// The trace that the texts add up to; a text that is no line is passed over.
pub open spec fn fold_text(lines: Seq<Seq<char>>) -> TraceModel
    decreases lines.len(),
{
    if lines.len() == 0 {
        empty_trace()
    } else {
        let t = fold_text(lines.drop_last());
        match parse_line(lines.last()) {
            Ok(l) => merge_line(t, l),
            Err(_) => t,
        }
    }
}

/// The positions of the texts that are no line.
pub open spec fn skipped_lines(lines: Seq<Seq<char>>) -> Seq<usize>
    decreases lines.len(),
{
    if lines.len() == 0 {
        Seq::empty()
    } else {
        let before = skipped_lines(lines.drop_last());
        match parse_line(lines.last()) {
            Ok(_) => before,
            Err(_) => before.push((lines.len() - 1) as usize),
        }
    }
}

/// The lines of a text: what stands between its line breaks; the break at the
/// very end closes the last line and opens no new one.
pub open spec fn text_lines(text: Seq<char>) -> Seq<Seq<char>> {
    let pieces = split(text, '\n');
    if pieces.last().len() == 0 {
        pieces.drop_last()
    } else {
        pieces
    }
}

/// The trace that a text stands for.
pub open spec fn parse_trace(text: Seq<char>) -> TraceModel {
    fold_text(text_lines(text))
}

/// The record of one run of a rule.
#[derive(Debug, PartialEq, Eq, Hash)]
pub struct Trace {
    pub env_vars: Vec<EnvVar>,
    pub data: Vec<ContentHash>,
    pub sources: Vec<FileStamp>,
    pub intermediates: Vec<FileStamp>,
    pub outputs: Vec<FileStamp>,
    pub valid_for: Option<BuildId>,
    pub valid_until: Option<Timestamp>,
}

impl View for Trace {
    type V = TraceModel;

    open spec fn view(&self) -> TraceModel {
        TraceModel {
            env_vars: views(self.env_vars@),
            data: views(self.data@),
            sources: views(self.sources@),
            intermediates: views(self.intermediates@),
            outputs: views(self.outputs@),
            valid_for: self.valid_for,
            valid_until: self.valid_until,
        }
    }
}

/// A copy of a list of stamps.
pub fn clone_stamps(v: &Vec<FileStamp>) -> (r: Vec<FileStamp>)
    ensures
        views(r@) == views(v@),
{
    let mut r: Vec<FileStamp> = Vec::new();
    let mut i: usize = 0;
    while i < v.len()
        invariant
            i <= v.len(),
            views(r@) == views(v@).take(i as int),
        decreases v.len() - i,
    {
        let ghost before = views(r@);
        let x = v[i].clone();
        r.push(x);
        i += 1;
        assert(views(r@) =~= before.push(x@));
        assert(views(r@) =~= views(v@).take(i as int));
    }
    assert(views(r@) =~= views(v@));
    r
}

/// Do the two lists hold the same stamps in the same order?
pub fn same_stamps(a: &Vec<FileStamp>, b: &Vec<FileStamp>) -> (r: bool)
    ensures
        r == (views(a@) == views(b@)),
{
    if a.len() != b.len() {
        assert(views(a@).len() != views(b@).len());
        return false;
    }
    let mut i: usize = 0;
    while i < a.len()
        invariant
            i <= a.len(),
            a.len() == b.len(),
            forall|j: int| 0 <= j < i ==> views(a@)[j] == views(b@)[j],
        decreases a.len() - i,
    {
        if !a[i].same(&b[i]) {
            assert(views(a@)[i as int] != views(b@)[i as int]);
            return false;
        }
        i += 1;
    }
    assert(views(a@) =~= views(b@));
    true
}

/// A copy of a list of environment entries.
fn clone_env_vars(v: &Vec<EnvVar>) -> (r: Vec<EnvVar>)
    ensures
        views(r@) == views(v@),
{
    let mut r: Vec<EnvVar> = Vec::new();
    let mut i: usize = 0;
    while i < v.len()
        invariant
            i <= v.len(),
            views(r@) == views(v@).take(i as int),
        decreases v.len() - i,
    {
        let ghost before = views(r@);
        let x = v[i].clone();
        r.push(x);
        i += 1;
        assert(views(r@) =~= before.push(x@));
        assert(views(r@) =~= views(v@).take(i as int));
    }
    assert(views(r@) =~= views(v@));
    r
}

/// Do the two lists hold the same entries in the same order?
fn same_env_vars(a: &Vec<EnvVar>, b: &Vec<EnvVar>) -> (r: bool)
    ensures
        r == (views(a@) == views(b@)),
{
    if a.len() != b.len() {
        assert(views(a@).len() != views(b@).len());
        return false;
    }
    let mut i: usize = 0;
    while i < a.len()
        invariant
            i <= a.len(),
            a.len() == b.len(),
            forall|j: int| 0 <= j < i ==> views(a@)[j] == views(b@)[j],
        decreases a.len() - i,
    {
        if !a[i].same(&b[i]) {
            assert(views(a@)[i as int] != views(b@)[i as int]);
            return false;
        }
        i += 1;
    }
    assert(views(a@) =~= views(b@));
    true
}

/// A copy of a list of hashes.
fn clone_hashes(v: &Vec<ContentHash>) -> (r: Vec<ContentHash>)
    ensures
        views(r@) == views(v@),
{
    let mut r: Vec<ContentHash> = Vec::new();
    let mut i: usize = 0;
    while i < v.len()
        invariant
            i <= v.len(),
            views(r@) == views(v@).take(i as int),
        decreases v.len() - i,
    {
        let ghost before = views(r@);
        let x = v[i];
        r.push(x);
        i += 1;
        assert(views(r@) =~= before.push(x@));
        assert(views(r@) =~= views(v@).take(i as int));
    }
    assert(views(r@) =~= views(v@));
    r
}

/// Do the two lists hold the same hashes in the same order?
fn same_hashes(a: &Vec<ContentHash>, b: &Vec<ContentHash>) -> (r: bool)
    ensures
        r == (views(a@) == views(b@)),
{
    if a.len() != b.len() {
        assert(views(a@).len() != views(b@).len());
        return false;
    }
    let mut i: usize = 0;
    while i < a.len()
        invariant
            i <= a.len(),
            a.len() == b.len(),
            forall|j: int| 0 <= j < i ==> views(a@)[j] == views(b@)[j],
        decreases a.len() - i,
    {
        if !a[i].same(&b[i]) {
            assert(views(a@)[i as int] != views(b@)[i as int]);
            return false;
        }
        i += 1;
    }
    assert(views(a@) =~= views(b@));
    true
}

impl Clone for Trace {
    fn clone(&self) -> (r: Self)
        ensures
            r@ == self@,
    {
        Trace {
            env_vars: clone_env_vars(&self.env_vars),
            data: clone_hashes(&self.data),
            sources: clone_stamps(&self.sources),
            intermediates: clone_stamps(&self.intermediates),
            outputs: clone_stamps(&self.outputs),
            valid_for: self.valid_for,
            valid_until: self.valid_until,
        }
    }
}

impl Default for Trace {
    fn default() -> (r: Self)
        ensures
            r@ == empty_trace(),
    {
        let r = Trace {
            env_vars: Vec::new(),
            data: Vec::new(),
            sources: Vec::new(),
            intermediates: Vec::new(),
            outputs: Vec::new(),
            valid_for: None,
            valid_until: None,
        };
        assert(r@.env_vars =~= Seq::empty());
        assert(r@.data =~= Seq::empty());
        assert(r@.sources =~= Seq::empty());
        assert(r@.intermediates =~= Seq::empty());
        assert(r@.outputs =~= Seq::empty());
        r
    }
}

impl Trace {
    /// Takes one more line into the trace.
    pub fn merge(&mut self, line: TraceFileLine)
        ensures
            final(self)@ == merge_line(old(self)@, line@),
    {
        match line {
            TraceFileLine::Job(_) => {},
            TraceFileLine::Source(x) => {
                let ghost before = views(self.sources@);
                self.sources.push(x);
                assert(views(self.sources@) =~= before.push(x@));
            },
            TraceFileLine::Generated(x) => {
                let ghost before = views(self.intermediates@);
                self.intermediates.push(x);
                assert(views(self.intermediates@) =~= before.push(x@));
            },
            TraceFileLine::Produced(x) => {
                let ghost before = views(self.outputs@);
                self.outputs.push(x);
                assert(views(self.outputs@) =~= before.push(x@));
            },
            TraceFileLine::EnvVar(x) => {
                let ghost before = views(self.env_vars@);
                self.env_vars.push(x);
                assert(views(self.env_vars@) =~= before.push(x@));
            },
            TraceFileLine::Data(x) => {
                let ghost before = views(self.data@);
                self.data.push(x);
                assert(views(self.data@) =~= before.push(x@));
            },
            TraceFileLine::ValidFor(x) => {
                self.valid_for = Some(x);
            },
            TraceFileLine::ValidUntil(t) => {
                self.valid_until = match self.valid_until {
                    Some(x) => Some(x.min(t)),
                    None => Some(t),
                };
            },
        }
    }

    /// Folds the lines of a text into a trace. A line that cannot be read is
    /// passed over; the positions of such lines are returned with the trace.
    pub fn parse(txt: &str) -> (r: (Trace, Vec<usize>))
        ensures
            r.0@ == parse_trace(txt@),
            r.1@ == skipped_lines(text_lines(txt@)),
    {
        let chars = chars_of(txt);
        Trace::parse_chars(&chars)
    }

    /// Folds the lines of a text, given by its characters, into a trace.
    pub fn parse_chars(chars: &Vec<char>) -> (r: (Trace, Vec<usize>))
        ensures
            r.0@ == parse_trace(chars@),
            r.1@ == skipped_lines(text_lines(chars@)),
    {
        let mut lines = split_chars(chars, '\n');
        let ghost pieces = views(lines@);
        if lines[lines.len() - 1].len() == 0 {
            lines.pop();
            assert(views(lines@) =~= pieces.drop_last());
        }
        let ghost all = views(lines@);
        assert(all == text_lines(chars@));
        let mut trace = Trace::default();
        let mut skipped: Vec<usize> = Vec::new();
        let mut i: usize = 0;
        assert(all.take(0) =~= Seq::<Seq<char>>::empty());
        while i < lines.len()
            invariant
                i <= lines.len(),
                views(lines@) == all,
                trace@ == fold_text(all.take(i as int)),
                skipped@ == skipped_lines(all.take(i as int)),
            decreases lines.len() - i,
        {
            let ghost now = all.take(i + 1);
            assert(now.drop_last() =~= all.take(i as int));
            assert(now.last() == lines@[i as int]@);
            match TraceFileLine::from_chars(&lines[i]) {
                Ok(line) => {
                    trace.merge(line);
                },
                Err(_) => {
                    skipped.push(i);
                },
            }
            i += 1;
        }
        assert(all.take(i as int) =~= all);
        (trace, skipped)
    }

    /// Do the two traces say the same?
    pub fn same(&self, other: &Trace) -> (r: bool)
        ensures
            r == (self@ == other@),
    {
        let by_time = match (self.valid_until, other.valid_until) {
            (Some(a), Some(b)) => a.secs == b.secs && a.nanos == b.nanos,
            (None, None) => true,
            _ => false,
        };
        let by_build = match (self.valid_for, other.valid_for) {
            (Some(a), Some(b)) => a.0 == b.0,
            (None, None) => true,
            _ => false,
        };
        by_time && by_build && same_env_vars(&self.env_vars, &other.env_vars) && same_hashes(
            &self.data,
            &other.data,
        ) && same_stamps(&self.sources, &other.sources) && same_stamps(
            &self.intermediates,
            &other.intermediates,
        ) && same_stamps(&self.outputs, &other.outputs)
    }
}

} // verus!
