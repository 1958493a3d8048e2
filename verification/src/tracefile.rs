//! Trace files: the text that records one run, line after line, and the lock
//! file that the run keeps beside its target.

use crate::error::ParseError;
use crate::filestamp::{FileStamp, StampModel};
use crate::hash::blake3_digest;
use crate::job::{job_text, plain_job, JobModel, JobSpec};
use crate::local_path::{abs_text, dot, dot_dot, path_text, valid_component, LocalPath};
use crate::text::{
    chars_of, find, join, lemma_concat_lacks, lemma_first_index_concat, lemma_join_push,
    lemma_split_join, none_contains, push_chars, push_str, slice, split, split_once, string_of,
};
use crate::trace::{
    fold_lines, fold_text, lemma_line_round_trip, lemma_tags, line_text, parse_line, parse_trace,
    plain_line, reads_back, skipped_lines, text_lines, writable_line, LineModel, Trace,
    TraceFileLine, TraceModel,
};
use vstd::prelude::*;
use vstd::string::*;

verus! {

/// The name of the file that marks a target as being built: `.redux_<name>.trace`.
pub open spec fn lock_name(name: Seq<char>) -> Seq<char> {
    ".redux_"@ + name + ".trace"@
}

/// The name of the file that a rule writes its output to: `.redux_<name>.tmp`.
pub open spec fn temp_name(name: Seq<char>) -> Seq<char> {
    ".redux_"@ + name + ".tmp"@
}

/// The path beside `target` that has the given name.
pub open spec fn sibling(target: Seq<Seq<char>>, name: Seq<char>) -> Seq<Seq<char>> {
    target.drop_last().push(name)
}

/// Where the trace file of a run for `target` lives while the run lasts.
pub open spec fn lock_path(root: Seq<char>, target: Seq<Seq<char>>) -> Seq<char> {
    abs_text(root, sibling(target, lock_name(target.last())))
}

/// Where the rule for `target` is to write its output.
pub open spec fn temp_path(root: Seq<char>, target: Seq<Seq<char>>) -> Seq<char> {
    abs_text(root, sibling(target, temp_name(target.last())))
}

/// The lines, each closed by a line break.
pub open spec fn body_text(lines: Seq<Seq<char>>) -> Seq<char>
    decreases lines.len(),
{
    if lines.len() == 0 {
        Seq::empty()
    } else {
        body_text(lines.drop_last()) + lines.last() + seq!['\n']
    }
}

/// The texts of the lines, in order.
pub open spec fn line_texts(lines: Seq<LineModel>) -> Seq<Seq<char>> {
    Seq::new(lines.len(), |i: int| line_text(lines[i]))
}

/// The text of a whole trace file: the `job` line, then the other lines.
pub open spec fn file_text(job: JobModel, lines: Seq<LineModel>) -> Seq<char> {
    line_text(LineModel::Job(job)) + seq!['\n'] + body_text(line_texts(lines))
}

/// What a new trace file holds: the `job` line and the rule itself as the first
/// source.
pub open spec fn header_text(job: JobModel, rule: StampModel) -> Seq<char> {
    file_text(job, seq![LineModel::Source(rule)])
}

/// The job and the trace that the text of a trace file stands for. The first
/// line must be the `job` line; the others are folded.
pub open spec fn read_file(text: Seq<char>) -> Result<(JobModel, TraceModel), ParseError> {
    match split_once(text, '\n') {
        None => Err(ParseError::MissingHeader),
        Some((head, body)) => match parse_line(head) {
            Ok(LineModel::Job(job)) => Ok((job, parse_trace(body))),
            Ok(_) => Err(ParseError::MissingHeader),
            Err(e) => Err(e),
        },
    }
}

/// Lines closed by a break are the lines joined by breaks, with one more break.
pub proof fn lemma_body_join(lines: Seq<Seq<char>>)
    ensures
        body_text(lines) == if lines.len() == 0 {
            Seq::<char>::empty()
        } else {
            join(lines, '\n') + seq!['\n']
        },
    decreases lines.len(),
{
    if lines.len() > 0 {
        let front = lines.drop_last();
        lemma_body_join(front);
        lemma_join_push(front, lines.last(), '\n');
        assert(front.push(lines.last()) =~= lines);
        if front.len() > 0 {
            assert(join(front, '\n') + seq!['\n'] + lines.last() + seq!['\n'] =~= (join(front, '\n')
                + seq!['\n'] + lines.last()) + seq!['\n']);
        } else {
            assert(body_text(front) + lines.last() + seq!['\n'] =~= lines.last() + seq!['\n']);
        }
    }
}

/// The lines of a body are the lines it was made of, as long as none holds a
/// line break.
pub proof fn lemma_body_lines(lines: Seq<Seq<char>>)
    requires
        none_contains(lines, '\n'),
    ensures
        text_lines(body_text(lines)) == lines,
{
    lemma_body_join(lines);
    let empty = Seq::<char>::empty();
    if lines.len() == 0 {
        assert(split(empty, '\n') =~= seq![empty]);
        assert(seq![empty].drop_last() =~= lines);
    } else {
        let all = lines.push(empty);
        lemma_join_push(lines, empty, '\n');
        assert(join(all, '\n') =~= join(lines, '\n') + seq!['\n']);
        assert forall|i: int| 0 <= i < all.len() implies !(#[trigger] all[i]).contains('\n') by {
            if i < lines.len() {
                assert(all[i] == lines[i]);
            }
        }
        lemma_split_join(all, '\n');
        assert(all.drop_last() =~= lines);
    }
}

/// Texts written from plain lines fold to what the lines fold to, and none is
/// passed over.
pub proof fn lemma_fold_texts(lines: Seq<LineModel>)
    requires
        forall|i: int| 0 <= i < lines.len() ==> plain_line(#[trigger] lines[i]) && reads_back(lines[i]),
    ensures
        fold_text(line_texts(lines)) == fold_lines(lines),
        skipped_lines(line_texts(lines)) == Seq::<usize>::empty(),
    decreases lines.len(),
{
    if lines.len() > 0 {
        let front = lines.drop_last();
        assert forall|i: int| 0 <= i < front.len() implies plain_line(#[trigger] front[i])
            && reads_back(front[i]) by {
            assert(front[i] == lines[i]);
        }
        lemma_fold_texts(front);
        assert(line_texts(lines).drop_last() =~= line_texts(front));
        assert(plain_line(lines[lines.len() - 1]));
        lemma_line_round_trip(lines.last());
    }
}

/// Writing a trace file and reading it gives back the job and the trace that
/// the lines fold to, field by field and in the order written. The job and the
/// lines must be plain, and no text may hold a line break.
pub proof fn lemma_file_round_trip(job: JobModel, lines: Seq<LineModel>)
    requires
        plain_job(job),
        !job_text(job).contains('\n'),
        forall|i: int| 0 <= i < lines.len() ==> plain_line(#[trigger] lines[i]) && reads_back(lines[i]),
        forall|i: int| 0 <= i < lines.len() ==> !line_text(#[trigger] lines[i]).contains('\n'),
    ensures
        read_file(file_text(job, lines)) == Ok::<(JobModel, TraceModel), ParseError>(
            (job, fold_lines(lines)),
        ),
{
    let header = LineModel::Job(job);
    let head = line_text(header);
    let texts = line_texts(lines);
    let body = body_text(texts);
    lemma_tags(header);
    lemma_concat_lacks("job"@, seq![' '], '\n');
    lemma_concat_lacks("job"@ + seq![' '], job_text(job), '\n');
    lemma_first_index_concat(head, '\n', body);
    lemma_line_round_trip(header);
    assert forall|i: int| 0 <= i < texts.len() implies !(#[trigger] texts[i]).contains('\n') by {
        assert(texts[i] == line_text(lines[i]));
    }
    lemma_body_lines(texts);
    lemma_fold_texts(lines);
}

/// The trace file of a run in progress: where it is, and whose it is.
#[derive(Debug, PartialEq, Eq)]
pub struct TraceFile {
    pub path: String,
    pub job: JobSpec,
}

/// What is to be done for one more line: the text to append to the trace file,
/// and the notice to print.
#[derive(Debug, PartialEq, Eq)]
pub struct Appended {
    pub text: String,
    pub notice: String,
}

/// The notice for a line: the line itself, after the target of the job where
/// there is a trace file.
pub open spec fn notice_text(job: Option<JobModel>, line: LineModel) -> Seq<char> {
    match job {
        Some(j) => path_text(j.target) + ": "@ + line_text(line),
        None => line_text(line),
    }
}

/// The job of an optional trace file.
pub open spec fn job_of(tracefile: Option<&TraceFile>) -> Option<JobModel> {
    match tracefile {
        Some(t) => Some(t.job@),
        None => None,
    }
}

/// The path beside `target` whose name is that of the target between
/// `before` and `after`.
pub(crate) fn beside(target: &LocalPath, before: &str, after: &str) -> (r: LocalPath)
    requires
        target@.len() > 0,
        before@.len() >= 3,
        !before@.contains('/'),
        !after@.contains('/'),
    ensures
        r@ == sibling(target@, before@ + target@.last() + after@),
{
    let mut name = chars_of(before);
    push_str(&mut name, target.file_name());
    push_str(&mut name, after);
    proof {
        lemma_concat_lacks(before@, target@.last(), '/');
        lemma_concat_lacks(before@ + target@.last(), after@, '/');
        assert(dot().len() == 1);
        assert(dot_dot().len() == 2);
        assert(valid_component(name@));
    }
    let text = string_of(&name);
    target.parent().child(text.as_str())
}

impl TraceFile {
    /// Prepares the trace file of a new run: where it is to be created, and
    /// the two lines it starts with. `rule_contents` is what the rule's file
    /// holds. The file must then be created exclusively: if it exists already,
    /// another run of the job is in progress. `None` when the target is the
    /// workspace root itself, which has no name.
    pub fn create(job: JobSpec, root: &str, rule_contents: &[u8]) -> (r: Option<(TraceFile, String)>)
        ensures
            job@.target.len() == 0 ==> r is None,
            job@.target.len() > 0 ==> (r matches Some(p) && p.0.job@ == job@ && p.0.path@
                == lock_path(root@, job@.target) && p.1@ == header_text(
                job@,
                StampModel { path: job@.rule, hash: blake3_digest(rule_contents@) },
            )),
    {
        if job.target.depth() == 0 {
            return None;
        }
        proof {
            reveal_strlit(".redux_");
            reveal_strlit(".trace");
        }
        let path = beside(&job.target, ".redux_", ".trace").to_abs(root);
        let rule = FileStamp::new(job.rule.clone(), rule_contents);
        let ghost lines = seq![LineModel::Source(rule@)];
        let mut out = TraceFileLine::Job(job.clone()).to_chars();
        out.push('\n');
        let first = TraceFileLine::Source(rule).to_chars();
        push_chars(&mut out, &first);
        out.push('\n');
        proof {
            reveal_with_fuel(body_text, 2);
            assert(line_texts(lines) =~= seq![first@]);
            assert(line_texts(lines).drop_last() =~= Seq::<Seq<char>>::empty());
            assert(out@ =~= file_text(job@, lines));
        }
        Some((TraceFile { path, job }, string_of(&out)))
    }

    /// What one more line takes: the text to append to the trace file, if
    /// there is one, and the notice to print.
    pub fn append(tracefile: Option<&TraceFile>, line: TraceFileLine) -> (r: Appended)
        requires
            writable_line(line@),
        ensures
            r.text@ == line_text(line@) + seq!['\n'],
            r.notice@ == notice_text(job_of(tracefile), line@),
    {
        let txt = line.to_chars();
        let mut text: Vec<char> = Vec::new();
        push_chars(&mut text, &txt);
        text.push('\n');
        let mut notice: Vec<char> = Vec::new();
        match tracefile {
            Some(t) => {
                let target = t.job.target.to_chars();
                push_chars(&mut notice, &target);
                push_str(&mut notice, ": ");
                push_chars(&mut notice, &txt);
            },
            None => {
                push_chars(&mut notice, &txt);
            },
        }
        assert(text@ =~= line_text(line@) + seq!['\n']);
        assert(notice@ =~= notice_text(job_of(tracefile), line@));
        Appended { text: string_of(&text), notice: string_of(&notice) }
    }

    /// What closes a successful run: the `produced` line for the output.
    pub fn finish(&self, output: FileStamp) -> (r: Appended)
        ensures
            r.text@ == line_text(LineModel::Produced(output@)) + seq!['\n'],
            r.notice@ == notice_text(Some(self.job@), LineModel::Produced(output@)),
    {
        TraceFile::append(Some(self), TraceFileLine::Produced(output))
    }

    /// Reads the text of a trace file: the job of its first line, the trace
    /// that the other lines fold to, and the positions, among those other
    /// lines, of the ones that could not be read.
    pub fn read(text: &str) -> (r: Result<(JobSpec, Trace, Vec<usize>), ParseError>)
        ensures
            r matches Ok(p) ==> read_file(text@) == Ok::<(JobModel, TraceModel), ParseError>(
                (p.0@, p.1@),
            ),
            r matches Ok(p) ==> (split_once(text@, '\n') matches Some(parts) && p.2@
                == skipped_lines(text_lines(parts.1))),
            r matches Err(e) ==> read_file(text@) == Err::<(JobModel, TraceModel), ParseError>(e),
    {
        let chars = chars_of(text);
        let i = find(&chars, '\n');
        if i >= chars.len() {
            return Err(ParseError::MissingHeader);
        }
        let head = slice(&chars, 0, i);
        let body = slice(&chars, i + 1, chars.len());
        assert(head@ == chars@.take(i as int));
        assert(body@ == chars@.skip(i + 1));
        let job = match TraceFileLine::from_chars(&head) {
            Ok(TraceFileLine::Job(job)) => job,
            Ok(_) => {
                return Err(ParseError::MissingHeader);
            },
            Err(e) => {
                return Err(e);
            },
        };
        let (trace, skipped) = Trace::parse_chars(&body);
        Ok((job, trace, skipped))
    }

    /// The trace file at `path`, given the text it holds.
    pub fn open(path: String, text: &str) -> (r: Result<TraceFile, ParseError>)
        ensures
            r matches Ok(t) ==> t.path@ == path@ && (read_file(text@) matches Ok(p) && p.0
                == t.job@),
            r matches Err(e) ==> read_file(text@) == Err::<(JobModel, TraceModel), ParseError>(e),
    {
        match TraceFile::read(text) {
            Ok(p) => Ok(TraceFile { path, job: p.0 }),
            Err(e) => Err(e),
        }
    }

    /// The trace file of the run that this process belongs to. `found` is the
    /// path that the environment announces, with the text of the file there;
    /// `None` when the environment announces no trace file.
    pub fn current(found: Option<(String, String)>) -> (r: Result<Option<TraceFile>, ParseError>)
        ensures
            found is None ==> r matches Ok(None),
            found matches Some(f) ==> {
                &&& r matches Ok(o) ==> (o matches Some(t) && t.path@ == f.0@ && (read_file(
                    f.1@,
                ) matches Ok(p) && p.0 == t.job@))
                &&& r matches Err(e) ==> read_file(f.1@) == Err::<
                    (JobModel, TraceModel),
                    ParseError,
                >(e)
            },
    {
        match found {
            None => Ok(None),
            Some(f) => match TraceFile::open(f.0, f.1.as_str()) {
                Ok(t) => Ok(Some(t)),
                Err(e) => Err(e),
            },
        }
    }
}

} // verus!
