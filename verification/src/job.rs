//! Jobs: the intent to run one rule for one target in one environment.

use crate::error::ParseError;
use crate::local_path::{
    abs_text, lemma_path_round_trip, parse_path, path_text, relative_components, valid_path,
    LocalPath,
};
use crate::text::{
    chars_of, find, first_index, has_prefix, has_suffix, join, lemma_concat_lacks,
    lemma_first_index_concat, lemma_join_lacks, lemma_join_last, lemma_join_push,
    lemma_split_join, lemma_trim_end_push, none_contains, push_chars, push_str, slice, split,
    split_chars, split_once, string_of, trim_end, trim_end_chars, views,
};
use vstd::prelude::*;
use vstd::string::*;

verus! {

/// An environment variable and the value it had.
pub struct EnvVarModel {
    pub key: Seq<char>,
    pub val: Seq<char>,
}

/// The textual form of an environment entry: `key=val`.
pub open spec fn env_var_text(e: EnvVarModel) -> Seq<char> {
    e.key + seq!['='] + e.val
}

/// The entry that a text stands for: the key before the first `=`, the value
/// after it.
pub open spec fn parse_env_var(text: Seq<char>) -> Result<EnvVarModel, ParseError> {
    match split_once(text, '=') {
        None => Err(ParseError::NoEqualsSign),
        Some((key, val)) => Ok(EnvVarModel { key, val }),
    }
}

/// Writing an entry and reading the text gives the entry back, as long as the
/// key holds no `=`.
pub proof fn lemma_env_var_round_trip(e: EnvVarModel)
    requires
        !e.key.contains('='),
    ensures
        parse_env_var(env_var_text(e)) == Ok::<EnvVarModel, ParseError>(e),
{
    lemma_first_index_concat(e.key, '=', e.val);
}

/// An environment variable that a rule declared itself sensitive to.
#[derive(Debug, PartialEq, Eq, Hash, PartialOrd, Ord, Default)]
pub struct EnvVar {
    pub key: String,
    pub val: String,
}

impl View for EnvVar {
    type V = EnvVarModel;

    open spec fn view(&self) -> EnvVarModel {
        EnvVarModel { key: self.key@, val: self.val@ }
    }
}

impl Clone for EnvVar {
    fn clone(&self) -> (r: Self)
        ensures
            r@ == self@,
    {
        EnvVar { key: self.key.clone(), val: self.val.clone() }
    }
}

impl EnvVar {
    /// The textual form: `key=val`.
    pub fn to_string(&self) -> (s: String)
        ensures
            s@ == env_var_text(self@),
    {
        let mut out = chars_of(self.key.as_str());
        out.push('=');
        push_str(&mut out, self.val.as_str());
        string_of(&out)
    }

    /// Reads an entry from its text.
    pub fn from_str(s: &str) -> (r: Result<EnvVar, ParseError>)
        ensures
            r matches Ok(x) ==> parse_env_var(s@) == Ok::<EnvVarModel, ParseError>(x@),
            r matches Err(e) ==> parse_env_var(s@) == Err::<EnvVarModel, ParseError>(e),
    {
        let chars = chars_of(s);
        let i = find(&chars, '=');
        if i >= chars.len() {
            return Err(ParseError::NoEqualsSign);
        }
        let key = slice(&chars, 0, i);
        let val = slice(&chars, i + 1, chars.len());
        assert(key@ == chars@.take(i as int));
        assert(val@ == chars@.skip(i + 1));
        Ok(EnvVar { key: string_of(&key), val: string_of(&val) })
    }

    /// Do the two entries have the same key and value?
    pub fn same(&self, other: &EnvVar) -> (r: bool)
        ensures
            r == (self@ == other@),
    {
        self.key == other.key && self.val == other.val
    }
}

/// Which rule is to build which target, in what environment.
pub struct JobModel {
    pub rule: Seq<Seq<char>>,
    pub target: Seq<Seq<char>>,
    pub env: Seq<(Seq<char>, Seq<char>)>,
}

/// One environment entry of a job in text: `key=val`.
pub open spec fn entry_text(e: (Seq<char>, Seq<char>)) -> Seq<char> {
    e.0 + seq!['='] + e.1
}

/// The texts of the environment entries, in order.
pub open spec fn entry_texts(env: Seq<(Seq<char>, Seq<char>)>) -> Seq<Seq<char>> {
    Seq::new(env.len(), |i: int| entry_text(env[i]))
}

/// What stands between the brackets of a job, piece by piece: the target, then
/// the environment entries.
pub open spec fn arg_texts(j: JobModel) -> Seq<Seq<char>> {
    seq![path_text(j.target)] + entry_texts(j.env)
}

/// The textual form of a job: `rule(target,key=val,...)`.
pub open spec fn job_text(j: JobModel) -> Seq<char> {
    path_text(j.rule) + seq!['('] + join(arg_texts(j), ',') + seq![')']
}

/// The environment entries that the pieces stand for.
pub open spec fn parse_entries(parts: Seq<Seq<char>>) -> Result<
    Seq<(Seq<char>, Seq<char>)>,
    ParseError,
>
    decreases parts.len(),
{
    if parts.len() == 0 {
        Ok(Seq::empty())
    } else {
        match parse_entries(parts.drop_last()) {
            Err(e) => Err(e),
            Ok(env) => match split_once(parts.last(), '=') {
                None => Err(ParseError::NoEqualsSign),
                Some(e) => Ok(env.push(e)),
            },
        }
    }
}

/// The job that a text stands for. The rule is what precedes the first `(`; the
/// closing brackets at the end are dropped; the rest is split at every `,` into
/// the target and the environment entries.
pub open spec fn parse_job(text: Seq<char>) -> Result<JobModel, ParseError> {
    let i = first_index(text, '(');
    if !(0 <= i < text.len()) {
        Err(ParseError::NoParen)
    } else {
        match parse_path(text.take(i)) {
            Err(e) => Err(e),
            Ok(rule) => {
                let parts = split(trim_end(text.skip(i + 1), ')'), ',');
                match parse_path(parts[0]) {
                    Err(e) => Err(e),
                    Ok(target) => match parse_entries(parts.skip(1)) {
                        Err(e) => Err(e),
                        Ok(env) => Ok(JobModel { rule, target, env }),
                    },
                }
            },
        }
    }
}

/// An environment entry that does not disturb the text of a job: no `,` in it,
/// and no `=` in the key.
pub open spec fn plain_entry(e: (Seq<char>, Seq<char>)) -> bool {
    !e.0.contains('=') && !e.0.contains(',') && !e.1.contains(',')
}

/// A job whose text can be read back. The paths are valid; the rule holds no
/// `(`, the target no `,`; every entry is plain; and what stands last between
/// the brackets does not end in `)`.
pub open spec fn plain_job(j: JobModel) -> bool {
    &&& valid_path(j.rule)
    &&& valid_path(j.target)
    &&& none_contains(j.rule, '(')
    &&& none_contains(j.target, ',')
    &&& forall|i: int| 0 <= i < j.env.len() ==> plain_entry(#[trigger] j.env[i])
    &&& (arg_texts(j).last().len() == 0 || arg_texts(j).last().last() != ')')
}

/// The texts of plain entries stand for those entries.
pub proof fn lemma_entries_round_trip(env: Seq<(Seq<char>, Seq<char>)>)
    requires
        forall|i: int| 0 <= i < env.len() ==> plain_entry(#[trigger] env[i]),
    ensures
        parse_entries(entry_texts(env)) == Ok::<Seq<(Seq<char>, Seq<char>)>, ParseError>(env),
    decreases env.len(),
{
    let texts = entry_texts(env);
    if env.len() == 0 {
        assert(env =~= Seq::empty());
    } else {
        let front = env.drop_last();
        assert forall|i: int| 0 <= i < front.len() implies plain_entry(#[trigger] front[i]) by {
            assert(front[i] == env[i]);
        }
        lemma_entries_round_trip(front);
        assert(texts.drop_last() =~= entry_texts(front));
        let e = env.last();
        assert(plain_entry(env[env.len() - 1]));
        lemma_first_index_concat(e.0, '=', e.1);
        assert(texts.last() == entry_text(e));
        assert(front.push(e) =~= env);
    }
}

/// Writing a plain job and reading the text gives the job back.
pub proof fn lemma_job_round_trip(j: JobModel)
    requires
        plain_job(j),
    ensures
        parse_job(job_text(j)) == Ok::<JobModel, ParseError>(j),
{
    let rule = path_text(j.rule);
    let args = arg_texts(j);
    let inner = join(args, ',');
    let text = job_text(j);
    assert(text =~= rule + seq!['('] + (inner + seq![')']));
    lemma_join_lacks(j.rule, '/', '(');
    lemma_first_index_concat(rule, '(', inner + seq![')']);
    lemma_path_round_trip(j.rule);
    // the closing bracket goes, and nothing else
    assert(inner + seq![')'] =~= inner.push(')'));
    lemma_trim_end_push(inner, ')');
    lemma_join_last(args, ',');
    assert(trim_end(inner, ')') == inner);
    // the pieces come back
    lemma_join_lacks(j.target, '/', ',');
    assert forall|i: int| 0 <= i < args.len() implies !(#[trigger] args[i]).contains(',') by {
        if i > 0 {
            let e = j.env[i - 1];
            assert(plain_entry(e));
            assert(args[i] == entry_text(e));
            lemma_concat_lacks(e.0, seq!['='], ',');
            lemma_concat_lacks(e.0 + seq!['='], e.1, ',');
        }
    }
    lemma_split_join(args, ',');
    lemma_path_round_trip(j.target);
    assert(args.skip(1) =~= entry_texts(j.env));
    lemma_entries_round_trip(j.env);
}

/// The part of a rule's file name that stands for the extension of its
/// targets: what follows `default` in `default<ext>.do`, where `<ext>` is empty
/// or starts with a dot; empty for every other name.
pub open spec fn rule_extension_of(name: Seq<char>) -> Seq<char> {
    let stem = name.take(name.len() - 3);
    let rest = stem.skip(7);
    if ".do"@.is_suffix_of(name) && "default"@.is_prefix_of(stem) && (rest.len() == 0 || rest[0]
        == '.') {
        rest
    } else {
        Seq::empty()
    }
}

/// The extension that the rule of a job stands for.
pub open spec fn job_extension(j: JobModel) -> Seq<char> {
    if j.rule.len() == 0 {
        Seq::empty()
    } else {
        rule_extension_of(j.rule.last())
    }
}

/// The target as the rule sees it: relative to the directory of the rule.
pub open spec fn relative_target(j: JobModel) -> Seq<char> {
    path_text(relative_components(j.target, j.rule.drop_last()))
}

/// The environment of a job as pairs of texts.
pub open spec fn env_view(env: Seq<(String, String)>) -> Seq<(Seq<char>, Seq<char>)> {
    Seq::new(env.len(), |i: int| (env[i].0@, env[i].1@))
}

/// The identity of one run of a rule: the rule, the target and the environment.
#[derive(Debug, PartialEq, Eq, Hash, PartialOrd, Ord)]
pub struct JobSpec {
    pub rule: LocalPath,
    pub target: LocalPath,
    pub env: Vec<(String, String)>,
}

impl View for JobSpec {
    type V = JobModel;

    open spec fn view(&self) -> JobModel {
        JobModel { rule: self.rule@, target: self.target@, env: env_view(self.env@) }
    }
}

impl Clone for JobSpec {
    fn clone(&self) -> (r: Self)
        ensures
            r@ == self@,
    {
        let mut env: Vec<(String, String)> = Vec::new();
        let mut i: usize = 0;
        while i < self.env.len()
            invariant
                i <= self.env.len(),
                env_view(env@) == env_view(self.env@).take(i as int),
            decreases self.env.len() - i,
        {
            let ghost before = env_view(env@);
            let k = self.env[i].0.clone();
            let v = self.env[i].1.clone();
            env.push((k, v));
            i += 1;
            assert(env_view(env@) =~= before.push((k@, v@)));
            assert(env_view(env@) =~= env_view(self.env@).take(i as int));
        }
        assert(env_view(env@) =~= env_view(self.env@));
        JobSpec { rule: self.rule.clone(), target: self.target.clone(), env }
    }
}

impl JobSpec {
    /// The textual form: `rule(target,key=val,...)`.
    pub fn to_string(&self) -> (s: String)
        ensures
            s@ == job_text(self@),
    {
        let chars = self.to_chars();
        string_of(&chars)
    }

    /// The characters of the textual form.
    pub fn to_chars(&self) -> (out: Vec<char>)
        ensures
            out@ == job_text(self@),
    {
        let mut out = self.rule.to_chars();
        out.push('(');
        let target = self.target.to_chars();
        push_chars(&mut out, &target);
        let ghost head = path_text(self@.rule) + seq!['('];
        let ghost env = self@.env;
        let ghost first = seq![path_text(self@.target)];
        let mut i: usize = 0;
        assert(entry_texts(env.take(0)) =~= Seq::<Seq<char>>::empty());
        assert(first + entry_texts(env.take(0)) =~= first);
        while i < self.env.len()
            invariant
                i <= self.env.len(),
                env == env_view(self.env@),
                head == path_text(self@.rule) + seq!['('],
                first == seq![path_text(self@.target)],
                out@ == head + join(first + entry_texts(env.take(i as int)), ','),
            decreases self.env.len() - i,
        {
            let ghost done = first + entry_texts(env.take(i as int));
            proof {
                lemma_join_push(done, entry_text(env[i as int]), ',');
                assert(first + entry_texts(env.take(i + 1)) =~= done.push(
                    entry_text(env[i as int]),
                ));
            }
            out.push(',');
            push_str(&mut out, self.env[i].0.as_str());
            out.push('=');
            push_str(&mut out, self.env[i].1.as_str());
            assert(out@ =~= head + (join(done, ',') + seq![','] + entry_text(env[i as int])));
            i += 1;
        }
        assert(env.take(i as int) =~= env);
        out.push(')');
        assert(out@ =~= job_text(self@));
        out
    }

    /// Reads a job from its text.
    pub fn from_str(s: &str) -> (r: Result<JobSpec, ParseError>)
        ensures
            r matches Ok(x) ==> parse_job(s@) == Ok::<JobModel, ParseError>(x@),
            r matches Err(e) ==> parse_job(s@) == Err::<JobModel, ParseError>(e),
    {
        let chars = chars_of(s);
        JobSpec::from_chars(&chars)
    }

    /// Reads a job from the characters of its text.
    pub fn from_chars(chars: &Vec<char>) -> (r: Result<JobSpec, ParseError>)
        ensures
            r matches Ok(x) ==> parse_job(chars@) == Ok::<JobModel, ParseError>(x@),
            r matches Err(e) ==> parse_job(chars@) == Err::<JobModel, ParseError>(e),
    {
        let i = find(chars, '(');
        if i >= chars.len() {
            return Err(ParseError::NoParen);
        }
        let rule_chars = slice(chars, 0, i);
        assert(rule_chars@ == chars@.take(i as int));
        let rule = match LocalPath::from_chars(&rule_chars) {
            Ok(p) => p,
            Err(e) => {
                return Err(e);
            },
        };
        let rest = slice(chars, i + 1, chars.len());
        assert(rest@ == chars@.skip(i + 1));
        let args = trim_end_chars(&rest, ')');
        let parts = split_chars(&args, ',');
        let ghost all = split(args@, ',');
        let target = match LocalPath::from_chars(&parts[0]) {
            Ok(p) => p,
            Err(e) => {
                return Err(e);
            },
        };
        let mut env: Vec<(String, String)> = Vec::new();
        let mut k: usize = 1;
        assert(all.skip(1).take(0) =~= Seq::<Seq<char>>::empty());
        assert(env_view(env@) =~= Seq::empty());
        while k < parts.len()
            invariant
                1 <= k <= parts.len(),
                views(parts@) == all,
                i == first_index(chars@, '('),
                i < chars.len(),
                all == split(trim_end(chars@.skip(i + 1), ')'), ','),
                parse_path(chars@.take(i as int)) == Ok::<Seq<Seq<char>>, ParseError>(rule@),
                parse_path(all[0]) == Ok::<Seq<Seq<char>>, ParseError>(target@),
                parse_entries(all.skip(1).take(k - 1)) == Ok::<
                    Seq<(Seq<char>, Seq<char>)>,
                    ParseError,
                >(env_view(env@)),
            decreases parts.len() - k,
        {
            let part = &parts[k];
            let ghost done = all.skip(1).take(k - 1);
            let ghost next = all.skip(1).take(k as int);
            assert(next.drop_last() =~= done);
            assert(next.last() == part@);
            let at = find(part, '=');
            if at >= part.len() {
                assert(parse_entries(next) is Err);
                proof {
                    lemma_entries_error(all.skip(1), k as int);
                }
                return Err(ParseError::NoEqualsSign);
            }
            let key = slice(part, 0, at);
            let val = slice(part, at + 1, part.len());
            assert(key@ == part@.take(at as int));
            assert(val@ == part@.skip(at + 1));
            let ghost before = env_view(env@);
            env.push((string_of(&key), string_of(&val)));
            assert(env_view(env@) =~= before.push((key@, val@)));
            k += 1;
        }
        assert(all.skip(1).take(k - 1) =~= all.skip(1));
        Ok(JobSpec { rule, target, env })
    }

    /// Do the two jobs name the same rule, target and environment?
    pub fn same(&self, other: &JobSpec) -> (r: bool)
        ensures
            r == (self@ == other@),
    {
        if !self.rule.same(&other.rule) || !self.target.same(&other.target) {
            return false;
        }
        if self.env.len() != other.env.len() {
            assert(self@.env.len() != other@.env.len());
            return false;
        }
        let mut i: usize = 0;
        while i < self.env.len()
            invariant
                i <= self.env.len(),
                self.env.len() == other.env.len(),
                forall|j: int| 0 <= j < i ==> self@.env[j] == other@.env[j],
            decreases self.env.len() - i,
        {
            if !(self.env[i].0 == other.env[i].0 && self.env[i].1 == other.env[i].1) {
                assert(self@.env[i as int] != other@.env[i as int]);
                return false;
            }
            i += 1;
        }
        assert(self@.env =~= other@.env);
        true
    }

    /// The absolute form of the target below `root`.
    pub fn abs_target(&self, root: &str) -> (s: String)
        ensures
            s@ == abs_text(root@, self@.target),
    {
        self.target.to_abs(root)
    }

    /// The target as the rule sees it: relative to the directory that holds
    /// the rule.
    pub fn target_relative_to_rule(&self) -> (s: String)
        requires
            self@.rule.len() > 0,
        ensures
            s@ == relative_target(self@),
    {
        self.target.relative_to(&self.rule.parent())
    }

    /// The extension that the rule stands for: what follows `default` in the
    /// name of a default rule, nothing for any other rule.
    pub fn rule_extension(&self) -> (s: String)
        ensures
            s@ == job_extension(self@),
    {
        if self.rule.depth() == 0 {
            return String::new();
        }
        let name = chars_of(self.rule.file_name());
        let suffix = chars_of(".do");
        let prefix = chars_of("default");
        proof {
            reveal_strlit(".do");
            reveal_strlit("default");
        }
        if !has_suffix(&name, &suffix) {
            return String::new();
        }
        let stem = slice(&name, 0, name.len() - 3);
        assert(stem@ == name@.take(name.len() - 3));
        if !has_prefix(&stem, &prefix) {
            return String::new();
        }
        let rest = slice(&stem, 7, stem.len());
        assert(rest@ == stem@.skip(7));
        if rest.len() == 0 || rest[0] == '.' {
            string_of(&rest)
        } else {
            String::new()
        }
    }

    /// The target as the rule sees it, without the extension that the rule
    /// stands for. `None` when the target does not end in that extension.
    pub fn target_minus_extension(&self) -> (r: Option<String>)
        requires
            self@.rule.len() > 0,
        ensures
            job_extension(self@).is_suffix_of(relative_target(self@)) ==> (r matches Some(s)
                && s@ == relative_target(self@).take(
                relative_target(self@).len() - job_extension(self@).len(),
            )),
            !job_extension(self@).is_suffix_of(relative_target(self@)) ==> r is None,
    {
        let extension = chars_of(self.rule_extension().as_str());
        let target = chars_of(self.target_relative_to_rule().as_str());
        if has_suffix(&target, &extension) {
            let stem = slice(&target, 0, target.len() - extension.len());
            assert(stem@ == target@.take(target.len() - extension.len()));
            Some(string_of(&stem))
        } else {
            None
        }
    }
}

/// Once a piece without `=` has been met, the pieces do not stand for entries.
pub proof fn lemma_entries_error(parts: Seq<Seq<char>>, n: int)
    requires
        0 <= n <= parts.len(),
        parse_entries(parts.take(n)) is Err,
    ensures
        parse_entries(parts) == Err::<Seq<(Seq<char>, Seq<char>)>, ParseError>(
            ParseError::NoEqualsSign,
        ),
    decreases parts.len() - n,
{
    lemma_entries_error_kind(parts.take(n));
    if n < parts.len() {
        assert(parts.take(n + 1).drop_last() =~= parts.take(n));
        lemma_entries_error(parts, n + 1);
    } else {
        assert(parts.take(n) =~= parts);
    }
}

/// The only way for pieces not to stand for entries is a missing `=`.
pub proof fn lemma_entries_error_kind(parts: Seq<Seq<char>>)
    ensures
        parse_entries(parts) matches Err(e) ==> e == ParseError::NoEqualsSign,
    decreases parts.len(),
{
    if parts.len() > 0 {
        lemma_entries_error_kind(parts.drop_last());
    }
}

} // verus!
