//! Rules: the `.do` scripts of a workspace, and the choice of the one that
//! builds a given target.

use crate::job::{JobModel, JobSpec};
use crate::local_path::{path_text, valid_component, valid_path, dot, dot_dot, LocalPath};
use crate::text::{
    chars_of, has_prefix, has_suffix, lemma_concat_lacks, push_str, slice, string_of,
    views,
};
use std::cmp::Ordering;
use vstd::prelude::*;
use vstd::seq_lib::to_multiset_remove;
use vstd::string::*;

verus! {

/// What a rule is: the directory of its script, whether it is a default rule,
/// and its name. The name of a default rule is the extension it stands for,
/// with the dot, or empty; the name of any other rule is the name of its one
/// target.
pub struct RuleModel {
    pub dir: Seq<Seq<char>>,
    pub default: bool,
    pub name: Seq<char>,
}

/// The kind and the name of the rule that a file name stands for, if it is the
/// name of a rule at all: it must end in `.do` and have something before that.
/// `default.do` and `default.<ext>.do` are default rules.
pub open spec fn classify(file_name: Seq<char>) -> Option<(bool, Seq<char>)> {
    let stem = file_name.take(file_name.len() - 3);
    let rest = stem.skip(7);
    if !".do"@.is_suffix_of(file_name) || stem.len() == 0 {
        None
    } else if "default"@.is_prefix_of(stem) && (rest.len() == 0 || rest[0] == '.') {
        Some((true, rest))
    } else {
        Some((false, stem))
    }
}

/// The rule that the script at `path` stands for.
pub open spec fn rule_at(path: Seq<Seq<char>>) -> Option<RuleModel> {
    if path.len() == 0 {
        None
    } else {
        match classify(path.last()) {
            None => None,
            Some((default, name)) => Some(RuleModel { dir: path.drop_last(), default, name }),
        }
    }
}

/// The file name of a rule's script.
pub open spec fn rule_file_name(r: RuleModel) -> Seq<char> {
    if r.default {
        "default"@ + r.name + ".do"@
    } else {
        r.name + ".do"@
    }
}

/// The path of a rule's script.
pub open spec fn rule_path(r: RuleModel) -> Seq<Seq<char>> {
    r.dir.push(rule_file_name(r))
}

/// The glob that a rule matches its targets with: `<dir>/**/<name>`, with a `*`
/// before the name of a default rule.
pub open spec fn glob_text(r: RuleModel) -> Seq<char> {
    path_text(r.dir) + (if r.dir.len() == 0 {
        Seq::<char>::empty()
    } else {
        seq!['/']
    }) + "**/"@ + (if r.default {
        seq!['*']
    } else {
        Seq::<char>::empty()
    }) + r.name
}

/// A rule as `Rule::new` makes them.
pub open spec fn valid_rule(r: RuleModel) -> bool {
    &&& valid_path(r.dir)
    &&& !r.name.contains('/')
    &&& r.default ==> r.name.len() == 0 || r.name[0] == '.'
    &&& !r.default ==> r.name.len() > 0
}

/// How two rules rank against each other: positive when `a` is to be preferred,
/// negative when `b` is, zero when the order does not tell. The rule in the
/// deeper directory wins; at equal depth a rule for one target wins over a
/// default rule; of two default rules the one with the longer extension wins.
pub open spec fn rank_order(a: RuleModel, b: RuleModel) -> int {
    if a.dir.len() != b.dir.len() {
        if a.dir.len() > b.dir.len() {
            1
        } else {
            -1
        }
    } else if a.default != b.default {
        if b.default {
            1
        } else {
            -1
        }
    } else if a.name.len() != b.name.len() {
        if a.name.len() > b.name.len() {
            1
        } else {
            -1
        }
    } else {
        0
    }
}

/// The targets that a rule is meant for. A rule for one target covers the file
/// of its name in its directory. A default rule covers every file in its
/// directory, or below it, whose name ends in the rule's extension.
pub open spec fn covers(r: RuleModel, target: Seq<Seq<char>>) -> bool {
    if r.default {
        target.len() > r.dir.len() && r.dir.is_prefix_of(target) && r.name.is_suffix_of(
            target.last(),
        )
    } else {
        target == r.dir.push(r.name)
    }
}

/// The order is the same seen from either side.
pub proof fn lemma_rank_inverse(a: RuleModel, b: RuleModel)
    ensures
        rank_order(a, b) == -rank_order(b, a),
{
}

/// The order is transitive.
pub proof fn lemma_rank_transitive(a: RuleModel, b: RuleModel, c: RuleModel)
    requires
        rank_order(a, b) >= 0,
        rank_order(b, c) >= 0,
    ensures
        rank_order(a, c) >= 0,
        rank_order(a, b) > 0 || rank_order(b, c) > 0 ==> rank_order(a, c) > 0,
{
}

/// Two rules of one directory that are both meant for some target, and that
/// the order does not tell apart, are the same rule.
pub proof fn lemma_rank_total(a: RuleModel, b: RuleModel, target: Seq<Seq<char>>)
    requires
        a.dir == b.dir,
        covers(a, target),
        covers(b, target),
        rank_order(a, b) == 0,
    ensures
        a == b,
{
    if a.default {
        let name = target.last();
        assert(a.name =~= name.subrange(name.len() - a.name.len(), name.len() as int));
        assert(b.name =~= name.subrange(name.len() - b.name.len(), name.len() as int));
    } else {
        assert(a.dir.push(a.name).last() == a.name);
        assert(b.dir.push(b.name).last() == b.name);
    }
}

/// The rules are in order: none is outranked by one that comes later.
pub open spec fn ranked(rules: Seq<RuleModel>) -> bool {
    forall|i: int, j: int| 0 <= i < j < rules.len() ==> rank_order(rules[i], rules[j]) >= 0
}

/// Does the pattern match the path, as `globset` matches a glob with default
/// options against a path?
pub uninterp spec fn glob_matches(pattern: Seq<char>, path: Seq<char>) -> bool;

/// Is the text a glob that `globset` accepts?
pub uninterp spec fn glob_well_formed(pattern: Seq<char>) -> bool;

/// Can `globset` compile the patterns, in this order, into one set?
pub uninterp spec fn globset_compiles(patterns: Seq<Seq<char>>) -> bool;

/// The pattern that a glob was made from.
pub uninterp spec fn glob_pattern(glob: globset::Glob) -> Seq<char>;

/// The patterns that were added to a builder, in the order of adding.
pub uninterp spec fn builder_patterns(builder: globset::GlobSetBuilder) -> Seq<Seq<char>>;

/// The patterns of a set of globs, by their sequence number.
pub uninterp spec fn globset_patterns(set: globset::GlobSet) -> Seq<Seq<char>>;

/// `globset::Glob`: a pattern that was parsed.
#[verifier::external_type_specification]
#[verifier::external_body]
pub struct ExGlob(globset::Glob);

/// `globset::GlobSet`: patterns compiled to be matched together.
#[verifier::external_type_specification]
#[verifier::external_body]
pub struct ExGlobSet(globset::GlobSet);

/// `globset::GlobSetBuilder`: patterns collected for a set.
#[verifier::external_type_specification]
#[verifier::external_body]
pub struct ExGlobSetBuilder(globset::GlobSetBuilder);

/// `globset::Error`: why a pattern or a set was refused. Nothing is read from
/// it.
#[verifier::external_type_specification]
#[verifier::external_body]
pub struct ExGlobError(globset::Error);

/// `Glob::new`: parses a pattern with the default options. It succeeds on the
/// well-formed patterns and on no other, and the glob keeps the pattern.
#[verifier::external_body]
fn glob_new(pattern: &str) -> (r: Result<globset::Glob, globset::Error>)
    ensures
        r is Ok == glob_well_formed(pattern@),
        r matches Ok(g) ==> glob_pattern(g) == pattern@,
{
    globset::Glob::new(pattern)
}

/// `GlobSetBuilder::new`: a builder without patterns.
#[verifier::external_body]
fn builder_new() -> (b: globset::GlobSetBuilder)
    ensures
        builder_patterns(b) == Seq::<Seq<char>>::empty(),
{
    globset::GlobSetBuilder::new()
}

/// `GlobSetBuilder::add`: the glob becomes the last pattern of the builder.
#[verifier::external_body]
fn builder_add(builder: &mut globset::GlobSetBuilder, glob: globset::Glob)
    ensures
        builder_patterns(*final(builder)) == builder_patterns(*old(builder)).push(
            glob_pattern(glob),
        ),
{
    builder.add(glob);
}

/// `GlobSetBuilder::build`: a set of the builder's patterns, numbered in the
/// order of adding. Whether the patterns can be compiled into one set depends
/// on the patterns alone.
#[verifier::external_body]
fn builder_build(builder: &globset::GlobSetBuilder) -> (r: Result<
    globset::GlobSet,
    globset::Error,
>)
    ensures
        r is Ok == globset_compiles(builder_patterns(*builder)),
        r matches Ok(set) ==> globset_patterns(set) == builder_patterns(*builder),
{
    builder.build()
}

/// `GlobSet::matches`: the sequence numbers of the patterns that match the
/// path, each once and in ascending order.
#[verifier::external_body]
fn globset_matches(set: &globset::GlobSet, path: &str) -> (ids: Vec<usize>)
    ensures
        forall|i: int, j: int| 0 <= i < j < ids@.len() ==> ids@[i] < ids@[j],
        forall|k: int|
            0 <= k < ids@.len() ==> (#[trigger] ids@[k]) < globset_patterns(*set).len()
                && glob_matches(globset_patterns(*set)[ids@[k] as int], path@),
        forall|n: int|
            0 <= n < globset_patterns(*set).len() && glob_matches(
                #[trigger] globset_patterns(*set)[n],
                path@,
            ) ==> exists|k: int| 0 <= k < ids@.len() && ids@[k] == n,
{
    set.matches(path)
}

/// One `.do` script, seen as a rule.
#[derive(Debug, PartialEq, Eq)]
pub struct Rule {
    dir: LocalPath,
    default: bool,
    name: String,
}

impl View for Rule {
    type V = RuleModel;

    closed spec fn view(&self) -> RuleModel {
        RuleModel { dir: self.dir@, default: self.default, name: self.name@ }
    }
}

impl Clone for Rule {
    fn clone(&self) -> (r: Self)
        ensures
            r@ == self@,
    {
        proof {
            use_type_invariant(self);
        }
        Rule { dir: self.dir.clone(), default: self.default, name: self.name.clone() }
    }
}

impl Rule {
    #[verifier::type_invariant]
    spec fn well_formed(self) -> bool {
        valid_rule(self@)
    }

    /// The rule that the script at `path` stands for, if its name is that of a
    /// rule.
    pub fn new(path: &LocalPath) -> (r: Option<Rule>)
        ensures
            r matches Some(rule) ==> rule_at(path@) == Some(rule@) && valid_rule(rule@),
            r is None ==> rule_at(path@) is None,
    {
        if path.depth() == 0 {
            return None;
        }
        let name = chars_of(path.file_name());
        let suffix = chars_of(".do");
        let prefix = chars_of("default");
        proof {
            reveal_strlit(".do");
            reveal_strlit("default");
        }
        if !has_suffix(&name, &suffix) || name.len() == 3 {
            return None;
        }
        let stem = slice(&name, 0, name.len() - 3);
        assert(stem@ == name@.take(name.len() - 3));
        assert(!stem@.contains('/')) by {
            if stem@.contains('/') {
                let i = choose|i: int| 0 <= i < stem@.len() && stem@[i] == '/';
                assert(name@[i] == '/');
            }
        }
        let dir = path.parent();
        let n = dir.depth();
        if has_prefix(&stem, &prefix) {
            let rest = slice(&stem, 7, stem.len());
            assert(rest@ == stem@.skip(7));
            assert(!rest@.contains('/')) by {
                if rest@.contains('/') {
                    let i = choose|i: int| 0 <= i < rest@.len() && rest@[i] == '/';
                    assert(stem@[i + 7] == '/');
                }
            }
            if rest.len() == 0 || rest[0] == '.' {
                return Some(Rule { dir, default: true, name: string_of(&rest) });
            }
        }
        Some(Rule { dir, default: false, name: string_of(&stem) })
    }

    /// The directory that holds the rule's script.
    pub fn dir(&self) -> (r: &LocalPath)
        ensures
            r@ == self@.dir,
            valid_rule(self@),
    {
        proof {
            use_type_invariant(self);
        }
        &self.dir
    }

    /// Is this a default rule?
    pub fn is_default(&self) -> (r: bool)
        ensures
            r == self@.default,
    {
        self.default
    }

    /// The name of the rule: the extension it stands for, or the name of its
    /// one target.
    pub fn name(&self) -> (r: &str)
        ensures
            r@ == self@.name,
    {
        self.name.as_str()
    }

    /// The glob that matches the rule's targets.
    pub fn to_glob(&self) -> (s: String)
        ensures
            s@ == glob_text(self@),
    {
        let mut out = self.dir.to_chars();
        if self.dir.depth() > 0 {
            out.push('/');
        }
        push_str(&mut out, "**/");
        if self.default {
            out.push('*');
        }
        push_str(&mut out, self.name.as_str());
        assert(out@ =~= glob_text(self@));
        string_of(&out)
    }

    /// The path of the rule's script.
    pub fn to_path(&self) -> (p: LocalPath)
        ensures
            p@ == rule_path(self@),
    {
        proof {
            use_type_invariant(self);
            reveal_strlit(".do");
            reveal_strlit("default");
        }
        let mut name: Vec<char> = Vec::new();
        if self.default {
            push_str(&mut name, "default");
        }
        push_str(&mut name, self.name.as_str());
        push_str(&mut name, ".do");
        proof {
            let body = if self.default {
                "default"@ + self.name@
            } else {
                self.name@
            };
            assert(name@ =~= body + ".do"@);
            if self.default {
                lemma_concat_lacks("default"@, self.name@, '/');
            }
            lemma_concat_lacks(body, ".do"@, '/');
            assert(dot().len() == 1);
            assert(dot_dot().len() == 2);
            assert(name@.len() > 2);
            assert(valid_component(name@));
            assert(name@ =~= rule_file_name(self@));
        }
        self.dir.child(string_of(&name).as_str())
    }

    /// Is this rule to be preferred to `other`, should both match a target?
    pub fn outranks(&self, other: &Rule) -> (r: bool)
        ensures
            r == (rank_order(self@, other@) > 0),
    {
        let here = self.dir.depth();
        let there = other.dir.depth();
        if here != there {
            here > there
        } else if self.default != other.default {
            other.default
        } else {
            self.name.as_str().unicode_len() > other.name.as_str().unicode_len()
        }
    }

    /// Compares two rules. If both match a target, the greater one is to be
    /// used. Of rules that match no common target the result says nothing.
    pub fn priority(&self, other: &Rule) -> (r: Ordering)
        ensures
            r == Ordering::Greater <==> rank_order(self@, other@) > 0,
            r == Ordering::Less <==> rank_order(self@, other@) < 0,
            r == Ordering::Equal <==> rank_order(self@, other@) == 0,
    {
        if self.outranks(other) {
            Ordering::Greater
        } else if other.outranks(self) {
            Ordering::Less
        } else {
            Ordering::Equal
        }
    }
}

/// Does the rule's glob match the target?
pub open spec fn rule_matches(r: RuleModel, target: Seq<Seq<char>>) -> bool {
    glob_matches(glob_text(r), path_text(target))
}

/// Is `i` the first rule whose glob matches the target?
pub open spec fn is_best(rules: Seq<RuleModel>, target: Seq<Seq<char>>, i: int) -> bool {
    &&& 0 <= i < rules.len()
    &&& rule_matches(rules[i], target)
    &&& forall|j: int| 0 <= j < i ==> !rule_matches(#[trigger] rules[j], target)
}

/// The job of building `target` with `rule`, in an empty environment.
pub open spec fn job_with(rule: RuleModel, target: Seq<Seq<char>>) -> JobModel {
    JobModel { rule: rule_path(rule), target, env: Seq::empty() }
}

/// The job that builds a target: the one of the first rule that matches it.
pub open spec fn chosen_job(rules: Seq<RuleModel>, target: Seq<Seq<char>>) -> Option<JobModel> {
    if exists|i: int| is_best(rules, target, i) {
        Some(job_with(rules[choose|i: int| is_best(rules, target, i)], target))
    } else {
        None
    }
}

/// Only one rule can be the first that matches.
pub proof fn lemma_best_unique(rules: Seq<RuleModel>, target: Seq<Seq<char>>, i: int, j: int)
    requires
        is_best(rules, target, i),
        is_best(rules, target, j),
    ensures
        i == j,
{
}

/// Among rules in order, the first that matches a target is outranked by no
/// other rule that matches it: a rule in a deeper directory, a rule for the
/// one target, or a default rule with a longer extension would have come
/// first.
pub proof fn lemma_best_is_unbeaten(rules: Seq<RuleModel>, target: Seq<Seq<char>>, i: int, j: int)
    requires
        ranked(rules),
        is_best(rules, target, i),
        0 <= j < rules.len(),
        rule_matches(rules[j], target),
    ensures
        rank_order(rules[i], rules[j]) >= 0,
{
}

/// Where a rule matches, there is a first rule that matches, at its place or
/// before it.
pub proof fn lemma_first_match_exists(rules: Seq<RuleModel>, target: Seq<Seq<char>>, j: int)
    requires
        0 <= j < rules.len(),
        rule_matches(rules[j], target),
    ensures
        exists|i: int| is_best(rules, target, i) && i <= j,
    decreases j,
{
    if exists|k: int| 0 <= k < j && rule_matches(#[trigger] rules[k], target) {
        let k = choose|k: int| 0 <= k < j && rule_matches(#[trigger] rules[k], target);
        lemma_first_match_exists(rules, target, k);
        let i = choose|i: int| is_best(rules, target, i) && i <= k;
        assert(is_best(rules, target, i) && i <= j);
    } else {
        assert(is_best(rules, target, j));
    }
}

/// The rule `default.do` at the root of the workspace.
pub open spec fn root_default() -> RuleModel {
    RuleModel { dir: Seq::empty(), default: true, name: Seq::empty() }
}

/// The root `default.do` is the last resort. Say it is among rules in order,
/// all others in deeper directories, and it matches the target. Then there is
/// a job for the target; its rule is the root `default.do` exactly when no
/// deeper rule matches; and otherwise its rule is a deeper rule that matches.
pub proof fn lemma_root_default_is_last_resort(
    rules: Seq<RuleModel>,
    target: Seq<Seq<char>>,
    d: int,
)
    requires
        ranked(rules),
        0 <= d < rules.len(),
        rules[d] == root_default(),
        rule_matches(rules[d], target),
        forall|i: int| 0 <= i < rules.len() && i != d ==> (#[trigger] rules[i]).dir.len() > 0,
    ensures
        chosen_job(rules, target) matches Some(job) && {
            &&& job.target == target
            &&& job.rule == rule_path(root_default()) <==> forall|i: int|
                0 <= i < rules.len() && i != d ==> !rule_matches(#[trigger] rules[i], target)
            &&& job.rule != rule_path(root_default()) ==> exists|i: int|
                0 <= i < rules.len() && i != d && rule_matches(#[trigger] rules[i], target)
                    && job.rule == rule_path(rules[i])
        },
{
    lemma_first_match_exists(rules, target, d);
    let b = choose|i: int| is_best(rules, target, i);
    let job = job_with(rules[b], target);
    assert(rule_path(root_default()).len() == 1);
    if b != d {
        assert(rules[b].dir.len() > 0);
        assert(rule_path(rules[b]).len() == rules[b].dir.len() + 1);
    } else {
        assert forall|i: int| 0 <= i < rules.len() && i != d implies !rule_matches(
            #[trigger] rules[i],
            target,
        ) by {
            if i > d {
                assert(rank_order(rules[d], rules[i]) >= 0);
            }
        }
    }
}

/// The job chosen for a target is the job chosen for its own target: it is
/// still the best match.
pub proof fn lemma_chosen_job_is_valid(rules: Seq<RuleModel>, target: Seq<Seq<char>>)
    ensures
        chosen_job(rules, target) matches Some(job) ==> chosen_job(rules, job.target) == Some(job),
{
}

/// The rules among the paths, in the order of the paths.
pub open spec fn rules_among(paths: Seq<Seq<Seq<char>>>) -> Seq<RuleModel>
    decreases paths.len(),
{
    if paths.len() == 0 {
        Seq::empty()
    } else {
        match rule_at(paths.last()) {
            Some(r) => rules_among(paths.drop_last()).push(r),
            None => rules_among(paths.drop_last()),
        }
    }
}

/// Why a set of rules could not be made.
#[derive(Clone, Copy, Debug, PartialEq, Eq, Structural)]
pub enum RuleSetError {
    /// The glob of one of the rules is not well-formed.
    BadGlob,
    /// The globs could not be compiled into one set.
    NotCompiled,
}

/// The globs of the rules, in order.
pub open spec fn globs_of(rules: Seq<RuleModel>) -> Seq<Seq<char>> {
    Seq::new(rules.len(), |i: int| glob_text(rules[i]))
}

/// Is `set` an arrangement of the rules given: the same rules, best first?
pub open spec fn arranged(set: Seq<RuleModel>, given: Seq<RuleModel>) -> bool {
    ranked(set) && set.to_multiset() == given.to_multiset()
}

/// Is the glob of every rule well-formed?
pub open spec fn globs_well_formed(rules: Seq<RuleModel>) -> bool {
    forall|i: int| 0 <= i < rules.len() ==> glob_well_formed(glob_text(#[trigger] rules[i]))
}

/// The rules of a workspace, best first, with the globs that match a target to
/// its rules.
#[derive(Debug)]
pub struct RuleSet {
    rules: Vec<Rule>,
    do_files: Vec<LocalPath>,
    globs: Vec<String>,
    globset: globset::GlobSet,
}

impl View for RuleSet {
    type V = Seq<RuleModel>;

    closed spec fn view(&self) -> Seq<RuleModel> {
        views(self.rules@)
    }
}

/// Two sequences with the same elements, counted, have the same members.
proof fn lemma_same_members(a: Seq<RuleModel>, b: Seq<RuleModel>, x: RuleModel)
    requires
        a.to_multiset() == b.to_multiset(),
        a.contains(x),
    ensures
        b.contains(x),
{
    a.to_multiset_ensures();
    b.to_multiset_ensures();
    assert(a.to_multiset().count(x) > 0);
}

/// Inserting an element anywhere adds it once.
proof fn lemma_insert_counts(s: Seq<RuleModel>, i: int, x: RuleModel)
    requires
        0 <= i <= s.len(),
    ensures
        s.insert(i, x).to_multiset() == s.to_multiset().insert(x),
{
    let now = s.insert(i, x);
    assert(now.remove(i) =~= s);
    to_multiset_remove(now, i);
    assert(now.to_multiset().count(x) > 0) by {
        assert(now[i] == x);
        now.to_multiset_ensures();
        assert(now.contains(x));
    }
    assert(now.to_multiset() =~= s.to_multiset().insert(x));
}

/// Puts the rules in order, best first. Rules that the order does not tell
/// apart stay in the order in which they were given.
fn sort_rules(rules: Vec<Rule>) -> (sorted: Vec<Rule>)
    ensures
        ranked(views(sorted@)),
        views(sorted@).to_multiset() == views(rules@).to_multiset(),
{
    let mut rest = rules;
    let mut sorted: Vec<Rule> = Vec::new();
    assert(views(rest@) + views(sorted@) =~= views(rules@));
    while rest.len() > 0
        invariant
            ranked(views(sorted@)),
            (views(rest@) + views(sorted@)).to_multiset() == views(rules@).to_multiset(),
        decreases rest.len(),
    {
        let ghost rest_before = views(rest@);
        let ghost sorted_before = views(sorted@);
        let x = rest.pop().unwrap();
        assert(rest_before =~= views(rest@).push(x@));
        let mut pos: usize = 0;
        while pos < sorted.len() && sorted[pos].outranks(&x)
            invariant
                pos <= sorted.len(),
                sorted_before == views(sorted@),
                forall|k: int| 0 <= k < pos ==> rank_order(sorted_before[k], x@) > 0,
            decreases sorted.len() - pos,
        {
            assert(sorted_before[pos as int] == sorted@[pos as int]@);
            pos += 1;
        }
        proof {
            if pos < sorted.len() {
                assert(sorted_before[pos as int] == sorted@[pos as int]@);
            }
        }
        sorted.insert(pos, x);
        proof {
            let now = views(sorted@);
            let left = views(rest@);
            let joined = left + sorted_before;
            assert(now =~= sorted_before.insert(pos as int, x@));
            assert(left + now =~= joined.insert(left.len() + pos, x@));
            assert(rest_before + sorted_before =~= joined.insert(left.len() as int, x@));
            lemma_insert_counts(joined, left.len() + pos, x@);
            lemma_insert_counts(joined, left.len() as int, x@);
            assert forall|i: int, j: int| 0 <= i < j < now.len() implies rank_order(now[i], now[j])
                >= 0 by {
                if j < pos {
                    assert(now[i] == sorted_before[i] && now[j] == sorted_before[j]);
                } else if j == pos {
                    assert(now[i] == sorted_before[i]);
                } else if i == pos {
                    assert(now[j] == sorted_before[j - 1]);
                    if j - 1 > pos {
                        lemma_rank_transitive(x@, sorted_before[pos as int], sorted_before[j - 1]);
                    }
                } else if i < pos {
                    assert(now[i] == sorted_before[i] && now[j] == sorted_before[j - 1]);
                } else {
                    assert(now[i] == sorted_before[i - 1] && now[j] == sorted_before[j - 1]);
                }
            }
        }
    }
    assert(views(rest@) + views(sorted@) =~= views(sorted@));
    sorted
}

impl RuleSet {
    #[verifier::type_invariant]
    spec fn well_formed(self) -> bool {
        &&& self.do_files@.len() == self.rules@.len()
        &&& self.globs@.len() == self.rules@.len()
        &&& forall|i: int|
            0 <= i < self.rules@.len() ==> (#[trigger] self.do_files@[i])@ == rule_path(self.rules@[i]@)
        &&& forall|i: int|
            0 <= i < self.rules@.len() ==> (#[trigger] self.globs@[i])@ == glob_text(self.rules@[i]@)
        &&& globset_patterns(self.globset) == views(self.globs@)
        &&& ranked(views(self.rules@))
    }

    /// The set of the given rules. The rules are put in order, best first, and
    /// their globs are compiled into one set. A rule whose glob is not
    /// well-formed is refused; so are rules whose globs, in that order, cannot
    /// be compiled together.
    pub fn new(rules: Vec<Rule>) -> (r: Result<RuleSet, RuleSetError>)
        ensures
            r matches Ok(set) ==> arranged(set@, views(rules@)) && globset_compiles(globs_of(set@)),
            r is Ok ==> globs_well_formed(views(rules@)),
            !globs_well_formed(views(rules@)) <==> r == Err::<RuleSet, RuleSetError>(
                RuleSetError::BadGlob,
            ),
            r matches Err(RuleSetError::NotCompiled) ==> exists|set: Seq<RuleModel>| #[trigger]
                arranged(set, views(rules@)) && !globset_compiles(globs_of(set)),
    {
        let ghost given = views(rules@);
        let sorted = sort_rules(rules);
        let ghost ordered = views(sorted@);
        let mut do_files: Vec<LocalPath> = Vec::new();
        let mut globs: Vec<String> = Vec::new();
        let mut builder = builder_new();
        let mut i: usize = 0;
        assert(views(globs@) =~= Seq::<Seq<char>>::empty());
        while i < sorted.len()
            invariant
                i <= sorted.len(),
                ordered == views(sorted@),
                given == views(rules@),
                ordered.to_multiset() == given.to_multiset(),
                do_files@.len() == i,
                globs@.len() == i,
                forall|k: int| 0 <= k < i ==> (#[trigger] do_files@[k])@ == rule_path(ordered[k]),
                forall|k: int| 0 <= k < i ==> (#[trigger] globs@[k])@ == glob_text(ordered[k]),
                forall|k: int| 0 <= k < i ==> glob_well_formed(glob_text(#[trigger] ordered[k])),
                builder_patterns(builder) == views(globs@),
            decreases sorted.len() - i,
        {
            let rule = &sorted[i];
            assert(rule@ == ordered[i as int]);
            let glob = rule.to_glob();
            match glob_new(glob.as_str()) {
                Ok(g) => {
                    builder_add(&mut builder, g);
                },
                Err(_) => {
                    proof {
                        assert(ordered.contains(ordered[i as int]));
                        lemma_same_members(ordered, given, ordered[i as int]);
                        let k = choose|k: int| 0 <= k < given.len() && given[k] == ordered[i as int];
                        assert(!glob_well_formed(glob_text(given[k])));
                    }
                    return Err(RuleSetError::BadGlob);
                },
            }
            do_files.push(rule.to_path());
            let ghost before = views(globs@);
            globs.push(glob);
            assert(views(globs@) =~= before.push(glob@));
            i += 1;
        }
        proof {
            assert forall|k: int| 0 <= k < given.len() implies glob_well_formed(
                glob_text(#[trigger] given[k]),
            ) by {
                assert(given.contains(given[k]));
                lemma_same_members(given, ordered, given[k]);
                let m = choose|m: int| 0 <= m < ordered.len() && ordered[m] == given[k];
                assert(glob_well_formed(glob_text(ordered[m])));
            }
        }
        assert(views(globs@) =~= globs_of(ordered));
        match builder_build(&builder) {
            Ok(globset) => Ok(RuleSet { rules: sorted, do_files, globs, globset }),
            Err(_) => {
                assert(arranged(ordered, given));
                Err(RuleSetError::NotCompiled)
            },
        }
    }

    /// The set of the rules among the given paths: every path whose name is
    /// that of a rule's script counts.
    pub fn scan_for_do_files(paths: &Vec<LocalPath>) -> (r: Result<RuleSet, RuleSetError>)
        ensures
            r matches Ok(set) ==> arranged(set@, rules_among(views(paths@))) && globset_compiles(
                globs_of(set@),
            ),
            r is Ok ==> globs_well_formed(rules_among(views(paths@))),
            !globs_well_formed(rules_among(views(paths@))) <==> r == Err::<RuleSet, RuleSetError>(
                RuleSetError::BadGlob,
            ),
            r matches Err(RuleSetError::NotCompiled) ==> exists|set: Seq<RuleModel>| #[trigger]
                arranged(set, rules_among(views(paths@))) && !globset_compiles(globs_of(set)),
    {
        let mut rules: Vec<Rule> = Vec::new();
        let mut i: usize = 0;
        let ghost all = views(paths@);
        assert(all.take(0) =~= Seq::<Seq<Seq<char>>>::empty());
        assert(views(rules@) =~= Seq::<RuleModel>::empty());
        while i < paths.len()
            invariant
                i <= paths.len(),
                all == views(paths@),
                views(rules@) == rules_among(all.take(i as int)),
            decreases paths.len() - i,
        {
            let ghost now = all.take(i + 1);
            assert(now.drop_last() =~= all.take(i as int));
            assert(now.last() == paths@[i as int]@);
            match Rule::new(&paths[i]) {
                Some(rule) => {
                    let ghost before = views(rules@);
                    rules.push(rule);
                    assert(views(rules@) =~= before.push(rule@));
                },
                None => {},
            }
            i += 1;
        }
        assert(all.take(i as int) =~= all);
        RuleSet::new(rules)
    }

    /// The number of rules.
    pub fn len(&self) -> (n: usize)
        ensures
            n == self@.len(),
            ranked(self@),
    {
        proof {
            use_type_invariant(self);
        }
        self.rules.len()
    }

    /// The job that builds `target`: the one of the best rule whose glob
    /// matches the target. `None` when no rule matches.
    pub fn job_for(&self, target: LocalPath) -> (r: Option<JobSpec>)
        ensures
            r matches Some(job) ==> chosen_job(self@, target@) == Some(job@),
            r is None ==> chosen_job(self@, target@) is None,
            ranked(self@),
    {
        proof {
            use_type_invariant(self);
        }
        let text = target.to_string();
        let ids = globset_matches(&self.globset, text.as_str());
        let ghost patterns = globset_patterns(self.globset);
        assert forall|n: int| 0 <= n < self@.len() implies (#[trigger] patterns[n]) == glob_text(
            self@[n],
        ) by {
            assert(patterns[n] == self.globs@[n]@);
        }
        if ids.len() == 0 {
            assert forall|i: int| !is_best(self@, target@, i) by {
                if is_best(self@, target@, i) {
                    assert(glob_matches(patterns[i], text@));
                }
            }
            return None;
        }
        let id = ids[0];
        proof {
            assert(ids@[0] < patterns.len());
            assert forall|j: int| 0 <= j < id implies !rule_matches(#[trigger] self@[j], target@) by {
                if rule_matches(self@[j], target@) {
                    assert(glob_matches(patterns[j], text@));
                    let k = choose|k: int| 0 <= k < ids@.len() && ids@[k] == j;
                    assert(k == 0 || ids@[0] < ids@[k]);
                }
            }
            assert(is_best(self@, target@, id as int));
            let chosen = choose|i: int| is_best(self@, target@, i);
            lemma_best_unique(self@, target@, id as int, chosen);
        }
        let rule = self.do_files[id].clone();
        let env: Vec<(String, String)> = Vec::new();
        let job = JobSpec { rule, target, env };
        assert(job@.env =~= Seq::empty());
        Some(job)
    }

    /// Is the job still the one that builds its target? It is not once a
    /// better rule has come to match the target, or its own rule is gone.
    pub fn is_job_valid(&self, job: &JobSpec) -> (r: bool)
        ensures
            r == (chosen_job(self@, job@.target) == Some(job@)),
    {
        match self.job_for(job.target.clone()) {
            Some(found) => found.same(job),
            None => false,
        }
    }

    /// The glob and the script of every rule, best rule first.
    pub fn iter(&self) -> (r: Vec<(String, LocalPath)>)
        ensures
            r@.len() == self@.len(),
            forall|i: int|
                0 <= i < r@.len() ==> (#[trigger] r@[i]).0@ == glob_text(self@[i]) && r@[i].1@
                    == rule_path(self@[i]),
    {
        proof {
            use_type_invariant(self);
        }
        let mut r: Vec<(String, LocalPath)> = Vec::new();
        let mut i: usize = 0;
        while i < self.rules.len()
            invariant
                i <= self.rules.len(),
                self.do_files@.len() == self.rules@.len(),
                self.globs@.len() == self.rules@.len(),
                forall|k: int|
                    0 <= k < self.rules@.len() ==> (#[trigger] self.do_files@[k])@ == rule_path(
                        self.rules@[k]@,
                    ),
                forall|k: int|
                    0 <= k < self.rules@.len() ==> (#[trigger] self.globs@[k])@ == glob_text(
                        self.rules@[k]@,
                    ),
                r@.len() == i,
                forall|k: int|
                    0 <= k < i ==> (#[trigger] r@[k]).0@ == glob_text(self@[k]) && r@[k].1@
                        == rule_path(self@[k]),
            decreases self.rules.len() - i,
        {
            r.push((self.globs[i].clone(), self.do_files[i].clone()));
            i += 1;
        }
        r
    }
}

impl JobSpec {
    /// The job in text, and whether it is still the job that builds its
    /// target: whoever shows the text can mark a job that is not.
    pub fn fancy(&self, rules: &RuleSet) -> (r: (String, bool))
        ensures
            r.0@ == crate::job::job_text(self@),
            r.1 == (chosen_job(rules@, self@.target) == Some(self@)),
    {
        (self.to_string(), rules.is_job_valid(self))
    }
}

} // verus!
