//! Traces and build trees in a form meant for people.

use crate::depgraph::{lemma_tree_view, BuildTree, Observation, ObsModel, TreeModel};
use crate::filestamp::{stamp_holds, FileStamp, StampModel};
use crate::hash::hex_text;
use crate::job::{env_var_text, job_text, EnvVarModel, JobModel, JobSpec};
use crate::local_path::path_text;
use crate::ruleset::{chosen_job, RuleModel, RuleSet};
use crate::text::{chars_of, find, first_index, push_chars, push_str, slice, string_of, views};
use crate::timestamp::{duration_text, span_until, Timestamp};
use crate::trace::{Trace, TraceModel};
use vstd::prelude::*;
use vstd::string::*;

verus! {

/// The short form of a stamp: the path and the first eight digits of the hash.
pub open spec fn stamp_short(s: StampModel) -> Seq<char> {
    path_text(s.path) + seq!['@'] + hex_text(s.hash).take(8)
}

/// The short forms of the stamps, each between `before` and `after`.
pub open spec fn stamps_text(stamps: Seq<StampModel>, before: Seq<char>, after: Seq<char>) -> Seq<char>
    decreases stamps.len(),
{
    if stamps.len() == 0 {
        Seq::empty()
    } else {
        stamps_text(stamps.drop_last(), before, after) + before + stamp_short(stamps.last())
            + after
    }
}

/// The environment entries, each followed by a space.
pub open spec fn env_vars_text(vars: Seq<EnvVarModel>) -> Seq<char>
    decreases vars.len(),
{
    if vars.len() == 0 {
        Seq::empty()
    } else {
        env_vars_text(vars.drop_last()) + env_var_text(vars.last()) + seq![' ']
    }
}

/// The text up to the first space.
pub open spec fn first_word(text: Seq<char>) -> Seq<char> {
    text.take(first_index(text, ' '))
}

/// How much longer an output can be used, in words; nothing is left once the
/// time has passed.
pub open spec fn time_left(t: Timestamp, now: Timestamp) -> Seq<char> {
    duration_text(span_until(t, now).secs, span_until(t, now).nanos)
}

/// A trace on one line: what was read, `=>`, what was written, the
/// environment, and the horizon.
pub open spec fn trace_summary(t: TraceModel, now: Timestamp) -> Seq<char> {
    stamps_text(t.sources, Seq::empty(), seq![' ']) + stamps_text(
        t.intermediates,
        Seq::empty(),
        seq![' '],
    ) + "=>"@ + stamps_text(t.outputs, seq![' '], Seq::empty()) + env_vars_text(t.env_vars) + (
    if t.valid_for is Some {
        " (volatile)"@
    } else {
        Seq::empty()
    }) + (match t.valid_until {
        Some(u) => " (cached for another "@ + time_left(u, now) + ")"@,
        None => Seq::empty(),
    })
}

/// Appends the short forms of the stamps, each between `before` and `after`.
fn push_stamps(out: &mut Vec<char>, stamps: &Vec<FileStamp>, before: &str, after: &str)
    ensures
        final(out)@ == old(out)@ + stamps_text(views(stamps@), before@, after@),
{
    let ghost all = views(stamps@);
    let ghost start = out@;
    let mut i: usize = 0;
    assert(all.take(0) =~= Seq::<StampModel>::empty());
    assert(start + stamps_text(all.take(0), before@, after@) =~= start);
    while i < stamps.len()
        invariant
            i <= stamps.len(),
            all == views(stamps@),
            out@ == start + stamps_text(all.take(i as int), before@, after@),
        decreases stamps.len() - i,
    {
        let ghost upto = all.take(i + 1);
        let ghost had = stamps_text(all.take(i as int), before@, after@);
        assert(upto.drop_last() =~= all.take(i as int));
        assert(upto.last() == stamps@[i as int]@);
        push_str(out, before);
        push_str(out, stamps[i].summary().as_str());
        push_str(out, after);
        assert(out@ =~= start + (had + before@ + stamp_short(upto.last()) + after@));
        i += 1;
    }
    assert(all.take(i as int) =~= all);
}

impl Trace {
    /// The trace on one line, for people. `now` is the time against which the
    /// horizon is measured.
    pub fn to_string(&self, now: &Timestamp) -> (s: String)
        ensures
            s@ == trace_summary(self@, *now),
    {
        let mut out: Vec<char> = Vec::new();
        proof {
            reveal_strlit("");
            reveal_strlit(" ");
        }
        assert(""@ =~= Seq::<char>::empty());
        assert(" "@ =~= seq![' ']);
        push_stamps(&mut out, &self.sources, "", " ");
        push_stamps(&mut out, &self.intermediates, "", " ");
        push_str(&mut out, "=>");
        push_stamps(&mut out, &self.outputs, " ", "");
        let ghost head = out@;
        let ghost vars = views(self.env_vars@);
        let mut i: usize = 0;
        assert(vars.take(0) =~= Seq::<EnvVarModel>::empty());
        assert(head + env_vars_text(vars.take(0)) =~= head);
        while i < self.env_vars.len()
            invariant
                i <= self.env_vars.len(),
                vars == views(self.env_vars@),
                out@ == head + env_vars_text(vars.take(i as int)),
            decreases self.env_vars.len() - i,
        {
            let ghost upto = vars.take(i + 1);
            let ghost had = env_vars_text(vars.take(i as int));
            assert(upto.drop_last() =~= vars.take(i as int));
            assert(upto.last() == self.env_vars@[i as int]@);
            push_str(&mut out, self.env_vars[i].to_string().as_str());
            out.push(' ');
            assert(out@ =~= head + (had + env_var_text(upto.last()) + seq![' ']));
            i += 1;
        }
        assert(vars.take(i as int) =~= vars);
        if self.valid_for.is_some() {
            push_str(&mut out, " (volatile)");
        }
        match self.valid_until {
            Some(u) => {
                push_str(&mut out, " (cached for another ");
                push_str(&mut out, u.remaining(now).to_string().as_str());
                push_str(&mut out, ")");
            },
            None => {},
        }
        assert(out@ =~= trace_summary(self@, *now));
        string_of(&out)
    }
}

/// A tree of labels: what is to be shown of a build tree.
pub struct OutlineModel {
    pub label: Seq<char>,
    pub valid: bool,
    pub children: Seq<OutlineModel>,
}

/// A tree of labels. `valid` says whether what the label names is still in
/// force: whoever shows the tree can mark what is not.
#[derive(Debug, PartialEq, Eq)]
pub struct Outline {
    pub label: String,
    pub valid: bool,
    pub children: Vec<Outline>,
}

impl View for Outline {
    type V = OutlineModel;

    open spec fn view(&self) -> OutlineModel
        decreases self,
    {
        OutlineModel {
            label: self.label@,
            valid: self.valid,
            children: Seq::new(
                self.children@.len(),
                |i: int|
                    if 0 <= i < self.children@.len() {
                        self.children@[i].view()
                    } else {
                        arbitrary()
                    },
            ),
        }
    }
}

/// The children of an outline, seen one by one.
pub proof fn lemma_outline_view(o: Outline)
    ensures
        o@.children.len() == o.children@.len(),
        forall|k: int| 0 <= k < o.children@.len() ==> (#[trigger] o@.children[k]) == o.children@[k]@,
{
    reveal_with_fuel(<Outline as View>::view, 2);
}

/// The label of a build tree: its first output, the job that produced it, and
/// how much longer it can be used.
pub open spec fn label_of(tree: TreeModel, now: Timestamp) -> Seq<char> {
    (if tree.outputs.len() > 0 {
        stamp_short(tree.outputs[0]) + " <= "@
    } else {
        Seq::empty()
    }) + job_text(tree.job) + (match tree.valid_until {
        Some(u) => " (cached for another "@ + first_word(time_left(u, now)) + ")"@,
        None => Seq::empty(),
    })
}

/// The leaves that show the sources of a run: each stamp in short, and
/// whether it still holds.
pub open spec fn source_leaves(sources: Seq<StampModel>, files: Seq<StampModel>) -> Seq<OutlineModel> {
    Seq::new(
        sources.len(),
        |i: int|
            OutlineModel {
                label: stamp_short(sources[i]),
                valid: stamp_holds(files, sources[i]),
                children: Seq::empty(),
            },
    )
}

/// What is shown of a build tree, and the jobs that have been shown once this
/// tree is. A job is shown in full the first time only; later it is a single
/// line that points back.
pub open spec fn outline_of(tree: TreeModel, rules: Seq<RuleModel>, obs: ObsModel, shown: Seq<JobModel>) -> (
    OutlineModel,
    Seq<JobModel>,
)
    decreases tree, tree.intermediates.len() + 1,
{
    let valid = chosen_job(rules, tree.job.target) == Some(tree.job);
    if shown.contains(tree.job) {
        (
            OutlineModel {
                label: label_of(tree, obs.now) + " (see above)"@,
                valid,
                children: Seq::empty(),
            },
            shown,
        )
    } else {
        let below = outline_below(
            tree,
            tree.intermediates.len(),
            rules,
            obs,
            shown.push(tree.job),
        );
        (
            OutlineModel {
                label: label_of(tree, obs.now),
                valid,
                children: source_leaves(tree.sources, obs.files) + below.0,
            },
            below.1,
        )
    }
}

/// What is shown of the first `n` subtrees of a build tree.
pub open spec fn outline_below(
    tree: TreeModel,
    n: nat,
    rules: Seq<RuleModel>,
    obs: ObsModel,
    shown: Seq<JobModel>,
) -> (Seq<OutlineModel>, Seq<JobModel>)
    decreases tree, n,
{
    if n == 0 || n > tree.intermediates.len() {
        (Seq::empty(), shown)
    } else {
        let before = outline_below(tree, (n - 1) as nat, rules, obs, shown);
        let node = outline_of(tree.intermediates[n - 1].1, rules, obs, before.1);
        (before.0.push(node.0), node.1)
    }
}

/// Is the job among the jobs?
fn contains_job(jobs: &Vec<JobSpec>, job: &JobSpec) -> (r: bool)
    ensures
        r == views(jobs@).contains(job@),
{
    let mut i: usize = 0;
    while i < jobs.len()
        invariant
            i <= jobs.len(),
            forall|k: int| 0 <= k < i ==> views(jobs@)[k] != job@,
        decreases jobs.len() - i,
    {
        if jobs[i].same(job) {
            assert(views(jobs@)[i as int] == job@);
            return true;
        }
        i += 1;
    }
    false
}

impl BuildTree {
    /// The label of the tree.
    pub fn label(&self, now: &Timestamp) -> (s: String)
        ensures
            s@ == label_of(self@, *now),
    {
        let mut out: Vec<char> = Vec::new();
        if self.outputs.len() > 0 {
            assert(self@.outputs[0] == self.outputs@[0]@);
            push_str(&mut out, self.outputs[0].summary().as_str());
            push_str(&mut out, " <= ");
        }
        let job = self.job.to_chars();
        push_chars(&mut out, &job);
        match self.valid_until {
            Some(u) => {
                push_str(&mut out, " (cached for another ");
                let left = chars_of(u.remaining(now).to_string().as_str());
                let word = slice(&left, 0, find(&left, ' '));
                assert(word@ == first_word(left@));
                push_chars(&mut out, &word);
                push_str(&mut out, ")");
            },
            None => {},
        }
        assert(out@ =~= label_of(self@, *now));
        string_of(&out)
    }

    /// What is to be shown of the tree, given the jobs that have been shown
    /// already, to which those of this tree are added.
    fn outline_from(&self, rules: &RuleSet, obs: &Observation, shown: &mut Vec<JobSpec>) -> (r:
        Outline)
        ensures
            r@ == outline_of(self@, rules@, obs@, views(old(shown)@)).0,
            views(final(shown)@) == outline_of(self@, rules@, obs@, views(old(shown)@)).1,
        decreases self,
    {
        let valid = rules.is_job_valid(&self.job);
        let ghost before = views(shown@);
        if contains_job(shown, &self.job) {
            let mut label = chars_of(self.label(&obs.now).as_str());
            push_str(&mut label, " (see above)");
            let r = Outline { label: string_of(&label), valid, children: Vec::new() };
            proof {
                lemma_outline_view(r);
            }
            assert(r@.children =~= Seq::<OutlineModel>::empty());
            return r;
        }
        shown.push(self.job.clone());
        assert(views(shown@) =~= before.push(self@.job));
        let ghost start = views(shown@);
        let mut children: Vec<Outline> = Vec::new();
        let mut i: usize = 0;
        while i < self.sources.len()
            invariant
                i <= self.sources.len(),
                children@.len() == i,
                forall|k: int|
                    0 <= k < i ==> (#[trigger] children@[k])@ == source_leaves(
                        self@.sources,
                        obs@.files,
                    )[k],
            decreases self.sources.len() - i,
        {
            let stamp = &self.sources[i];
            assert(self@.sources[i as int] == stamp@);
            let leaf = Outline {
                label: stamp.summary(),
                valid: obs.files.confirms(stamp),
                children: Vec::new(),
            };
            proof {
                lemma_outline_view(leaf);
            }
            assert(leaf@.children =~= Seq::<OutlineModel>::empty());
            children.push(leaf);
            i += 1;
        }
        let ghost leaves = source_leaves(self@.sources, obs@.files);
        let n = self.sources.len();
        proof {
            lemma_tree_view(*self);
        }
        let mut m: usize = 0;
        while m < self.intermediates.len()
            invariant
                m <= self.intermediates.len(),
                n == self.sources.len(),
                self@.intermediates.len() == self.intermediates@.len(),
                forall|k: int|
                    0 <= k < self.intermediates@.len() ==> (#[trigger] self@.intermediates[k]) == (
                        self.intermediates@[k].0@,
                        self.intermediates@[k].1@,
                    ),
                leaves == source_leaves(self@.sources, obs@.files),
                children@.len() == n + m,
                forall|k: int| 0 <= k < n ==> (#[trigger] children@[k])@ == leaves[k],
                forall|k: int|
                    0 <= k < m ==> (#[trigger] children@[n + k])@ == outline_below(
                        self@,
                        m as nat,
                        rules@,
                        obs@,
                        start,
                    ).0[k],
                outline_below(self@, m as nat, rules@, obs@, start).0.len() == m,
                views(shown@) == outline_below(self@, m as nat, rules@, obs@, start).1,
            decreases self.intermediates.len() - m,
        {
            let ghost done = outline_below(self@, m as nat, rules@, obs@, start);
            let ghost next = outline_below(self@, (m + 1) as nat, rules@, obs@, start);
            assert(self@.intermediates[m as int].1 == self.intermediates@[m as int].1@);
            let node = self.intermediates[m].1.outline_from(rules, obs, shown);
            assert(next.0 == done.0.push(node@));
            children.push(node);
            assert forall|k: int| 0 <= k < m + 1 implies (#[trigger] children@[n + k])@ == next.0[k] by {
                if k < m {
                    assert(next.0[k] == done.0[k]);
                }
            }
            m += 1;
        }
        let ghost below = outline_below(self@, self@.intermediates.len(), rules@, obs@, start);
        let r = Outline { label: self.label(&obs.now), valid, children };
        proof {
            lemma_outline_view(r);
            assert(r@.children.len() == (leaves + below.0).len());
            assert forall|k: int| 0 <= k < r@.children.len() implies r@.children[k] == (leaves
                + below.0)[k] by {
                if k < n {
                    assert(children@[k]@ == leaves[k]);
                } else {
                    assert(children@[n + (k - n)]@ == below.0[k - n]);
                }
            }
            assert(r@.children =~= leaves + below.0);
        }
        r
    }

    /// What is to be shown of the tree: a label for each run, its sources as
    /// leaves, and the runs of its generated dependencies below it. A job that
    /// comes up again is not shown in full a second time.
    pub fn outline(&self, rules: &RuleSet, obs: &Observation) -> (r: Outline)
        ensures
            r@ == outline_of(self@, rules@, obs@, Seq::<JobModel>::empty()).0,
    {
        let mut shown: Vec<JobSpec> = Vec::new();
        assert(views(shown@) =~= Seq::<JobModel>::empty());
        self.outline_from(rules, obs, &mut shown)
    }
}

/// The labels of a tree in the order in which they are shown, each with its
/// depth below the root.
pub uninterp spec fn tree_rows(tree: termtree::Tree<String>) -> Seq<(nat, Seq<char>)>;

/// The picture of a tree, drawn by `termtree` with its default glyphs from the
/// labels and their depths: one line for each label.
pub uninterp spec fn rows_text(rows: Seq<(nat, Seq<char>)>) -> Seq<char>;

/// `termtree::Tree`: a label with subtrees, which can be drawn.
#[verifier::external_type_specification]
#[verifier::external_body]
#[verifier::reject_recursive_types(D)]
pub struct ExTree<D: core::fmt::Display>(termtree::Tree<D>);

/// The rows one level further down.
pub open spec fn deeper(rows: Seq<(nat, Seq<char>)>) -> Seq<(nat, Seq<char>)> {
    Seq::new(rows.len(), |i: int| ((rows[i].0 + 1) as nat, rows[i].1))
}

/// `Tree::new`: a tree that is its root alone.
#[verifier::external_body]
fn tree_new(label: String) -> (t: termtree::Tree<String>)
    ensures
        tree_rows(t) == seq![(0nat, label@)],
{
    termtree::Tree::new(label)
}

/// `Tree::push`: the leaf becomes the last child of the root.
#[verifier::external_body]
fn tree_push(tree: &mut termtree::Tree<String>, leaf: termtree::Tree<String>)
    ensures
        tree_rows(*final(tree)) == tree_rows(*old(tree)) + deeper(tree_rows(leaf)),
{
    tree.push(leaf);
}

/// `Tree`'s `Display`: the picture of the tree.
#[verifier::external_body]
fn tree_to_string(tree: &termtree::Tree<String>) -> (s: String)
    ensures
        s@ == rows_text(tree_rows(*tree)),
{
    tree.to_string()
}

/// The rows of an outline: its label, then the rows of its children, one
/// level further down.
pub open spec fn outline_rows(o: OutlineModel) -> Seq<(nat, Seq<char>)>
    decreases o, o.children.len() + 1,
{
    seq![(0nat, o.label)] + rows_below(o, o.children.len())
}

/// The rows of the first `n` children of an outline.
pub open spec fn rows_below(o: OutlineModel, n: nat) -> Seq<(nat, Seq<char>)>
    decreases o, n,
{
    if n == 0 || n > o.children.len() {
        Seq::empty()
    } else {
        rows_below(o, (n - 1) as nat) + deeper(outline_rows(o.children[n - 1]))
    }
}

/// The outline as a tree of `termtree`.
fn to_tree(o: &Outline) -> (t: termtree::Tree<String>)
    ensures
        tree_rows(t) == outline_rows(o@),
    decreases o,
{
    let mut t = tree_new(o.label.clone());
    proof {
        lemma_outline_view(*o);
    }
    let ghost top = seq![(0nat, o@.label)];
    let mut i: usize = 0;
    assert(top + rows_below(o@, 0) =~= top);
    while i < o.children.len()
        invariant
            i <= o.children.len(),
            top == seq![(0nat, o@.label)],
            o@.children.len() == o.children@.len(),
            forall|k: int| 0 <= k < o.children@.len() ==> (#[trigger] o@.children[k]) == o.children@[k]@,
            tree_rows(t) == top + rows_below(o@, i as nat),
        decreases o.children.len() - i,
    {
        let ghost had = rows_below(o@, i as nat);
        let leaf = to_tree(&o.children[i]);
        assert(o@.children[i as int] == o.children@[i as int]@);
        tree_push(&mut t, leaf);
        assert(tree_rows(t) =~= top + (had + deeper(outline_rows(o@.children[i as int]))));
        i += 1;
    }
    t
}

impl BuildTree {
    /// The picture of the tree: its outline, drawn with lines.
    pub fn to_string(&self, rules: &RuleSet, obs: &Observation) -> (s: String)
        ensures
            s@ == rows_text(outline_rows(outline_of(self@, rules@, obs@, Seq::<JobModel>::empty()).0)),
    {
        render(&self.outline(rules, obs))
    }
}

/// The picture of an outline: a tree drawn with lines, one label to a line.
pub fn render(o: &Outline) -> (s: String)
    ensures
        s@ == rows_text(outline_rows(o@)),
{
    let t = to_tree(o);
    tree_to_string(&t)
}

} // verus!
