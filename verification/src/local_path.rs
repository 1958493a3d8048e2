//! Paths relative to the workspace root, held as their components.

use crate::error::ParseError;
use crate::text::{
    chars_of, find, join, lemma_join_head, lemma_join_push, lemma_split_join, lemma_split_pieces, none_contains, push_chars, push_str,
    split, split_chars, string_of, views,
};
use vstd::prelude::*;
use vstd::string::*;

verus! {

/// The component `.`.
pub open spec fn dot() -> Seq<char> {
    seq!['.']
}

/// The component `..`.
pub open spec fn dot_dot() -> Seq<char> {
    seq!['.', '.']
}

/// A name that can stand between two separators of a local path.
pub open spec fn valid_component(c: Seq<char>) -> bool {
    c.len() > 0 && !c.contains('/') && c != dot() && c != dot_dot()
}

/// Every component is a valid one.
pub open spec fn valid_path(p: Seq<Seq<char>>) -> bool {
    forall|i: int| 0 <= i < p.len() ==> valid_component(#[trigger] p[i])
}

/// A piece between separators that names something: not empty and not `.`.
pub open spec fn kept(c: Seq<char>) -> bool {
    c.len() > 0 && c != dot()
}

/// The pieces that name something, in order.
pub open spec fn keep_components(pieces: Seq<Seq<char>>) -> Seq<Seq<char>>
    decreases pieces.len(),
{
    if pieces.len() == 0 {
        pieces
    } else if kept(pieces.last()) {
        keep_components(pieces.drop_last()).push(pieces.last())
    } else {
        keep_components(pieces.drop_last())
    }
}

/// The components that a text names: what stands between its `/`, without the
/// empty pieces and the `.` pieces.
pub open spec fn lexical_components(text: Seq<char>) -> Seq<Seq<char>> {
    keep_components(split(text, '/'))
}

/// Does the text start at the file system's root?
pub open spec fn is_absolute(text: Seq<char>) -> bool {
    text.len() > 0 && text[0] == '/'
}

/// The textual form of a path: its components with `/` between them.
pub open spec fn path_text(p: Seq<Seq<char>>) -> Seq<char> {
    join(p, '/')
}

/// The path that a text stands for. Absolute texts and texts with a `..` are refused.
pub open spec fn parse_path(text: Seq<char>) -> Result<Seq<Seq<char>>, ParseError> {
    if is_absolute(text) || split(text, '/').contains(dot_dot()) {
        Err(ParseError::BadPath)
    } else {
        Ok(lexical_components(text))
    }
}

/// How many leading components two paths share.
pub open spec fn common_prefix_len(a: Seq<Seq<char>>, b: Seq<Seq<char>>) -> nat
    decreases a.len(),
{
    if a.len() > 0 && b.len() > 0 && a[0] == b[0] {
        1 + common_prefix_len(a.drop_first(), b.drop_first())
    } else {
        0
    }
}

/// The way from `base` to `path`: one `..` for each component of `base` that the
/// two do not share, then what is left of `path`.
pub open spec fn relative_components(path: Seq<Seq<char>>, base: Seq<Seq<char>>) -> Seq<Seq<char>> {
    let k = common_prefix_len(path, base);
    Seq::new((base.len() - k) as nat, |i: int| dot_dot()) + path.skip(k as int)
}

/// The absolute form of a local path below `root`.
pub open spec fn abs_text(root: Seq<char>, p: Seq<Seq<char>>) -> Seq<char> {
    if p.len() == 0 {
        root
    } else if root.len() > 0 && root.last() == '/' {
        root + path_text(p)
    } else {
        root + seq!['/'] + path_text(p)
    }
}

/// A text whose pieces hold neither `.` nor `..`.
pub open spec fn plain_text(text: Seq<char>) -> bool {
    !split(text, '/').contains(dot()) && !split(text, '/').contains(dot_dot())
}

/// Where every piece names something, all pieces are kept.
pub proof fn lemma_keep_all(p: Seq<Seq<char>>)
    requires
        forall|i: int| 0 <= i < p.len() ==> kept(#[trigger] p[i]),
    ensures
        keep_components(p) == p,
    decreases p.len(),
{
    if p.len() > 0 {
        let front = p.drop_last();
        assert forall|i: int| 0 <= i < front.len() implies kept(#[trigger] front[i]) by {
            assert(front[i] == p[i]);
        }
        lemma_keep_all(front);
        assert(p =~= front.push(p.last()));
    }
}

/// What is kept is valid as soon as the pieces hold no `/` and no `..`.
pub proof fn lemma_keep_valid(pieces: Seq<Seq<char>>)
    requires
        none_contains(pieces, '/'),
        !pieces.contains(dot_dot()),
    ensures
        valid_path(keep_components(pieces)),
        keep_components(pieces).len() <= pieces.len(),
    decreases pieces.len(),
{
    if pieces.len() > 0 {
        let front = pieces.drop_last();
        assert forall|i: int| 0 <= i < front.len() implies !(#[trigger] front[i]).contains('/') by {
            assert(front[i] == pieces[i]);
        }
        assert(!front.contains(dot_dot())) by {
            if front.contains(dot_dot()) {
                let i = choose|i: int| 0 <= i < front.len() && front[i] == dot_dot();
                assert(pieces[i] == dot_dot());
            }
        }
        lemma_keep_valid(front);
        assert(pieces.last() == pieces[pieces.len() - 1]);
        assert(pieces.contains(pieces.last()));
    }
}

/// The text of a valid path names exactly its components.
pub proof fn lemma_path_text_components(p: Seq<Seq<char>>)
    requires
        valid_path(p),
    ensures
        lexical_components(path_text(p)) == p,
        !is_absolute(path_text(p)),
        plain_text(path_text(p)),
        p.len() > 0 ==> split(path_text(p), '/') == p,
{
    let text = path_text(p);
    reveal_with_fuel(keep_components, 3);
    if p.len() == 0 {
        assert(split(text, '/') =~= seq![text]);
        assert(seq![text].drop_last() =~= Seq::<Seq<char>>::empty());
        assert(!seq![text].contains(dot())) by {
            if seq![text].contains(dot()) {
                let i = choose|i: int| 0 <= i < 1 && seq![text][i] == dot();
                assert(dot()[0] == '.');
            }
        }
        assert(!seq![text].contains(dot_dot())) by {
            if seq![text].contains(dot_dot()) {
                let i = choose|i: int| 0 <= i < 1 && seq![text][i] == dot_dot();
                assert(dot_dot()[0] == '.');
            }
        }
    } else {
        assert(none_contains(p, '/'));
        lemma_split_join(p, '/');
        lemma_keep_all(p);
        lemma_join_head(p, '/');
        assert(p[0].contains(p[0][0]));
    }
}

/// Reading the text of a valid path gives the path back.
pub proof fn lemma_path_round_trip(p: Seq<Seq<char>>)
    requires
        valid_path(p),
    ensures
        parse_path(path_text(p)) == Ok::<Seq<Seq<char>>, ParseError>(p),
{
    lemma_path_text_components(p);
}

/// Does the text `a` come before the text `b`: at the first place where they
/// differ, does `a` end or hold the lesser character?
pub open spec fn text_before(a: Seq<char>, b: Seq<char>) -> bool
    decreases a.len(),
{
    if b.len() == 0 {
        false
    } else if a.len() == 0 {
        true
    } else if a[0] != b[0] {
        a[0] < b[0]
    } else {
        text_before(a.drop_first(), b.drop_first())
    }
}

/// Does the path `a` come before the path `b`: at the first component where
/// they differ, does `a` end or hold the component that comes first?
pub open spec fn path_before(a: Seq<Seq<char>>, b: Seq<Seq<char>>) -> bool
    decreases a.len(),
{
    if b.len() == 0 {
        false
    } else if a.len() == 0 {
        true
    } else if a[0] != b[0] {
        text_before(a[0], b[0])
    } else {
        path_before(a.drop_first(), b.drop_first())
    }
}

/// Of two texts that differ exactly one comes before the other.
pub proof fn lemma_text_order(a: Seq<char>, b: Seq<char>)
    ensures
        !(text_before(a, b) && text_before(b, a)),
        a == b || text_before(a, b) || text_before(b, a),
        a == b ==> !text_before(a, b),
    decreases a.len(),
{
    if a.len() > 0 && b.len() > 0 {
        if a[0] == b[0] {
            lemma_text_order(a.drop_first(), b.drop_first());
            assert(a =~= seq![a[0]] + a.drop_first());
            assert(b =~= seq![b[0]] + b.drop_first());
        }
    } else if a.len() == 0 && b.len() == 0 {
        assert(a =~= b);
    }
}

/// What comes before a text that comes before another comes before that other.
pub proof fn lemma_text_transitive(a: Seq<char>, b: Seq<char>, c: Seq<char>)
    requires
        text_before(a, b),
        text_before(b, c),
    ensures
        text_before(a, c),
    decreases a.len(),
{
    if a.len() > 0 && a[0] == b[0] && b[0] == c[0] {
        lemma_text_transitive(a.drop_first(), b.drop_first(), c.drop_first());
    }
}

/// Of two paths that differ exactly one comes before the other.
pub proof fn lemma_path_order(a: Seq<Seq<char>>, b: Seq<Seq<char>>)
    ensures
        !(path_before(a, b) && path_before(b, a)),
        a == b || path_before(a, b) || path_before(b, a),
        a == b ==> !path_before(a, b),
    decreases a.len(),
{
    if a.len() > 0 && b.len() > 0 {
        if a[0] == b[0] {
            lemma_path_order(a.drop_first(), b.drop_first());
            assert(a =~= seq![a[0]] + a.drop_first());
            assert(b =~= seq![b[0]] + b.drop_first());
        } else {
            lemma_text_order(a[0], b[0]);
        }
    } else if a.len() == 0 && b.len() == 0 {
        assert(a =~= b);
    }
}

/// What comes before a path that comes before another comes before that other.
pub proof fn lemma_path_transitive(a: Seq<Seq<char>>, b: Seq<Seq<char>>, c: Seq<Seq<char>>)
    requires
        path_before(a, b),
        path_before(b, c),
    ensures
        path_before(a, c),
    decreases a.len(),
{
    if a.len() > 0 {
        if a[0] == b[0] && b[0] == c[0] {
            lemma_path_transitive(a.drop_first(), b.drop_first(), c.drop_first());
        } else if a[0] != b[0] && b[0] != c[0] {
            lemma_text_transitive(a[0], b[0], c[0]);
            lemma_text_order(a[0], c[0]);
        }
    }
}

/// Does the one text come before the other?
pub fn text_precedes(a: &Vec<char>, b: &Vec<char>) -> (r: bool)
    ensures
        r == text_before(a@, b@),
{
    let mut i: usize = 0;
    assert(a@.skip(0) =~= a@);
    assert(b@.skip(0) =~= b@);
    loop
        invariant
            i <= a.len(),
            i <= b.len(),
            text_before(a@, b@) == text_before(a@.skip(i as int), b@.skip(i as int)),
        decreases a.len() - i,
    {
        if i >= b.len() {
            return false;
        }
        if i >= a.len() {
            return true;
        }
        assert(a@.skip(i as int)[0] == a@[i as int]);
        assert(b@.skip(i as int)[0] == b@[i as int]);
        assert(a@.skip(i as int).drop_first() =~= a@.skip(i + 1));
        assert(b@.skip(i as int).drop_first() =~= b@.skip(i + 1));
        if a[i] != b[i] {
            return a[i] < b[i];
        }
        i += 1;
    }
}

/// `pathdiff::diff_paths` on two texts that are both absolute or both relative and
/// hold neither `.` nor `..`: the shared leading components are dropped, every
/// other component of `base` becomes one `..`, and the rest of `path` follows.
/// Paths are read as on Unix, with `/` between components.
#[verifier::external_body]
fn diff_paths(path: &str, base: &str) -> (r: Option<String>)
    requires
        is_absolute(path@) == is_absolute(base@),
        plain_text(path@),
        plain_text(base@),
    ensures
        r is Some,
        r matches Some(s) ==> s@ == path_text(
            relative_components(lexical_components(path@), lexical_components(base@)),
        ),
{
    match pathdiff::diff_paths(path, base) {
        Some(p) => match p.to_str() {
            Some(s) => Some(s.to_owned()),
            None => None,
        },
        None => None,
    }
}

/// A path relative to the workspace root. It never holds `..`, `.` or an empty
/// component.
#[derive(Debug, PartialEq, Eq, Hash, PartialOrd, Ord)]
pub struct LocalPath {
    components: Vec<String>,
}

impl View for LocalPath {
    type V = Seq<Seq<char>>;

    closed spec fn view(&self) -> Seq<Seq<char>> {
        views(self.components@)
    }
}

impl Clone for LocalPath {
    fn clone(&self) -> (r: Self)
        ensures
            r@ == self@,
    {
        proof {
            use_type_invariant(self);
        }
        let mut components: Vec<String> = Vec::new();
        let mut i: usize = 0;
        while i < self.components.len()
            invariant
                i <= self.components.len(),
                views(components@) == views(self.components@).take(i as int),
            decreases self.components.len() - i,
        {
            let ghost before = views(components@);
            let name = self.components[i].clone();
            assert(name@ == self.components@[i as int]@);
            components.push(name);
            i += 1;
            assert(views(components@) =~= before.push(name@));
            assert(views(components@) =~= views(self.components@).take(i as int));
        }
        assert(views(components@) =~= views(self.components@));
        LocalPath { components }
    }
}

impl LocalPath {
    #[verifier::type_invariant]
    spec fn well_formed(self) -> bool {
        valid_path(views(self.components@))
    }

    /// The workspace root itself: the path without components.
    pub fn root() -> (r: LocalPath)
        ensures
            r@ == Seq::<Seq<char>>::empty(),
    {
        let components: Vec<String> = Vec::new();
        assert(views(components@) =~= Seq::<Seq<char>>::empty());
        LocalPath { components }
    }

    /// Reads a path from its text. Empty pieces and `.` are skipped; an absolute
    /// text or one with a `..` is refused.
    pub fn from_str(s: &str) -> (r: Result<LocalPath, ParseError>)
        ensures
            r matches Ok(p) ==> parse_path(s@) == Ok::<Seq<Seq<char>>, ParseError>(p@),
            r matches Err(e) ==> parse_path(s@) == Err::<Seq<Seq<char>>, ParseError>(e),
    {
        let chars = chars_of(s);
        LocalPath::from_chars(&chars)
    }

    /// Reads a path from the characters of its text.
    pub fn from_chars(chars: &Vec<char>) -> (r: Result<LocalPath, ParseError>)
        ensures
            r matches Ok(p) ==> parse_path(chars@) == Ok::<Seq<Seq<char>>, ParseError>(p@),
            r matches Err(e) ==> parse_path(chars@) == Err::<Seq<Seq<char>>, ParseError>(e),
    {
        if chars.len() > 0 && chars[0] == '/' {
            return Err(ParseError::BadPath);
        }
        let pieces = split_chars(chars, '/');
        let ghost all = split(chars@, '/');
        proof {
            lemma_split_pieces(chars@, '/');
        }
        let mut components: Vec<String> = Vec::new();
        let mut i: usize = 0;
        assert(all.take(0) =~= Seq::<Seq<char>>::empty());
        assert(views(components@) =~= Seq::<Seq<char>>::empty());
        while i < pieces.len()
            invariant
                i <= pieces.len(),
                views(pieces@) == all,
                all == split(chars@, '/'),
                !is_absolute(chars@),
                none_contains(all, '/'),
                !all.take(i as int).contains(dot_dot()),
                views(components@) == keep_components(all.take(i as int)),
            decreases pieces.len() - i,
        {
            let piece = &pieces[i];
            assert(piece@ == all[i as int]);
            let ghost before = all.take(i as int);
            let ghost now = all.take(i + 1);
            assert(now.drop_last() =~= before);
            assert(now.last() == piece@);
            let is_dot = piece.len() == 1 && piece[0] == '.';
            let is_dot_dot = piece.len() == 2 && piece[0] == '.' && piece[1] == '.';
            assert(is_dot == (piece@ == dot())) by {
                if is_dot {
                    assert(piece@ =~= dot());
                }
                if piece@ == dot() {
                    assert(dot().len() == 1 && dot()[0] == '.');
                }
            }
            assert(is_dot_dot == (piece@ == dot_dot())) by {
                if is_dot_dot {
                    assert(piece@ =~= dot_dot());
                }
                if piece@ == dot_dot() {
                    assert(dot_dot().len() == 2 && dot_dot()[0] == '.' && dot_dot()[1] == '.');
                }
            }
            if is_dot_dot {
                assert(all.contains(dot_dot()));
                return Err(ParseError::BadPath);
            }
            assert(!now.contains(dot_dot())) by {
                if now.contains(dot_dot()) {
                    let k = choose|k: int| 0 <= k < now.len() && now[k] == dot_dot();
                    if k < i {
                        assert(before[k] == dot_dot());
                    }
                }
            }
            if piece.len() > 0 && !is_dot {
                let ghost old_components = views(components@);
                components.push(string_of(piece));
                assert(views(components@) =~= old_components.push(piece@));
            }
            i += 1;
        }
        assert(all.take(i as int) =~= all);
        proof {
            lemma_keep_valid(all);
        }
        Ok(LocalPath { components })
    }

    /// The path that a canonical absolute path has below the workspace root
    /// `base`. A path outside the workspace is refused, as is any text that is
    /// not absolute or holds `.` or `..`.
    pub fn from_canonical(path: &str, base: &str) -> (r: Result<LocalPath, ParseError>)
        ensures
            r matches Ok(p) ==> {
                &&& is_absolute(path@) && is_absolute(base@)
                &&& plain_text(path@) && plain_text(base@)
                &&& parse_path(
                    path_text(
                        relative_components(lexical_components(path@), lexical_components(base@)),
                    ),
                ) == Ok::<Seq<Seq<char>>, ParseError>(p@)
            },
            r matches Err(e) ==> e == ParseError::BadPath && {
                ||| !(is_absolute(path@) && is_absolute(base@))
                ||| !(plain_text(path@) && plain_text(base@))
                ||| parse_path(
                    path_text(
                        relative_components(lexical_components(path@), lexical_components(base@)),
                    ),
                ) is Err
            },
    {
        let path_chars = chars_of(path);
        let base_chars = chars_of(base);
        if !(is_absolute_chars(&path_chars) && is_absolute_chars(&base_chars)) {
            return Err(ParseError::BadPath);
        }
        if !(is_plain_chars(&path_chars) && is_plain_chars(&base_chars)) {
            return Err(ParseError::BadPath);
        }
        match diff_paths(path, base) {
            Some(text) => LocalPath::from_str(text.as_str()),
            None => Err(ParseError::BadPath),
        }
    }

    /// The textual form: the components with `/` between them.
    pub fn to_string(&self) -> (s: String)
        ensures
            s@ == path_text(self@),
    {
        let chars = self.to_chars();
        string_of(&chars)
    }

    /// The characters of the textual form.
    pub fn to_chars(&self) -> (out: Vec<char>)
        ensures
            out@ == path_text(self@),
    {
        let mut out: Vec<char> = Vec::new();
        let mut i: usize = 0;
        let ghost comps = views(self.components@);
        assert(comps.take(0) =~= Seq::<Seq<char>>::empty());
        while i < self.components.len()
            invariant
                i <= self.components.len(),
                comps == views(self.components@),
                out@ == join(comps.take(i as int), '/'),
            decreases self.components.len() - i,
        {
            proof {
                lemma_join_push(comps.take(i as int), comps[i as int], '/');
                assert(comps.take(i + 1) =~= comps.take(i as int).push(comps[i as int]));
            }
            if i > 0 {
                out.push('/');
            }
            push_str(&mut out, self.components[i].as_str());
            i += 1;
        }
        assert(comps.take(i as int) =~= comps);
        out
    }

    /// The absolute form of the path below `root`.
    pub fn to_abs(&self, root: &str) -> (s: String)
        ensures
            s@ == abs_text(root@, self@),
    {
        let mut out = chars_of(root);
        if self.components.len() > 0 {
            let n = out.len();
            if !(n > 0 && out[n - 1] == '/') {
                out.push('/');
            }
            let local = self.to_chars();
            push_chars(&mut out, &local);
        }
        string_of(&out)
    }

    /// The last component.
    pub fn file_name(&self) -> (name: &str)
        requires
            self@.len() > 0,
        ensures
            name@ == self@.last(),
            valid_component(name@),
    {
        proof {
            use_type_invariant(self);
        }
        self.components[self.components.len() - 1].as_str()
    }

    /// The path without its last component.
    pub fn parent(&self) -> (r: LocalPath)
        requires
            self@.len() > 0,
        ensures
            r@ == self@.drop_last(),
    {
        proof {
            use_type_invariant(self);
        }
        let mut components: Vec<String> = Vec::new();
        let mut i: usize = 0;
        let n = self.components.len() - 1;
        while i < n
            invariant
                i <= n,
                n + 1 == self.components.len(),
                views(components@) == views(self.components@).take(i as int),
            decreases n - i,
        {
            let ghost before = views(components@);
            let name = self.components[i].clone();
            assert(name@ == self.components@[i as int]@);
            components.push(name);
            i += 1;
            assert(views(components@) =~= before.push(name@));
            assert(views(components@) =~= views(self.components@).take(i as int));
        }
        assert(views(components@) =~= views(self.components@).drop_last());
        LocalPath { components }
    }

    /// The components, first to last.
    pub fn as_path(&self) -> (r: &Vec<String>)
        ensures
            views(r@) == self@,
            valid_path(self@),
    {
        proof {
            use_type_invariant(self);
        }
        &self.components
    }

    /// The number of components.
    pub fn depth(&self) -> (n: usize)
        ensures
            n == self@.len(),
            valid_path(self@),
    {
        proof {
            use_type_invariant(self);
        }
        self.components.len()
    }

    /// The path with one more component. A name that is empty, `.` or `..`, or
    /// holds a `/`, is refused.
    pub fn join(&self, component: &str) -> (r: Result<LocalPath, ParseError>)
        ensures
            valid_component(component@) ==> (r matches Ok(p) && p@ == self@.push(component@)),
            !valid_component(component@) ==> r == Err::<LocalPath, ParseError>(ParseError::BadPath),
    {
        let chars = chars_of(component);
        let n = chars.len();
        let is_dot = n == 1 && chars[0] == '.';
        let is_dot_dot = n == 2 && chars[0] == '.' && chars[1] == '.';
        assert(is_dot == (chars@ == dot())) by {
            if is_dot {
                assert(chars@ =~= dot());
            }
            if chars@ == dot() {
                assert(dot().len() == 1 && dot()[0] == '.');
            }
        }
        assert(is_dot_dot == (chars@ == dot_dot())) by {
            if is_dot_dot {
                assert(chars@ =~= dot_dot());
            }
            if chars@ == dot_dot() {
                assert(dot_dot().len() == 2 && dot_dot()[0] == '.' && dot_dot()[1] == '.');
            }
        }
        if n == 0 || is_dot || is_dot_dot || find(&chars, '/') < n {
            return Err(ParseError::BadPath);
        }
        Ok(self.child(component))
    }

    /// The path with one more component, which must be a name that can stand
    /// in a path.
    pub fn child(&self, component: &str) -> (r: LocalPath)
        requires
            valid_component(component@),
        ensures
            r@ == self@.push(component@),
    {
        let copy = self.clone();
        proof {
            use_type_invariant(&copy);
        }
        let mut components = copy.components;
        let ghost before = views(components@);
        components.push(component.to_owned());
        assert(views(components@) =~= before.push(component@));
        LocalPath { components }
    }

    /// The way from `other` to this path, as text: a `..` for every component
    /// of `other` that the two do not share, then the rest of this path.
    pub fn relative_to(&self, other: &LocalPath) -> (s: String)
        ensures
            s@ == path_text(relative_components(self@, other@)),
    {
        proof {
            use_type_invariant(self);
            use_type_invariant(other);
            lemma_path_text_components(self@);
            lemma_path_text_components(other@);
        }
        let here = self.to_string();
        let there = other.to_string();
        match diff_paths(here.as_str(), there.as_str()) {
            Some(s) => s,
            None => String::new(),
        }
    }

    /// Does this path come before the other, in the order of paths: component
    /// by component, and character by character within a component?
    pub fn precedes(&self, other: &LocalPath) -> (r: bool)
        ensures
            r == path_before(self@, other@),
    {
        let mut i: usize = 0;
        assert(self@.skip(0) =~= self@);
        assert(other@.skip(0) =~= other@);
        loop
            invariant
                i <= self.components.len(),
                i <= other.components.len(),
                self@.len() == self.components@.len(),
                other@.len() == other.components@.len(),
                path_before(self@, other@) == path_before(
                    self@.skip(i as int),
                    other@.skip(i as int),
                ),
            decreases self.components.len() - i,
        {
            if i >= other.components.len() {
                return false;
            }
            if i >= self.components.len() {
                return true;
            }
            assert(self@.skip(i as int)[0] == self.components@[i as int]@);
            assert(other@.skip(i as int)[0] == other.components@[i as int]@);
            assert(self@.skip(i as int).drop_first() =~= self@.skip(i + 1));
            assert(other@.skip(i as int).drop_first() =~= other@.skip(i + 1));
            if self.components[i] != other.components[i] {
                let here = chars_of(self.components[i].as_str());
                let there = chars_of(other.components[i].as_str());
                return text_precedes(&here, &there);
            }
            i += 1;
        }
    }

    /// Do the two paths have the same components?
    pub fn same(&self, other: &LocalPath) -> (r: bool)
        ensures
            r == (self@ == other@),
    {
        if self.components.len() != other.components.len() {
            assert(self@.len() != other@.len());
            return false;
        }
        let mut i: usize = 0;
        while i < self.components.len()
            invariant
                i <= self.components.len(),
                self.components.len() == other.components.len(),
                forall|j: int| 0 <= j < i ==> self@[j] == other@[j],
            decreases self.components.len() - i,
        {
            if self.components[i] != other.components[i] {
                assert(self@[i as int] != other@[i as int]);
                return false;
            }
            i += 1;
        }
        assert(self@ =~= other@);
        true
    }
}

/// Does the text start with `/`?
fn is_absolute_chars(chars: &Vec<char>) -> (r: bool)
    ensures
        r == is_absolute(chars@),
{
    chars.len() > 0 && chars[0] == '/'
}

/// Is the text free of `.` and `..` pieces?
fn is_plain_chars(chars: &Vec<char>) -> (r: bool)
    ensures
        r == plain_text(chars@),
{
    let pieces = split_chars(chars, '/');
    let ghost all = split(chars@, '/');
    let mut i: usize = 0;
    while i < pieces.len()
        invariant
            i <= pieces.len(),
            views(pieces@) == all,
            all == split(chars@, '/'),
            forall|j: int| 0 <= j < i ==> all[j] != dot() && all[j] != dot_dot(),
        decreases pieces.len() - i,
    {
        let piece = &pieces[i];
        assert(piece@ == all[i as int]);
        let is_dot = piece.len() == 1 && piece[0] == '.';
        let is_dot_dot = piece.len() == 2 && piece[0] == '.' && piece[1] == '.';
        if is_dot {
            assert(piece@ =~= dot());
            assert(all.contains(dot()));
            return false;
        }
        if is_dot_dot {
            assert(piece@ =~= dot_dot());
            assert(all.contains(dot_dot()));
            return false;
        }
        assert(piece@ != dot()) by {
            assert(dot().len() == 1 && dot()[0] == '.');
        }
        assert(piece@ != dot_dot()) by {
            assert(dot_dot().len() == 2 && dot_dot()[0] == '.' && dot_dot()[1] == '.');
        }
        i += 1;
    }
    true
}

} // verus!
