//! Character sequences: the common ground of every textual format in the crate.
//!
//! The formats are defined over `Seq<char>`; the executable helpers here work on
//! `Vec<char>` and are proved to compute exactly those definitions.

use vstd::prelude::*;
use vstd::string::*;

verus! {

/// The views of the elements of a sequence, in order.
pub open spec fn views<T: View>(s: Seq<T>) -> Seq<T::V> {
    Seq::new(s.len(), |i: int| s[i]@)
}

/// Position of the first `c` in `s` at or after `from`, or `s.len()` when there is none.
pub open spec fn index_from(s: Seq<char>, c: char, from: int) -> int
    decreases s.len() - from,
{
    if from < 0 || from >= s.len() {
        s.len() as int
    } else if s[from] == c {
        from
    } else {
        index_from(s, c, from + 1)
    }
}

/// Position of the first `c` in `s`, or `s.len()` when `s` holds none.
pub open spec fn first_index(s: Seq<char>, c: char) -> int {
    index_from(s, c, 0)
}

/// The text before and after the first `c`, when there is one.
pub open spec fn split_once(s: Seq<char>, c: char) -> Option<(Seq<char>, Seq<char>)> {
    let i = first_index(s, c);
    if 0 <= i < s.len() {
        Some((s.take(i), s.skip(i + 1)))
    } else {
        None
    }
}

/// The pieces of `s` between occurrences of `sep`; never empty.
pub open spec fn split(s: Seq<char>, sep: char) -> Seq<Seq<char>>
    decreases s.len(),
{
    let i = first_index(s, sep);
    if 0 <= i < s.len() {
        seq![s.take(i)] + split(s.skip(i + 1), sep)
    } else {
        seq![s]
    }
}

/// The pieces put together with `sep` between neighbours.
pub open spec fn join(parts: Seq<Seq<char>>, sep: char) -> Seq<char>
    decreases parts.len(),
{
    if parts.len() == 0 {
        Seq::<char>::empty()
    } else if parts.len() == 1 {
        parts[0]
    } else {
        parts[0] + seq![sep] + join(parts.drop_first(), sep)
    }
}

/// `s` without the run of `c` at its end.
pub open spec fn trim_end(s: Seq<char>, c: char) -> Seq<char>
    decreases s.len(),
{
    if s.len() > 0 && s.last() == c {
        trim_end(s.drop_last(), c)
    } else {
        s
    }
}

/// No piece holds the character `c`.
pub open spec fn none_contains(parts: Seq<Seq<char>>, c: char) -> bool {
    forall|i: int| 0 <= i < parts.len() ==> !(#[trigger] parts[i]).contains(c)
}

/// What the first index at or after `from` is: it holds `c` unless it is the
/// length, and nothing between `from` and it holds `c`.
pub proof fn lemma_index_from(s: Seq<char>, c: char, from: int)
    requires
        0 <= from <= s.len(),
    ensures
        from <= index_from(s, c, from) <= s.len(),
        index_from(s, c, from) < s.len() ==> s[index_from(s, c, from)] == c,
        forall|j: int| from <= j < index_from(s, c, from) ==> s[j] != c,
    decreases s.len() - from,
{
    if from < s.len() && s[from] != c {
        lemma_index_from(s, c, from + 1);
    }
}

/// The first index is the only position that holds `c` with none before it.
pub proof fn lemma_index_from_unique(s: Seq<char>, c: char, from: int, i: int)
    requires
        0 <= from <= i <= s.len(),
        i < s.len() ==> s[i] == c,
        forall|j: int| from <= j < i ==> s[j] != c,
    ensures
        index_from(s, c, from) == i,
{
    lemma_index_from(s, c, from);
}

/// The first index is the length exactly when the text does not hold `c`.
pub proof fn lemma_first_index_absent(s: Seq<char>, c: char)
    ensures
        first_index(s, c) == s.len() <==> !s.contains(c),
        0 <= first_index(s, c) <= s.len(),
{
    lemma_index_from(s, c, 0);
    let i = first_index(s, c);
    if i < s.len() {
        assert(s[i] == c);
    }
}

/// Searching from `from` is searching the text that starts there.
pub proof fn lemma_index_from_skip(s: Seq<char>, c: char, from: int)
    requires
        0 <= from <= s.len(),
    ensures
        index_from(s, c, from) == from + first_index(s.skip(from), c),
{
    let t = s.skip(from);
    lemma_index_from(t, c, 0);
    let k = first_index(t, c);
    assert forall|j: int| from <= j < from + k implies s[j] != c by {
        assert(t[j - from] == s[j]);
    }
    if k < t.len() {
        assert(t[k] == s[from + k]);
    }
    lemma_index_from_unique(s, c, from, from + k);
}

/// A separator after a piece that holds none is the first one.
pub proof fn lemma_first_index_concat(a: Seq<char>, c: char, b: Seq<char>)
    requires
        !a.contains(c),
    ensures
        first_index(a + seq![c] + b, c) == a.len(),
        (a + seq![c] + b).take(a.len() as int) == a,
        (a + seq![c] + b).skip(a.len() as int + 1) == b,
        split_once(a + seq![c] + b, c) == Some((a, b)),
{
    let s = a + seq![c] + b;
    assert forall|j: int| 0 <= j < a.len() implies s[j] != c by {
        assert(s[j] == a[j]);
        assert(a.contains(a[j]));
    }
    assert(s[a.len() as int] == c);
    lemma_index_from_unique(s, c, 0, a.len() as int);
    assert(s.take(a.len() as int) =~= a);
    assert(s.skip(a.len() as int + 1) =~= b);
}

/// Splitting what `join` built gives the pieces back.
pub proof fn lemma_split_join(parts: Seq<Seq<char>>, sep: char)
    requires
        parts.len() >= 1,
        none_contains(parts, sep),
    ensures
        split(join(parts, sep), sep) == parts,
    decreases parts.len(),
{
    if parts.len() == 1 {
        lemma_first_index_absent(parts[0], sep);
        assert(parts =~= seq![parts[0]]);
    } else {
        let rest = parts.drop_first();
        assert forall|i: int| 0 <= i < rest.len() implies !(#[trigger] rest[i]).contains(sep) by {
            assert(rest[i] == parts[i + 1]);
        }
        lemma_split_join(rest, sep);
        lemma_first_index_concat(parts[0], sep, join(rest, sep));
        assert(parts =~= seq![parts[0]] + rest);
    }
}

/// `split` never returns an empty list, and no piece holds the separator.
pub proof fn lemma_split_pieces(s: Seq<char>, sep: char)
    ensures
        split(s, sep).len() >= 1,
        none_contains(split(s, sep), sep),
    decreases s.len(),
{
    lemma_index_from(s, sep, 0);
    let i = first_index(s, sep);
    if 0 <= i < s.len() {
        lemma_split_pieces(s.skip(i + 1), sep);
        let head = s.take(i);
        let tail = split(s.skip(i + 1), sep);
        assert(!head.contains(sep)) by {
            if head.contains(sep) {
                let j = choose|j: int| 0 <= j < head.len() && head[j] == sep;
                assert(s[j] == sep);
            }
        }
        assert forall|k: int| 0 <= k < split(s, sep).len() implies !(#[trigger] split(s, sep)[k]).contains(
            sep,
        ) by {
            if k > 0 {
                assert(split(s, sep)[k] == tail[k - 1]);
            }
        }
    } else {
        assert(!s.contains(sep)) by {
            lemma_first_index_absent(s, sep);
        }
    }
}

/// A character that no piece holds, and that is not the separator, is not in the join.
pub proof fn lemma_join_lacks(parts: Seq<Seq<char>>, sep: char, c: char)
    requires
        none_contains(parts, c),
        c != sep,
    ensures
        !join(parts, sep).contains(c),
    decreases parts.len(),
{
    let text = join(parts, sep);
    if parts.len() == 1 {
    } else if parts.len() > 1 {
        let rest = parts.drop_first();
        assert forall|i: int| 0 <= i < rest.len() implies !(#[trigger] rest[i]).contains(c) by {
            assert(rest[i] == parts[i + 1]);
        }
        lemma_join_lacks(rest, sep, c);
        if text.contains(c) {
            let i = choose|i: int| 0 <= i < text.len() && text[i] == c;
            let head = parts[0];
            if i < head.len() {
                assert(head[i] == c);
                assert(head.contains(c));
            } else if i > head.len() {
                assert(join(rest, sep)[i - head.len() - 1] == c);
            }
        }
    }
}

/// A join that has pieces ends as its last piece does, or in the separator when
/// that piece is empty and not the only one.
pub proof fn lemma_join_last(parts: Seq<Seq<char>>, sep: char)
    requires
        parts.len() >= 1,
    ensures
        parts.last().len() > 0 ==> join(parts, sep).len() > 0 && join(parts, sep).last()
            == parts.last().last(),
        parts.last().len() == 0 && parts.len() > 1 ==> join(parts, sep).len() > 0 && join(
            parts,
            sep,
        ).last() == sep,
        parts.last().len() == 0 && parts.len() == 1 ==> join(parts, sep).len() == 0,
    decreases parts.len(),
{
    if parts.len() > 1 {
        let rest = parts.drop_first();
        lemma_join_last(rest, sep);
        assert(rest.last() == parts.last());
        let tail = join(rest, sep);
        let text = parts[0] + seq![sep] + tail;
        if tail.len() > 0 {
            assert(text.last() == tail.last());
        } else {
            assert(text.last() == sep);
        }
    }
}

/// A join starts with its first piece.
pub proof fn lemma_join_head(parts: Seq<Seq<char>>, sep: char)
    requires
        parts.len() > 0,
    ensures
        parts[0].is_prefix_of(join(parts, sep)),
{
    if parts.len() > 1 {
        let rest = join(parts.drop_first(), sep);
        assert((parts[0] + seq![sep] + rest).subrange(0, parts[0].len() as int) =~= parts[0]);
    } else {
        assert(parts[0].subrange(0, parts[0].len() as int) =~= parts[0]);
    }
}

/// A join extended by one more piece.
pub proof fn lemma_join_push(parts: Seq<Seq<char>>, last: Seq<char>, sep: char)
    ensures
        join(parts.push(last), sep) == if parts.len() == 0 {
            last
        } else {
            join(parts, sep) + seq![sep] + last
        },
    decreases parts.len(),
{
    let all = parts.push(last);
    if parts.len() == 0 {
    } else if parts.len() == 1 {
        assert(all.drop_first() =~= seq![last]);
        assert(join(all.drop_first(), sep) == last);
    } else {
        lemma_join_push(parts.drop_first(), last, sep);
        assert(all.drop_first() =~= parts.drop_first().push(last));
        assert(parts[0] + seq![sep] + (join(parts.drop_first(), sep) + seq![sep] + last) =~= (parts[0]
            + seq![sep] + join(parts.drop_first(), sep)) + seq![sep] + last);
    }
}

/// A concatenation holds a character only if one of its two parts does.
pub proof fn lemma_concat_lacks(a: Seq<char>, b: Seq<char>, c: char)
    requires
        !a.contains(c),
        !b.contains(c),
    ensures
        !(a + b).contains(c),
{
    let text = a + b;
    if text.contains(c) {
        let i = choose|i: int| 0 <= i < text.len() && text[i] == c;
        if i < a.len() {
            assert(a[i] == c);
        } else {
            assert(b[i - a.len()] == c);
        }
    }
}

/// A text that does not end in `c` is left alone; one more `c` at the end changes nothing.
pub proof fn lemma_trim_end_push(s: Seq<char>, c: char)
    ensures
        trim_end(s.push(c), c) == trim_end(s, c),
        (s.len() == 0 || s.last() != c) ==> trim_end(s, c) == s,
{
    assert(s.push(c).drop_last() =~= s);
}

/// `String::push`: the string grows by exactly the character given.
#[verifier::external_body]
fn push_char(s: &mut String, c: char)
    ensures
        final(s)@ == old(s)@.push(c),
{
    s.push(c);
}

/// The characters of a string slice, one by one.
pub fn chars_of(s: &str) -> (v: Vec<char>)
    ensures
        v@ == s@,
{
    broadcast use vstd::string::group_string_axioms;

    let mut v: Vec<char> = Vec::new();
    for c in it: s.chars()
        invariant
            it.seq() == s@,
            v@ == it.seq().take(it.index()),
    {
        v.push(c);
    }
    v
}

/// The string made of the given characters.
pub fn string_of(v: &Vec<char>) -> (s: String)
    ensures
        s@ == v@,
{
    let mut s = String::new();
    let mut i: usize = 0;
    while i < v.len()
        invariant
            i <= v.len(),
            s@ == v@.take(i as int),
        decreases v.len() - i,
    {
        push_char(&mut s, v[i]);
        i += 1;
        assert(v@.take(i as int) =~= v@.take(i - 1).push(v@[i - 1]));
    }
    assert(v@.take(v.len() as int) =~= v@);
    s
}

/// Appends the characters of `s` to `out`.
pub fn push_str(out: &mut Vec<char>, s: &str)
    ensures
        final(out)@ == old(out)@ + s@,
{
    let cs = chars_of(s);
    push_chars(out, &cs);
}

/// Appends the characters of `cs` to `out`.
pub fn push_chars(out: &mut Vec<char>, cs: &Vec<char>)
    ensures
        final(out)@ == old(out)@ + cs@,
{
    let mut i: usize = 0;
    while i < cs.len()
        invariant
            i <= cs.len(),
            out@ == old(out)@ + cs@.take(i as int),
        decreases cs.len() - i,
    {
        out.push(cs[i]);
        i += 1;
        assert(cs@.take(i as int) =~= cs@.take(i - 1).push(cs@[i - 1]));
    }
    assert(cs@.take(cs.len() as int) =~= cs@);
}

/// The characters of `v` from `from` up to `to`.
pub fn slice(v: &Vec<char>, from: usize, to: usize) -> (r: Vec<char>)
    requires
        from <= to <= v.len(),
    ensures
        r@ == v@.subrange(from as int, to as int),
{
    let mut r: Vec<char> = Vec::new();
    let mut i: usize = from;
    while i < to
        invariant
            from <= i <= to <= v.len(),
            r@ == v@.subrange(from as int, i as int),
        decreases to - i,
    {
        r.push(v[i]);
        i += 1;
        assert(v@.subrange(from as int, i as int) =~= v@.subrange(from as int, i - 1).push(
            v@[i - 1],
        ));
    }
    r
}

/// Position of the first `c` at or after `from`.
pub fn find_from(v: &Vec<char>, c: char, from: usize) -> (i: usize)
    requires
        from <= v.len(),
    ensures
        i == index_from(v@, c, from as int),
        from <= i <= v.len(),
{
    let mut i: usize = from;
    while i < v.len() && v[i] != c
        invariant
            from <= i <= v.len(),
            forall|j: int| from <= j < i ==> v@[j] != c,
        decreases v.len() - i,
    {
        i += 1;
    }
    proof {
        lemma_index_from_unique(v@, c, from as int, i as int);
    }
    i
}

/// Position of the first `c`, or the length when there is none.
pub fn find(v: &Vec<char>, c: char) -> (i: usize)
    ensures
        i == first_index(v@, c),
        i <= v.len(),
        (i == v.len()) <==> !v@.contains(c),
{
    proof {
        lemma_first_index_absent(v@, c);
    }
    find_from(v, c, 0)
}

/// Do two texts hold the same characters?
pub fn same_chars(a: &Vec<char>, b: &Vec<char>) -> (r: bool)
    ensures
        r == (a@ == b@),
{
    if a.len() != b.len() {
        return false;
    }
    let mut i: usize = 0;
    while i < a.len()
        invariant
            i <= a.len(),
            a.len() == b.len(),
            forall|j: int| 0 <= j < i ==> a@[j] == b@[j],
        decreases a.len() - i,
    {
        if a[i] != b[i] {
            return false;
        }
        i += 1;
    }
    assert(a@ =~= b@);
    true
}

/// Does `v` start with `p`?
pub fn has_prefix(v: &Vec<char>, p: &Vec<char>) -> (r: bool)
    ensures
        r == p@.is_prefix_of(v@),
{
    if p.len() > v.len() {
        return false;
    }
    let mut i: usize = 0;
    while i < p.len()
        invariant
            i <= p.len() <= v.len(),
            forall|j: int| 0 <= j < i ==> v@[j] == p@[j],
        decreases p.len() - i,
    {
        if v[i] != p[i] {
            return false;
        }
        i += 1;
    }
    assert(p@ =~= v@.subrange(0, p.len() as int));
    true
}

/// Does `v` end with `p`?
pub fn has_suffix(v: &Vec<char>, p: &Vec<char>) -> (r: bool)
    ensures
        r == p@.is_suffix_of(v@),
{
    if p.len() > v.len() {
        return false;
    }
    let d: usize = v.len() - p.len();
    let mut i: usize = 0;
    while i < p.len()
        invariant
            i <= p.len() <= v.len(),
            d == v.len() - p.len(),
            forall|j: int| 0 <= j < i ==> v@[d + j] == p@[j],
        decreases p.len() - i,
    {
        if v[d + i] != p[i] {
            assert(v@.subrange(v.len() - p.len(), v.len() as int)[i as int] != p@[i as int]);
            return false;
        }
        i += 1;
    }
    assert(p@ =~= v@.subrange(v.len() - p.len(), v.len() as int));
    true
}

/// The pieces of `v` between occurrences of `sep`.
pub fn split_chars(v: &Vec<char>, sep: char) -> (parts: Vec<Vec<char>>)
    ensures
        views(parts@) == split(v@, sep),
        parts.len() >= 1,
{
    let mut parts: Vec<Vec<char>> = Vec::new();
    let mut start: usize = 0;
    assert(v@.skip(0) =~= v@);
    assert(views(parts@) + split(v@, sep) =~= split(v@, sep));
    loop
        invariant
            start <= v.len(),
            split(v@, sep) == views(parts@) + split(v@.skip(start as int), sep),
        decreases v.len() - start,
    {
        let i = find_from(v, sep, start);
        let piece = slice(v, start, i);
        let ghost rest = v@.skip(start as int);
        let ghost before = views(parts@);
        proof {
            lemma_index_from_skip(v@, sep, start as int);
            assert(rest.take(i - start) =~= piece@);
        }
        parts.push(piece);
        assert(views(parts@) =~= before.push(piece@));
        if i >= v.len() {
            assert(split(rest, sep) =~= seq![piece@]) by {
                assert(rest.take(i - start) =~= rest);
            }
            assert(split(v@, sep) =~= views(parts@));
            return parts;
        }
        proof {
            assert(rest.skip(i - start + 1) =~= v@.skip(i + 1));
            assert(split(rest, sep) =~= seq![piece@] + split(v@.skip(i + 1), sep));
            assert(split(v@, sep) =~= views(parts@) + split(v@.skip(i + 1), sep));
        }
        start = i + 1;
    }
}

/// `v` without the run of `c` at its end.
pub fn trim_end_chars(v: &Vec<char>, c: char) -> (r: Vec<char>)
    ensures
        r@ == trim_end(v@, c),
{
    let mut n: usize = v.len();
    assert(v@.take(n as int) =~= v@);
    while n > 0 && v[n - 1] == c
        invariant
            n <= v.len(),
            trim_end(v@, c) == trim_end(v@.take(n as int), c),
        decreases n,
    {
        assert(v@.take(n as int).drop_last() =~= v@.take(n - 1));
        n -= 1;
    }
    let r = slice(v, 0, n);
    assert(r@ =~= v@.take(n as int));
    r
}

} // verus!
