//! The mathematical model of line-oriented text: splitting a character
//! sequence into lines at `'\n'`, joining lines back, and the exec
//! conversions between `&str` / `String` and `Vec<char>`.

use vstd::prelude::*;

verus! {

/// Split a text into its line segments. Every `'\n'` ends a segment, so a
/// text with `k` line breaks has `k + 1` segments; the empty text has one
/// empty segment.
pub open spec fn split_lines(t: Seq<char>) -> Seq<Seq<char>>
    decreases t.len(),
{
    if t.len() == 0 {
        seq![Seq::<char>::empty()]
    } else if t[0] == '\n' {
        seq![Seq::<char>::empty()] + split_lines(t.drop_first())
    } else {
        let rest = split_lines(t.drop_first());
        seq![seq![t[0]] + rest[0]] + rest.drop_first()
    }
}

/// Join line segments with `'\n'` between them, no trailing break.
pub open spec fn join_lines(ls: Seq<Seq<char>>) -> Seq<char>
    decreases ls.len(),
{
    if ls.len() == 0 {
        Seq::<char>::empty()
    } else if ls.len() == 1 {
        ls[0]
    } else {
        ls[0] + seq!['\n'] + join_lines(ls.drop_first())
    }
}

/// The number of line breaks in a text.
pub open spec fn count_breaks(t: Seq<char>) -> nat
    decreases t.len(),
{
    if t.len() == 0 {
        0
    } else if t[0] == '\n' {
        1 + count_breaks(t.drop_first())
    } else {
        count_breaks(t.drop_first())
    }
}

/// A single line holds no line break.
pub open spec fn line_ok(l: Seq<char>) -> bool {
    !l.contains('\n')
}

/// A well-formed line sequence: at least one line, none holding a break.
pub open spec fn lines_ok(ls: Seq<Seq<char>>) -> bool {
    &&& ls.len() >= 1
    &&& forall|i: int| 0 <= i < ls.len() ==> line_ok(#[trigger] ls[i])
}

/// Splitting yields one segment more than there are line breaks.
pub proof fn lemma_split_len(t: Seq<char>)
    ensures
        split_lines(t).len() == count_breaks(t) + 1,
    decreases t.len(),
{
    if t.len() == 0 {
    } else {
        lemma_split_len(t.drop_first());
    }
}

/// Splitting yields a well-formed line sequence: its segments hold no break.
pub proof fn lemma_split_ok(t: Seq<char>)
    ensures
        lines_ok(split_lines(t)),
    decreases t.len(),
{
    if t.len() == 0 {
        assert(!Seq::<char>::empty().contains('\n'));
    } else if t[0] == '\n' {
        lemma_split_ok(t.drop_first());
        assert(!Seq::<char>::empty().contains('\n'));
    } else {
        lemma_split_ok(t.drop_first());
        let rest = split_lines(t.drop_first());
        let first = seq![t[0]] + rest[0];
        assert forall|j: int| 0 <= j < first.len() implies first[j] != '\n' by {
            if j == 0 {
            } else {
                assert(first[j] == rest[0][j - 1]);
                assert(!rest[0].contains('\n'));
            }
        }
        assert(!first.contains('\n'));
        assert forall|i: int| 0 <= i < split_lines(t).len() implies line_ok(
            #[trigger] split_lines(t)[i],
        ) by {
            if i > 0 {
                assert(split_lines(t)[i] == rest[i]);
            }
        }
    }
}

/// A break-free text is a single segment.
pub proof fn lemma_split_single(l: Seq<char>)
    requires
        line_ok(l),
    ensures
        split_lines(l) == seq![l],
    decreases l.len(),
{
    if l.len() == 0 {
        assert(split_lines(l) =~~= seq![l]);
    } else {
        assert(l[0] != '\n') by {
            assert(l.contains('\n') <== l[0] == '\n');
        }
        assert(line_ok(l.drop_first())) by {
            if l.drop_first().contains('\n') {
                let j = choose|j: int| 0 <= j < l.drop_first().len() && l.drop_first()[j] == '\n';
                assert(l[j + 1] == '\n');
            }
        }
        lemma_split_single(l.drop_first());
        assert(split_lines(l) =~~= seq![l]);
    }
}

/// Splitting after a leading break-free line and a break: the line comes
/// off whole and the remainder splits on its own.
pub proof fn lemma_split_line_break(l: Seq<char>, rest: Seq<char>)
    requires
        line_ok(l),
    ensures
        split_lines(l + seq!['\n'] + rest) == seq![l] + split_lines(rest),
    decreases l.len(),
{
    let t = l + seq!['\n'] + rest;
    if l.len() == 0 {
        assert(t =~= seq!['\n'] + rest);
        assert(t[0] == '\n');
        assert(t.drop_first() =~= rest);
        assert(split_lines(t) =~~= seq![l] + split_lines(rest));
    } else {
        assert(l[0] != '\n') by {
            assert(l.contains('\n') <== l[0] == '\n');
        }
        assert(line_ok(l.drop_first())) by {
            if l.drop_first().contains('\n') {
                let j = choose|j: int| 0 <= j < l.drop_first().len() && l.drop_first()[j] == '\n';
                assert(l[j + 1] == '\n');
            }
        }
        lemma_split_line_break(l.drop_first(), rest);
        assert(t[0] == l[0]);
        assert(t.drop_first() =~= l.drop_first() + seq!['\n'] + rest);
        let r = split_lines(t.drop_first());
        assert(r == seq![l.drop_first()] + split_lines(rest));
        assert(r[0] == l.drop_first());
        assert(seq![t[0]] + r[0] =~= l);
        assert(r.drop_first() =~= split_lines(rest));
        assert(split_lines(t) =~~= seq![l] + split_lines(rest));
    }
}

/// Joining the segments of a text gives the text back: reading out a
/// buffer built from a text returns that text.
pub proof fn lemma_join_split(t: Seq<char>)
    ensures
        join_lines(split_lines(t)) == t,
    decreases t.len(),
{
    if t.len() == 0 {
        assert(join_lines(split_lines(t)) =~= t);
    } else if t[0] == '\n' {
        lemma_join_split(t.drop_first());
        lemma_split_len(t.drop_first());
        let s = split_lines(t);
        assert(s.drop_first() =~= split_lines(t.drop_first()));
        assert(join_lines(s) =~= t);
    } else {
        lemma_join_split(t.drop_first());
        let rest = split_lines(t.drop_first());
        lemma_split_len(t.drop_first());
        let s = split_lines(t);
        if rest.len() == 1 {
            assert(s =~~= seq![seq![t[0]] + rest[0]]);
            assert(join_lines(s) == seq![t[0]] + rest[0]);
            assert(join_lines(rest) == rest[0]);
            assert(join_lines(s) =~= t);
        } else {
            assert(s[0] == seq![t[0]] + rest[0]);
            assert(s.drop_first() =~= rest.drop_first());
            assert(join_lines(s) == s[0] + seq!['\n'] + join_lines(s.drop_first()));
            assert(join_lines(rest) == rest[0] + seq!['\n'] + join_lines(rest.drop_first()));
            assert(join_lines(s) =~= seq![t[0]] + join_lines(rest));
            assert(join_lines(s) =~= t);
        }
    }
}

/// Splitting the join of well-formed lines gives the lines back.
pub proof fn lemma_split_join(ls: Seq<Seq<char>>)
    requires
        lines_ok(ls),
    ensures
        split_lines(join_lines(ls)) == ls,
    decreases ls.len(),
{
    if ls.len() == 1 {
        lemma_split_single(ls[0]);
        assert(split_lines(join_lines(ls)) =~~= ls);
    } else {
        assert(lines_ok(ls.drop_first())) by {
            assert(forall|i: int|
                0 <= i < ls.drop_first().len() ==> #[trigger] ls.drop_first()[i] == ls[i + 1]);
        }
        lemma_split_join(ls.drop_first());
        lemma_split_line_break(ls[0], join_lines(ls.drop_first()));
        assert(split_lines(join_lines(ls)) =~~= ls);
    }
}

/// A contiguous part of a break-free line is break-free.
pub proof fn lemma_subrange_line_ok(l: Seq<char>, a: int, b: int)
    requires
        line_ok(l),
        0 <= a <= b <= l.len(),
    ensures
        line_ok(l.subrange(a, b)),
{
    if l.subrange(a, b).contains('\n') {
        let j = choose|j: int| 0 <= j < b - a && l.subrange(a, b)[j] == '\n';
        assert(l[a + j] == '\n');
    }
}

/// The line views of a vector of lines: each element seen as its
/// character sequence.
pub open spec fn views_of(v: Vec<Vec<char>>) -> Seq<Seq<char>> {
    Seq::new(v@.len(), |i: int| v@[i]@)
}

/// A vector has as many line views as elements.
pub broadcast proof fn lemma_views_of_len(v: Vec<Vec<char>>)
    ensures
        #![trigger views_of(v)]
        views_of(v).len() == v@.len(),
{
}

/// The line views of a vector are the views of its elements.
pub broadcast proof fn lemma_views_of_index(v: Vec<Vec<char>>, i: int)
    requires
        0 <= i < v@.len(),
    ensures
        #![trigger views_of(v)[i]]
        #![trigger v@[i]]
        views_of(v)[i] == v@[i]@,
{
}

/// Stitching break-free pieces together stays break-free.
pub proof fn lemma_concat_line_ok(a: Seq<char>, b: Seq<char>)
    requires
        line_ok(a),
        line_ok(b),
    ensures
        line_ok(a + b),
{
    if (a + b).contains('\n') {
        let j = choose|j: int| 0 <= j < (a + b).len() && (a + b)[j] == '\n';
        if j < a.len() {
            assert(a[j] == '\n');
        } else {
            assert(b[j - a.len()] == '\n');
        }
    }
}

/// The characters after the last `'/'` of a path: the whole path when it
/// holds none, nothing when it ends with one.
pub open spec fn after_last_slash(p: Seq<char>) -> Seq<char>
    decreases p.len(),
{
    if p.len() == 0 {
        p
    } else if p.last() == '/' {
        Seq::<char>::empty()
    } else {
        after_last_slash(p.drop_last()).push(p.last())
    }
}

/// A cut at `i` just after the last `'/'` (or at the start when there is
/// none) yields exactly the suffix from `i`.
pub proof fn lemma_after_last_slash(p: Seq<char>, i: int)
    requires
        0 <= i <= p.len(),
        i == 0 || p[i - 1] == '/',
        forall|j: int| i <= j < p.len() ==> p[j] != '/',
    ensures
        after_last_slash(p) == p.skip(i),
    decreases p.len(),
{
    if p.len() == i {
        if i == 0 {
            assert(after_last_slash(p) =~= p.skip(i));
        } else {
            assert(p.last() == '/');
            assert(after_last_slash(p) =~= p.skip(i));
        }
    } else {
        assert(p.last() != '/');
        lemma_after_last_slash(p.drop_last(), i);
        assert(after_last_slash(p) =~= p.skip(i)) by {
            assert(after_last_slash(p) == p.drop_last().skip(i).push(p.last()));
        }
    }
}

/// Relies on `String::push`: appends the given character to the end of the
/// string.
#[verifier::external_body]
pub(crate) fn push_char(s: &mut String, c: char)
    ensures
        final(s)@ == old(s)@.push(c),
{
    s.push(c);
}

/// Copy the characters of `s` out into a vector.
pub fn str_to_chars(s: &str) -> (v: Vec<char>)
    ensures
        v@ == s@,
{
    let n = s.unicode_len();
    let mut v: Vec<char> = Vec::new();
    let mut i: usize = 0;
    while i < n
        invariant
            i <= n,
            n == s@.len(),
            v@ =~= s@.take(i as int),
        decreases n - i,
    {
        v.push(s.get_char(i));
        i = i + 1;
        proof {
            assert(v@ =~= s@.take(i as int));
        }
    }
    proof {
        assert(v@ =~= s@);
    }
    v
}

/// Build a string out of a character vector.
pub fn chars_to_string(v: &Vec<char>) -> (s: String)
    ensures
        s@ == v@,
{
    let mut s = String::new();
    let mut i: usize = 0;
    while i < v.len()
        invariant
            i <= v.len(),
            s@ =~= v@.take(i as int),
        decreases v.len() - i,
    {
        push_char(&mut s, v[i]);
        i = i + 1;
        proof {
            assert(s@ =~= v@.take(i as int));
        }
    }
    proof {
        assert(s@ =~= v@);
    }
    s
}

/// Append `src[from..to]` onto `dst`.
pub fn push_range(dst: &mut Vec<char>, src: &Vec<char>, from: usize, to: usize)
    requires
        from <= to <= src.len(),
    ensures
        final(dst)@ == old(dst)@ + src@.subrange(from as int, to as int),
{
    let mut i: usize = from;
    while i < to
        invariant
            from <= i <= to <= src.len(),
            dst@ =~= old(dst)@ + src@.subrange(from as int, i as int),
        decreases to - i,
    {
        dst.push(src[i]);
        i = i + 1;
        proof {
            assert(dst@ =~= old(dst)@ + src@.subrange(from as int, i as int));
        }
    }
    proof {
        assert(dst@ =~= old(dst)@ + src@.subrange(from as int, to as int));
    }
}

/// Split a character vector into its line segments, the executable
/// counterpart of [`split_lines`].
pub fn split_chars(t: &Vec<char>) -> (r: Vec<Vec<char>>)
    ensures
        views_of(r) == split_lines(t@),
        r.len() >= 1,
{
    let mut r: Vec<Vec<char>> = Vec::new();
    r.push(Vec::new());
    let mut i: usize = t.len();
    proof {
        assert(t@.skip(i as int) =~= Seq::<char>::empty());
        assert(views_of(r) =~~= split_lines(t@.skip(i as int)));
    }
    while i > 0
        invariant
            i <= t.len(),
            r.len() >= 1,
            views_of(r) == split_lines(t@.skip(i as int)),
        decreases i,
    {
        i = i - 1;
        let c = t[i];
        proof {
            assert(t@.skip(i as int).drop_first() =~= t@.skip(i as int + 1));
            assert(t@.skip(i as int)[0] == t@[i as int]);
        }
        if c == '\n' {
            r.insert(0, Vec::new());
        } else {
            let mut first = r.remove(0);
            first.insert(0, c);
            r.insert(0, first);
        }
        proof {
            assert(views_of(r) =~~= split_lines(t@.skip(i as int)));
        }
    }
    proof {
        assert(t@.skip(0) =~= t@);
    }
    r
}

/// Join line segments into one character vector with `'\n'` between them,
/// the executable counterpart of [`join_lines`].
pub fn join_chars(lines: &Vec<Vec<char>>) -> (r: Vec<char>)
    ensures
        r@ == join_lines(views_of(*lines)),
{
    let mut r: Vec<char> = Vec::new();
    let mut i: usize = lines.len();
    proof {
        assert(views_of(*lines).skip(i as int) =~= Seq::<Seq<char>>::empty());
    }
    while i > 0
        invariant
            i <= lines.len(),
            r@ == join_lines(views_of(*lines).skip(i as int)),
        decreases i,
    {
        i = i - 1;
        let mut piece: Vec<char> = Vec::new();
        let line = &lines[i];
        push_range(&mut piece, line, 0, line.len());
        if i + 1 < lines.len() {
            piece.push('\n');
        }
        piece.append(&mut r);
        r = piece;
        proof {
            let dv = views_of(*lines);
            assert(line@ =~= line@.subrange(0, line@.len() as int));
            assert(dv.skip(i as int).drop_first() =~= dv.skip(i as int + 1));
            assert(dv.skip(i as int)[0] == dv[i as int]);
            if i as int + 1 < dv.len() {
                assert(r@ =~= dv[i as int] + seq!['\n'] + join_lines(dv.skip(i as int + 1)));
            } else {
                assert(dv.skip(i as int).len() == 1);
                assert(r@ =~= dv[i as int]);
            }
        }
    }
    proof {
        assert(views_of(*lines).skip(0) =~= views_of(*lines));
    }
    r
}

} // verus!
