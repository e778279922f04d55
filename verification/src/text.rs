//! Text helpers on character sequences: splitting a block of art into lines.

use vstd::prelude::*;

verus! {

/// The pieces of `s` between occurrences of `sep`, as `str::split` yields
/// them: always at least one piece, empty pieces kept.
pub open spec fn split_on(s: Seq<char>, sep: char) -> Seq<Seq<char>>
    decreases s.len(),
{
    if s.len() == 0 {
        seq![Seq::<char>::empty()]
    } else {
        let rest = split_on(s.drop_last(), sep);
        if s.last() == sep {
            rest.push(Seq::<char>::empty())
        } else {
            rest.update(rest.len() - 1, rest.last().push(s.last()))
        }
    }
}

/// Splitting always yields at least one piece.
pub proof fn lemma_split_on_nonempty(s: Seq<char>, sep: char)
    ensures
        split_on(s, sep).len() >= 1,
    decreases s.len(),
{
    if s.len() > 0 {
        lemma_split_on_nonempty(s.drop_last(), sep);
    }
}

/// The pieces joined with `sep` between each two.
pub open spec fn joined(parts: Seq<Seq<char>>, sep: Seq<char>) -> Seq<char>
    decreases parts.len(),
{
    if parts.len() == 0 {
        Seq::empty()
    } else if parts.len() == 1 {
        parts[0]
    } else {
        joined(parts.drop_last(), sep) + sep + parts.last()
    }
}

/// `n` newlines.
pub open spec fn newlines(n: nat) -> Seq<char> {
    Seq::new(n, |i: int| '\n')
}

/// Extending the last piece extends the joined text by the same characters.
proof fn lemma_joined_extend_last(p: Seq<Seq<char>>, sep: Seq<char>, t: Seq<char>)
    requires
        p.len() >= 1,
    ensures
        joined(p.update(p.len() - 1, p.last() + t), sep) == joined(p, sep) + t,
{
    let q = p.update(p.len() - 1, p.last() + t);
    if p.len() > 1 {
        assert(q.drop_last() =~= p.drop_last());
        assert(joined(q, sep) =~= joined(p, sep) + t);
    } else {
        assert(joined(q, sep) =~= joined(p, sep) + t);
    }
}

/// Splitting at a separator and joining the pieces back with it gives the
/// text back.
pub proof fn law_split_then_join(s: Seq<char>, sep: char)
    ensures
        joined(split_on(s, sep), seq![sep]) == s,
    decreases s.len(),
{
    if s.len() > 0 {
        let rest = split_on(s.drop_last(), sep);
        law_split_then_join(s.drop_last(), sep);
        lemma_split_on_nonempty(s.drop_last(), sep);
        if s.last() == sep {
            let p = rest.push(Seq::<char>::empty());
            assert(p.drop_last() =~= rest);
            assert(joined(p, seq![sep]) =~= s);
        } else {
            lemma_joined_extend_last(rest, seq![sep], seq![s.last()]);
            assert(rest.last() + seq![s.last()] =~= rest.last().push(s.last()));
            assert(joined(split_on(s, sep), seq![sep]) =~= s);
        }
    }
}

/// Appending text that holds no separator extends the last piece by it.
proof fn lemma_split_append_plain(s: Seq<char>, t: Seq<char>, sep: char)
    requires
        forall|i: int| 0 <= i < t.len() ==> t[i] != sep,
    ensures
        split_on(s + t, sep) == split_on(s, sep).update(
            split_on(s, sep).len() - 1,
            split_on(s, sep).last() + t,
        ),
    decreases t.len(),
{
    lemma_split_on_nonempty(s, sep);
    let p = split_on(s, sep);
    if t.len() == 0 {
        assert(s + t =~= s);
        assert(p.last() + t =~= p.last());
        assert(p.update(p.len() - 1, p.last() + t) =~= p);
    } else {
        let t0 = t.drop_last();
        lemma_split_append_plain(s, t0, sep);
        assert((s + t).drop_last() =~= s + t0);
        assert((s + t).last() == t.last());
        let rest = split_on(s + t0, sep);
        assert(rest == p.update(p.len() - 1, p.last() + t0));
        assert((p.last() + t0).push(t.last()) =~= p.last() + t);
        assert(split_on(s + t, sep) == rest.update(rest.len() - 1, rest.last().push(t.last())));
        assert(split_on(s + t, sep) =~= p.update(p.len() - 1, p.last() + t));
    }
}

/// Joining pieces that hold no separator and splitting the result at the
/// separator gives the pieces back.
pub proof fn law_join_then_split(v: Seq<Seq<char>>, sep: char)
    requires
        v.len() >= 1,
        forall|i: int, j: int| 0 <= i < v.len() && 0 <= j < v[i].len() ==> v[i][j] != sep,
    ensures
        split_on(joined(v, seq![sep]), sep) == v,
    decreases v.len(),
{
    if v.len() == 1 {
        lemma_split_append_plain(Seq::<char>::empty(), v[0], sep);
        assert(Seq::<char>::empty() + v[0] =~= v[0]);
        assert(Seq::<char>::empty() + v[0] =~= v[0]);
        assert(split_on(v[0], sep) =~= v);
    } else {
        let d = v.drop_last();
        assert forall|i: int, j: int| 0 <= i < d.len() && 0 <= j < d[i].len() implies d[i][j] != sep by {
            assert(d[i] == v[i]);
        }
        law_join_then_split(d, sep);
        let a = joined(d, seq![sep]);
        let b = a + seq![sep];
        assert(b.drop_last() =~= a);
        assert(split_on(b, sep) == d.push(Seq::<char>::empty()));
        let l = v.last();
        assert forall|j: int| 0 <= j < l.len() implies l[j] != sep by {
            assert(l == v[v.len() - 1]);
        }
        lemma_split_append_plain(b, l, sep);
        assert(joined(v, seq![sep]) == b + l);
        assert(Seq::<char>::empty() + l =~= l);
        assert(d.push(Seq::<char>::empty()).update(d.len() as int, Seq::<char>::empty() + l) =~= v);
    }
}

/// A block of art written the way art literals are, its lines between a
/// leading and a trailing newline, splits back into exactly those lines
/// (the leading newline trimmed, as frames trim it).
pub proof fn law_block_lines_round_trip(v: Seq<Seq<char>>)
    requires
        v.len() >= 1,
        forall|i: int, j: int| 0 <= i < v.len() && 0 <= j < v[i].len() ==> v[i][j] != '\n' && v[i][j] != '\r',
    ensures
        text_lines(strip_leading_newline(seq!['\n'] + joined(v, seq!['\n']) + seq!['\n'])) == v,
{
    let body = joined(v, seq!['\n']);
    let s = seq!['\n'] + body + seq!['\n'];
    let t = body + seq!['\n'];
    assert(s[0] == '\n');
    assert(s.drop_first() =~= t);
    law_join_then_split(v, '\n');
    assert(t.drop_last() =~= body);
    assert(split_on(t, '\n') == v.push(Seq::<char>::empty()));
    assert(split_on(t, '\n').drop_last() =~= v);
    assert forall|i: int| 0 <= i < v.len() implies strip_cr(#[trigger] v[i]) == v[i] by {
        if v[i].len() > 0 {
            assert(v[i].last() == v[i][v[i].len() - 1]);
        }
    }
    assert(v.map_values(|l: Seq<char>| strip_cr(l)) =~= v);
}

/// Dropping trailing empty pieces leaves no empty piece at the end, and the
/// joined result is the joined input without some trailing newlines.
pub proof fn lemma_drop_trailing_empty(p: Seq<Seq<char>>)
    ensures
        drop_trailing_empty(p).len() == 0 || drop_trailing_empty(p).last().len() > 0,
        exists|k: nat| joined(p, seq!['\n']) == joined(drop_trailing_empty(p), seq!['\n']) + #[trigger] newlines(k),
    decreases p.len(),
{
    if p.len() > 0 && p.last().len() == 0 {
        lemma_drop_trailing_empty(p.drop_last());
        let d = drop_trailing_empty(p.drop_last());
        let k = choose|k: nat| joined(p.drop_last(), seq!['\n']) == joined(d, seq!['\n']) + #[trigger] newlines(k);
        if p.len() == 1 {
            assert(p.drop_last().len() == 0);
            assert(joined(p, seq!['\n']) =~= joined(d, seq!['\n']) + newlines(0));
        } else {
            assert(joined(p, seq!['\n']) =~= joined(d, seq!['\n']) + newlines(k + 1));
        }
    } else {
        assert(joined(p, seq!['\n']) =~= joined(drop_trailing_empty(p), seq!['\n']) + newlines(0));
    }
}

/// What `perl_split_nl` returns, joined back with newlines, is the text
/// without some trailing newlines; and its last piece, if any, is not empty.
pub proof fn law_perl_split_rejoins(s: Seq<char>)
    ensures
        drop_trailing_empty(split_on(s, '\n')).len() == 0 || drop_trailing_empty(split_on(s, '\n')).last().len() > 0,
        exists|k: nat| s == joined(drop_trailing_empty(split_on(s, '\n')), seq!['\n']) + #[trigger] newlines(k),
{
    law_split_then_join(s, '\n');
    lemma_drop_trailing_empty(split_on(s, '\n'));
}

/// Calls `String::push` of std, which appends one character; the contract
/// claims just that, as its documentation says: the string afterwards is the
/// old one followed by `c`.
#[verifier::external_body]
pub(crate) fn push_char(s: &mut String, c: char)
    ensures
        final(s)@ == old(s)@.push(c),
{
    s.push(c);
}

/// Splits `s` at every `'\n'`, keeping empty pieces.
pub fn split_newlines(s: &str) -> (parts: Vec<String>)
    ensures
        parts@.map_values(|p: String| p@) == split_on(s@, '\n'),
{
    let mut parts: Vec<String> = Vec::new();
    let mut cur = String::new();
    let ghost mut seen: Seq<char> = Seq::empty();
    for c in it: s.chars()
        invariant
            it.seq() == s@,
            seen == s@.take(it.index()),
            parts@.map_values(|p: String| p@).push(cur@) == split_on(seen, '\n'),
    {
        proof {
            lemma_split_on_nonempty(seen, '\n');
        }
        let ghost prev = seen;
        proof {
            seen = s@.take(it.index() + 1);
            assert(seen.drop_last() == prev);
        }
        if c == '\n' {
            parts.push(cur);
            cur = String::new();
            assert(parts@.map_values(|p: String| p@).push(cur@) =~= split_on(seen, '\n'));
        } else {
            push_char(&mut cur, c);
            assert(parts@.map_values(|p: String| p@).push(cur@) =~= split_on(seen, '\n'));
        }
    }
    assert(seen == s@);
    parts.push(cur);
    parts
}

/// A piece of text without the `'\r'` that ends it, if one does.
pub open spec fn strip_cr(p: Seq<char>) -> Seq<char> {
    if p.len() > 0 && p.last() == '\r' {
        p.drop_last()
    } else {
        p
    }
}

/// The lines of `s` as `str::lines` yields them: split at `'\n'`, a `'\r'`
/// just before a `'\n'` removed, and no line after a final `'\n'`. A bare
/// `'\r'` that ends the text stays in its last line.
pub open spec fn text_lines(s: Seq<char>) -> Seq<Seq<char>> {
    let p = split_on(s, '\n');
    if s.len() == 0 {
        Seq::empty()
    } else if s.last() == '\n' {
        p.drop_last().map_values(|l: Seq<char>| strip_cr(l))
    } else {
        p.drop_last().map_values(|l: Seq<char>| strip_cr(l)).push(p.last())
    }
}

/// The pieces with trailing empty pieces removed, as Perl's `split` returns
/// them.
pub open spec fn drop_trailing_empty(p: Seq<Seq<char>>) -> Seq<Seq<char>>
    decreases p.len(),
{
    if p.len() > 0 && p.last().len() == 0 {
        drop_trailing_empty(p.drop_last())
    } else {
        p
    }
}

/// The characters of each string, in order.
pub open spec fn views(v: Seq<String>) -> Seq<Seq<char>> {
    v.map_values(|p: String| p@)
}

/// `s` without one leading `'\n'`, if it starts with one.
pub open spec fn strip_leading_newline(s: Seq<char>) -> Seq<char> {
    if s.len() > 0 && s[0] == '\n' {
        s.drop_first()
    } else {
        s
    }
}

/// A copy of `s` without its last character.
fn without_last(s: &String) -> (r: String)
    requires
        s@.len() > 0,
    ensures
        r@ == s@.drop_last(),
{
    let mut r = String::new();
    let n = s.as_str().unicode_len();
    let mut k: usize = 0;
    for c in it: s.as_str().chars()
        invariant
            it.seq() == s@,
            n == s@.len(),
            k == it.index(),
            r@ == s@.take(if k < n { k as int } else { n - 1 }),
    {
        if k < n - 1 {
            assert(s@.take(k + 1) == s@.take(k as int).push(c));
            push_char(&mut r, c);
        }
        k += 1;
    }
    r
}

/// Splits `s` into lines exactly as `str::lines` does.
pub fn lines(s: &str) -> (out: Vec<String>)
    ensures
        views(out@) == text_lines(s@),
{
    let parts = split_newlines(s);
    proof {
        lemma_split_on_nonempty(s@, '\n');
    }
    let n = s.unicode_len();
    if n == 0 {
        return Vec::new();
    }
    let ends_with_newline = s.get_char(n - 1) == '\n';
    let keep = parts.len() - 1;
    let mut out: Vec<String> = Vec::new();
    let mut i: usize = 0;
    while i < keep
        invariant
            keep == parts@.len() - 1,
            i <= keep,
            views(parts@) == split_on(s@, '\n'),
            views(out@) == split_on(s@, '\n').take(i as int).map_values(|l: Seq<char>| strip_cr(l)),
        decreases keep - i,
    {
        let p = &parts[i];
        let m = p.as_str().unicode_len();
        let line = if m > 0 && p.as_str().get_char(m - 1) == '\r' {
            without_last(p)
        } else {
            p.clone()
        };
        assert(views(parts@)[i as int] == p@);
        assert(line@ == strip_cr(p@));
        let ghost before = views(out@);
        out.push(line);
        assert(views(out@) == before.push(line@));
        i += 1;
        assert(views(out@) =~= split_on(s@, '\n').take(i as int).map_values(|l: Seq<char>| strip_cr(l)));
    }
    assert(split_on(s@, '\n').take(keep as int) =~= split_on(s@, '\n').drop_last());
    if !ends_with_newline {
        let last = parts[keep].clone();
        assert(views(parts@)[keep as int] == last@);
        out.push(last);
        assert(views(out@) =~= text_lines(s@));
    }
    out
}

/// Perl's `split("\n", s)`: the pieces between newlines, with trailing empty
/// pieces dropped.
pub fn perl_split_nl(s: &str) -> (parts: Vec<String>)
    ensures
        views(parts@) == drop_trailing_empty(split_on(s@, '\n')),
{
    let mut parts = split_newlines(s);
    while parts.len() > 0 && parts[parts.len() - 1].as_str().unicode_len() == 0
        invariant
            drop_trailing_empty(views(parts@)) == drop_trailing_empty(split_on(s@, '\n')),
        decreases parts.len(),
    {
        let ghost before = views(parts@);
        parts.pop();
        assert(views(parts@) =~= before.drop_last());
    }
    parts
}

} // verus!
