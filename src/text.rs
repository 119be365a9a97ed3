//! The on-disk text format: lines joined by CRLF on write; split on LF or
//! CRLF on read.

use vstd::prelude::*;

verus! {

/// A line is well formed when it holds no line feed.
pub open spec fn line_ok(l: Seq<char>) -> bool {
    forall|i: int| 0 <= i < l.len() ==> l[i] != '\n'
}

/// Every line of `ls` is well formed.
pub open spec fn lines_ok(ls: Seq<Seq<char>>) -> bool {
    forall|i: int| 0 <= i < ls.len() ==> line_ok(#[trigger] ls[i])
}

/// The contents of each line vector.
pub open spec fn view_lines(v: Seq<Vec<char>>) -> Seq<Seq<char>> {
    v.map_values(|l: Vec<char>| l@)
}

/// The lines joined with a CR LF pair between neighbours, with no
/// terminator after the last one.
pub open spec fn join_crlf(ls: Seq<Seq<char>>) -> Seq<char>
    decreases ls.len(),
{
    if ls.len() == 0 {
        seq![]
    } else if ls.len() == 1 {
        ls[0]
    } else {
        join_crlf(ls.drop_last()) + seq!['\r', '\n'] + ls.last()
    }
}

/// Cuts `t` at every line feed: the pieces between them, the last piece
/// being what follows the final line feed (possibly empty).
pub open spec fn split_lf(t: Seq<char>) -> Seq<Seq<char>>
    decreases t.len(),
{
    if t.len() == 0 {
        seq![seq![]]
    } else {
        let prev = split_lf(t.drop_last());
        if t.last() == '\n' {
            prev.push(seq![])
        } else {
            prev.update(prev.len() - 1, prev.last().push(t.last()))
        }
    }
}

/// A piece that was followed by a line feed loses one trailing carriage
/// return, so that CR LF counts as a single terminator.
pub open spec fn strip_cr(l: Seq<char>) -> Seq<char> {
    if l.len() > 0 && l.last() == '\r' {
        l.drop_last()
    } else {
        l
    }
}

/// The lines of a text: every piece ended by LF or CR LF is a line, and
/// what follows the final terminator is one more line when it is not empty.
pub open spec fn parse_lines(t: Seq<char>) -> Seq<Seq<char>> {
    let pieces = split_lf(t);
    let ended = pieces.drop_last().map_values(|l: Seq<char>| strip_cr(l));
    if pieces.last().len() == 0 {
        ended
    } else {
        ended.push(pieces.last())
    }
}

/// Splitting always yields at least one piece.
proof fn lemma_split_lf_nonempty(t: Seq<char>)
    ensures
        split_lf(t).len() >= 1,
    decreases t.len(),
{
    if t.len() > 0 {
        lemma_split_lf_nonempty(t.drop_last());
    }
}

/// The text of a well-formed line vector, joined as it is saved.
pub fn join_lines(lines: &Vec<Vec<char>>) -> (r: Vec<char>)
    ensures
        r@ == join_crlf(view_lines(lines@)),
{
    let mut out: Vec<char> = Vec::new();
    let n = lines.len();
    let mut i: usize = 0;
    while i < n
        invariant
            n == lines.len(),
            i <= n,
            out@ == join_crlf(view_lines(lines@).subrange(0, i as int)),
        decreases n - i,
    {
        let ghost before = out@;
        if i > 0 {
            out.push('\r');
            out.push('\n');
        }
        let line = &lines[i];
        let m = line.len();
        let mut j: usize = 0;
        while j < m
            invariant
                m == line.len(),
                j <= m,
                i > 0 ==> out@ == before + seq!['\r', '\n'] + line@.subrange(0, j as int),
                i == 0 ==> out@ == before + line@.subrange(0, j as int),
            decreases m - j,
        {
            out.push(line[j]);
            j += 1;
            proof {
                assert(line@.subrange(0, j as int) =~= line@.subrange(0, j - 1).push(line@[j - 1]));
            }
        }
        proof {
            let ls = view_lines(lines@);
            let next = ls.subrange(0, i + 1);
            assert(next.drop_last() =~= ls.subrange(0, i as int));
            assert(line@.subrange(0, m as int) =~= line@);
            if i == 0 {
                assert(before =~= seq![]);
                assert(out@ =~= next[0]);
            } else {
                assert(out@ =~= join_crlf(next.drop_last()) + seq!['\r', '\n'] + next.last());
            }
        }
        i += 1;
    }
    proof {
        assert(view_lines(lines@).subrange(0, n as int) =~= view_lines(lines@));
    }
    out
}

/// Splits a text into lines as `parse_lines` describes.
pub fn split_lines(text: &Vec<char>) -> (r: Vec<Vec<char>>)
    ensures
        view_lines(r@) == parse_lines(text@),
{
    let mut done: Vec<Vec<char>> = Vec::new();
    let mut cur: Vec<char> = Vec::new();
    let n = text.len();
    let mut i: usize = 0;
    while i < n
        invariant
            n == text.len(),
            i <= n,
            split_lf(text@.subrange(0, i as int)).len() >= 1,
            view_lines(done@) == split_lf(text@.subrange(0, i as int)).drop_last().map_values(
                |l: Seq<char>| strip_cr(l),
            ),
            cur@ == split_lf(text@.subrange(0, i as int)).last(),
        decreases n - i,
    {
        let c = text[i];
        let ghost prefix = text@.subrange(0, i as int);
        let ghost next = text@.subrange(0, i + 1);
        proof {
            assert(next.drop_last() =~= prefix);
            lemma_split_lf_nonempty(next);
        }
        if c == '\n' {
            let ghost piece = cur@;
            let len = cur.len();
            if len > 0 && cur[len - 1] == '\r' {
                cur.pop();
            }
            assert(cur@ =~= strip_cr(piece));
            let ghost old_done = done@;
            done.push(cur);
            cur = Vec::new();
            proof {
                let ps = split_lf(prefix);
                assert(split_lf(next) == ps.push(seq![]));
                assert(split_lf(next).drop_last() =~= ps);
                assert(ps =~= ps.drop_last().push(piece));
                assert(view_lines(done@) =~= view_lines(old_done).push(strip_cr(piece)));
                assert(view_lines(done@) =~= ps.map_values(|l: Seq<char>| strip_cr(l)));
            }
        } else {
            cur.push(c);
            proof {
                let ps = split_lf(prefix);
                assert(split_lf(next) == ps.update(ps.len() - 1, ps.last().push(c)));
                assert(split_lf(next).drop_last() =~= ps.drop_last());
            }
        }
        i += 1;
    }
    proof {
        assert(text@.subrange(0, n as int) =~= text@);
    }
    if cur.len() > 0 {
        done.push(cur);
        proof {
            assert(view_lines(done@) =~= parse_lines(text@));
        }
    }
    done
}

/// Splitting `a + b` where `b` holds no line feed extends the last piece
/// of `a` by `b`.
proof fn lemma_split_append_plain(a: Seq<char>, b: Seq<char>)
    requires
        line_ok(b),
    ensures
        split_lf(a).len() >= 1,
        split_lf(a + b) == split_lf(a).drop_last().push(split_lf(a).last() + b),
    decreases b.len(),
{
    lemma_split_lf_nonempty(a);
    if b.len() == 0 {
        assert(a + b =~= a);
        assert(split_lf(a).last() + b =~= split_lf(a).last());
        assert(split_lf(a).drop_last().push(split_lf(a).last()) =~= split_lf(a));
    } else {
        let b1 = b.drop_last();
        lemma_split_append_plain(a, b1);
        assert((a + b).drop_last() =~= a + b1);
        assert((a + b).last() == b.last());
        let ps = split_lf(a + b1);
        assert(b.last() != '\n');
        assert(split_lf(a + b) == ps.update(ps.len() - 1, ps.last().push(b.last())));
        assert((split_lf(a).last() + b1).push(b.last()) =~= split_lf(a).last() + b);
        assert(ps.update(ps.len() - 1, ps.last().push(b.last())) =~= split_lf(a).drop_last().push(
            split_lf(a).last() + b,
        ));
    }
}

/// The pieces of a joined text: every line but the last keeps the carriage
/// return of its terminator.
proof fn lemma_split_join(ls: Seq<Seq<char>>)
    requires
        ls.len() >= 1,
        lines_ok(ls),
    ensures
        split_lf(join_crlf(ls)) == ls.drop_last().map_values(|l: Seq<char>| l.push('\r')).push(
            ls.last(),
        ),
    decreases ls.len(),
{
    if ls.len() == 1 {
        assert(line_ok(ls[0]));
        lemma_split_append_plain(seq![], ls[0]);
        assert(seq![] + ls[0] =~= ls[0]);
        assert(split_lf(seq![]).drop_last().push(split_lf(seq![]).last() + ls[0]) =~= seq![ls[0]]);
        assert(ls.drop_last().map_values(|l: Seq<char>| l.push('\r')).push(ls.last()) =~= seq![ls[0]]);
    } else {
        let init = ls.drop_last();
        assert forall|i: int| 0 <= i < init.len() implies line_ok(#[trigger] init[i]) by {
            assert(init[i] == ls[i]);
        }
        lemma_split_join(init);
        let j = join_crlf(init);
        let jcr = j.push('\r');
        let jlf = jcr.push('\n');
        assert(j + seq!['\r', '\n'] =~= jlf);
        assert(jcr.drop_last() =~= j);
        assert(jlf.drop_last() =~= jcr);
        lemma_split_lf_nonempty(j);
        let pj = split_lf(j);
        assert(split_lf(jcr) == pj.update(pj.len() - 1, pj.last().push('\r')));
        assert(split_lf(jlf) == split_lf(jcr).push(seq![]));
        assert(line_ok(ls[ls.len() - 1]));
        lemma_split_append_plain(jlf, ls.last());
        assert(join_crlf(ls) == jlf + ls.last());
        assert(split_lf(jlf).last() + ls.last() =~= ls.last());
        assert(split_lf(jlf).drop_last() =~= split_lf(jcr));
        assert(split_lf(join_crlf(ls)) =~= ls.drop_last().map_values(|l: Seq<char>| l.push('\r')).push(
            ls.last(),
        ));
    }
}

/// Joining well-formed lines as they are saved and splitting the text again
/// gives the same lines back, unless the last line is empty: a final empty
/// line leaves no trace in the joined text.
pub proof fn lemma_save_load_round_trip(ls: Seq<Seq<char>>)
    requires
        lines_ok(ls),
        ls.len() == 0 || ls.last().len() > 0,
    ensures
        parse_lines(join_crlf(ls)) == ls,
{
    if ls.len() == 0 {
        assert(split_lf(seq![]) =~= seq![seq![]]);
        assert(parse_lines(join_crlf(ls)) =~= ls);
    } else {
        lemma_split_join(ls);
        let pieces = split_lf(join_crlf(ls));
        assert(pieces.drop_last() =~= ls.drop_last().map_values(|l: Seq<char>| l.push('\r')));
        assert forall|i: int| 0 <= i < ls.len() - 1 implies strip_cr(ls[i].push('\r')) == ls[i] by {
            assert(ls[i].push('\r').drop_last() =~= ls[i]);
        }
        assert(parse_lines(join_crlf(ls)) =~= ls);
    }
}

/// The characters of a string, in order.
pub fn chars_of(s: &str) -> (r: Vec<char>)
    ensures
        r@ == s@,
{
    broadcast use vstd::string::axiom_spec_iter;

    let mut out: Vec<char> = Vec::new();
    for c in it: s.chars()
        invariant
            out@ == it.history(),
    {
        out.push(c);
    }
    out
}

/// Relies on `String`'s `FromIterator<&char>`: the string of those
/// characters, in order.
#[verifier::external_body]
pub(crate) fn string_of(v: &Vec<char>) -> (r: String)
    ensures
        r@ == v@,
{
    v.iter().collect()
}

/// No piece of a split text holds a line feed.
proof fn lemma_split_lf_ok(t: Seq<char>)
    ensures
        lines_ok(split_lf(t)),
    decreases t.len(),
{
    if t.len() > 0 {
        lemma_split_lf_ok(t.drop_last());
        lemma_split_lf_nonempty(t.drop_last());
        let prev = split_lf(t.drop_last());
        if t.last() != '\n' {
            let l = prev.last().push(t.last());
            assert(line_ok(prev[prev.len() - 1]));
            assert(line_ok(l));
            let ps = split_lf(t);
            assert forall|i: int| 0 <= i < ps.len() implies line_ok(#[trigger] ps[i]) by {
                if i < prev.len() - 1 {
                    assert(ps[i] == prev[i]);
                }
            }
        } else {
            let ps = split_lf(t);
            assert forall|i: int| 0 <= i < ps.len() implies line_ok(#[trigger] ps[i]) by {
                if i < prev.len() {
                    assert(ps[i] == prev[i]);
                } else {
                    assert(ps[i] =~= seq![]);
                }
            }
        }
    }
}

/// The lines read from any text hold no line feed.
pub proof fn lemma_parse_lines_ok(t: Seq<char>)
    ensures
        lines_ok(parse_lines(t)),
{
    lemma_split_lf_ok(t);
    lemma_split_lf_nonempty(t);
    let pieces = split_lf(t);
    let ls = parse_lines(t);
    assert forall|i: int| 0 <= i < ls.len() implies line_ok(#[trigger] ls[i]) by {
        if i < pieces.len() - 1 {
            assert(line_ok(pieces[i]));
            assert(ls[i] == strip_cr(pieces[i]));
        } else {
            assert(ls[i] == pieces.last());
            assert(line_ok(pieces[pieces.len() - 1]));
        }
    }
}

} // verus!
