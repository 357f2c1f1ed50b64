//! Lists of lines: copying and cutting them, and the texts they are read from and written to.
use crate::search::{first_from, lemma_first_from_is};
use crate::text::{chars_of, same, string_of};
use vstd::prelude::*;

verus! {

/// What the lines hold.
pub open spec fn texts(lines: Seq<String>) -> Seq<Seq<char>> {
    Seq::new(lines.len(), |i: int| lines[i]@)
}

/// A copy of the lines.
pub fn copy_lines(lines: &Vec<String>) -> (r: Vec<String>)
    ensures
        texts(r@) == texts(lines@),
{
    let mut out: Vec<String> = Vec::new();
    let n: usize = lines.len();
    for i in 0..n
        invariant
            n == lines@.len(),
            texts(out@) == texts(lines@).take(i as int),
    {
        push_line(&mut out, lines[i].clone());
        assert(texts(out@) =~= texts(lines@).take(i + 1));
    }
    assert(texts(lines@).take(n as int) =~= texts(lines@));
    out
}

/// A copy of the lines from `from` up to `to`.
pub fn copy_range(lines: &Vec<String>, from: usize, to: usize) -> (r: Vec<String>)
    requires
        from <= to <= lines@.len(),
    ensures
        texts(r@) == texts(lines@).subrange(from as int, to as int),
{
    let mut out: Vec<String> = Vec::new();
    for i in from..to
        invariant
            from <= to <= lines@.len(),
            texts(out@) == texts(lines@).subrange(from as int, i as int),
    {
        push_line(&mut out, lines[i].clone());
        assert(texts(out@) =~= texts(lines@).subrange(from as int, i + 1));
    }
    out
}

/// Whether the two lists hold the same lines.
pub fn same_lines(a: &Vec<String>, b: &Vec<String>) -> (r: bool)
    ensures
        r == (texts(a@) == texts(b@)),
{
    if a.len() != b.len() {
        assert(texts(a@).len() != texts(b@).len());
        return false;
    }
    let n: usize = a.len();
    for i in 0..n
        invariant
            n == a@.len(),
            n == b@.len(),
            forall|j: int| 0 <= j < i ==> texts(a@)[j] == texts(b@)[j],
    {
        if !same(a[i].as_str(), b[i].as_str()) {
            assert(texts(a@)[i as int] != texts(b@)[i as int]);
            return false;
        }
    }
    assert(texts(a@) =~= texts(b@));
    true
}

/// `lines` with `block` put in at position `at`.
pub open spec fn spliced(lines: Seq<Seq<char>>, at: int, block: Seq<Seq<char>>) -> Seq<Seq<char>> {
    lines.take(at) + block + lines.skip(at)
}

/// `lines` without those from `from` up to `to`.
pub open spec fn without(lines: Seq<Seq<char>>, from: int, to: int) -> Seq<Seq<char>> {
    lines.take(from) + lines.skip(to)
}

/// Takes out the lines from `from` up to `to` and hands them back.
pub fn cut_lines(lines: &mut Vec<String>, from: usize, to: usize) -> (r: Vec<String>)
    requires
        from <= to <= old(lines)@.len(),
    ensures
        texts(r@) == texts(old(lines)@).subrange(from as int, to as int),
        texts(final(lines)@) == without(texts(old(lines)@), from as int, to as int),
{
    let mut block: Vec<String> = lines.split_off(from);
    let mut rest: Vec<String> = block.split_off(to - from);
    lines.append(&mut rest);
    proof {
        assert(texts(block@) =~= texts(old(lines)@).subrange(from as int, to as int));
        assert(texts(lines@) =~= without(texts(old(lines)@), from as int, to as int));
    }
    block
}

/// Puts the lines of `block` in at position `at`.
pub fn put_lines(lines: &mut Vec<String>, at: usize, block: Vec<String>)
    requires
        at <= old(lines)@.len(),
    ensures
        texts(final(lines)@) == spliced(texts(old(lines)@), at as int, texts(block@)),
{
    let mut block: Vec<String> = block;
    let ghost put = texts(block@);
    let mut rest: Vec<String> = lines.split_off(at);
    lines.append(&mut block);
    lines.append(&mut rest);
    proof {
        assert(texts(lines@) =~= spliced(texts(old(lines)@), at as int, put));
    }
}

/// Puts one line in at position `at`.
pub fn put_line(lines: &mut Vec<String>, at: usize, line: String)
    requires
        at <= old(lines)@.len(),
    ensures
        texts(final(lines)@) == texts(old(lines)@).insert(at as int, line@),
{
    lines.insert(at, line);
    proof {
        assert(texts(lines@) =~= texts(old(lines)@).insert(at as int, line@));
    }
}

/// Replaces the line at position `at`.
pub fn set_line(lines: &mut Vec<String>, at: usize, line: String)
    requires
        at < old(lines)@.len(),
    ensures
        texts(final(lines)@) == texts(old(lines)@).update(at as int, line@),
{
    lines.set(at, line);
    proof {
        assert(texts(lines@) =~= texts(old(lines)@).update(at as int, line@));
    }
}

/// Adds one line at the end.
pub fn push_line(lines: &mut Vec<String>, line: String)
    ensures
        texts(final(lines)@) == texts(old(lines)@).push(line@),
{
    lines.push(line);
    proof {
        assert(texts(lines@) =~= texts(old(lines)@).push(line@));
    }
}

/// `s` without up to `n` carriage returns at its end.
pub open spec fn drop_returns(s: Seq<char>, n: nat) -> Seq<char>
    decreases n,
{
    if n > 0 && s.len() > 0 && s.last() == '\r' {
        drop_returns(s.drop_last(), (n - 1) as nat)
    } else {
        s
    }
}

/// The lines of a text. Each line but the last must end in a newline, and so may the
/// last. A line loses its newline and up to `n` carriage returns before it.
pub open spec fn split_lines(text: Seq<char>, n: nat) -> Seq<Seq<char>>
    decreases text.len(),
{
    if text.len() == 0 {
        Seq::empty()
    } else {
        let end = first_from(text, 0, |c: char| c == '\n');
        if 0 <= end < text.len() {
            seq![drop_returns(text.take(end), n)] + split_lines(text.skip(end + 1), n)
        } else {
            seq![text]
        }
    }
}

/// Splits a text into lines.
pub fn to_lines(text: &str, n: usize) -> (r: Vec<String>)
    ensures
        texts(r@) == split_lines(text@, n as nat),
{
    let cs: Vec<char> = chars_of(text);
    let len: usize = cs.len();
    let mut out: Vec<String> = Vec::new();
    let mut i: usize = 0;
    assert(texts(out@) + split_lines(text@.skip(0), n as nat) =~= split_lines(text@, n as nat)) by {
        assert(text@.skip(0) =~= text@);
    }
    while i < len
        invariant
            i <= len,
            len == cs@.len(),
            cs@ == text@,
            texts(out@) + split_lines(text@.skip(i as int), n as nat) == split_lines(
                text@,
                n as nat,
            ),
        decreases len - i,
    {
        let mut j: usize = i;
        while j < len && cs[j] != '\n'
            invariant
                i <= j <= len,
                len == cs@.len(),
                cs@ == text@,
                forall|k: int| i <= k < j ==> text@[k] != '\n',
            decreases len - j,
        {
            j += 1;
        }
        let ghost rest = text@.skip(i as int);
        let ghost before = texts(out@);
        proof {
            let p = |c: char| c == '\n';
            assert forall|k: int| 0 <= k < j - i implies !p(#[trigger] rest[k]) by {
                assert(rest[k] == text@[i + k]);
            }
            if j < len {
                assert(rest[j - i] == text@[j as int]);
            }
            lemma_first_from_is(rest, 0, p, j - i);
        }
        if j == len {
            out.push(string_of(&cs, i, len));
            proof {
                assert(rest =~= text@.subrange(i as int, len as int));
                assert(texts(out@) =~= before + seq![rest]);
                assert(text@.skip(len as int) =~= Seq::<char>::empty());
            }
            i = len;
        } else {
            let mut e: usize = j;
            let mut left: usize = n;
            while left > 0 && e > i && cs[e - 1] == '\r'
                invariant
                    i <= e <= j,
                    j <= len,
                    len == cs@.len(),
                    cs@ == text@,
                    drop_returns(text@.subrange(i as int, e as int), left as nat) == drop_returns(
                        text@.subrange(i as int, j as int),
                        n as nat,
                    ),
                decreases left,
            {
                proof {
                    let s = text@.subrange(i as int, e as int);
                    assert(s.last() == text@[e - 1]);
                    assert(s.drop_last() =~= text@.subrange(i as int, e - 1));
                }
                e -= 1;
                left -= 1;
            }
            proof {
                let s = text@.subrange(i as int, e as int);
                assert(s.len() > 0 ==> s.last() == text@[e - 1]);
            }
            out.push(string_of(&cs, i, e));
            proof {
                let piece = drop_returns(text@.subrange(i as int, j as int), n as nat);
                assert(rest.take(j - i) =~= text@.subrange(i as int, j as int));
                assert(rest.skip(j - i + 1) =~= text@.skip(j + 1));
                assert(texts(out@) =~= before + seq![piece]);
                assert(before + (seq![piece] + split_lines(text@.skip(j + 1), n as nat)) =~= (before
                    + seq![piece]) + split_lines(text@.skip(j + 1), n as nat));
            }
            i = j + 1;
        }
    }
    assert(text@.skip(len as int) =~= Seq::<char>::empty());
    assert(texts(out@) + Seq::<Seq<char>>::empty() =~= texts(out@));
    out
}

/// The lines with `sep` between each two.
pub open spec fn joined(lines: Seq<Seq<char>>, sep: Seq<char>) -> Seq<char>
    decreases lines.len(),
{
    if lines.len() == 0 {
        Seq::empty()
    } else if lines.len() == 1 {
        lines[0]
    } else {
        joined(lines.drop_last(), sep) + sep + lines.last()
    }
}

/// The lines with `sep` between each two.
pub fn join(lines: &Vec<String>, sep: &str) -> (r: String)
    ensures
        r@ == joined(texts(lines@), sep@),
{
    let mut out: String = String::new();
    let n: usize = lines.len();
    assert(out@ =~= joined(texts(lines@).take(0), sep@));
    for i in 0..n
        invariant
            n == lines@.len(),
            out@ == joined(texts(lines@).take(i as int), sep@),
    {
        if i > 0 {
            out.append(sep);
        }
        out.append(lines[i].as_str());
        proof {
            let t = texts(lines@);
            assert(t.take(i + 1).drop_last() =~= t.take(i as int));
            assert(t.take(i + 1).last() == lines@[i as int]@);
            assert(out@ =~= joined(t.take(i + 1), sep@));
        }
    }
    assert(texts(lines@).take(n as int) =~= texts(lines@));
    out
}

} // verus!
