//! What is written to the file is read from it.
use crate::app::{clamped, file_of, line_end, lines_in, reloaded, undone, State};
use crate::lines::{drop_returns, joined, split_lines};
use crate::search::{first_from, lemma_first_from, lemma_first_from_is};
use crate::text::{find, lemma_find_from, occurs_at};
use vstd::prelude::*;

verus! {

/// Whether a line can stand in a file as it is: it holds no newline, and no carriage return
/// at its end.
pub open spec fn plain(l: Seq<char>) -> bool {
    &&& forall|i: int| 0 <= i < l.len() ==> #[trigger] l[i] != '\n'
    &&& l.len() > 0 ==> l.last() != '\r'
}

/// Whether all the lines can stand in a file as they are.
pub open spec fn all_plain(lines: Seq<Seq<char>>) -> bool {
    forall|i: int| 0 <= i < lines.len() ==> plain(#[trigger] lines[i])
}

pub proof fn lemma_file_front(lines: Seq<Seq<char>>, e: Seq<char>)
    requires
        lines.len() > 1,
    ensures
        joined(lines, e) + e == lines[0] + e + (joined(lines.skip(1), e) + e),
    decreases lines.len(),
{
    let front = lines.drop_last();
    let rest = lines.skip(1);
    assert(rest.drop_last() =~= front.skip(1));
    assert(rest.last() == lines.last());
    if lines.len() == 2 {
        assert(joined(front, e) == lines[0]);
        assert(joined(rest, e) == lines[1]);
    } else {
        lemma_file_front(front, e);
    }
    assert(joined(lines, e) + e =~= lines[0] + e + (joined(rest, e) + e));
}

/// The first line of a text that starts with it, and the rest.
proof fn lemma_split_front(l: Seq<char>, crlf: bool, rest: Seq<char>)
    requires
        plain(l),
    ensures
        lines_in(l + line_end(crlf) + rest) == seq![l] + lines_in(rest),
{
    reveal_strlit("\r\n");
    reveal_strlit("\n");
    let e = line_end(crlf);
    let text = l + e + rest;
    let p = |c: char| c == '\n';
    let end = l.len() + e.len() - 1;
    assert forall|i: int| 0 <= i < end implies !p(#[trigger] text[i]) by {
        if i < l.len() {
            assert(text[i] == l[i]);
        }
    }
    lemma_first_from_is(text, 0, p, end);
    assert(text.skip(end + 1) =~= rest);
    if crlf {
        let k = text.take(end);
        assert(k.last() == '\r');
        assert(k.drop_last() =~= l);
        assert(drop_returns(k, 2) == drop_returns(l, 1));
    } else {
        assert(text.take(end) =~= l);
    }
}

proof fn lemma_read_back(lines: Seq<Seq<char>>, crlf: bool)
    requires
        lines.len() > 0,
        all_plain(lines),
    ensures
        lines_in(file_of(lines, crlf)) == lines,
    decreases lines.len(),
{
    let e = line_end(crlf);
    let none = Seq::<char>::empty();
    assert(plain(lines[0]));
    if lines.len() == 1 {
        assert(file_of(lines, crlf) =~= lines[0] + e + none);
        lemma_split_front(lines[0], crlf, none);
        assert(lines_in(none) =~= Seq::empty());
        assert(seq![lines[0]] + lines_in(none) =~= lines);
    } else {
        let rest = lines.skip(1);
        lemma_file_front(lines, e);
        assert forall|i: int| 0 <= i < rest.len() implies plain(#[trigger] rest[i]) by {
            assert(rest[i] == lines[i + 1]);
        }
        lemma_read_back(rest, crlf);
        lemma_split_front(lines[0], crlf, file_of(rest, crlf));
        assert(seq![lines[0]] + rest =~= lines);
    }
}

/// Whether a newline comes right behind a carriage return somewhere.
pub open spec fn has_crlf(text: Seq<char>) -> bool {
    exists|i: int| 0 <= i && i + 1 < text.len() && #[trigger] text[i] == '\r' && text[i + 1] == '\n'
}

pub proof fn lemma_find_crlf(text: Seq<char>)
    ensures
        find(text, "\r\n"@) is Some == has_crlf(text),
{
    reveal_strlit("\r\n");
    let pat = "\r\n"@;
    lemma_find_from(text, pat, 0);
    if has_crlf(text) {
        let i = choose|i: int|
            0 <= i && i + 1 < text.len() && #[trigger] text[i] == '\r' && text[i + 1] == '\n';
        assert(text.subrange(i, i + 2) =~= pat);
        assert(occurs_at(text, pat, i));
    }
    if let Some(i) = find(text, pat) {
        assert(text.subrange(i, i + 2)[0] == text[i]);
        assert(text.subrange(i, i + 2)[1] == text[i + 1]);
    }
}

proof fn lemma_no_crlf(lines: Seq<Seq<char>>)
    requires
        lines.len() > 0,
        all_plain(lines),
    ensures
        !has_crlf(file_of(lines, false)),
    decreases lines.len(),
{
    reveal_strlit("\n");
    let e = line_end(false);
    let l = lines[0];
    let text = file_of(lines, false);
    let rest = lines.skip(1);
    assert(plain(l));
    if lines.len() == 1 {
        assert(text =~= l + e);
    } else {
        lemma_file_front(lines, e);
        assert forall|i: int| 0 <= i < rest.len() implies plain(#[trigger] rest[i]) by {
            assert(rest[i] == lines[i + 1]);
        }
        lemma_no_crlf(rest);
    }
    if has_crlf(text) {
        let i = choose|i: int|
            0 <= i && i + 1 < text.len() && #[trigger] text[i] == '\r' && text[i + 1] == '\n';
        if i < l.len() {
            assert(text[i] == l[i]);
            if i + 1 < l.len() {
                assert(text[i + 1] == l[i + 1]);
            } else {
                assert(l.last() == '\r');
            }
        } else if i == l.len() {
            assert(text[i] == '\n');
        } else {
            let t = file_of(rest, false);
            assert(t[i - l.len() - 1] == text[i]);
            assert(t[i - l.len() - 1 + 1] == text[i + 1]);
        }
        assert(false);
    }
}

proof fn lemma_crlf(lines: Seq<Seq<char>>)
    requires
        lines.len() > 0,
    ensures
        has_crlf(file_of(lines, true)),
{
    reveal_strlit("\r\n");
    let e = line_end(true);
    let text = file_of(lines, true);
    let i = joined(lines, e).len() as int;
    assert(text[i] == '\r' && text[i + 1] == '\n');
}

/// What is written is read back: the file that holds some lines gives those lines, with
/// the same line ends. The lines are at least one; a file without any reads as one empty
/// line.
pub proof fn law_file_round_trip(lines: Seq<Seq<char>>, crlf: bool)
    requires
        lines.len() > 0,
        all_plain(lines),
    ensures
        lines_in(file_of(lines, crlf)) == lines,
        find(file_of(lines, crlf), "\r\n"@) is Some == crlf,
{
    lemma_read_back(lines, crlf);
    lemma_find_crlf(file_of(lines, crlf));
    if crlf {
        lemma_crlf(lines);
    } else {
        lemma_no_crlf(lines);
    }
}

/// Reading the file right after it was written changes nothing but what undo remembers
/// and a selection that is out of range.
pub proof fn law_reload_after_save(s: State)
    requires
        s.lines.len() > 0,
        all_plain(s.lines),
    ensures
        reloaded(s, file_of(s.lines, s.crlf)) == clamped(State { undo: Seq::empty(), ..s }),
{
    law_file_round_trip(s.lines, s.crlf);
}

/// No line that is read holds a newline.
pub proof fn law_lines_hold_no_newline(text: Seq<char>, n: nat)
    ensures
        forall|i: int, j: int|
            0 <= i < split_lines(text, n).len() && 0 <= j < split_lines(text, n)[i].len()
                ==> #[trigger] split_lines(text, n)[i][j] != '\n',
    decreases text.len(),
{
    if text.len() > 0 {
        let p = |c: char| c == '\n';
        let end = first_from(text, 0, p);
        lemma_first_from(text, 0, p);
        if end < text.len() {
            let rest = text.skip(end + 1);
            law_lines_hold_no_newline(rest, n);
            lemma_drop_returns(text.take(end), n);
            let all = split_lines(text, n);
            assert forall|i: int, j: int|
                0 <= i < all.len() && 0 <= j < all[i].len() implies #[trigger] all[i][j]
                != '\n' by {
                if i == 0 {
                    assert(all[0][j] == text[j]);
                    assert(!p(text[j]));
                } else {
                    assert(all[i] == split_lines(rest, n)[i - 1]);
                }
            }
        } else {
            assert forall|i: int, j: int|
                0 <= i < split_lines(text, n).len() && 0 <= j < split_lines(text, n)[i].len()
                    implies #[trigger] split_lines(text, n)[i][j] != '\n' by {
                assert(!p(text[j]));
            }
        }
    }
}

proof fn lemma_drop_returns(s: Seq<char>, n: nat)
    ensures
        drop_returns(s, n).is_prefix_of(s),
    decreases n,
{
    if n > 0 && s.len() > 0 && s.last() == '\r' {
        lemma_drop_returns(s.drop_last(), (n - 1) as nat);
    }
}

/// Undo does not reach across a reload: what the file holds is not overwritten with what
/// was there before.
pub proof fn law_no_undo_across_reload(s: State, text: Seq<char>)
    ensures
        undone(reloaded(s, text)).lines == lines_in(text),
{
}

} // verus!
