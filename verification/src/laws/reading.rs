//! How the text of a file is read.
use crate::app::{file_of, lines_in, reloaded, State};
use crate::keys::{asked_reloaded, changed_reloaded, history_shown, reloadable, synced};
use crate::laws::file::{lemma_file_front, lemma_find_crlf};
use crate::lines::{drop_returns, split_lines};
use crate::search::{first_from, lemma_first_from, lemma_first_from_is};
use crate::text::find;
use vstd::prelude::*;

verus! {

/// Whether a text holds no newline.
pub open spec fn one_line(l: Seq<char>) -> bool {
    forall|i: int| 0 <= i < l.len() ==> #[trigger] l[i] != '\n'
}

/// Whether `line` is `l` without the carriage returns at its end, but for those beyond `n`.
pub open spec fn without_returns(l: Seq<char>, n: nat, line: Seq<char>) -> bool {
    &&& line.is_prefix_of(l)
    &&& l.len() - line.len() <= n
    &&& forall|i: int| line.len() <= i < l.len() ==> #[trigger] l[i] == '\r'
    &&& l.len() - line.len() < n && line.len() > 0 ==> line.last() != '\r'
}

proof fn lemma_without_returns(l: Seq<char>, n: nat)
    ensures
        without_returns(l, n, drop_returns(l, n)),
    decreases n,
{
    if n > 0 && l.len() > 0 && l.last() == '\r' {
        let k = l.drop_last();
        lemma_without_returns(k, (n - 1) as nat);
        let line = drop_returns(l, n);
        assert forall|i: int| line.len() <= i < l.len() implies #[trigger] l[i] == '\r' by {
            if i < k.len() {
                assert(k[i] == l[i]);
            }
        }
        assert(l.len() - line.len() < n && line.len() > 0 ==> line.last() != '\r');
    }
}

/// A text is read line by line: what stands before its first newline is a line, the carriage
/// returns right before the newline aside, and the rest is read in the same way; what no
/// newline follows is a line if it is anything.
pub proof fn law_lines_of_text(l: Seq<char>, rest: Seq<char>, n: nat)
    requires
        one_line(l),
    ensures
        ({
            let all = split_lines(l + seq!['\n'] + rest, n);
            &&& all.len() > 0
            &&& without_returns(l, n, all[0])
            &&& all.skip(1) == split_lines(rest, n)
        }),
        split_lines(l, n) == (if l.len() == 0 {
            Seq::empty()
        } else {
            seq![l]
        }),
{
    let text = l + seq!['\n'] + rest;
    let p = |c: char| c == '\n';
    let end = l.len() as int;
    assert(text[end] == '\n');
    assert forall|i: int| 0 <= i < end implies !p(#[trigger] text[i]) by {
        assert(text[i] == l[i]);
    }
    lemma_first_from_is(text, 0, p, end);
    assert(text.take(end) =~= l);
    assert(text.skip(end + 1) =~= rest);
    lemma_without_returns(l, n);
    assert((seq![drop_returns(l, n)] + split_lines(rest, n)).skip(1) =~= split_lines(rest, n));
    if l.len() > 0 {
        assert forall|i: int| 0 <= i < l.len() implies !p(#[trigger] l[i]) by {}
        lemma_first_from_is(l, 0, p, l.len() as int);
    }
}

/// Reading loses nothing: a text without carriage returns is what its lines give when they
/// are written, but for the newline at its end if it had none.
pub proof fn law_reading_loses_nothing(text: Seq<char>)
    requires
        text.len() > 0,
        forall|i: int| 0 <= i < text.len() ==> #[trigger] text[i] != '\r',
    ensures
        file_of(lines_in(text), false) == (if text.last() == '\n' {
            text
        } else {
            text.push('\n')
        }),
    decreases text.len(),
{
    reveal_strlit("\n");
    let e = "\n"@;
    assert(e =~= seq!['\n']);
    let p = |c: char| c == '\n';
    lemma_first_from(text, 0, p);
    let end = first_from(text, 0, p);
    if end < text.len() {
        let l = text.take(end);
        let rest = text.skip(end + 1);
        assert(p(text[end]));
        assert(drop_returns(l, 2) == l) by {
            if l.len() > 0 {
                assert(l.last() == text[end - 1]);
            }
        }
        let all = lines_in(text);
        assert(all == seq![l] + lines_in(rest));
        if rest.len() == 0 {
            assert(lines_in(rest) =~= Seq::empty());
            assert(all =~= seq![l]);
            assert(file_of(all, false) =~= text);
        } else {
            assert forall|i: int| 0 <= i < rest.len() implies #[trigger] rest[i] != '\r' by {
                assert(rest[i] == text[end + 1 + i]);
            }
            law_reading_loses_nothing(rest);
            assert(rest.last() == text.last());
            lemma_some_lines(rest);
            lemma_file_front(all, e);
            assert(all.skip(1) =~= lines_in(rest));
            assert(all[0] == l);
            assert(file_of(all, false) =~= l + e + file_of(lines_in(rest), false));
            assert(l + e + rest =~= text);
            assert(l + e + rest.push('\n') =~= text.push('\n'));
        }
    } else {
        assert(text.last() != '\n') by {
            assert(!p(text[text.len() - 1]));
        }
        assert(lines_in(text) =~= seq![text]);
        assert(file_of(seq![text], false) =~= text.push('\n'));
    }
}

proof fn lemma_some_lines(text: Seq<char>)
    requires
        text.len() > 0,
    ensures
        lines_in(text).len() > 0,
{
}

/// Reading takes the lines and the line ends from the text, forgets what undo remembers, and
/// changes nothing else but a selection out of range. Line ends are those of the text if it
/// has a carriage return right before a newline.
pub proof fn law_reload_takes_the_text(s: State, text: Seq<char>)
    ensures
        ({
            let t = reloaded(s, text);
            &&& t == (State {
                lines: lines_in(text),
                crlf: t.crlf,
                undo: Seq::empty(),
                cursor: t.cursor,
                sub: t.sub,
                ..s
            })
            &&& t.crlf <==> exists|i: int|
                0 < i < text.len() && #[trigger] text[i] == '\n' && text[i - 1] == '\r'
        }),
{
    lemma_find_crlf(text);
    let has = exists|i: int| 0 < i < text.len() && #[trigger] text[i] == '\n' && text[i - 1]
        == '\r';
    if find(text, "\r\n"@) is Some {
        let i = choose|i: int|
            0 <= i && i + 1 < text.len() && #[trigger] text[i] == '\r' && text[i + 1] == '\n';
        assert(text[i + 1] == '\n' && text[i + 1 - 1] == '\r');
        assert(has);
    }
    if has {
        let i = choose|i: int|
            0 < i < text.len() && #[trigger] text[i] == '\n' && text[i - 1] == '\r';
        assert(text[i - 1] == '\r' && text[i - 1 + 1] == '\n');
    }
}

/// Wherever the todo file is read again, its text is taken in the same way; a sync that did
/// not go well leaves everything but what is said.
pub proof fn law_reloads_are_alike(s: State, text: Seq<char>, message: Seq<char>)
    ensures
        ({
            let t = reloaded(s, text);
            &&& changed_reloaded(s, text) == (State {
                status: "reloaded (changed on disk)"@,
                ..t
            })
            &&& asked_reloaded(s, text) == (State { sub: None, status: "reloaded"@, ..t })
            &&& synced(s, message, Some(text)) == (State { status: "sync: "@ + message, ..t })
            &&& synced(s, message, None) == (State { status: "sync: "@ + message, ..s })
        }),
{
}

/// The file is not read again while notes, a prompt, the menu or the history are open.
pub proof fn law_no_reload_over_what_is_open(s: State)
    ensures
        s.notes is Some || s.input is Some || s.move_menu is Some || s.history is Some
            <==> !reloadable(s),
{
}

/// The history is shown from its first row, and all of it.
pub proof fn law_history_is_shown(s: State, text: Seq<char>)
    ensures
        ({
            let t = history_shown(s, text);
            &&& t == (State { history: t.history, ..s })
            &&& t.history is Some
            &&& t.history->0.scroll == 0
            &&& t.history->0.lines == split_lines(text, 1)
        }),
{
}

} // verus!
