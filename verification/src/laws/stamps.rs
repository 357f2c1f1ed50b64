//! Completion stamps: what is written when a task is completed is read again, and taken
//! away when the task is opened.
use crate::blocks::{lemma_completed, lemma_task_kept};
use crate::clock::{stamp_chars, stamp_text, stamps, whole_minute, Moment};
use crate::rotate::done_moment;
use crate::search::{lemma_back_from, lemma_back_from_is, lemma_first_from, lemma_first_from_is};
use crate::task::{
    behind_box, completed, is_done, is_task, lemma_stamp_span, mark_pos, reopened, retitled,
    stamp_of, stamp_span, title_of, unstamped, with_mark,
};
use crate::text::{find, is_space, lead, lemma_find_from, occurs_at, tail, trim, trim_end};
use vstd::prelude::*;

verus! {

/// A text with a completion stamp at its end.
pub open spec fn stamped(text: Seq<char>, stamp: Seq<char>) -> Seq<char> {
    text + " @done("@ + stamp + ")"@
}

/// Whether a stamp is opened in a text.
pub open spec fn opens_stamp(text: Seq<char>) -> bool {
    find(text, "@done("@) is Some
}

/// Whether a text holds no closing bracket.
pub open spec fn no_bracket(s: Seq<char>) -> bool {
    forall|i: int| 0 <= i < s.len() ==> #[trigger] s[i] != ')'
}

proof fn lemma_stamp_at_end(text: Seq<char>, stamp: Seq<char>)
    requires
        !opens_stamp(text),
        no_bracket(stamp),
    ensures
        stamp_span(stamped(text, stamp)) == Some(
            (text.len() as int + 1, text.len() as int + 7 + stamp.len()),
        ),
        stamp_of(stamped(text, stamp)) == Some(stamp),
        unstamped(stamped(text, stamp)) == text.push(' '),
{
    reveal_strlit("@done(");
    reveal_strlit(" @done(");
    reveal_strlit(")");
    let pat = "@done("@;
    let w = stamped(text, stamp);
    let n = text.len() as int;
    lemma_find_from(text, pat, 0);
    lemma_find_from(w, pat, 0);
    assert(w.subrange(n + 1, n + 7) =~= pat);
    assert(occurs_at(w, pat, n + 1));
    let p = find(w, pat)->0;
    if p < n + 1 {
        assert(occurs_at(w, pat, p));
        if p + 6 <= n {
            assert(w.subrange(p, p + 6) =~= text.subrange(p, p + 6));
            assert(occurs_at(text, pat, p));
        } else {
            assert(w.subrange(p, p + 6)[n - p] == w[n]);
        }
        assert(false);
    }
    assert(p == n + 1);
    let q = |c: char| c == ')';
    let e: int = n + 7 + stamp.len();
    assert forall|j: int| p <= j < e implies !q(#[trigger] w[j]) by {
        if j >= n + 7 {
            assert(w[j] == stamp[j - n - 7]);
        } else {
            assert(w[j] == pat[j - p]);
        }
    }
    lemma_first_from_is(w, p, q, e);
    assert(w.subrange(p + 6, e) =~= stamp);
    assert(w.take(p) + w.skip(e + 1) =~= text.push(' '));
}

proof fn lemma_tail_push_space(s: Seq<char>)
    ensures
        tail(s.push(' ')) == tail(s),
        trim_end(s.push(' ')) == trim_end(s),
        trim(s.push(' ')) == trim(s),
{
    let p = |c: char| !is_space(c);
    let t = s.push(' ');
    lemma_back_from(s, s.len() as int, p);
    lemma_back_from(t, t.len() as int, p);
    let k = tail(s);
    assert forall|j: int| k <= j < t.len() implies !p(#[trigger] t[j]) by {
        if j < s.len() {
            assert(!p(s[j]));
        }
    }
    lemma_back_from_is(t, t.len() as int, p, k);
    assert(t.take(k) =~= s.take(k));
    lemma_first_from(s, 0, p);
    lemma_first_from(t, 0, p);
    let a = lead(s);
    if a < s.len() {
        assert forall|j: int| 0 <= j < a implies !p(#[trigger] t[j]) by {
            assert(!p(s[j]));
        }
        assert(t[a] == s[a]);
        lemma_first_from_is(t, 0, p, a);
        if a < k {
            assert(t.subrange(a, k) =~= s.subrange(a, k));
        }
    } else {
        if k > 0 {
            assert(p(s[k - 1]));
            assert(!p(s[k - 1]));
        }
        if lead(t) < tail(t) {
            assert(tail(t) == 0);
        }
    }
}

proof fn lemma_completed_is_stamped(l: Seq<char>, stamp: Seq<char>)
    requires
        is_task(l),
    ensures
        behind_box(completed(l, stamp)) == stamped(behind_box(l), stamp),
        !is_done(l) ==> with_mark(completed(l, stamp), false) == stamped(l, stamp),
{
    lemma_completed(l, stamp);
    lemma_first_from(l, 0, |c: char| !is_space(c));
    assert(behind_box(completed(l, stamp)) =~= stamped(behind_box(l), stamp));
    if !is_done(l) {
        assert(with_mark(completed(l, stamp), false) =~= stamped(l, stamp));
    }
}

proof fn lemma_stamp_has_no_bracket(stamp: Seq<char>)
    requires
        stamp_text(stamp),
    ensures
        no_bracket(stamp),
{
    assert forall|i: int| 0 <= i < stamp.len() implies #[trigger] stamp[i] != ')' by {
        assert(stamp_chars(stamp));
    }
}

/// Opening a task that was completed gives back its line, but for blanks at its end. The
/// line opened no stamp before it was completed.
pub proof fn law_reopen_undoes_complete(l: Seq<char>, stamp: Seq<char>)
    requires
        is_task(l),
        !is_done(l),
        !opens_stamp(l),
        stamp_text(stamp),
    ensures
        reopened(completed(l, stamp)) == trim_end(l),
{
    lemma_stamp_has_no_bracket(stamp);
    lemma_completed_is_stamped(l, stamp);
    lemma_stamp_at_end(l, stamp);
    lemma_tail_push_space(l);
}

/// A completed task is a done task with the same title, and its stamp is the time of its
/// completion, which is read as the minute it was completed in.
pub proof fn law_stamp_read_back(l: Seq<char>, stamp: Seq<char>, at: Moment)
    requires
        is_task(l),
        !opens_stamp(behind_box(l)),
        stamps(stamp, at),
    ensures
        is_done(completed(l, stamp)),
        title_of(behind_box(completed(l, stamp))) == title_of(behind_box(l)),
        stamp_of(behind_box(completed(l, stamp))) == Some(stamp),
        done_moment(completed(l, stamp)) == Some(whole_minute(at)),
{
    let text = behind_box(l);
    assert(stamp_text(stamp));
    lemma_stamp_has_no_bracket(stamp);
    lemma_completed(l, stamp);
    lemma_completed_is_stamped(l, stamp);
    lemma_stamp_at_end(text, stamp);
    lemma_tail_push_space(text);
    lemma_stamp_span(text);
}

/// A line with another title has that title, and keeps its box and its stamp. The title
/// opens no stamp itself.
pub proof fn law_edit_keeps_box_and_stamp(l: Seq<char>, title: Seq<char>)
    requires
        is_task(l),
        !opens_stamp(title),
    ensures
        is_task(retitled(l, title)),
        is_done(retitled(l, title)) == is_done(l),
        lead(retitled(l, title)) == lead(l),
        title_of(behind_box(retitled(l, title))) == trim(title),
        stamp_of(behind_box(retitled(l, title))) == stamp_of(behind_box(l)),
{
    reveal_strlit(" ");
    reveal_strlit("@done(");
    lemma_first_from(l, 0, |c: char| !is_space(c));
    let m = retitled(l, title);
    let k = mark_pos(l);
    let text = " "@ + title;
    let old_stamp = stamp_of(behind_box(l));
    assert forall|i: int| 0 <= i < k + 2 implies #[trigger] m[i] == l[i] by {
        assert(l.take(k + 2)[i] == l[i]);
    }
    lemma_task_kept(l, m);
    lemma_lead_space(title);
    if opens_stamp(text) {
        let pat = "@done("@;
        lemma_find_from(text, pat, 0);
        lemma_find_from(title, pat, 0);
        let p = find(text, pat)->0;
        assert(text.subrange(p, p + 6)[0] == text[p]);
        assert(p > 0);
        assert(title.subrange(p - 1, p + 5) =~= text.subrange(p, p + 6));
        assert(occurs_at(title, pat, p - 1));
    }
    match old_stamp {
        Some(stamp) => {
            lemma_stamp_span(behind_box(l));
            let (p, e) = stamp_span(behind_box(l))->0;
            assert forall|i: int| 0 <= i < stamp.len() implies #[trigger] stamp[i] != ')' by {
                assert(behind_box(l)[p + 6 + i] == stamp[i]);
            }
            assert(behind_box(m) =~= stamped(text, stamp));
            lemma_stamp_at_end(text, stamp);
            lemma_tail_push_space(text);
        },
        None => {
            assert(behind_box(m) =~= text);
            lemma_stamp_span(text);
        },
    }
}

/// A blank before a text does not matter to what is left when it is trimmed.
pub proof fn lemma_lead_space(s: Seq<char>)
    ensures
        trim(" "@ + s) == trim(s),
{
    reveal_strlit(" ");
    let p = |c: char| !is_space(c);
    let t = " "@ + s;
    lemma_first_from(s, 0, p);
    lemma_back_from(s, s.len() as int, p);
    let a = lead(s);
    let k = tail(s);
    assert forall|j: int| 0 <= j < a + 1 implies !p(#[trigger] t[j]) by {
        if j > 0 {
            assert(t[j] == s[j - 1]);
        }
    }
    if a < s.len() {
        assert(t[a + 1] == s[a]);
    }
    lemma_first_from_is(t, 0, p, a + 1);
    let k1 = if k > 0 {
        k + 1
    } else {
        0
    };
    assert forall|j: int| k1 <= j < t.len() implies !p(#[trigger] t[j]) by {
        if j > 0 {
            assert(t[j] == s[j - 1]);
        }
    }
    if k > 0 {
        assert(t[k] == s[k - 1]);
    }
    lemma_back_from_is(t, t.len() as int, p, k1);
    if a < k {
        assert(t.subrange(a + 1, k + 1) =~= s.subrange(a, k));
    }
}

} // verus!
