//! The markdown of one line: headings, tasks with their check box, completion stamps.
use crate::bytes::{indent_bytes, leading_ws, lemma_byte_len_concat, lemma_byte_len_push};
use crate::search::{first_from, lemma_first_from};
use crate::text::{
    cat, chars_of, count_lead, eq_ignore_case, find, lead, lemma_find_from, position, same_letters,
    slice, starts_with, string_of, trim, trim_end, trimmed, trimmed_end,
};
use vstd::prelude::*;

verus! {

/// What a section's heading says of the tasks under it.
#[derive(Clone, Copy, PartialEq, Eq, Debug, Structural)]
pub enum SectionKind {
    Todo,
    Later,
    Done,
}

/// Whether a line is a heading, of any level.
pub open spec fn heading(s: Seq<char>) -> bool {
    s.len() > 0 && s[0] == '#'
}

/// Whether a line is the heading of a section: one of level two or deeper.
pub open spec fn section(s: Seq<char>) -> bool {
    s.len() > 1 && s[0] == '#' && s[1] == '#'
}

/// The name in a heading.
pub open spec fn heading_name(s: Seq<char>) -> Seq<char> {
    trim(s.skip(first_from(s, 0, |c: char| c != '#')))
}

/// The kind of section that a heading with this name opens.
pub open spec fn kind_of(name: Seq<char>) -> SectionKind {
    if same_letters(name, "later"@) {
        SectionKind::Later
    } else if same_letters(name, "done"@) {
        SectionKind::Done
    } else {
        SectionKind::Todo
    }
}

/// Whether a line ends the part of Todo that it stands in: it heads a section, or it is a
/// heading of Later or Done of any level.
pub open spec fn ends_todo(l: Seq<char>) -> bool {
    section(l) || (heading(l) && kind_of(heading_name(l)) != SectionKind::Todo)
}

/// Whether a line is the heading of a section of level two.
pub open spec fn level_two(s: Seq<char>) -> bool {
    section(s) && !(s.len() > 2 && s[2] == '#')
}

/// Whether a line is a heading with this name, in whatever case.
pub open spec fn heading_named(s: Seq<char>, name: Seq<char>) -> bool {
    heading(s) && same_letters(heading_name(s), name)
}

/// Whether a line is a task: a bullet and a check box, after any indentation.
pub open spec fn is_task(s: Seq<char>) -> bool {
    let k = lead(s);
    &&& k + 5 <= s.len()
    &&& s[k] == '-' || s[k] == '*'
    &&& s[k + 1] == ' '
    &&& s[k + 2] == '['
    &&& s[k + 3] == ' ' || s[k + 3] == 'x' || s[k + 3] == 'X'
    &&& s[k + 4] == ']'
}

/// The position of the mark in a task's check box.
pub open spec fn mark_pos(s: Seq<char>) -> int {
    lead(s) + 3
}

/// Whether a line is a task with a checked box.
pub open spec fn is_done(s: Seq<char>) -> bool {
    is_task(s) && s[mark_pos(s)] != ' '
}

/// What stands behind a task's check box.
pub open spec fn behind_box(s: Seq<char>) -> Seq<char> {
    s.skip(mark_pos(s) + 2)
}

/// Whether a line is a task that is not indented.
pub open spec fn is_top(s: Seq<char>) -> bool {
    is_task(s) && lead(s) == 0
}

/// Whether a line is a heading, of any level.
pub fn is_heading(line: &str) -> (r: bool)
    ensures
        r == heading(line@),
{
    !line.is_empty() && line.get_char(0) == '#'
}

/// Whether a line is the heading of a section.
pub fn is_section(line: &str) -> (r: bool)
    ensures
        r == section(line@),
{
    proof {
        reveal_strlit("##");
        if line@.len() > 1 {
            assert(line@.subrange(0, 2)[0] == line@[0]);
            assert(line@.subrange(0, 2)[1] == line@[1]);
            assert(section(line@) ==> "##"@ =~= line@.subrange(0, 2));
        }
    }
    starts_with(line, "##")
}

/// The name in a heading.
pub fn name_in(line: &str) -> (r: String)
    ensures
        r@ == heading_name(line@),
{
    let cs: Vec<char> = chars_of(line);
    let n: usize = cs.len();
    let mut i: usize = 0;
    while i < n && cs[i] == '#'
        invariant
            i <= n,
            n == cs@.len(),
            cs@ == line@,
            first_from(line@, i as int, |c: char| c != '#') == first_from(
                line@,
                0,
                |c: char| c != '#',
            ),
        decreases n - i,
    {
        i += 1;
    }
    let rest: String = string_of(&cs, i, n);
    assert(rest@ =~= line@.skip(i as int));
    trimmed(rest.as_str())
}

/// The kind of section that a heading with this text opens.
pub fn section_kind(heading_text: &str) -> (r: SectionKind)
    ensures
        r == kind_of(heading_text@),
{
    if eq_ignore_case(heading_text, "later") {
        SectionKind::Later
    } else if eq_ignore_case(heading_text, "done") {
        SectionKind::Done
    } else {
        SectionKind::Todo
    }
}

/// Whether a line ends the part of Todo that it stands in.
pub fn stops_todo(line: &str) -> (r: bool)
    ensures
        r == ends_todo(line@),
{
    if is_section(line) {
        true
    } else if is_heading(line) {
        let name: String = name_in(line);
        section_kind(name.as_str()) != SectionKind::Todo
    } else {
        false
    }
}

/// Whether a line is the heading of a section of level two.
pub fn is_level_two(line: &str) -> (r: bool)
    ensures
        r == level_two(line@),
{
    is_section(line) && !(line.unicode_len() > 2 && line.get_char(2) == '#')
}

/// Whether a line is a heading with this name, in whatever case.
pub fn is_heading_named(line: &str, name: &str) -> (r: bool)
    ensures
        r == heading_named(line@, name@),
{
    if is_heading(line) {
        let found: String = name_in(line);
        eq_ignore_case(found.as_str(), name)
    } else {
        false
    }
}

/// If the line is a task: whether it is done, and the position of its mark.
pub fn task_mark(line: &str) -> (r: Option<(bool, usize)>)
    ensures
        r is Some == is_task(line@),
        r matches Some((done, at)) ==> {
            &&& done == is_done(line@)
            &&& at == mark_pos(line@)
            &&& 3 <= at
            &&& at + 2 <= line@.len()
        },
{
    let k: usize = count_lead(line);
    let cs: Vec<char> = chars_of(line);
    if cs.len() - k < 5 {
        return None;
    }
    if (cs[k] == '-' || cs[k] == '*') && cs[k + 1] == ' ' && cs[k + 2] == '[' && cs[k + 4] == ']'
        && (cs[k + 3] == ' ' || cs[k + 3] == 'x' || cs[k + 3] == 'X') {
        Some((cs[k + 3] != ' ', k + 3))
    } else {
        None
    }
}

/// If the line is a task: whether it is done, and the byte position of the mark in its box.
pub fn task_info(line: &str) -> (r: Option<(bool, usize)>)
    ensures
        r is Some == is_task(line@),
        r matches Some((done, at)) ==> done == is_done(line@) && at == indent_bytes(line@) + 3,
{
    match task_mark(line) {
        None => None,
        Some((done, at)) => {
            let indent: usize = leading_ws(line);
            let all: usize = line.as_bytes().len();
            proof {
                let k = lead(line@);
                let t = line@.take(k);
                let u = t.push(line@[k]);
                let v = u.push(line@[k + 1]);
                let w = v.push(line@[k + 2]);
                lemma_byte_len_push(t, line@[k]);
                lemma_byte_len_push(u, line@[k + 1]);
                lemma_byte_len_push(v, line@[k + 2]);
                assert(line@ =~= w + line@.skip(k + 3));
                lemma_byte_len_concat(w, line@.skip(k + 3));
            }
            Some((done, indent + 3))
        },
    }
}

/// Where a completion stamp stands in `s`: from its `@done(` up to its closing bracket.
pub open spec fn stamp_span(s: Seq<char>) -> Option<(int, int)> {
    match find(s, "@done("@) {
        Some(p) => {
            let e = first_from(s, p, |c: char| c == ')');
            if e < s.len() {
                Some((p, e))
            } else {
                None
            }
        },
        None => None,
    }
}

/// The time in the completion stamp of `s`.
pub open spec fn stamp_of(s: Seq<char>) -> Option<Seq<char>> {
    match stamp_span(s) {
        Some((p, e)) => Some(s.subrange(p + 6, e)),
        None => None,
    }
}

/// `s` without its completion stamp.
pub open spec fn unstamped(s: Seq<char>) -> Seq<char> {
    match stamp_span(s) {
        Some((p, e)) => s.take(p) + s.skip(e + 1),
        None => s,
    }
}

/// The title in a task's text.
pub open spec fn title_of(s: Seq<char>) -> Seq<char> {
    trim(unstamped(s))
}

pub proof fn lemma_stamp_span(s: Seq<char>)
    ensures
        stamp_span(s) matches Some((p, e)) ==> {
            &&& 0 <= p
            &&& p + 6 <= e < s.len()
            &&& s[e] == ')'
            &&& s.subrange(p, p + 6) == "@done("@
            &&& forall|j: int| p + 6 <= j < e ==> s[j] != ')'
        },
{
    lemma_find_from(s, "@done("@, 0);
    reveal_strlit("@done(");
    if let Some(p) = find(s, "@done("@) {
        let q = |c: char| c == ')';
        lemma_first_from(s, p, q);
        let e = first_from(s, p, q);
        let sub = s.subrange(p, p + 6);
        assert(sub =~= "@done("@);
        assert forall|j: int| p <= j < p + 6 implies s[j] != ')' by {
            assert(s[j] == sub[j - p]);
        }
        assert forall|j: int| p + 6 <= j < e implies s[j] != ')' by {
            assert(!q(s[j]));
        }
        if e < p + 6 {
            assert(q(s[e]));
        }
    }
}

/// Where a completion stamp stands in `s`.
fn find_stamp(s: &str) -> (r: Option<(usize, usize)>)
    ensures
        match r {
            Some((p, e)) => stamp_span(s@) == Some((p as int, e as int)) && p + 6 <= e < s@.len(),
            None => stamp_span(s@) is None,
        },
{
    match position(s, "@done(") {
        None => None,
        Some(p) => {
            let cs: Vec<char> = chars_of(s);
            let n: usize = cs.len();
            let mut e: usize = p;
            proof {
                lemma_stamp_span(s@);
            }
            while e < n && cs[e] != ')'
                invariant
                    p <= e <= n,
                    n == cs@.len(),
                    cs@ == s@,
                    first_from(s@, e as int, |c: char| c == ')') == first_from(
                        s@,
                        p as int,
                        |c: char| c == ')',
                    ),
                decreases n - e,
            {
                e += 1;
            }
            if e < n {
                Some((p, e))
            } else {
                None
            }
        },
    }
}

/// `s` without its completion stamp.
fn without_stamp(s: &str) -> (r: String)
    ensures
        r@ == unstamped(s@),
{
    match find_stamp(s) {
        Some((p, e)) => {
            let n: usize = s.unicode_len();
            let a: String = slice(s, 0, p);
            let b: String = slice(s, e + 1, n);
            assert(a@ + b@ =~= unstamped(s@));
            cat(a.as_str(), b.as_str())
        },
        None => s.to_string(),
    }
}

/// Splits a task's text into its title and the time in its `@done(...)` stamp, if any.
pub fn split_stamp(text: &str) -> (r: (String, Option<String>))
    ensures
        r.0@ == title_of(text@),
        match r.1 {
            Some(stamp) => stamp_of(text@) == Some(stamp@),
            None => stamp_of(text@) is None,
        },
{
    let bare: String = without_stamp(text);
    let title: String = trimmed(bare.as_str());
    match find_stamp(text) {
        Some((p, e)) => (title, Some(slice(text, p + 6, e))),
        None => (title, None),
    }
}

/// The mark of a checked and of an open box.
pub open spec fn mark_char(done: bool) -> char {
    if done {
        'x'
    } else {
        ' '
    }
}

/// A task's line with its box checked or opened.
pub open spec fn with_mark(s: Seq<char>, done: bool) -> Seq<char> {
    s.update(mark_pos(s), mark_char(done))
}

/// An open task's line after its completion at the time `stamp`.
pub open spec fn completed(s: Seq<char>, stamp: Seq<char>) -> Seq<char> {
    with_mark(s, true) + " @done("@ + stamp + ")"@
}

/// A done task's line after it is opened again.
pub open spec fn reopened(s: Seq<char>) -> Seq<char> {
    trim_end(unstamped(with_mark(s, false)))
}

/// A task's line with another title, its box and its stamp kept.
pub open spec fn retitled(s: Seq<char>, title: Seq<char>) -> Seq<char> {
    let line = s.take(mark_pos(s) + 2) + " "@ + title;
    match stamp_of(behind_box(s)) {
        Some(stamp) => line + " @done("@ + stamp + ")"@,
        None => line,
    }
}

/// A task's line with its box checked or opened.
pub fn set_mark(line: &str, at: usize, done: bool) -> (r: String)
    requires
        is_task(line@),
        at == mark_pos(line@),
    ensures
        r@ == with_mark(line@, done),
{
    let n: usize = line.unicode_len();
    let mut out: String = slice(line, 0, at);
    out.push(if done { 'x' } else { ' ' });
    let rest: String = slice(line, at + 1, n);
    out.append(rest.as_str());
    assert(out@ =~= with_mark(line@, done));
    out
}

/// An open task's line after its completion at the time `stamp`.
pub fn complete(line: &str, at: usize, stamp: &str) -> (r: String)
    requires
        is_task(line@),
        at == mark_pos(line@),
    ensures
        r@ == completed(line@, stamp@),
{
    let mut out: String = set_mark(line, at, true);
    out.append(" @done(");
    out.append(stamp);
    out.append(")");
    out
}

/// A done task's line after it is opened again.
pub fn reopen(line: &str, at: usize) -> (r: String)
    requires
        is_task(line@),
        at == mark_pos(line@),
    ensures
        r@ == reopened(line@),
{
    let open: String = set_mark(line, at, false);
    let bare: String = without_stamp(open.as_str());
    trimmed_end(bare.as_str())
}

/// What stands behind a task's check box.
pub fn text_behind(line: &str, at: usize) -> (r: String)
    requires
        is_task(line@),
        at == mark_pos(line@),
    ensures
        r@ == behind_box(line@),
{
    let n: usize = line.unicode_len();
    let out: String = slice(line, at + 2, n);
    assert(out@ =~= behind_box(line@));
    out
}

/// A task's line with another title, its box and its stamp kept.
pub fn retitle(line: &str, at: usize, title: &str) -> (r: String)
    requires
        is_task(line@),
        at == mark_pos(line@),
    ensures
        r@ == retitled(line@, title@),
{
    let text: String = text_behind(line, at);
    let (_, stamp) = split_stamp(text.as_str());
    let n: usize = line.unicode_len();
    assert(at + 2 <= n);
    let mut out: String = slice(line, 0, at + 2);
    out.append(" ");
    out.append(title);
    assert(line@.subrange(0, at + 2) =~= line@.take(at + 2));
    if let Some(st) = stamp {
        out.append(" @done(");
        out.append(st.as_str());
        out.append(")");
    }
    out
}

} // verus!
