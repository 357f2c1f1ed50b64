//! The structure of a todo file: tasks with the blocks under them, sections, blank lines.
use crate::lines::{cut_lines, push_line, put_line, put_lines, spliced, texts, without};
use crate::search::{back_from, first_from, lemma_back_from, lemma_first_from};
use crate::task::{
    ends_todo, heading, heading_name, heading_named, is_done, is_heading, is_heading_named,
    is_section, is_top, kind_of, name_in, section, section_kind, stops_todo, task_mark, SectionKind,
};
use crate::text::{blank, cat, eq_ignore_case, is_blank, is_space, same_letters, space};
use vstd::prelude::*;

verus! {

/// A top-level task and the indented block (notes, sub-todos) beneath it.
#[derive(Clone, Copy, PartialEq, Eq, Debug, Structural)]
pub struct Item {
    pub start: usize,
    pub len: usize,
    pub done: bool,
}

/// What an `Item` says: the task's line, the number of lines with the block, whether done.
pub struct ItemModel {
    pub start: int,
    pub len: int,
    pub done: bool,
}

impl View for Item {
    type V = ItemModel;

    open spec fn view(&self) -> ItemModel {
        ItemModel { start: self.start as int, len: self.len as int, done: self.done }
    }
}

/// Whether a line can stand in the block under a task: it is blank or indented.
pub open spec fn under(l: Seq<char>) -> bool {
    is_blank(l) || is_space(l[0])
}

/// The end of the block of the task at line `i`. The block takes in the lines that follow
/// as long as they are blank or indented, but no blank lines at its end.
pub open spec fn block_end(lines: Seq<Seq<char>>, i: int) -> int {
    back_from(
        lines,
        first_from(lines, i + 1, |l: Seq<char>| !under(l)),
        |l: Seq<char>| !is_blank(l),
    )
}

/// The item of the top-level task at line `i`.
pub open spec fn item_at(lines: Seq<Seq<char>>, i: int) -> ItemModel {
    ItemModel { start: i, len: block_end(lines, i) - i, done: is_done(lines[i]) }
}

/// The items that start in the first `n` lines.
pub open spec fn items_upto(lines: Seq<Seq<char>>, n: int) -> Seq<ItemModel>
    decreases n,
{
    if n <= 0 {
        Seq::empty()
    } else if is_top(lines[n - 1]) {
        items_upto(lines, n - 1).push(item_at(lines, n - 1))
    } else {
        items_upto(lines, n - 1)
    }
}

/// All the top-level tasks, in file order.
pub open spec fn items_of(lines: Seq<Seq<char>>) -> Seq<ItemModel> {
    items_upto(lines, lines.len() as int)
}

/// What a list of items says.
pub open spec fn item_models(items: Seq<Item>) -> Seq<ItemModel> {
    Seq::new(items.len(), |i: int| items[i]@)
}

/// A task's line is not blank.
pub proof fn lemma_top_not_blank(l: Seq<char>)
    requires
        is_top(l),
    ensures
        !is_blank(l),
        !heading(l),
        !section(l),
        !ends_todo(l),
        !under(l),
{
    lemma_first_from(l, 0, |c: char| !is_space(c));
    assert(l[0] == '-' || l[0] == '*');
    assert(!is_space(l[0]));
}

/// A heading is not blank.
pub proof fn lemma_heading_not_blank(l: Seq<char>)
    requires
        heading(l),
    ensures
        !is_blank(l),
        !is_top(l),
        !under(l),
{
    assert(!is_space(l[0]));
    if is_top(l) {
        lemma_top_not_blank(l);
    }
}

/// Where the block of a task ends, and what stands in it.
pub proof fn lemma_block_end(lines: Seq<Seq<char>>, i: int)
    requires
        0 <= i < lines.len(),
        is_top(lines[i]),
    ensures
        i < block_end(lines, i) <= lines.len(),
        !is_blank(lines[block_end(lines, i) - 1]),
        forall|j: int| i < j < block_end(lines, i) ==> under(#[trigger] lines[j]),
{
    let q = |l: Seq<char>| !under(l);
    let p = |l: Seq<char>| !is_blank(l);
    lemma_first_from(lines, i + 1, q);
    let run = first_from(lines, i + 1, q);
    lemma_back_from(lines, run, p);
    lemma_top_not_blank(lines[i]);
    let e = block_end(lines, i);
    if e <= i {
        assert(!p(lines[i]));
    }
    assert forall|j: int| i < j < e implies under(#[trigger] lines[j]) by {
        assert(!q(lines[j]));
    }
}

fn is_under(line: &str) -> (r: bool)
    ensures
        r == under(line@),
{
    blank(line) || space(line.get_char(0))
}

/// The end of the block of the task at line `i`.
pub fn find_block_end(lines: &Vec<String>, i: usize) -> (r: usize)
    requires
        i < lines@.len(),
        is_top(texts(lines@)[i as int]),
    ensures
        r == block_end(texts(lines@), i as int),
        i < r <= lines@.len(),
{
    let n: usize = lines.len();
    let ghost t = texts(lines@);
    let mut j: usize = i + 1;
    while j < n && is_under(lines[j].as_str())
        invariant
            i < j <= n,
            n == lines@.len(),
            t == texts(lines@),
            first_from(t, j as int, |l: Seq<char>| !under(l)) == first_from(
                t,
                i + 1,
                |l: Seq<char>| !under(l),
            ),
        decreases n - j,
    {
        assert(t[j as int] == lines@[j as int]@);
        j += 1;
    }
    proof {
        if j < n {
            assert(t[j as int] == lines@[j as int]@);
        }
        lemma_block_end(t, i as int);
    }
    let ghost run = j;
    while j > i + 1 && blank(lines[j - 1].as_str())
        invariant
            i < j <= run,
            run <= n,
            n == lines@.len(),
            t == texts(lines@),
            back_from(t, j as int, |l: Seq<char>| !is_blank(l)) == back_from(
                t,
                run as int,
                |l: Seq<char>| !is_blank(l),
            ),
        decreases j,
    {
        assert(t[j - 1] == lines@[j - 1]@);
        j -= 1;
    }
    proof {
        assert(t[j - 1] == lines@[j - 1]@);
        lemma_top_not_blank(t[i as int]);
    }
    j
}

/// Top-level tasks with their child blocks. Interior blank lines belong to a block only
/// when more indented content follows; trailing blanks do not.
pub fn items(lines: &Vec<String>) -> (r: Vec<Item>)
    ensures
        item_models(r@) == items_of(texts(lines@)),
{
    let mut out: Vec<Item> = Vec::new();
    let n: usize = lines.len();
    let ghost t = texts(lines@);
    assert(item_models(out@) =~= items_upto(t, 0));
    for i in 0..n
        invariant
            n == lines@.len(),
            t == texts(lines@),
            item_models(out@) == items_upto(t, i as int),
    {
        let ghost seen = item_models(out@);
        assert(t[i as int] == lines@[i as int]@);
        if let Some((done, at)) = task_mark(lines[i].as_str()) {
            if at == 3 {
                let end: usize = find_block_end(lines, i);
                out.push(Item { start: i, len: end - i, done });
                assert(item_models(out@) =~= seen.push(item_at(t, i as int)));
            }
        }
    }
    out
}

// ---------------------------------------------------------------------------------
// Blank lines

/// Adds a line to a list that is kept tidy: no blank line at its start, no two in a row,
/// and one between a heading and any other line.
pub open spec fn tidy_push(out: Seq<Seq<char>>, line: Seq<char>) -> Seq<Seq<char>> {
    if is_blank(line) {
        if out.len() == 0 || is_blank(out.last()) {
            out
        } else {
            out.push(line)
        }
    } else if out.len() > 0 && !is_blank(out.last()) && (heading(line) || heading(out.last())) {
        out.push(Seq::empty()).push(line)
    } else {
        out.push(line)
    }
}

/// The lines, added one by one to a list that is kept tidy.
pub open spec fn tidy_all(lines: Seq<Seq<char>>) -> Seq<Seq<char>>
    decreases lines.len(),
{
    if lines.len() == 0 {
        Seq::empty()
    } else {
        tidy_push(tidy_all(lines.drop_last()), lines.last())
    }
}

/// The list without the blank lines at its end.
pub open spec fn drop_blank_end(lines: Seq<Seq<char>>) -> Seq<Seq<char>> {
    lines.take(back_from(lines, lines.len() as int, |l: Seq<char>| !is_blank(l)))
}

/// The lines with their blank lines in order: no runs of blanks, one blank around
/// headings, none at the start or the end.
pub open spec fn tidied(lines: Seq<Seq<char>>) -> Seq<Seq<char>> {
    drop_blank_end(tidy_all(lines))
}

/// Takes the blank lines off the end.
pub fn pop_blank_end(lines: &mut Vec<String>)
    ensures
        texts(final(lines)@) == drop_blank_end(texts(old(lines)@)),
{
    let ghost t = texts(lines@);
    let mut n: usize = lines.len();
    while n > 0 && blank(lines[n - 1].as_str())
        invariant
            n <= lines@.len(),
            t == texts(lines@),
            back_from(t, n as int, |l: Seq<char>| !is_blank(l)) == back_from(
                t,
                t.len() as int,
                |l: Seq<char>| !is_blank(l),
            ),
        decreases n,
    {
        assert(t[n - 1] == lines@[n - 1]@);
        n -= 1;
    }
    proof {
        if n > 0 {
            assert(t[n - 1] == lines@[n - 1]@);
        }
    }
    lines.truncate(n);
    assert(texts(lines@) =~= t.take(n as int));
}

/// Normalizes blank lines: no runs of blanks, one blank around headings, no leading or
/// trailing blanks.
pub fn tidy_lines(lines: &Vec<String>) -> (r: Vec<String>)
    ensures
        texts(r@) == tidied(texts(lines@)),
{
    let mut out: Vec<String> = Vec::new();
    let n: usize = lines.len();
    let ghost t = texts(lines@);
    assert(texts(out@) =~= tidy_all(t.take(0)));
    for i in 0..n
        invariant
            n == lines@.len(),
            t == texts(lines@),
            texts(out@) == tidy_all(t.take(i as int)),
    {
        let line: &String = &lines[i];
        let k: usize = out.len();
        proof {
            assert(t.take(i + 1).drop_last() =~= t.take(i as int));
            assert(t.take(i + 1).last() == line@);
            if k > 0 {
                assert(texts(out@).last() == out@[k - 1]@);
            }
        }
        if blank(line.as_str()) {
            if k > 0 && !blank(out[k - 1].as_str()) {
                push_line(&mut out, line.clone());
            }
        } else {
            if k > 0 && !blank(out[k - 1].as_str()) && (is_heading(line.as_str()) || is_heading(
                out[k - 1].as_str(),
            )) {
                push_line(&mut out, String::new());
            }
            push_line(&mut out, line.clone());
        }
    }
    assert(t.take(n as int) =~= t);
    pop_blank_end(&mut out);
    out
}

// ---------------------------------------------------------------------------------
// Sections

/// The line of the first heading with this name; the number of lines if there is none.
pub open spec fn heading_index(lines: Seq<Seq<char>>, name: Seq<char>) -> int {
    first_from(lines, 0, |l: Seq<char>| heading_named(l, name))
}

/// Whether there is a heading with this name.
pub open spec fn has_heading(lines: Seq<Seq<char>>, name: Seq<char>) -> bool {
    heading_index(lines, name) < lines.len()
}

/// The line of the first heading with this name.
pub fn find_heading(lines: &Vec<String>, name: &str) -> (r: Option<usize>)
    ensures
        match r {
            Some(h) => h < lines@.len() && h == heading_index(texts(lines@), name@),
            None => !has_heading(texts(lines@), name@),
        },
{
    let n: usize = lines.len();
    let ghost t = texts(lines@);
    let mut i: usize = 0;
    while i < n
        invariant
            i <= n,
            n == lines@.len(),
            t == texts(lines@),
            first_from(t, i as int, |l: Seq<char>| heading_named(l, name@)) == heading_index(
                t,
                name@,
            ),
        decreases n - i,
    {
        assert(t[i as int] == lines@[i as int]@);
        if is_heading_named(lines[i].as_str(), name) {
            return Some(i);
        }
        i += 1;
    }
    None
}

/// The first line at or after `i` that heads a section; the number of lines if none does.
pub open spec fn next_section(lines: Seq<Seq<char>>, i: int) -> int {
    first_from(lines, i, |l: Seq<char>| section(l))
}

/// The first line at or after `i` that heads a section; the number of lines if none does.
pub fn find_section(lines: &Vec<String>, i: usize) -> (r: usize)
    requires
        i <= lines@.len(),
    ensures
        r == next_section(texts(lines@), i as int),
        i <= r <= lines@.len(),
{
    let n: usize = lines.len();
    let ghost t = texts(lines@);
    let mut j: usize = i;
    while j < n && !is_section(lines[j].as_str())
        invariant
            i <= j <= n,
            n == lines@.len(),
            t == texts(lines@),
            next_section(t, j as int) == next_section(t, i as int),
        decreases n - j,
    {
        assert(t[j as int] == lines@[j as int]@);
        j += 1;
    }
    proof {
        if j < n {
            assert(t[j as int] == lines@[j as int]@);
        }
    }
    j
}

/// The first line at or after `i` that ends the part of Todo before it; the number of
/// lines if none does.
pub open spec fn next_stop(lines: Seq<Seq<char>>, i: int) -> int {
    first_from(lines, i, |l: Seq<char>| ends_todo(l))
}

/// The first line at or after `i` that ends the part of Todo before it; the number of
/// lines if none does.
pub fn find_stop(lines: &Vec<String>, i: usize) -> (r: usize)
    requires
        i <= lines@.len(),
    ensures
        r == next_stop(texts(lines@), i as int),
        i <= r <= lines@.len(),
{
    let n: usize = lines.len();
    let ghost t = texts(lines@);
    let mut j: usize = i;
    while j < n && !stops_todo(lines[j].as_str())
        invariant
            i <= j <= n,
            n == lines@.len(),
            t == texts(lines@),
            next_stop(t, j as int) == next_stop(t, i as int),
        decreases n - j,
    {
        assert(t[j as int] == lines@[j as int]@);
        j += 1;
    }
    proof {
        if j < n {
            assert(t[j as int] == lines@[j as int]@);
        }
    }
    j
}

/// The first line past the blank lines that follow line `h`.
pub open spec fn past_blanks(lines: Seq<Seq<char>>, h: int) -> int {
    first_from(lines, h + 1, |l: Seq<char>| !is_blank(l))
}

/// The first line past the blank lines that follow line `h`.
pub fn skip_blanks(lines: &Vec<String>, h: usize) -> (r: usize)
    requires
        h < lines@.len(),
    ensures
        r == past_blanks(texts(lines@), h as int),
        h < r <= lines@.len(),
{
    let n: usize = lines.len();
    let ghost t = texts(lines@);
    let mut i: usize = h + 1;
    while i < n && blank(lines[i].as_str())
        invariant
            h < i <= n,
            n == lines@.len(),
            t == texts(lines@),
            first_from(t, i as int, |l: Seq<char>| !is_blank(l)) == past_blanks(t, h as int),
        decreases n - i,
    {
        assert(t[i as int] == lines@[i as int]@);
        i += 1;
    }
    proof {
        if i < n {
            assert(t[i as int] == lines@[i as int]@);
        }
    }
    i
}

/// Position `i`, moved back over the blank lines before it.
pub open spec fn before_blanks(lines: Seq<Seq<char>>, i: int) -> int {
    back_from(lines, i, |l: Seq<char>| !is_blank(l))
}

/// Position `i`, moved back over the blank lines before it.
pub fn back_blanks(lines: &Vec<String>, i: usize) -> (r: usize)
    requires
        i <= lines@.len(),
    ensures
        r == before_blanks(texts(lines@), i as int),
        r <= i,
{
    let ghost t = texts(lines@);
    let mut j: usize = i;
    while j > 0 && blank(lines[j - 1].as_str())
        invariant
            j <= i,
            i <= lines@.len(),
            t == texts(lines@),
            before_blanks(t, j as int) == before_blanks(t, i as int),
        decreases j,
    {
        assert(t[j - 1] == lines@[j - 1]@);
        j -= 1;
    }
    proof {
        if j > 0 {
            assert(t[j - 1] == lines@[j - 1]@);
        }
    }
    j
}

/// The end of Todo: before the first section, or before Later or Done if they come first,
/// without the blank lines at its end.
pub open spec fn top_end(lines: Seq<Seq<char>>) -> int {
    before_blanks(lines, next_stop(lines, 0))
}

/// The end of the section with its heading at line `h`, without the blank lines at its end.
pub open spec fn end_of_section(lines: Seq<Seq<char>>, h: int) -> int {
    before_blanks(lines, next_stop(lines, h + 1))
}

/// The kind of section that line `i` stands in: that of the last heading at or before it.
pub open spec fn kind_at(lines: Seq<Seq<char>>, i: int) -> SectionKind {
    let n = if i < lines.len() {
        i + 1
    } else {
        lines.len() as int
    };
    let p = back_from(lines, n, |l: Seq<char>| heading(l));
    if p == 0 {
        SectionKind::Todo
    } else {
        kind_of(heading_name(lines[p - 1]))
    }
}

/// The kind of section that line `i` stands in.
pub fn find_kind(lines: &Vec<String>, i: usize) -> (r: SectionKind)
    ensures
        r == kind_at(texts(lines@), i as int),
{
    let ghost t = texts(lines@);
    let n: usize = if i < lines.len() {
        i + 1
    } else {
        lines.len()
    };
    let mut p: usize = n;
    while p > 0 && !is_heading(lines[p - 1].as_str())
        invariant
            p <= n,
            n <= lines@.len(),
            t == texts(lines@),
            back_from(t, p as int, |l: Seq<char>| heading(l)) == back_from(
                t,
                n as int,
                |l: Seq<char>| heading(l),
            ),
        decreases p,
    {
        assert(t[p - 1] == lines@[p - 1]@);
        p -= 1;
    }
    if p == 0 {
        SectionKind::Todo
    } else {
        assert(t[p - 1] == lines@[p - 1]@);
        let name: String = name_in(lines[p - 1].as_str());
        section_kind(name.as_str())
    }
}

/// The heading line of a new section.
pub open spec fn new_heading(name: Seq<char>) -> Seq<char> {
    "## "@ + name
}

/// The lines with a new section's heading, and a blank line, before line `at`.
pub open spec fn with_section_at(
    lines: Seq<Seq<char>>,
    at: int,
    name: Seq<char>,
) -> Seq<Seq<char>> {
    lines.insert(at, new_heading(name)).insert(at + 1, Seq::empty())
}

/// The lines with a new section's heading at their end, between blank lines.
pub open spec fn with_section_last(lines: Seq<Seq<char>>, name: Seq<char>) -> Seq<Seq<char>> {
    lines.push(Seq::empty()).push(new_heading(name)).push(Seq::empty())
}

/// Where a section stands after it was looked for and, if missing, created: the lines
/// then, the line of its heading, and the line from which on lines were moved down by two.
pub struct Placed {
    pub lines: Seq<Seq<char>>,
    pub at: int,
    pub moved: int,
}

/// The section with this name, created if missing: Later before Done, any other at the end.
pub open spec fn ensured(lines: Seq<Seq<char>>, name: Seq<char>) -> Placed {
    if has_heading(lines, name) {
        Placed { lines, at: heading_index(lines, name), moved: lines.len() as int }
    } else if same_letters(name, "later"@) && has_heading(lines, "done"@) {
        let d = heading_index(lines, "done"@);
        Placed { lines: with_section_at(lines, d, name), at: d, moved: d }
    } else {
        Placed {
            lines: with_section_last(lines, name),
            at: lines.len() as int + 1,
            moved: lines.len() as int,
        }
    }
}

/// The line before which a new section of the user's is created: the first of the headings
/// of Later and Done, or else the end.
pub open spec fn custom_place(lines: Seq<Seq<char>>) -> int {
    if heading_index(lines, "later"@) <= heading_index(lines, "done"@) {
        heading_index(lines, "later"@)
    } else {
        heading_index(lines, "done"@)
    }
}

/// The section with this name. If missing it is created before Later and Done, or else at the
/// end.
pub open spec fn created(lines: Seq<Seq<char>>, name: Seq<char>) -> Placed {
    if has_heading(lines, name) {
        Placed { lines, at: heading_index(lines, name), moved: lines.len() as int }
    } else {
        let p = custom_place(lines);
        Placed { lines: with_section_at(lines, p, name), at: p, moved: p }
    }
}

/// Where the line that was at `i` stands after a section was placed.
pub open spec fn shifted(i: int, placed: Placed) -> int {
    if i >= placed.moved {
        i + 2
    } else {
        i
    }
}

/// Inserts a section's heading and a blank line before line `at`.
fn insert_section(lines: &mut Vec<String>, at: usize, name: &str)
    requires
        at <= old(lines)@.len(),
    ensures
        texts(final(lines)@) == with_section_at(texts(old(lines)@), at as int, name@),
{
    let title: String = cat("## ", name);
    put_line(lines, at, title);
    let n: usize = lines.len();
    assert(texts(lines@).len() == n);
    put_line(lines, at + 1, String::new());
}

/// The heading line of the section with this name, created if missing. Later is created
/// before Done; any other section goes at the end. The second number is the line from
/// which on lines were moved down by two.
pub fn ensure_heading(lines: &mut Vec<String>, name: &str) -> (r: (usize, usize))
    ensures
        ({
            let p = ensured(texts(old(lines)@), name@);
            &&& texts(final(lines)@) == p.lines
            &&& r.0 == p.at
            &&& r.1 == p.moved
            &&& r.0 < final(lines)@.len()
        }),
{
    let n: usize = lines.len();
    if let Some(h) = find_heading(lines, name) {
        return (h, n);
    }
    if eq_ignore_case(name, "later") {
        if let Some(d) = find_heading(lines, "done") {
            insert_section(lines, d, name);
            assert(texts(lines@).len() == n + 2);
            return (d, d);
        }
    }
    let title: String = cat("## ", name);
    push_line(lines, String::new());
    push_line(lines, title);
    push_line(lines, String::new());
    assert(texts(lines@).len() == n + 3);
    let len: usize = lines.len();
    (len - 2, n)
}

/// The heading line of a section of the user's. If missing it is created before the Later and
/// Done headings, or else at the end. The second number is the line from which on lines were
/// moved down by two.
pub fn create_heading(lines: &mut Vec<String>, name: &str) -> (r: (usize, usize))
    ensures
        ({
            let p = created(texts(old(lines)@), name@);
            &&& texts(final(lines)@) == p.lines
            &&& r.0 == p.at
            &&& r.1 == p.moved
            &&& r.0 < final(lines)@.len()
        }),
{
    let n: usize = lines.len();
    if let Some(h) = find_heading(lines, name) {
        return (h, n);
    }
    let later: usize = match find_heading(lines, "later") {
        Some(h) => h,
        None => n,
    };
    let done: usize = match find_heading(lines, "done") {
        Some(h) => h,
        None => n,
    };
    proof {
        lemma_first_from(texts(lines@), 0, |l: Seq<char>| heading_named(l, "done"@));
        lemma_first_from(texts(lines@), 0, |l: Seq<char>| heading_named(l, "later"@));
    }
    let at: usize = if later <= done {
        later
    } else {
        done
    };
    insert_section(lines, at, name);
    assert(texts(lines@).len() == n + 2);
    (at, at)
}

// ---------------------------------------------------------------------------------
// Moving blocks

/// The lines with the `len` lines from `start` on moved to stand before what was line
/// `dest`.
pub open spec fn moved(
    lines: Seq<Seq<char>>,
    start: int,
    len: int,
    dest: int,
) -> Seq<Seq<char>> {
    let rest = without(lines, start, start + len);
    let at = if dest > start {
        dest - len
    } else {
        dest
    };
    spliced(rest, at, lines.subrange(start, start + len))
}

/// Moves the `len` lines from `start` on to stand before what is now line `dest`.
pub fn move_lines(lines: &mut Vec<String>, start: usize, len: usize, dest: usize)
    requires
        start + len <= old(lines)@.len(),
        dest <= old(lines)@.len(),
        dest <= start || dest >= start + len,
    ensures
        texts(final(lines)@) == moved(texts(old(lines)@), start as int, len as int, dest as int),
{
    let n: usize = lines.len();
    assert(start + len <= n);
    let block: Vec<String> = cut_lines(lines, start, start + len);
    let at: usize = if dest > start {
        dest - len
    } else {
        dest
    };
    assert(texts(lines@).len() == n - len);
    put_lines(lines, at, block);
}

} // verus!
