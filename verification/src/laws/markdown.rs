//! What lines mean, told from how they are spelled: which lines are tasks, what headings are
//! called, where a completion stamp stands, and which lines belong to a task.
use crate::outline::{block_end, lemma_block_end, under};
use crate::search::{
    first_from, lemma_back_from, lemma_back_from_is, lemma_first_from, lemma_first_from_is,
};
use crate::task::{
    behind_box, completed, ends_todo, heading, heading_name, heading_named, is_done, is_task,
    is_top, kind_of, level_two, reopened, retitled, section, stamp_of, title_of, unstamped,
    with_mark, SectionKind,
};
use crate::text::{
    find, is_blank, is_space, lead, lemma_find_from, lower, occurs_at, repeat, same_letters, trim,
    trim_end,
};
use vstd::prelude::*;

verus! {

// ---------------------------------------------------------------------------------
// Trimming

/// Whether a text has characters, and neither its first nor its last is whitespace.
pub open spec fn bare(m: Seq<char>) -> bool {
    m.len() > 0 && !is_space(m[0]) && !is_space(m[m.len() - 1])
}

/// Trimming takes the whitespace off the two ends of a text, and nothing else.
pub proof fn law_trim(a: Seq<char>, m: Seq<char>, b: Seq<char>)
    requires
        is_blank(a),
        is_blank(b),
        m.len() == 0 || bare(m),
    ensures
        trim(a + m + b) == m,
        trim_end(m + b) == m,
        m.len() > 0 ==> trim_end(a + m + b) == a + m,
        is_blank(a + m + b) == (m.len() == 0),
{
    let s = a + m + b;
    let p = |c: char| !is_space(c);
    let n = a.len() as int;
    let k = n + m.len();
    assert forall|i: int| 0 <= i < n implies !p(#[trigger] s[i]) by {
        assert(s[i] == a[i]);
    }
    assert forall|i: int| k <= i < s.len() implies !p(#[trigger] s[i]) by {
        assert(s[i] == b[i - k]);
    }
    let t = m + b;
    assert forall|i: int| m.len() <= i < t.len() implies !p(#[trigger] t[i]) by {
        assert(t[i] == b[i - m.len()]);
    }
    if m.len() > 0 {
        assert(s[n] == m[0]);
        assert(s[k - 1] == m[m.len() - 1]);
        assert(t[m.len() - 1] == m[m.len() - 1]);
        lemma_first_from_is(s, 0, p, n);
        lemma_back_from_is(s, s.len() as int, p, k);
        lemma_back_from_is(t, t.len() as int, p, m.len() as int);
        assert(s.subrange(n, k) =~= m);
        assert(s.take(k) =~= a + m);
        assert(t.take(m.len() as int) =~= m);
        assert(!is_blank(s)) by {
            assert(!is_space(s[n]));
        }
    } else {
        assert forall|i: int| 0 <= i < s.len() implies !p(#[trigger] s[i]) by {
            if i >= n {
                assert(s[i] == b[i - n]);
            }
        }
        assert forall|i: int| 0 <= i < s.len() implies is_space(#[trigger] s[i]) by {
            assert(!p(s[i]));
        }
        lemma_first_from_is(s, 0, p, s.len() as int);
        lemma_back_from_is(s, s.len() as int, p, 0);
        lemma_back_from_is(t, t.len() as int, p, 0);
        assert(trim(s) =~= m);
        assert(t.take(0) =~= m);
    }
}

// ---------------------------------------------------------------------------------
// Tasks

/// A line made of indentation, a bullet, a box with a mark in it, and a text.
pub open spec fn boxed(indent: Seq<char>, bullet: char, mark: char, text: Seq<char>) -> Seq<char> {
    indent + seq![bullet, ' ', '[', mark, ']'] + text
}

/// Whether a line with this indentation, bullet and mark is a task.
pub open spec fn spells_task(indent: Seq<char>, bullet: char, mark: char) -> bool {
    &&& forall|i: int| 0 <= i < indent.len() ==> is_space(#[trigger] indent[i])
    &&& bullet == '-' || bullet == '*'
    &&& mark == ' ' || mark == 'x' || mark == 'X'
}

proof fn lemma_boxed(indent: Seq<char>, bullet: char, mark: char, text: Seq<char>)
    requires
        spells_task(indent, bullet, mark),
    ensures
        ({
            let l = boxed(indent, bullet, mark, text);
            let k = indent.len() as int;
            &&& lead(l) == k
            &&& l.len() == k + 5 + text.len()
            &&& l[k] == bullet && l[k + 1] == ' ' && l[k + 2] == '[' && l[k + 3] == mark && l[k
                + 4] == ']'
            &&& l.skip(k + 5) == text
            &&& l.take(k + 5) == indent + seq![bullet, ' ', '[', mark, ']']
        }),
{
    let l = boxed(indent, bullet, mark, text);
    let k = indent.len() as int;
    let p = |c: char| !is_space(c);
    assert forall|i: int| 0 <= i < k implies !p(#[trigger] l[i]) by {
        assert(l[i] == indent[i]);
    }
    assert(l[k] == bullet);
    lemma_first_from_is(l, 0, p, k);
    assert(l.skip(k + 5) =~= text);
    assert(l.take(k + 5) =~= indent + seq![bullet, ' ', '[', mark, ']']);
}

/// A line of indentation, a bullet, a box and a text is a task, done if its box is checked,
/// and top-level if it is not indented; the text is what stands behind the box.
pub proof fn law_task_from_spelling(
    indent: Seq<char>,
    bullet: char,
    mark: char,
    text: Seq<char>,
    done: bool,
)
    requires
        spells_task(indent, bullet, mark),
    ensures
        ({
            let l = boxed(indent, bullet, mark, text);
            &&& is_task(l)
            &&& is_done(l) == (mark != ' ')
            &&& is_top(l) == (indent.len() == 0)
            &&& behind_box(l) == text
            &&& !heading(l)
            &&& with_mark(l, done) == boxed(
                indent,
                bullet,
                if done {
                    'x'
                } else {
                    ' '
                },
                text,
            )
        }),
{
    lemma_boxed(indent, bullet, mark, text);
    let l = boxed(indent, bullet, mark, text);
    if indent.len() > 0 {
        assert(l[0] == indent[0]);
        assert(is_space(indent[0]));
    }
    let m = if done {
        'x'
    } else {
        ' '
    };
    assert(with_mark(l, done) =~= boxed(indent, bullet, m, text));
}

/// Every task is such a line.
pub proof fn law_spelling_of_task(l: Seq<char>)
    requires
        is_task(l),
    ensures
        exists|indent: Seq<char>, bullet: char, mark: char, text: Seq<char>|
            spells_task(indent, bullet, mark) && l == #[trigger] boxed(indent, bullet, mark, text),
{
    let k = lead(l);
    let p = |c: char| !is_space(c);
    lemma_first_from(l, 0, p);
    let indent = l.take(k);
    assert forall|i: int| 0 <= i < indent.len() implies is_space(#[trigger] indent[i]) by {
        assert(!p(l[i]));
    }
    assert(spells_task(indent, l[k], l[k + 3]));
    assert(l =~= boxed(indent, l[k], l[k + 3], l.skip(k + 5)));
}

// ---------------------------------------------------------------------------------
// Stamps

/// Whether `text` opens its first stamp right behind `a`.
pub open spec fn opens_behind(text: Seq<char>, a: Seq<char>) -> bool {
    &&& a.len() + 6 <= text.len()
    &&& text.take(a.len() as int) == a
    &&& text.subrange(a.len() as int, a.len() as int + 6) == "@done("@
    &&& forall|j: int|
        0 <= j < a.len() ==> #[trigger] text.subrange(j, j + 6) != "@done("@
}

proof fn lemma_opens(text: Seq<char>, a: Seq<char>)
    requires
        opens_behind(text, a),
    ensures
        find(text, "@done("@) == Some(a.len() as int),
{
    reveal_strlit("@done(");
    let pat = "@done("@;
    lemma_find_from(text, pat, 0);
    assert(occurs_at(text, pat, a.len() as int));
    if let Some(p) = find(text, pat) {
        if p < a.len() {
            assert(text.subrange(p, p + 6) == pat);
        } else if p > a.len() {
            assert(!occurs_at(text, pat, a.len() as int));
        }
    }
}

/// The stamp of a text is what stands between its first `@done(` and the closing bracket
/// that comes next; the title is the rest, trimmed.
pub proof fn law_stamp_in_text(a: Seq<char>, x: Seq<char>, b: Seq<char>)
    requires
        opens_behind(a + "@done("@ + x + ")"@ + b, a),
        forall|i: int| 0 <= i < x.len() ==> #[trigger] x[i] != ')',
    ensures
        ({
            let text = a + "@done("@ + x + ")"@ + b;
            &&& stamp_of(text) == Some(x)
            &&& unstamped(text) == a + b
            &&& title_of(text) == trim(a + b)
        }),
{
    reveal_strlit("@done(");
    reveal_strlit(")");
    let text = a + "@done("@ + x + ")"@ + b;
    let p = a.len() as int;
    let e = p + 6 + x.len();
    lemma_opens(text, a);
    let q = |c: char| c == ')';
    assert forall|i: int| p <= i < e implies !q(#[trigger] text[i]) by {
        if i < p + 6 {
            assert(text[i] == "@done("@[i - p]);
        } else {
            assert(text[i] == x[i - p - 6]);
        }
    }
    assert(text[e] == ')');
    lemma_first_from_is(text, p, q, e);
    assert(text.subrange(p + 6, e) =~= x);
    assert(text.take(p) + text.skip(e + 1) =~= a + b);
}

/// A text in which no stamp is opened has none, and neither has one whose first stamp is not
/// closed.
pub proof fn law_no_stamp_in_text(text: Seq<char>, a: Seq<char>)
    requires
        (forall|j: int|
            0 <= j && j + 6 <= text.len() ==> #[trigger] text.subrange(j, j + 6) != "@done("@) || (
        opens_behind(text, a) && forall|i: int|
            a.len() + 6 <= i < text.len() ==> #[trigger] text[i] != ')'),
    ensures
        stamp_of(text) is None,
        unstamped(text) == text,
        title_of(text) == trim(text),
{
    reveal_strlit("@done(");
    lemma_find_from(text, "@done("@, 0);
    if opens_behind(text, a) && forall|i: int|
        a.len() + 6 <= i < text.len() ==> #[trigger] text[i] != ')' {
        lemma_opens(text, a);
        let q = |c: char| c == ')';
        let p = a.len() as int;
        assert forall|i: int| p <= i < text.len() implies !q(#[trigger] text[i]) by {
            if i < p + 6 {
                assert(text[i] == text.subrange(p, p + 6)[i - p]);
            }
        }
        lemma_first_from_is(text, p, q, text.len() as int);
    } else if let Some(p) = find(text, "@done("@) {
        assert(occurs_at(text, "@done("@, p));
        assert(text.subrange(p, p + 6) == "@done("@);
    }
}

/// Completing a task checks its box and adds a stamp behind its text, and leaves the rest.
pub proof fn law_completed_line(
    indent: Seq<char>,
    bullet: char,
    mark: char,
    text: Seq<char>,
    stamp: Seq<char>,
)
    requires
        spells_task(indent, bullet, mark),
    ensures
        completed(boxed(indent, bullet, mark, text), stamp) == boxed(
            indent,
            bullet,
            'x',
            text + " @done("@ + stamp + ")"@,
        ),
{
    law_task_from_spelling(indent, bullet, mark, text, true);
    assert(completed(boxed(indent, bullet, mark, text), stamp) =~= boxed(
        indent,
        bullet,
        'x',
        text + " @done("@ + stamp + ")"@,
    ));
}

/// A task's box holds no stamp, so that the line's first stamp is its text's.
proof fn lemma_line_opens(
    indent: Seq<char>,
    bullet: char,
    mark: char,
    text: Seq<char>,
    a: Seq<char>,
)
    requires
        spells_task(indent, bullet, mark),
        opens_behind(text, a),
    ensures
        opens_behind(boxed(indent, bullet, mark, text), boxed(indent, bullet, mark, a)),
{
    reveal_strlit("@done(");
    lemma_boxed(indent, bullet, mark, text);
    let l = boxed(indent, bullet, mark, text);
    let h = boxed(indent, bullet, mark, a);
    let k = indent.len() as int + 5;
    assert(h.len() == k + a.len());
    assert(l.take(h.len() as int) =~= h) by {
        assert forall|i: int| 0 <= i < h.len() implies l[i] == h[i] by {
            if i >= k {
                assert(l[i] == text[i - k]);
                assert(text.take(a.len() as int)[i - k] == text[i - k]);
                assert(h[i] == a[i - k]);
            }
        }
    }
    assert(l.subrange(h.len() as int, h.len() as int + 6) =~= text.subrange(
        a.len() as int,
        a.len() as int + 6,
    ));
    assert forall|j: int| 0 <= j < h.len() implies #[trigger] l.subrange(j, j + 6)
        != "@done("@ by {
        if j >= k {
            assert(l.subrange(j, j + 6) =~= text.subrange(j - k, j - k + 6));
        } else {
            assert(l.subrange(j, j + 6)[0] == l[j]);
            if j < indent.len() {
                assert(l[j] == indent[j]);
            }
        }
    }
}

/// Opening a done task clears its box and takes its stamp away, with the whitespace that is
/// then at the line's end, and leaves the rest.
pub proof fn law_reopened_line(
    indent: Seq<char>,
    bullet: char,
    mark: char,
    a: Seq<char>,
    x: Seq<char>,
    b: Seq<char>,
)
    requires
        spells_task(indent, bullet, mark),
        opens_behind(a + "@done("@ + x + ")"@ + b, a),
        forall|i: int| 0 <= i < x.len() ==> #[trigger] x[i] != ')',
    ensures
        reopened(boxed(indent, bullet, mark, a + "@done("@ + x + ")"@ + b)) == trim_end(
            boxed(indent, bullet, ' ', a + b),
        ),
{
    let text = a + "@done("@ + x + ")"@ + b;
    let l = boxed(indent, bullet, mark, text);
    let h = boxed(indent, bullet, ' ', a);
    law_task_from_spelling(indent, bullet, mark, text, false);
    lemma_line_opens(indent, bullet, ' ', text, a);
    assert(boxed(indent, bullet, ' ', text) =~= h + "@done("@ + x + ")"@ + b);
    law_stamp_in_text(h, x, b);
    assert(h + b =~= boxed(indent, bullet, ' ', a + b));
}

/// Opening a done task without a stamp clears its box, and takes the whitespace off the
/// line's end.
pub proof fn law_reopened_line_without_stamp(
    indent: Seq<char>,
    bullet: char,
    mark: char,
    text: Seq<char>,
)
    requires
        spells_task(indent, bullet, mark),
        forall|j: int|
            0 <= j && j + 6 <= text.len() ==> #[trigger] text.subrange(j, j + 6) != "@done("@,
    ensures
        reopened(boxed(indent, bullet, mark, text)) == trim_end(boxed(indent, bullet, ' ', text)),
{
    reveal_strlit("@done(");
    law_task_from_spelling(indent, bullet, mark, text, false);
    lemma_boxed(indent, bullet, ' ', text);
    let l = boxed(indent, bullet, ' ', text);
    let k = indent.len() as int + 5;
    assert forall|j: int| 0 <= j && j + 6 <= l.len() implies #[trigger] l.subrange(j, j + 6)
        != "@done("@ by {
        if j >= k {
            assert(l.subrange(j, j + 6) =~= text.subrange(j - k, j - k + 6));
        } else {
            assert(l.subrange(j, j + 6)[0] == l[j]);
            if j < indent.len() {
                assert(l[j] == indent[j]);
            }
        }
    }
    law_no_stamp_in_text(l, Seq::empty());
}

/// Another title takes the place of all that stands behind the box, but for the stamp.
pub proof fn law_retitled_line(
    indent: Seq<char>,
    bullet: char,
    mark: char,
    text: Seq<char>,
    title: Seq<char>,
)
    requires
        spells_task(indent, bullet, mark),
    ensures
        retitled(boxed(indent, bullet, mark, text), title) == boxed(
            indent,
            bullet,
            mark,
            " "@ + title + (match stamp_of(text) {
                Some(stamp) => " @done("@ + stamp + ")"@,
                None => Seq::empty(),
            }),
        ),
{
    law_task_from_spelling(indent, bullet, mark, text, true);
    lemma_boxed(indent, bullet, mark, text);
    let l = boxed(indent, bullet, mark, text);
    let behind = " "@ + title + (match stamp_of(text) {
        Some(stamp) => " @done("@ + stamp + ")"@,
        None => Seq::empty(),
    });
    assert(retitled(l, title) =~= boxed(indent, bullet, mark, behind));
}

// ---------------------------------------------------------------------------------
// Headings

/// Whether a text is spelled like another, each letter small or capital.
pub open spec fn spelled(s: Seq<char>, small: Seq<char>, capital: Seq<char>) -> bool {
    &&& s.len() == small.len()
    &&& forall|i: int| 0 <= i < s.len() ==> #[trigger] s[i] == small[i] || s[i] == capital[i]
}

proof fn lemma_letter(c: char, small: char, capital: char)
    requires
        'a' <= small && small <= 'z',
        small as int == capital as int + 32,
    ensures
        (lower(c) == lower(small)) == (c == small || c == capital),
{
    assert(lower(small) == small);
    if 'A' <= c && c <= 'Z' {
        assert(lower(c) as int == c as int + 32);
        assert(lower(c) == small ==> c as int == capital as int);
        assert(c == capital ==> lower(c) as int == small as int);
    }
}

proof fn lemma_spelled(s: Seq<char>, small: Seq<char>, capital: Seq<char>)
    requires
        small.len() == capital.len(),
        forall|i: int|
            0 <= i < small.len() ==> 'a' <= #[trigger] small[i] && small[i] <= 'z'
                && small[i] as int == capital[i] as int + 32,
    ensures
        spelled(s, small, capital) == same_letters(s, small),
{
    if same_letters(s, small) {
        assert forall|i: int| 0 <= i < s.len() implies #[trigger] s[i] == small[i] || s[i]
            == capital[i] by {
            lemma_letter(s[i], small[i], capital[i]);
            assert(lower(s[i]) == lower(small[i]));
        }
    }
    if spelled(s, small, capital) {
        assert forall|i: int| 0 <= i < s.len() implies lower(#[trigger] s[i]) == lower(
            small[i],
        ) by {
            lemma_letter(s[i], small[i], capital[i]);
        }
    }
}

/// Later and Done are known by their names, however the letters' case; any other name is one
/// of Todo's.
pub proof fn law_special_names(name: Seq<char>)
    ensures
        (kind_of(name) == SectionKind::Later) == spelled(name, "later"@, "LATER"@),
        (kind_of(name) == SectionKind::Done) == spelled(name, "done"@, "DONE"@),
{
    reveal_strlit("later");
    reveal_strlit("LATER");
    reveal_strlit("done");
    reveal_strlit("DONE");
    lemma_spelled(name, "later"@, "LATER"@);
    lemma_spelled(name, "done"@, "DONE"@);
}

/// A line is a heading exactly if it starts with a hash.
pub proof fn law_heading_starts_with_hash(c: char, rest: Seq<char>)
    ensures
        heading(seq![c] + rest) == (c == '#'),
        section(seq![c] + rest) == (c == '#' && rest.len() > 0 && rest[0] == '#'),
        !heading(Seq::empty()),
{
    let l = seq![c] + rest;
    assert(l[0] == c);
    if rest.len() > 0 {
        assert(l[1] == rest[0]);
    }
}

/// A heading has the name that stands behind its hashes, trimmed. Two hashes or more make it
/// a section's. Todo ends at a section, and at Later or Done of any level.
pub proof fn law_heading_from_spelling(n: nat, a: Seq<char>, name: Seq<char>, b: Seq<char>)
    requires
        n > 0,
        is_blank(a),
        is_blank(b),
        name.len() == 0 || bare(name),
        a.len() == 0 && name.len() > 0 ==> name[0] != '#',
    ensures
        ({
            let l = repeat('#', n) + a + name + b;
            let special = spelled(name, "later"@, "LATER"@) || spelled(name, "done"@, "DONE"@);
            &&& heading(l)
            &&& heading_name(l) == name
            &&& section(l) == (n >= 2)
            &&& level_two(l) == (n == 2)
            &&& ends_todo(l) == (n >= 2 || special)
            &&& forall|x: Seq<char>| #[trigger] heading_named(l, x) == same_letters(name, x)
            &&& heading_named(l, "later"@) == spelled(name, "later"@, "LATER"@)
            &&& heading_named(l, "done"@) == spelled(name, "done"@, "DONE"@)
        }),
{
    let h = repeat('#', n);
    let l = h + a + name + b;
    let p = |c: char| c != '#';
    assert forall|i: int| 0 <= i < n implies !p(#[trigger] l[i]) by {
        assert(l[i] == h[i]);
    }
    if n < l.len() {
        let c = l[n as int];
        if a.len() > 0 {
            assert(c == a[0]);
            assert(is_space(a[0]));
        } else if name.len() > 0 {
            assert(c == name[0]);
        } else {
            assert(c == b[0]);
            assert(is_space(b[0]));
        }
        assert(c != '#');
    }
    lemma_first_from_is(l, 0, p, n as int);
    assert(l.skip(n as int) =~= a + name + b);
    law_trim(a, name, b);
    law_special_names(name);
    reveal_strlit("later");
    reveal_strlit("LATER");
    reveal_strlit("done");
    reveal_strlit("DONE");
    lemma_spelled(name, "later"@, "LATER"@);
    lemma_spelled(name, "done"@, "DONE"@);
    assert(l[0] == h[0]);
    if n >= 2 {
        assert(l[1] == h[1]);
    } else if l.len() > 1 {
        assert(p(l[1]));
    }
    if n >= 3 {
        assert(l[2] == h[2]);
    } else if n == 2 && l.len() > 2 {
        assert(p(l[2]));
    }
}

// ---------------------------------------------------------------------------------
// Blocks

/// Whether the lines from `i` up to `e` are a task and all that belongs to it: behind it
/// stand blank and indented lines only, the last is not blank, and the next that is not blank
/// is not indented.
pub open spec fn whole_block(lines: Seq<Seq<char>>, i: int, e: int) -> bool {
    &&& 0 <= i < e <= lines.len()
    &&& !is_blank(lines[e - 1])
    &&& forall|j: int| i < j < e ==> is_blank(#[trigger] lines[j]) || is_space(lines[j][0])
    &&& forall|k: int|
        e <= k < lines.len() && !is_blank(#[trigger] lines[k]) && (forall|j: int|
            e <= j < k ==> is_blank(#[trigger] lines[j])) ==> !is_space(lines[k][0])
}

/// The block of a top-level task takes in all the indented lines that follow, with the blank
/// ones between them, and no others.
pub proof fn law_block_is_whole(lines: Seq<Seq<char>>, i: int)
    requires
        0 <= i < lines.len(),
        is_top(lines[i]),
    ensures
        whole_block(lines, i, block_end(lines, i)),
{
    lemma_block_end(lines, i);
    let e = block_end(lines, i);
    let q = |l: Seq<char>| !under(l);
    let p = |l: Seq<char>| !is_blank(l);
    lemma_first_from(lines, i + 1, q);
    let run = first_from(lines, i + 1, q);
    lemma_back_from(lines, run, p);
    assert forall|j: int| i < j < e implies is_blank(#[trigger] lines[j]) || is_space(
        lines[j][0],
    ) by {
        assert(under(lines[j]));
    }
    assert forall|k: int|
        e <= k < lines.len() && !is_blank(#[trigger] lines[k]) && (forall|j: int|
            e <= j < k ==> is_blank(#[trigger] lines[j])) implies !is_space(lines[k][0]) by {
        if k < run {
            assert(!p(lines[k]));
        } else if k > run {
            assert(q(lines[run]));
            assert(is_blank(lines[run]));
        } else {
            assert(q(lines[run]));
        }
    }
}

/// There is only one such block.
pub proof fn law_block_is_unique(lines: Seq<Seq<char>>, i: int, d: int, e: int)
    requires
        whole_block(lines, i, d),
        whole_block(lines, i, e),
    ensures
        d == e,
{
    lemma_block_not_longer(lines, i, d, e);
    lemma_block_not_longer(lines, i, e, d);
}

proof fn lemma_block_not_longer(lines: Seq<Seq<char>>, i: int, d: int, e: int)
    requires
        whole_block(lines, i, d),
        whole_block(lines, i, e),
    ensures
        e <= d,
{
    if d < e {
        let p = |l: Seq<char>| !is_blank(l);
        lemma_first_from(lines, d, p);
        let k = first_from(lines, d, p);
        assert(k <= e - 1) by {
            if k > e - 1 {
                assert(!p(lines[e - 1]));
            }
        }
        assert(p(lines[k]));
        assert forall|j: int| d <= j < k implies is_blank(#[trigger] lines[j]) by {
            assert(!p(lines[j]));
        }
        assert(is_blank(lines[k]) || is_space(lines[k][0]));
    }
}

} // verus!
