//! The notes editor: taking the block under a task apart for editing and putting it back.
use crate::app::{
    as_position, item_under, lemma_item_under, remembered, App, NotesModel, NotesState, State,
};
use crate::bytes::{cut, cut_at, indent_bytes, leading_ws, splits_at};
use crate::lines::{cut_lines, push_line, put_lines, spliced, texts, without};
use crate::outline::{drop_blank_end, pop_blank_end, tidied, Item, ItemModel};
use crate::task::{behind_box, split_stamp, task_mark, text_behind, title_of};
use crate::text::{blank, cat, is_blank, repeat, same, slice, spaces};
use vstd::prelude::*;

verus! {

/// The least indentation, in bytes, of the lines from `from` up to `to` that are not blank.
pub open spec fn least_indent(lines: Seq<Seq<char>>, from: int, to: int) -> Option<int>
    decreases to - from,
{
    if to <= from {
        None
    } else {
        let l = lines[to - 1];
        let rest = least_indent(lines, from, to - 1);
        if is_blank(l) {
            rest
        } else {
            match rest {
                Some(n) => if n <= indent_bytes(l) {
                    Some(n)
                } else {
                    Some(indent_bytes(l) as int)
                },
                None => Some(indent_bytes(l) as int),
            }
        }
    }
}

/// The indentation of an item's block: the least of its lines', or two.
pub open spec fn block_indent(lines: Seq<Seq<char>>, it: ItemModel) -> int {
    match least_indent(lines, it.start + 1, it.start + it.len) {
        Some(n) => n,
        None => 2,
    }
}

/// How much of a line's indentation goes when `indent` bytes of it are taken away.
pub open spec fn cut_bytes(l: Seq<char>, indent: int) -> int {
    if indent <= indent_bytes(l) {
        indent
    } else {
        indent_bytes(l) as int
    }
}

/// A line without `indent` bytes of its indentation.
pub open spec fn dedented(l: Seq<char>, indent: int) -> Seq<char> {
    l.skip(cut_at(l, cut_bytes(l, indent)))
}

/// The lines from `from` up to `to` without `indent` bytes of their indentation.
pub open spec fn dedented_lines(
    lines: Seq<Seq<char>>,
    from: int,
    to: int,
    indent: int,
) -> Seq<Seq<char>> {
    Seq::new((to - from) as nat, |i: int| dedented(lines[from + i], indent))
}

/// What goes of a line when `indent` bytes of its indentation are taken away.
pub open spec fn margin_of(l: Seq<char>, indent: int) -> Seq<char> {
    l.take(cut_at(l, cut_bytes(l, indent)))
}

/// What goes of the lines from `from` up to `to` when `indent` bytes of their indentation
/// are taken away.
pub open spec fn margins(
    lines: Seq<Seq<char>>,
    from: int,
    to: int,
    indent: int,
) -> Seq<Seq<char>> {
    Seq::new((to - from) as nat, |i: int| margin_of(lines[from + i], indent))
}

/// Whether the indentation of an item's block can be taken away from each of its lines
/// without cutting a character in two.
pub open spec fn notes_fit(lines: Seq<Seq<char>>, it: ItemModel) -> bool {
    forall|i: int|
        it.start < i < it.start + it.len ==> splits_at(
            #[trigger] lines[i],
            cut_bytes(lines[i], block_indent(lines, it)),
        )
}

/// Whether the notes of the item under the cursor, if there is one, can be opened.
pub open spec fn notes_openable(s: State) -> bool {
    item_under(s) matches Some(it) ==> notes_fit(s.lines, it)
}

/// The block of an item, taken apart for editing.
pub open spec fn notes_of(lines: Seq<Seq<char>>, it: ItemModel) -> NotesModel {
    let indent = block_indent(lines, it);
    NotesModel {
        start: it.start,
        child_len: it.len - 1,
        indent,
        title: title_of(behind_box(lines[it.start])),
        text: dedented_lines(lines, it.start + 1, it.start + it.len, indent),
        margin: margins(lines, it.start + 1, it.start + it.len, indent),
    }
}

/// The state after the notes of the item under the cursor are opened.
pub open spec fn notes_opened(s: State) -> State {
    match item_under(s) {
        Some(it) => State { notes: Some(notes_of(s.lines, it)), ..s },
        None => s,
    }
}

/// How far, from `i` on, two texts have the same lines in the same places.
pub open spec fn common_front(a: Seq<Seq<char>>, b: Seq<Seq<char>>, i: int) -> int
    decreases a.len() - i,
{
    if i < a.len() && i < b.len() && a[i] == b[i] {
        common_front(a, b, i + 1)
    } else {
        i
    }
}

/// How many lines, from `k` on and up to `n`, two texts share counted from their ends.
pub open spec fn common_back(a: Seq<Seq<char>>, b: Seq<Seq<char>>, n: int, k: int) -> int
    decreases n - k,
{
    if k < n && a[a.len() - 1 - k] == b[b.len() - 1 - k] {
        common_back(a, b, n, k + 1)
    } else {
        k
    }
}

/// The number of lines before what was edited.
pub open spec fn kept_front(text: Seq<Seq<char>>, typed: Seq<Seq<char>>) -> int {
    common_front(text, typed, 0)
}

/// The number of lines behind what was edited.
pub open spec fn kept_back(text: Seq<Seq<char>>, typed: Seq<Seq<char>>) -> int {
    let least = if text.len() <= typed.len() {
        text.len()
    } else {
        typed.len()
    };
    common_back(text, typed, least - kept_front(text, typed), 0)
}

/// How many of the lines from `from` up to `to` read like this.
pub open spec fn alike(lines: Seq<Seq<char>>, l: Seq<char>, from: int, to: int) -> int
    decreases to - from,
{
    if to <= from {
        0
    } else if lines[to - 1] == l {
        alike(lines, l, from, to - 1) + 1
    } else {
        alike(lines, l, from, to - 1)
    }
}

/// The line from `from` up to `to` that reads like this and has `n` such lines before it
/// there; the number of lines if there is none.
pub open spec fn nth_alike(
    lines: Seq<Seq<char>>,
    l: Seq<char>,
    n: int,
    from: int,
    to: int,
) -> int
    decreases to - from,
{
    if to <= from {
        lines.len() as int
    } else if lines[from] != l {
        nth_alike(lines, l, n, from + 1, to)
    } else if n > 0 {
        nth_alike(lines, l, n - 1, from + 1, to)
    } else {
        from
    }
}

/// The line of the block that a typed line was: the one in its place before and behind what
/// was edited. In between, lines may have changed places: the first typed there that reads
/// like this was the first of the block there that does, the second the second. A line that
/// is left over is new; it is then the number of lines.
pub open spec fn source_of(text: Seq<Seq<char>>, typed: Seq<Seq<char>>, i: int) -> int {
    let front = kept_front(text, typed);
    let back = kept_back(text, typed);
    if i < front {
        i
    } else if i >= typed.len() - back {
        text.len() + i - typed.len()
    } else {
        nth_alike(text, typed[i], alike(typed, typed[i], front, i), front, text.len() - back)
    }
}

/// A typed line as it stands in the block: behind what was taken away from the line that it
/// was, or indented by spaces if it is new; a blank one becomes empty.
pub open spec fn indented_line(notes: NotesModel, typed: Seq<Seq<char>>, i: int) -> Seq<char> {
    let k = source_of(notes.text, typed, i);
    if is_blank(typed[i]) {
        Seq::empty()
    } else if 0 <= k < notes.margin.len() {
        notes.margin[k] + typed[i]
    } else {
        repeat(' ', notes.indent as nat) + typed[i]
    }
}

/// The typed lines as a block under a task.
pub open spec fn typed_block(notes: NotesModel, typed: Seq<Seq<char>>) -> Seq<Seq<char>> {
    drop_blank_end(Seq::new(typed.len(), |i: int| indented_line(notes, typed, i)))
}

/// The lines with the block under a task replaced.
pub open spec fn with_block(
    lines: Seq<Seq<char>>,
    notes: NotesModel,
    block: Seq<Seq<char>>,
) -> Seq<Seq<char>> {
    spliced(
        without(lines, notes.start + 1, notes.start + 1 + notes.child_len),
        notes.start + 1,
        block,
    )
}

/// The state after the notes are closed with what was typed.
pub open spec fn notes_closed(s: State, typed: Seq<Seq<char>>) -> State {
    match s.notes {
        None => s,
        Some(notes) => State {
            lines: tidied(with_block(s.lines, notes, typed_block(notes, typed))),
            notes: None,
            ..remembered(s)
        },
    }
}

/// Whether the open notes, if any, are those of lines that are there.
pub open spec fn notes_in_range(s: State) -> bool {
    s.notes matches Some(notes) ==> 0 <= notes.start && 0 <= notes.child_len && notes.start + 1
        + notes.child_len <= s.lines.len()
}

/// The number of lines before what was edited.
fn find_front(text: &Vec<String>, typed: &Vec<String>) -> (r: usize)
    ensures
        r == kept_front(texts(text@), texts(typed@)),
        r <= text@.len(),
        r <= typed@.len(),
{
    let ghost a = texts(text@);
    let ghost b = texts(typed@);
    let n: usize = text.len();
    let m: usize = typed.len();
    let mut i: usize = 0;
    while i < n && i < m && same(text[i].as_str(), typed[i].as_str())
        invariant
            i <= n,
            i <= m,
            n == text@.len(),
            m == typed@.len(),
            a == texts(text@),
            b == texts(typed@),
            common_front(a, b, i as int) == kept_front(a, b),
        decreases n - i,
    {
        assert(a[i as int] == text@[i as int]@);
        assert(b[i as int] == typed@[i as int]@);
        i += 1;
    }
    if i < n && i < m {
        assert(a[i as int] == text@[i as int]@);
        assert(b[i as int] == typed@[i as int]@);
    }
    i
}

/// The number of lines behind what was edited.
fn find_back(text: &Vec<String>, typed: &Vec<String>, front: usize) -> (r: usize)
    requires
        front == kept_front(texts(text@), texts(typed@)),
        front <= text@.len(),
        front <= typed@.len(),
    ensures
        r == kept_back(texts(text@), texts(typed@)),
        front + r <= text@.len(),
        front + r <= typed@.len(),
{
    let ghost a = texts(text@);
    let ghost b = texts(typed@);
    let n: usize = text.len();
    let m: usize = typed.len();
    let least: usize = if n <= m {
        n
    } else {
        m
    };
    let most: usize = least - front;
    let mut k: usize = 0;
    while k < most && same(text[n - 1 - k].as_str(), typed[m - 1 - k].as_str())
        invariant
            k <= most,
            most <= n,
            most <= m,
            n == text@.len(),
            m == typed@.len(),
            a == texts(text@),
            b == texts(typed@),
            common_back(a, b, most as int, k as int) == kept_back(a, b),
        decreases most - k,
    {
        assert(a[n - 1 - k] == text@[n - 1 - k]@);
        assert(b[m - 1 - k] == typed@[m - 1 - k]@);
        k += 1;
    }
    if k < most {
        assert(a[n - 1 - k] == text@[n - 1 - k]@);
        assert(b[m - 1 - k] == typed@[m - 1 - k]@);
    }
    k
}

/// The line of the block that a typed line was.
fn find_source(
    text: &Vec<String>,
    typed: &Vec<String>,
    front: usize,
    back: usize,
    i: usize,
) -> (r: usize)
    requires
        i < typed@.len(),
        front == kept_front(texts(text@), texts(typed@)),
        back == kept_back(texts(text@), texts(typed@)),
        front + back <= text@.len(),
        front + back <= typed@.len(),
    ensures
        r == source_of(texts(text@), texts(typed@), i as int),
{
    let n: usize = text.len();
    let m: usize = typed.len();
    if i < front {
        return i;
    }
    if i >= m - back {
        return n - (m - i);
    }
    let ghost a = texts(text@);
    let ghost b = texts(typed@);
    let line: &str = typed[i].as_str();
    assert(b[i as int] == line@);
    let mut before: usize = 0;
    for j in front..i
        invariant
            front <= i < m,
            m == typed@.len(),
            b == texts(typed@),
            before <= j - front,
            before == alike(b, line@, front as int, j as int),
    {
        assert(b[j as int] == typed@[j as int]@);
        if same(typed[j].as_str(), line) {
            before += 1;
        }
    }
    let end: usize = n - back;
    let mut k: usize = front;
    while k < end
        invariant
            front <= k <= end <= n,
            n == text@.len(),
            a == texts(text@),
            b == texts(typed@),
            nth_alike(a, line@, before as int, k as int, end as int) == source_of(a, b, i as int),
        decreases end - k,
    {
        assert(a[k as int] == text@[k as int]@);
        if same(text[k].as_str(), line) {
            if before == 0 {
                return k;
            }
            before -= 1;
        }
        k += 1;
    }
    n
}

fn cut_amount(line: &str, indent: usize) -> (r: usize)
    ensures
        r == cut_bytes(line@, indent as int),
{
    let ws: usize = leading_ws(line);
    if indent <= ws {
        indent
    } else {
        ws
    }
}

impl App {
    /// The indentation of an item's block.
    fn find_indent(&self, it: Item) -> (r: usize)
        requires
            0 < it.len,
            it.start + it.len <= self.lines@.len(),
        ensures
            r == block_indent(self@.lines, it@),
    {
        let n: usize = self.lines.len();
        let ghost t = self@.lines;
        assert(it.start + it.len <= n);
        let mut least: Option<usize> = None;
        for i in it.start + 1..it.start + it.len
            invariant
                it.start < i,
                it.start + it.len <= n,
                n == self.lines@.len(),
                t == texts(self.lines@),
                as_position(least) == least_indent(t, it.start + 1, i as int),
        {
            assert(t[i as int] == self.lines@[i as int]@);
            let line: &str = self.lines[i].as_str();
            if !blank(line) {
                let ws: usize = leading_ws(line);
                least = match least {
                    Some(k) => if k <= ws {
                        Some(k)
                    } else {
                        Some(ws)
                    },
                    None => Some(ws),
                };
            }
        }
        match least {
            Some(k) => k,
            None => 2,
        }
    }

    /// Whether the notes of the item under the cursor, if there is one, can be opened: its
    /// indentation can be taken away without cutting a character in two.
    pub fn can_open_notes(&self) -> (r: bool)
        ensures
            r == notes_openable(self@),
    {
        let it: Item = match self.current_item() {
            Some(it) => it,
            None => return true,
        };
        proof {
            lemma_item_under(self@);
        }
        let indent: usize = self.find_indent(it);
        let n: usize = self.lines.len();
        let ghost t = self@.lines;
        assert(it.start + it.len <= n);
        for i in it.start + 1..it.start + it.len
            invariant
                it.start < i,
                it.start + it.len <= n,
                n == self.lines@.len(),
                t == texts(self.lines@),
                t == self@.lines,
                item_under(self@) == Some(it@),
                indent == block_indent(t, it@),
                forall|j: int|
                    it.start < j < i ==> splits_at(
                        #[trigger] t[j],
                        cut_bytes(t[j], block_indent(t, it@)),
                    ),
        {
            assert(t[i as int] == self.lines@[i as int]@);
            let line: &str = self.lines[i].as_str();
            let amount: usize = cut_amount(line, indent);
            if cut(line, amount).1 != amount {
                assert(!splits_at(t[i as int], cut_bytes(t[i as int], block_indent(t, it@))));
                return false;
            }
        }
        true
    }

    /// Opens the notes of the item under the cursor.
    pub fn open_notes(&mut self)
        requires
            notes_openable(old(self)@),
        ensures
            final(self)@ == notes_opened(old(self)@),
    {
        let it: Item = match self.current_item() {
            Some(it) => it,
            None => return,
        };
        let ghost s = self@;
        let ghost t = s.lines;
        proof {
            lemma_item_under(s);
        }
        let indent: usize = self.find_indent(it);
        let n: usize = self.lines.len();
        assert(it.start + it.len <= n);
        let mut text: Vec<String> = Vec::new();
        let mut margin: Vec<String> = Vec::new();
        let ghost want = dedented_lines(t, it.start + 1, it.start + it.len, indent as int);
        let ghost gone = margins(t, it.start + 1, it.start + it.len, indent as int);
        assert(texts(text@) =~= want.take(0));
        assert(texts(margin@) =~= gone.take(0));
        for i in it.start + 1..it.start + it.len
            invariant
                it.start < i,
                it.start + it.len <= n,
                n == self.lines@.len(),
                t == texts(self.lines@),
                want == dedented_lines(t, it.start + 1, it.start + it.len, indent as int),
                gone == margins(t, it.start + 1, it.start + it.len, indent as int),
                texts(text@) == want.take(i - it.start - 1),
                texts(margin@) == gone.take(i - it.start - 1),
        {
            assert(t[i as int] == self.lines@[i as int]@);
            let ghost seen = texts(text@);
            let ghost taken = texts(margin@);
            let line: &str = self.lines[i].as_str();
            let amount: usize = cut_amount(line, indent);
            let k: usize = cut(line, amount).0;
            let len: usize = line.unicode_len();
            let rest: String = slice(line, k, len);
            assert(rest@ =~= dedented(t[i as int], indent as int));
            assert(want[i - it.start - 1] == rest@);
            push_line(&mut text, rest);
            assert(want.take(i - it.start) =~= seen.push(want[i - it.start - 1]));
            let front: String = slice(line, 0, k);
            assert(front@ =~= margin_of(t[i as int], indent as int));
            assert(gone[i - it.start - 1] == front@);
            push_line(&mut margin, front);
            assert(gone.take(i - it.start) =~= taken.push(gone[i - it.start - 1]));
        }
        assert(want.take(it.len - 1) =~= want);
        assert(gone.take(it.len - 1) =~= gone);
        assert(t[it.start as int] == self.lines@[it.start as int]@);
        let mut title: String = String::new();
        if let Some((_, at)) = task_mark(self.lines[it.start].as_str()) {
            let behind: String = text_behind(self.lines[it.start].as_str(), at);
            title = split_stamp(behind.as_str()).0;
        }
        self.notes = Some(
            NotesState { start: it.start, child_len: it.len - 1, indent, title, text, margin },
        );
    }

    /// Closes the notes with the lines that were typed. Says whether the file is to be
    /// written.
    pub fn close_notes(&mut self, typed: &Vec<String>) -> (r: bool)
        requires
            notes_in_range(old(self)@),
        ensures
            final(self)@ == notes_closed(old(self)@, texts(typed@)),
            r == (old(self)@.notes is Some),
    {
        let ghost s = self@;
        let notes: NotesState = match self.notes.take() {
            Some(notes) => notes,
            None => return false,
        };
        self.checkpoint();
        let start: usize = notes.start;
        let child_len: usize = notes.child_len;
        let pad: String = spaces(notes.indent);
        let front: usize = find_front(&notes.text, typed);
        let back: usize = find_back(&notes.text, typed, front);
        let mut block: Vec<String> = Vec::new();
        let n: usize = typed.len();
        let ghost y = texts(typed@);
        let ghost want = Seq::new(y.len(), |i: int| indented_line(notes@, y, i));
        assert(texts(block@) =~= want.take(0));
        for i in 0..n
            invariant
                n == typed@.len(),
                y == texts(typed@),
                pad@ == repeat(' ', notes.indent as nat),
                front == kept_front(texts(notes.text@), y),
                back == kept_back(texts(notes.text@), y),
                front + back <= notes.text@.len(),
                front + back <= n,
                want == Seq::new(y.len(), |i: int| indented_line(notes@, y, i)),
                texts(block@) == want.take(i as int),
        {
            assert(y[i as int] == typed@[i as int]@);
            let ghost seen = texts(block@);
            let line: &str = typed[i].as_str();
            let k: usize = find_source(&notes.text, typed, front, back, i);
            if blank(line) {
                push_line(&mut block, String::new());
            } else if k < notes.margin.len() {
                assert(texts(notes.margin@)[k as int] == notes.margin@[k as int]@);
                push_line(&mut block, cat(notes.margin[k].as_str(), line));
            } else {
                push_line(&mut block, cat(pad.as_str(), line));
            }
            assert(texts(block@) =~= seen.push(want[i as int]));
            assert(want.take(i + 1) =~= seen.push(want[i as int]));
        }
        assert(want.take(n as int) =~= want);
        pop_blank_end(&mut block);
        let len: usize = self.lines.len();
        assert(start + 1 + child_len <= len);
        let _ = cut_lines(&mut self.lines, start + 1, start + 1 + child_len);
        assert(texts(self.lines@).len() == len - child_len);
        put_lines(&mut self.lines, start + 1, block);
        self.tidy();
        true
    }
}

} // verus!
