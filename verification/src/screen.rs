//! What is shown: the pieces of each row, the selected row, titles, the footer, the popups.
use crate::app::{as_position, App, InputKind, State};
use crate::clock::{fmt_stamp, shown};
use crate::outline::{item_models, items, items_of, Item, ItemModel};
use crate::rows::{row_models, Row, RowModel};
use crate::task::{heading, is_heading, is_task, task_mark};
use crate::text::{cat, decimal, repeat, spaces, to_decimal};
use vstd::prelude::*;

verus! {

/// How a piece of text is shown.
#[derive(Clone, Copy, PartialEq, Eq, Debug, Structural)]
pub enum Tone {
    Plain,
    Gray,
    Struck,
    Faint,
    Green,
    Cyan,
    CyanBold,
}

/// A piece of a row.
pub struct Piece {
    pub text: String,
    pub tone: Tone,
}

/// What a `Piece` says.
#[verifier::ext_equal]
pub struct PieceModel {
    pub text: Seq<char>,
    pub tone: Tone,
}

impl View for Piece {
    type V = PieceModel;

    open spec fn view(&self) -> PieceModel {
        PieceModel { text: self.text@, tone: self.tone }
    }
}

/// What a list of pieces says.
pub open spec fn piece_models(pieces: Seq<Piece>) -> Seq<PieceModel> {
    Seq::new(pieces.len(), |i: int| pieces[i]@)
}

/// A piece with this text.
pub open spec fn piece(text: Seq<char>, tone: Tone) -> PieceModel {
    PieceModel { text, tone }
}

/// A number of done tasks out of a total.
pub open spec fn tally(done: int, total: int) -> Seq<char> {
    "  "@ + decimal(done as nat) + "/"@ + decimal(total as nat)
}

/// The check box and the text of a task.
pub open spec fn box_pieces(text: Seq<char>, done: bool) -> Seq<PieceModel> {
    if done {
        seq![piece("[x] "@, Tone::Gray), piece(text, Tone::Struck)]
    } else {
        seq![piece("[ ] "@, Tone::Green), piece(text, Tone::Plain)]
    }
}

/// The number of done subtasks, where there are subtasks.
pub open spec fn tally_pieces(subs: Option<(int, int)>) -> Seq<PieceModel> {
    match subs {
        Some((done, total)) => seq![piece(tally(done, total), Tone::Gray)],
        None => Seq::empty(),
    }
}

/// The marker of notes, where there are any.
pub open spec fn notes_pieces(has_notes: bool) -> Seq<PieceModel> {
    if has_notes {
        seq![piece("  ≡"@, Tone::Gray)]
    } else {
        Seq::empty()
    }
}

/// The number of columns that a task's row takes up before its stamp.
pub open spec fn left_width(text: Seq<char>, subs: Option<(int, int)>, has_notes: bool) -> int {
    4 + text.len() + (match subs {
        Some((done, total)) => tally(done, total).len() as int,
        None => 0,
    }) + (if has_notes {
        3int
    } else {
        0int
    })
}

/// The blanks between a row's left part and its stamp, which ends at the right margin: at
/// least one.
pub open spec fn gap(width: int, used: int) -> nat {
    if width - used > 1 {
        (width - used) as nat
    } else {
        1
    }
}

/// The stamp at the right margin, where there is one.
pub open spec fn stamp_pieces(stamp: Option<Seq<char>>, left: int, width: int) -> Seq<PieceModel> {
    match stamp {
        Some(stamp) => seq![
            piece(repeat(' ', gap(width, left + shown(stamp).len())), Tone::Plain),
            piece(shown(stamp), Tone::Faint),
        ],
        None => Seq::empty(),
    }
}

/// The pieces of a row in a list of the given width.
pub open spec fn pieces_of(row: RowModel, width: int) -> Seq<PieceModel> {
    match row {
        RowModel::Header(text) => seq![piece(text, Tone::CyanBold)],
        RowModel::Task { text, done, stamp, subs, has_notes } => box_pieces(text, done)
            + tally_pieces(subs) + notes_pieces(has_notes) + stamp_pieces(
            stamp,
            left_width(text, subs, has_notes),
            width,
        ),
        RowModel::Sub { text, done } => seq![piece("    "@, Tone::Plain)] + box_pieces(text, done),
        RowModel::CollapsedSection { name, done, total } => seq![
            piece("▸ "@, Tone::Cyan),
            piece(name, Tone::CyanBold),
            piece(tally(done, total), Tone::Gray),
        ],
    }
}

fn push_piece(out: &mut Vec<Piece>, text: String, tone: Tone)
    ensures
        piece_models(final(out)@) == piece_models(old(out)@).push(piece(text@, tone)),
{
    out.push(Piece { text, tone });
    assert(piece_models(out@) =~= piece_models(old(out)@).push(piece(text@, tone)));
}

fn make_tally(done: usize, total: usize) -> (r: String)
    ensures
        r@ == tally(done as int, total as int),
{
    let a: String = to_decimal(done);
    let b: String = to_decimal(total);
    let mut out: String = cat("  ", a.as_str());
    out.append("/");
    out.append(b.as_str());
    out
}

fn push_box(out: &mut Vec<Piece>, text: &String, done: bool)
    ensures
        piece_models(final(out)@) == piece_models(old(out)@) + box_pieces(text@, done),
{
    if done {
        push_piece(out, "[x] ".to_string(), Tone::Gray);
        push_piece(out, text.clone(), Tone::Struck);
    } else {
        push_piece(out, "[ ] ".to_string(), Tone::Green);
        push_piece(out, text.clone(), Tone::Plain);
    }
    assert(piece_models(out@) =~= piece_models(old(out)@) + box_pieces(text@, done));
}

/// Adds the stamp of a row at the right margin. `room` is what the row's left part leaves
/// of the width, or nothing.
fn push_stamp(out: &mut Vec<Piece>, stamp: &str, room: usize, Ghost(left): Ghost<int>, width: usize)
    requires
        0 <= left,
        room == (if width >= left { width - left } else { 0 }),
    ensures
        piece_models(final(out)@) == piece_models(old(out)@) + stamp_pieces(
            Some(stamp@),
            left,
            width as int,
        ),
{
    let text: String = fmt_stamp(stamp);
    let n: usize = text.as_str().unicode_len();
    let blanks: usize = if room > n && room - n > 1 {
        room - n
    } else {
        1
    };
    assert(blanks as nat == gap(width as int, left + shown(stamp@).len()));
    push_piece(out, spaces(blanks), Tone::Plain);
    push_piece(out, text, Tone::Faint);
    assert(piece_models(out@) =~= piece_models(old(out)@) + stamp_pieces(
        Some(stamp@),
        left,
        width as int,
    ));
}

fn less(room: usize, n: usize) -> (r: usize)
    ensures
        r == (if room >= n { room - n } else { 0 }),
{
    if room >= n {
        room - n
    } else {
        0
    }
}

fn push_task(
    out: &mut Vec<Piece>,
    text: &String,
    done: bool,
    stamp: &Option<String>,
    subs: &Option<(usize, usize)>,
    has_notes: bool,
    width: usize,
)
    ensures
        piece_models(final(out)@) == piece_models(old(out)@) + pieces_of(
            (Row::Task {
                text: *text,
                done,
                stamp: *stamp,
                subs: *subs,
                has_notes,
            })@,
            width as int,
        ),
{
    let ghost model = (Row::Task { text: *text, done, stamp: *stamp, subs: *subs, has_notes })@;
    let ghost before = piece_models(out@);
    push_box(out, text, done);
    let n: usize = text.as_str().unicode_len();
    let mut room: usize = less(less(width, 4), n);
    let ghost mut left: int = 4int + text@.len();
    let ghost first = box_pieces(text@, done);
    if let Some((d, t)) = subs {
        let count: String = make_tally(*d, *t);
        let k: usize = count.as_str().unicode_len();
        room = less(room, k);
        proof {
            left = left + count@.len();
        }
        push_piece(out, count, Tone::Gray);
    }
    let ghost second = tally_pieces(model->subs);
    assert(piece_models(out@) =~= before + first + second);
    if has_notes {
        push_piece(out, "  ≡".to_string(), Tone::Gray);
        room = less(room, 3);
        proof {
            left = left + 3;
        }
    }
    let ghost third = notes_pieces(has_notes);
    assert(piece_models(out@) =~= before + first + second + third);
    assert(left == left_width(text@, model->subs, has_notes));
    if let Some(st) = stamp {
        push_stamp(out, st.as_str(), room, Ghost(left), width);
    }
    assert(piece_models(out@) =~= before + pieces_of(model, width as int));
}

/// The pieces of a row in a list of the given width.
pub fn row_pieces(row: &Row, width: usize) -> (r: Vec<Piece>)
    ensures
        piece_models(r@) == pieces_of(row@, width as int),
{
    let mut out: Vec<Piece> = Vec::new();
    assert(piece_models(out@) =~= Seq::empty());
    match row {
        Row::Header(text) => {
            push_piece(&mut out, text.clone(), Tone::CyanBold);
        },
        Row::Task { text, done, stamp, subs, has_notes } => {
            push_task(&mut out, text, *done, stamp, subs, *has_notes, width);
            assert(row@ == (Row::Task {
                text: *text,
                done: *done,
                stamp: *stamp,
                subs: *subs,
                has_notes: *has_notes,
            })@);
        },
        Row::Sub { text, done } => {
            push_piece(&mut out, "    ".to_string(), Tone::Plain);
            push_box(&mut out, text, *done);
        },
        Row::CollapsedSection { name, done, total } => {
            push_piece(&mut out, "▸ ".to_string(), Tone::Cyan);
            push_piece(&mut out, name.clone(), Tone::CyanBold);
            push_piece(&mut out, make_tally(*done, *total), Tone::Gray);
        },
    }
    assert(piece_models(out@) =~= pieces_of(row@, width as int));
    out
}

// ---------------------------------------------------------------------------------
// The selected row

/// Whether a row is a stop of the cursor: a task or a collapsed section.
pub open spec fn is_stop(row: RowModel) -> bool {
    row is Task || row is CollapsedSection
}

/// The number of stops among the first `n` rows.
pub open spec fn stops_upto(rows: Seq<RowModel>, n: int) -> int
    decreases n,
{
    if n <= 0 {
        0
    } else {
        stops_upto(rows, n - 1) + (if is_stop(rows[n - 1]) {
            1int
        } else {
            0int
        })
    }
}

/// The number of subtasks among the first `n` rows that follow the last stop.
pub open spec fn subs_since(rows: Seq<RowModel>, n: int) -> int
    decreases n,
{
    if n <= 0 || is_stop(rows[n - 1]) {
        0
    } else {
        subs_since(rows, n - 1) + (if rows[n - 1] is Sub {
            1int
        } else {
            0int
        })
    }
}

/// Whether row `i` is the selected one.
pub open spec fn row_selected(
    rows: Seq<RowModel>,
    i: int,
    cursor: int,
    sub: Option<int>,
) -> bool {
    match rows[i] {
        RowModel::Header(_) => false,
        RowModel::Task { .. } => stops_upto(rows, i) == cursor && sub is None,
        RowModel::Sub { .. } => stops_upto(rows, i) == cursor + 1 && sub == Some(
            subs_since(rows, i),
        ),
        RowModel::CollapsedSection { .. } => stops_upto(rows, i) == cursor,
    }
}

/// The last of the first `n` rows that is selected, if one is.
pub open spec fn selected_upto(
    rows: Seq<RowModel>,
    n: int,
    cursor: int,
    sub: Option<int>,
) -> Option<int>
    decreases n,
{
    if n <= 0 {
        None
    } else if row_selected(rows, n - 1, cursor, sub) {
        Some(n - 1)
    } else {
        selected_upto(rows, n - 1, cursor, sub)
    }
}

/// The selected row, if there is one.
pub open spec fn selected_of(rows: Seq<RowModel>, cursor: int, sub: Option<int>) -> Option<int> {
    selected_upto(rows, rows.len() as int, cursor, sub)
}

proof fn lemma_stops(rows: Seq<RowModel>, n: int)
    requires
        0 <= n,
    ensures
        0 <= stops_upto(rows, n) <= n,
        0 <= subs_since(rows, n) <= n,
    decreases n,
{
    if n > 0 {
        lemma_stops(rows, n - 1);
    }
}

/// The row that the cursor, or the selected subtask under it, stands on.
pub fn selected_row(rows: &Vec<Row>, cursor: usize, sub: Option<usize>) -> (r: Option<usize>)
    ensures
        as_position(r) == selected_of(
            row_models(rows@),
            cursor as int,
            as_position(sub),
        ),
{
    let n: usize = rows.len();
    let ghost m = row_models(rows@);
    let mut stops: usize = 0;
    let mut subs: usize = 0;
    let mut selected: Option<usize> = None;
    for i in 0..n
        invariant
            n == rows@.len(),
            m == row_models(rows@),
            stops == stops_upto(m, i as int),
            subs == subs_since(m, i as int),
            stops <= i,
            subs <= i,
            as_position(selected) == selected_upto(
                m,
                i as int,
                cursor as int,
                as_position(sub),
            ),
    {
        assert(m[i as int] == rows@[i as int]@);
        proof {
            lemma_stops(m, i + 1);
        }
        match &rows[i] {
            Row::Header(_) => {},
            Row::Task { .. } => {
                if stops == cursor && sub.is_none() {
                    selected = Some(i);
                }
                stops += 1;
                subs = 0;
            },
            Row::Sub { .. } => {
                if stops > 0 && stops - 1 == cursor {
                    if let Some(k) = sub {
                        if k == subs {
                            selected = Some(i);
                        }
                    }
                }
                subs += 1;
            },
            Row::CollapsedSection { .. } => {
                if stops == cursor {
                    selected = Some(i);
                }
                stops += 1;
                subs = 0;
            },
        }
    }
    selected
}

// ---------------------------------------------------------------------------------
// Titles and footer

/// The number of done tasks among the first `n` items.
pub open spec fn done_among(its: Seq<ItemModel>, n: int) -> int
    decreases n,
{
    if n <= 0 {
        0
    } else {
        done_among(its, n - 1) + (if its[n - 1].done {
            1int
        } else {
            0int
        })
    }
}

/// The title over the main list: the file, how many of its tasks are done, and whether
/// done tasks are hidden.
pub open spec fn list_title(s: State, file: Seq<char>) -> Seq<char> {
    let its = items_of(s.lines);
    " "@ + file + " — "@ + decimal(done_among(its, its.len() as int) as nat) + "/"@ + decimal(
        its.len(),
    ) + " done"@ + (if s.hide_done {
        " (hiding done)"@
    } else {
        ""@
    }) + " "@
}

/// The title of the screen: over the history where that is shown, else over the notes
/// where those are, else over the main list.
pub open spec fn title_over(s: State, file: Seq<char>) -> Seq<char> {
    if s.history is Some {
        " done history (read-only) "@
    } else if s.notes is Some {
        " notes: "@ + s.notes->0.title + " "@
    } else {
        list_title(s, file)
    }
}

/// The text at the foot of the screen.
pub open spec fn footer_of(s: State) -> Seq<char> {
    if s.history is Some {
        " j/k scroll · g/G top/bottom · D or q close"@
    } else if s.notes is Some {
        " shift+tab save & close · plain lines = notes · \"- [ ] …\" lines = sub-todos"@
    } else if s.show_help {
        " any key to close"@
    } else if s.quit_confirm is Some {
        " q/esc/y quit · n stay · h/l choose · enter select"@
    } else if s.move_menu is Some {
        " j/k choose · enter move · esc cancel"@
    } else if s.input is Some {
        " enter save · esc cancel"@
    } else if s.status.len() == 0 {
        " j/k move · space done · n new · s sub · e edit · m move · c collapse · X del · ~ help · q quit"@
    } else {
        " "@ + s.status
    }
}

/// The title of a prompt.
pub open spec fn prompt_title_of(kind: InputKind) -> Seq<char> {
    match kind {
        InputKind::NewTask => " new todo "@,
        InputKind::NewSub => " new subtask "@,
        InputKind::NewSection => " new section "@,
        InputKind::Edit => " edit "@,
    }
}

/// The title of a prompt.
pub fn prompt_title(kind: InputKind) -> (r: &'static str)
    ensures
        r@ == prompt_title_of(kind),
{
    match kind {
        InputKind::NewTask => " new todo ",
        InputKind::NewSub => " new subtask ",
        InputKind::NewSection => " new section ",
        InputKind::Edit => " edit ",
    }
}

/// How a line of the history is shown.
pub open spec fn history_tone_of(l: Seq<char>) -> Tone {
    if heading(l) {
        Tone::CyanBold
    } else if is_task(l) {
        Tone::Plain
    } else {
        Tone::Gray
    }
}

/// How a line of the history is shown.
pub fn history_tone(line: &str) -> (r: Tone)
    ensures
        r == history_tone_of(line@),
{
    if is_heading(line) {
        Tone::CyanBold
    } else if task_mark(line).is_some() {
        Tone::Plain
    } else {
        Tone::Gray
    }
}

impl App {
    /// The title of the screen.
    pub fn title(&self, file: &str) -> (r: String)
        ensures
            r@ == title_over(self@, file@),
    {
        if self.history.is_some() {
            return " done history (read-only) ".to_string();
        }
        if let Some(notes) = &self.notes {
            let mut out: String = cat(" notes: ", notes.title.as_str());
            out.append(" ");
            return out;
        }
        let its: Vec<Item> = items(&self.lines);
        let n: usize = its.len();
        let ghost m = item_models(its@);
        assert(m.len() == n);
        let mut done: usize = 0;
        for i in 0..n
            invariant
                n == its@.len(),
                m == item_models(its@),
                done <= i,
                done == done_among(m, i as int),
        {
            assert(m[i as int] == its@[i as int]@);
            if its[i].done {
                done += 1;
            }
        }
        let mut out: String = cat(" ", file);
        out.append(" — ");
        let a: String = to_decimal(done);
        out.append(a.as_str());
        out.append("/");
        let b: String = to_decimal(n);
        out.append(b.as_str());
        out.append(" done");
        out.append(if self.hide_done { " (hiding done)" } else { "" });
        out.append(" ");
        out
    }

    /// The text at the foot of the screen.
    pub fn footer(&self) -> (r: String)
        ensures
            r@ == footer_of(self@),
    {
        if self.history.is_some() {
            " j/k scroll · g/G top/bottom · D or q close".to_string()
        } else if self.notes.is_some() {
            " shift+tab save & close · plain lines = notes · \"- [ ] …\" lines = sub-todos".to_string()
        } else if self.show_help {
            " any key to close".to_string()
        } else if self.quit_confirm.is_some() {
            " q/esc/y quit · n stay · h/l choose · enter select".to_string()
        } else if self.move_menu.is_some() {
            " j/k choose · enter move · esc cancel".to_string()
        } else if self.input.is_some() {
            " enter save · esc cancel".to_string()
        } else if self.status.as_str().is_empty() {
            " j/k move · space done · n new · s sub · e edit · m move · c collapse · X del · ~ help · q quit".to_string()
        } else {
            cat(" ", self.status.as_str())
        }
    }
}

// ---------------------------------------------------------------------------------
// Popups

/// A rectangle of the screen.
#[derive(Clone, Copy, PartialEq, Eq, Debug, Structural)]
pub struct Area {
    pub x: u16,
    pub y: u16,
    pub width: u16,
    pub height: u16,
}

/// Whether the far edges of an area are on the screen.
pub open spec fn on_screen(a: Area) -> bool {
    a.x + a.width <= u16::MAX && a.y + a.height <= u16::MAX
}

/// Whether one area lies within another.
pub open spec fn lies_in(a: Area, b: Area) -> bool {
    &&& b.x <= a.x && a.x + a.width <= b.x + b.width
    &&& b.y <= a.y && a.y + a.height <= b.y + b.height
}

/// The lesser of two numbers.
pub open spec fn least(a: int, b: int) -> int {
    if a <= b {
        a
    } else {
        b
    }
}

fn least_of(a: u16, b: u16) -> (r: u16)
    ensures
        r == least(a as int, b as int),
{
    if a <= b {
        a
    } else {
        b
    }
}

/// The area of a popup in the middle of another area, as large as wanted where there is
/// room for it.
pub fn popup(main: Area, width: u16, height: u16) -> (r: Area)
    requires
        on_screen(main),
    ensures
        r.width == least(width as int, main.width as int),
        r.height == least(height as int, main.height as int),
        r.x == main.x + (main.width - r.width) / 2,
        r.y == main.y + (main.height - r.height) / 2,
        lies_in(r, main),
{
    let w: u16 = least_of(width, main.width);
    let h: u16 = least_of(height, main.height);
    Area {
        x: main.x + (main.width - w) / 2,
        y: main.y + (main.height - h) / 2,
        width: w,
        height: h,
    }
}

/// The area of the menu of destinations, one line for each and two for the border.
pub fn menu_area(main: Area, options: usize) -> (r: Area)
    requires
        on_screen(main),
        options % 65536 <= 65533,
    ensures
        r.width == least(36, main.width as int),
        r.height == least(options % 65536 + 2, main.height as int),
        r.x == main.x + (main.width - r.width) / 2,
        r.y == main.y + (main.height - r.height) / 2,
        lies_in(r, main),
{
    popup(main, 36, low_half(options) + 2)
}

/// The last sixteen bits of a number.
pub fn low_half(n: usize) -> (r: u16)
    ensures
        r == n % 65536,
{
    assert(n % 65536usize <= 65535);
    (n % 65536) as u16
}

/// The area of a prompt: the last three lines of another area.
pub fn prompt_area(main: Area) -> (r: Area)
    requires
        on_screen(main),
    ensures
        r.x == main.x,
        r.width == main.width,
        r.height == least(3, main.height as int),
        r.y == main.y + main.height - r.height,
        lies_in(r, main),
{
    let h: u16 = least_of(3, main.height);
    Area { x: main.x, y: main.y + main.height - h, width: main.width, height: h }
}

} // verus!
