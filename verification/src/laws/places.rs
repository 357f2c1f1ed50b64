//! Where the parts of a file start and end, told from the lines alone.
use crate::laws::markdown::{law_block_is_whole, whole_block};
use crate::laws::rolling::spans;
use crate::laws::rotate::lemma_items_complete;
use crate::outline::{
    before_blanks, end_of_section, has_heading, heading_index, item_at, items_of, past_blanks,
    top_end,
};
use crate::rotate::lemma_items;
use crate::search::{lemma_back_from_is, lemma_first_from, lemma_first_from_is};
use crate::task::{ends_todo, heading_named, is_done, is_top};
use crate::text::is_blank;
use vstd::prelude::*;

verus! {

/// The tasks of a file are its top-level tasks: all of them, no others, each with its whole
/// block, in the order of the file.
pub proof fn law_tasks_of_a_file(lines: Seq<Seq<char>>)
    ensures
        forall|k: int|
            0 <= k < items_of(lines).len() ==> {
                let it = #[trigger] items_of(lines)[k];
                &&& 0 <= it.start < lines.len()
                &&& is_top(lines[it.start])
                &&& it.done == is_done(lines[it.start])
                &&& whole_block(lines, it.start, it.start + it.len)
            },
        forall|j: int, k: int|
            0 <= j < k < items_of(lines).len() ==> (#[trigger] items_of(lines)[j]).start < (
            #[trigger] items_of(lines)[k]).start,
        forall|i: int|
            0 <= i < lines.len() && is_top(#[trigger] lines[i]) ==> exists|k: int|
                0 <= k < items_of(lines).len() && (#[trigger] items_of(lines)[k]).start == i,
{
    let all = items_of(lines);
    lemma_items(lines, lines.len() as int);
    assert forall|k: int| 0 <= k < all.len() implies {
        let it = #[trigger] all[k];
        &&& 0 <= it.start < lines.len()
        &&& is_top(lines[it.start])
        &&& it.done == is_done(lines[it.start])
        &&& whole_block(lines, it.start, it.start + it.len)
    } by {
        law_block_is_whole(lines, all[k].start);
    }
    assert forall|i: int| 0 <= i < lines.len() && is_top(#[trigger] lines[i]) implies exists|k: int|
        0 <= k < all.len() && (#[trigger] all[k]).start == i by {
        lemma_items_complete(lines, i, lines.len() as int);
        let k = choose|k: int| 0 <= k < all.len() && all[k] == item_at(lines, i);
        assert(all[k].start == i);
    }
}

/// Whether line `t` is the first of the blank lines right before line `e`, or `e` itself if
/// there are none.
pub open spec fn backs_to(lines: Seq<Seq<char>>, t: int, e: int) -> bool {
    &&& 0 <= t <= e <= lines.len()
    &&& forall|i: int| t <= i < e ==> is_blank(#[trigger] lines[i])
    &&& t > 0 ==> !is_blank(lines[t - 1])
}

/// Going back over blank lines ends right behind the last line that is not blank.
pub proof fn law_back_over_blanks(lines: Seq<Seq<char>>, t: int, e: int)
    requires
        backs_to(lines, t, e),
    ensures
        before_blanks(lines, e) == t,
{
    let p = |l: Seq<char>| !is_blank(l);
    assert forall|j: int| t <= j < e implies !p(#[trigger] lines[j]) by {
        assert(is_blank(lines[j]));
    }
    lemma_back_from_is(lines, e, p, t);
}

/// Todo ends before the first line that ends it and the blank lines right before that.
pub proof fn law_end_of_todo(lines: Seq<Seq<char>>, t: int, e: int)
    requires
        backs_to(lines, t, e),
        forall|i: int| 0 <= i < e ==> !ends_todo(#[trigger] lines[i]),
        e < lines.len() ==> ends_todo(lines[e]),
    ensures
        top_end(lines) == t,
{
    let p = |l: Seq<char>| ends_todo(l);
    assert forall|j: int| 0 <= j < e implies !p(#[trigger] lines[j]) by {
        assert(!ends_todo(lines[j]));
    }
    lemma_first_from_is(lines, 0, p, e);
    law_back_over_blanks(lines, t, e);
}

/// So does a section, counted from its heading.
pub proof fn law_end_of_section(lines: Seq<Seq<char>>, h: int, t: int, e: int)
    requires
        spans(lines, h, e),
        backs_to(lines, t, e),
    ensures
        end_of_section(lines, h) == t,
{
    let p = |l: Seq<char>| ends_todo(l);
    assert forall|j: int| h + 1 <= j < e implies !p(#[trigger] lines[j]) by {
        assert(!ends_todo(lines[j]));
    }
    lemma_first_from_is(lines, h + 1, p, e);
    law_back_over_blanks(lines, t, e);
}

/// What a heading heads starts at the next line that is not blank.
pub proof fn law_start_of_section(lines: Seq<Seq<char>>, h: int, t: int)
    requires
        0 <= h < t <= lines.len(),
        forall|i: int| h < i < t ==> is_blank(#[trigger] lines[i]),
        t < lines.len() ==> !is_blank(lines[t]),
    ensures
        past_blanks(lines, h) == t,
{
    let p = |l: Seq<char>| !is_blank(l);
    assert forall|j: int| h + 1 <= j < t implies !p(#[trigger] lines[j]) by {
        assert(is_blank(lines[j]));
    }
    lemma_first_from_is(lines, h + 1, p, t);
}

/// A heading is found by its name: the first that has it, if one does.
pub proof fn law_first_heading(lines: Seq<Seq<char>>, name: Seq<char>, h: int)
    ensures
        0 <= h < lines.len() && heading_named(lines[h], name) && (forall|i: int|
            0 <= i < h ==> !heading_named(#[trigger] lines[i], name)) ==> has_heading(lines, name)
            && heading_index(lines, name) == h,
        (forall|i: int| 0 <= i < lines.len() ==> !heading_named(#[trigger] lines[i], name))
            ==> !has_heading(lines, name),
{
    let p = |l: Seq<char>| heading_named(l, name);
    lemma_first_from(lines, 0, p);
    if 0 <= h < lines.len() && heading_named(lines[h], name) && (forall|i: int|
        0 <= i < h ==> !heading_named(#[trigger] lines[i], name)) {
        assert forall|j: int| 0 <= j < h implies !p(#[trigger] lines[j]) by {
            assert(!heading_named(lines[j], name));
        }
        lemma_first_from_is(lines, 0, p, h);
    }
}

} // verus!
