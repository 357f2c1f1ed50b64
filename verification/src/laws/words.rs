//! Blanks, letters, the order of texts, and how moments are shown.
use crate::app::{label_of, DestModel};
use crate::bytes::{
    byte_len, cut_at, cut_from, lemma_byte_len_concat, lemma_byte_len_push, splits_at, width,
};
use crate::clock::{formatted, parsed, shown, Moment};
use crate::text::{
    before, find, is_blank, is_space, lemma_find_from, lower, occurs_at, same_letters,
};
use vstd::prelude::*;

verus! {

/// The blanks are the space, the controls from tab to carriage return, the next line, and
/// Unicode's other spaces and separators.
pub proof fn law_blanks(c: char)
    ensures
        ({
            let n = c as int;
            is_space(c) <==> n == 32 || 9 <= n <= 13 || n == 133 || n == 160 || n == 5760 || (8192
                <= n <= 8202) || n == 8232 || n == 8233 || n == 8239 || n == 8287 || n == 12288
        }),
{
}

/// A line is blank if it holds nothing but blanks: the empty one is, and blanks at either
/// end make no difference.
pub proof fn law_blank_lines(a: Seq<char>, c: char, b: Seq<char>)
    ensures
        is_blank(Seq::empty()),
        is_blank(a + seq![c] + b) == (is_blank(a) && is_space(c) && is_blank(b)),
{
    let l = a + seq![c] + b;
    if is_blank(l) {
        assert forall|i: int| 0 <= i < a.len() implies is_space(#[trigger] a[i]) by {
            assert(l[i] == a[i]);
        }
        assert(l[a.len() as int] == c);
        assert forall|i: int| 0 <= i < b.len() implies is_space(#[trigger] b[i]) by {
            assert(l[a.len() + 1 + i] == b[i]);
        }
    }
}

/// Whether two characters are one letter of the alphabet, one capital and one small.
pub open spec fn other_case(c: char, d: char) -> bool {
    ||| 65 <= c as int <= 90 && d as int == c as int + 32
    ||| 65 <= d as int <= 90 && c as int == d as int + 32
}

/// Two texts have the same letters if they are as long and each two characters at one place
/// are the same, or one letter in both cases.
pub proof fn law_same_letters(a: Seq<char>, b: Seq<char>)
    ensures
        same_letters(a, b) <==> a.len() == b.len() && forall|i: int|
            0 <= i < a.len() ==> #[trigger] a[i] == b[i] || other_case(a[i], b[i]),
{
    if a.len() == b.len() {
        assert forall|i: int| 0 <= i < a.len() implies (lower(#[trigger] a[i]) == lower(b[i])) == (
        a[i] == b[i] || other_case(a[i], b[i])) by {
            lemma_lower(a[i]);
            lemma_lower(b[i]);
        }
        if same_letters(a, b) {
            assert forall|i: int| 0 <= i < a.len() implies #[trigger] a[i] == b[i] || other_case(
                a[i],
                b[i],
            ) by {
                assert(lower(a[i]) == lower(b[i]));
            }
        }
    }
}

proof fn lemma_lower(c: char)
    ensures
        lower(c) as int == (if 65 <= c as int <= 90 {
            c as int + 32
        } else {
            c as int
        }),
{
}

/// Of two texts that differ, the one comes first whose character is less at the first place
/// where they do, and a text comes before one that goes on where it ends.
pub proof fn law_order_of_texts(p: Seq<char>, c: char, x: Seq<char>, d: char, y: Seq<char>)
    ensures
        c != d ==> before(p + seq![c] + x, p + seq![d] + y) == ((c as int) < d as int),
        before(p, p + seq![c] + x),
        !before(p + x, p),
    decreases p.len(),
{
    let a = p + seq![c] + x;
    let b = p + seq![d] + y;
    if p.len() == 0 {
        assert(a[0] == c && b[0] == d);
        assert(p + x =~= x);
    } else {
        let q = p.skip(1);
        law_order_of_texts(q, c, x, d, y);
        assert(a.skip(1) =~= q + seq![c] + x);
        assert(b.skip(1) =~= q + seq![d] + y);
        assert((p + x).skip(1) =~= q + x);
        assert(a[0] == p[0] && b[0] == p[0] && (p + x)[0] == p[0]);
    }
}

/// What is looked for is found at the first place where it stands, and not at all where it
/// stands nowhere.
pub proof fn law_find(s: Seq<char>, pat: Seq<char>, i: int)
    ensures
        find(s, pat) == Some(i) <==> {
            &&& 0 <= i <= s.len() - pat.len()
            &&& s.subrange(i, i + pat.len()) == pat
            &&& forall|j: int| 0 <= j < i ==> #[trigger] s.subrange(j, j + pat.len()) != pat
        },
        find(s, pat) is None <==> forall|j: int|
            0 <= j <= s.len() - pat.len() ==> #[trigger] s.subrange(j, j + pat.len()) != pat,
{
    lemma_find_from(s, pat, 0);
    if let Some(p) = find(s, pat) {
        assert(s.subrange(p, p + pat.len()) == pat);
        assert forall|j: int| 0 <= j < p implies #[trigger] s.subrange(j, j + pat.len()) != pat by {
            assert(!occurs_at(s, pat, j));
        }
        if 0 <= i <= s.len() - pat.len() && s.subrange(i, i + pat.len()) == pat {
            assert(occurs_at(s, pat, i));
        }
    } else {
        assert forall|j: int| 0 <= j <= s.len() - pat.len() implies #[trigger] s.subrange(
            j,
            j + pat.len(),
        ) != pat by {
            assert(!occurs_at(s, pat, j));
        }
    }
}

/// A text is cut at the first place where the characters before it fill the bytes asked for,
/// or at its end if they never do.
pub proof fn law_cut_reaches(s: Seq<char>, n: int)
    ensures
        ({
            let k = cut_at(s, n);
            &&& 0 <= k <= s.len()
            &&& k < s.len() ==> byte_len(s.take(k)) >= n
            &&& forall|j: int| 0 <= j < k ==> byte_len(#[trigger] s.take(j)) < n
        }),
{
    lemma_cut_from(s, n, 0);
}

proof fn lemma_cut_from(s: Seq<char>, n: int, i: int)
    requires
        0 <= i <= s.len(),
    ensures
        ({
            let k = cut_from(s, n, i);
            &&& i <= k <= s.len()
            &&& k < s.len() ==> byte_len(s.take(k)) >= n
            &&& forall|j: int| i <= j < k ==> byte_len(#[trigger] s.take(j)) < n
        }),
    decreases s.len() - i,
{
    if i < s.len() && byte_len(s.take(i)) < n {
        lemma_cut_from(s, n, i + 1);
    }
}

/// A text is cut behind the characters that fill the bytes asked for.
pub proof fn law_cut(a: Seq<char>, b: Seq<char>)
    ensures
        cut_at(a + b, byte_len(a) as int) == a.len(),
        splits_at(a + b, byte_len(a) as int),
{
    lemma_cut_reaches(a, b, 0);
    assert((a + b).take(a.len() as int) =~= a);
}

proof fn lemma_cut_reaches(a: Seq<char>, b: Seq<char>, k: int)
    requires
        0 <= k <= a.len(),
    ensures
        cut_from(a + b, byte_len(a) as int, k) == a.len(),
    decreases a.len() - k,
{
    let s = a + b;
    assert(s.take(k) =~= a.take(k));
    assert(a =~= a.take(k) + a.skip(k));
    lemma_byte_len_concat(a.take(k), a.skip(k));
    if k < a.len() {
        lemma_some_bytes(a.skip(k));
        lemma_cut_reaches(a, b, k + 1);
    } else {
        assert(a.take(k) =~= a);
    }
}

proof fn lemma_some_bytes(s: Seq<char>)
    requires
        s.len() > 0,
    ensures
        byte_len(s) > 0,
{
    lemma_byte_len_concat(s.take(1), s.skip(1));
    assert(s =~= s.take(1) + s.skip(1));
    lemma_byte_len_push(Seq::empty(), s[0]);
    assert(Seq::empty().push(s[0]) =~= s.take(1));
    assert(width(s[0]) > 0);
}

/// A stamp that names a moment is shown as the month, the day, the hour and the minute, and
/// any other as it stands.
pub proof fn law_how_stamps_are_shown(stamp: Seq<char>, at: Moment)
    ensures
        parsed(stamp, "%Y-%m-%d %H:%M"@) == Some(at) ==> shown(stamp) == formatted(
            at,
            "%b %-d, %H:%M"@,
        ),
        parsed(stamp, "%Y-%m-%d %H:%M"@) is None ==> shown(stamp) == stamp,
{
}

/// In the menu Todo, Later and a new section are called that, and a section by its name.
pub proof fn law_names_of_destinations(name: Seq<char>)
    ensures
        label_of(DestModel::Todo) == "todo"@,
        label_of(DestModel::Later) == "later"@,
        label_of(DestModel::Section(name)) == name,
        label_of(DestModel::NewSection) == "new section…"@,
{
}

} // verus!
