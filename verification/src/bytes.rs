//! Positions in a string counted in bytes of its UTF-8 encoding.
use crate::text::{chars_of, count_lead, lead};
use vstd::prelude::*;
use vstd::utf8::{encode_scalar, encode_utf8};

verus! {

/// The number of bytes that `c` takes in UTF-8.
pub open spec fn width(c: char) -> nat {
    encode_scalar(c as u32).len()
}

/// The number of bytes that `s` takes in UTF-8.
pub open spec fn byte_len(s: Seq<char>) -> nat {
    encode_utf8(s).len()
}

pub proof fn lemma_byte_len_concat(a: Seq<char>, b: Seq<char>)
    ensures
        byte_len(a + b) == byte_len(a) + byte_len(b),
    decreases a.len(),
{
    if a.len() == 0 {
        assert(a + b =~= b);
    } else {
        assert((a + b).drop_first() =~= a.drop_first() + b);
        lemma_byte_len_concat(a.drop_first(), b);
    }
}

pub proof fn lemma_byte_len_push(a: Seq<char>, c: char)
    ensures
        byte_len(a.push(c)) == byte_len(a) + width(c),
{
    let one = seq![c];
    assert(a.push(c) =~= a + one);
    lemma_byte_len_concat(a, one);
    assert(one.drop_first() =~= Seq::<char>::empty());
    reveal_with_fuel(encode_utf8, 2);
}

/// The least number of characters of `s`, from `k` on, whose encoding reaches `n` bytes.
pub open spec fn cut_from(s: Seq<char>, n: int, k: int) -> int
    decreases s.len() - k,
{
    if k >= s.len() || byte_len(s.take(k)) >= n {
        k
    } else {
        cut_from(s, n, k + 1)
    }
}

/// The number of characters in the first `n` bytes of `s`.
pub open spec fn cut_at(s: Seq<char>, n: int) -> int {
    cut_from(s, n, 0)
}

/// Whether the first `n` bytes of `s` are the encoding of whole characters.
pub open spec fn splits_at(s: Seq<char>, n: int) -> bool {
    byte_len(s.take(cut_at(s, n))) == n
}

/// The number of bytes in the whitespace that `s` starts with.
pub open spec fn indent_bytes(s: Seq<char>) -> nat {
    byte_len(s.take(lead(s)))
}

fn char_width(c: char) -> (r: usize)
    ensures
        r == width(c),
{
    let u: u32 = c as u32;
    if u <= 0x7F {
        1
    } else if u <= 0x7FF {
        2
    } else if u <= 0xFFFF {
        3
    } else {
        4
    }
}

/// The number of bytes in the whitespace that `line` starts with.
pub fn leading_ws(line: &str) -> (r: usize)
    ensures
        r == indent_bytes(line@),
{
    let k: usize = count_lead(line);
    let n: usize = line.unicode_len();
    let all: usize = line.as_bytes().len();
    let rest: usize = line.substring_char(k, n).as_bytes().len();
    proof {
        assert(line@ =~= line@.take(k as int) + line@.subrange(k as int, n as int));
        lemma_byte_len_concat(line@.take(k as int), line@.subrange(k as int, n as int));
    }
    all - rest
}

/// How many characters make up the first `n` bytes of `s`, and how many bytes those
/// characters take: more than `n` where the last of them straddles it.
pub fn cut(s: &str, n: usize) -> (r: (usize, usize))
    ensures
        r.0 == cut_at(s@, n as int),
        r.0 <= s@.len(),
        r.1 == byte_len(s@.take(r.0 as int)),
{
    let cs: Vec<char> = chars_of(s);
    let len: usize = cs.len();
    let all: usize = s.as_bytes().len();
    let mut k: usize = 0;
    let mut used: usize = 0;
    assert(s@.take(0) =~= Seq::<char>::empty());
    while k < len && used < n
        invariant
            k <= len,
            len == cs@.len(),
            cs@ == s@,
            all == byte_len(s@),
            used == byte_len(s@.take(k as int)),
            cut_from(s@, n as int, k as int) == cut_at(s@, n as int),
        decreases len - k,
    {
        proof {
            assert(s@.take(k + 1) =~= s@.take(k as int).push(s@[k as int]));
            lemma_byte_len_push(s@.take(k as int), s@[k as int]);
            assert(s@ =~= s@.take(k + 1) + s@.skip(k + 1));
            lemma_byte_len_concat(s@.take(k + 1), s@.skip(k + 1));
        }
        used = used + char_width(cs[k]);
        k += 1;
    }
    (k, used)
}

} // verus!
