//! Splitting text into lines.
//!
//! A line ends at `'\n'`; a `'\r'` right before that `'\n'` belongs to the
//! terminator. A final line needs no terminator, and a terminator at the very
//! end starts no further line. Empty text is one empty line.
use vstd::prelude::*;
use vstd::string::*;
use vstd::utf8::*;

verus! {

broadcast use vstd::string::group_string_axioms;

/// The pieces of `s` between `'\n'` characters, terminators excluded.
pub open spec fn pieces(s: Seq<char>) -> Seq<Seq<char>>
    decreases s.len(),
{
    if s.len() == 0 {
        seq![Seq::<char>::empty()]
    } else {
        let p = pieces(s.drop_last());
        if s.last() == '\n' {
            p.push(Seq::<char>::empty())
        } else {
            p.update(p.len() - 1, p.last().push(s.last()))
        }
    }
}

/// A piece that a `'\n'` followed, without the `'\r'` that ended it.
pub open spec fn strip_cr(l: Seq<char>) -> Seq<char> {
    if l.len() > 0 && l.last() == '\r' {
        l.drop_last()
    } else {
        l
    }
}

/// The lines of `s`, terminators excluded.
pub open spec fn text_lines(s: Seq<char>) -> Seq<Seq<char>> {
    if s.len() == 0 {
        seq![Seq::<char>::empty()]
    } else {
        let p = pieces(s);
        let n = if s.last() == '\n' { p.len() - 1 } else { p.len() as int };
        Seq::new(n as nat, |i: int| if i < p.len() - 1 { strip_cr(p[i]) } else { p[i] })
    }
}

/// The character sequences that a vector of strings holds.
pub open spec fn strings_view(v: Seq<String>) -> Seq<Seq<char>> {
    v.map_values(|x: String| x@)
}

/// There are at least one and at most `s.len() + 1` pieces.
pub proof fn lemma_pieces_len(s: Seq<char>)
    ensures
        1 <= pieces(s).len() <= s.len() + 1,
    decreases s.len(),
{
    if s.len() > 0 {
        lemma_pieces_len(s.drop_last());
    }
}

/// There are at least one and at most `s.len() + 1` lines.
pub proof fn lemma_text_lines_len(s: Seq<char>)
    ensures
        1 <= text_lines(s).len() <= s.len() + 1,
{
    lemma_pieces_len(s);
    if s.len() > 0 && s.last() == '\n' {
        lemma_pieces_len(s.drop_last());
    }
}

/// Encoding two sequences one after the other gives the two encodings joined.
pub proof fn lemma_encode_concat(a: Seq<char>, b: Seq<char>)
    ensures
        encode_utf8(a + b) == encode_utf8(a) + encode_utf8(b),
    decreases a.len(),
{
    if a.len() == 0 {
        assert(a + b =~= b);
        assert(encode_utf8(a) + encode_utf8(b) =~= encode_utf8(b));
    } else {
        assert((a + b).drop_first() =~= a.drop_first() + b);
        lemma_encode_concat(a.drop_first(), b);
        assert(encode_utf8(a + b) =~= encode_utf8(a) + encode_utf8(b));
    }
}

/// A run of characters takes no more bytes than the text it is taken from.
pub proof fn lemma_subrange_bytes(s: Seq<char>, i: int, j: int)
    requires
        0 <= i <= j <= s.len(),
    ensures
        encode_utf8(s.subrange(i, j)).len() <= encode_utf8(s).len(),
{
    let a = s.subrange(0, i);
    let b = s.subrange(i, j);
    let c = s.subrange(j, s.len() as int);
    assert(s =~= a + b + c);
    lemma_encode_concat(a, b);
    lemma_encode_concat(a + b, c);
}

/// Every character takes at least one byte.
pub proof fn lemma_chars_within_bytes(s: Seq<char>)
    ensures
        s.len() <= encode_utf8(s).len(),
    decreases s.len(),
{
    if s.len() > 0 {
        lemma_chars_within_bytes(s.drop_first());
    }
}

/// Splits `content` into its lines.
pub fn split_lines(content: &str) -> (r: Vec<String>)
    requires
        content@.len() < usize::MAX,
    ensures
        strings_view(r@) == text_lines(content@),
        forall|k: int|
            0 <= k < r.len() ==> encode_utf8(#[trigger] r@[k]@).len() <= encode_utf8(
                content@,
            ).len(),
{
    let ghost s = content@;
    let mut out: Vec<String> = Vec::new();
    let mut start: usize = 0;
    let mut i: usize = 0;
    let mut prev: char = '\n';
    for c in it: content.chars()
        invariant
            s == content@,
            s.len() < usize::MAX,
            it.seq() == s,
            i == it.index(),
            0 <= start <= i <= s.len(),
            strings_view(out@) == pieces(s.subrange(0, i as int)).drop_last().map_values(
                |l: Seq<char>| strip_cr(l),
            ),
            pieces(s.subrange(0, i as int)).last() == s.subrange(start as int, i as int),
            i > 0 ==> prev == s[i - 1],
            forall|k: int|
                0 <= k < out.len() ==> encode_utf8(#[trigger] out@[k]@).len() <= encode_utf8(
                    s,
                ).len(),
    {
        assert(i < s.len() && c == s[i as int]);
        let ghost before = s.subrange(0, i as int);
        let ghost after = s.subrange(0, i + 1);
        assert(after.drop_last() =~= before);
        proof {
            lemma_pieces_len(before);
        }
        if c == '\n' {
            let end: usize = if i > start && prev == '\r' { i - 1 } else { i };
            let line = content.substring_char(start, end).to_owned();
            assert(line@ =~= strip_cr(s.subrange(start as int, i as int)));
            assert(line@ =~= s.subrange(start as int, end as int));
            proof {
                lemma_subrange_bytes(s, start as int, end as int);
            }
            let ghost old_out = strings_view(out@);
            out.push(line);
            assert(pieces(after) == pieces(before).push(Seq::<char>::empty()));
            assert(pieces(after).drop_last() =~= pieces(before));
            assert(pieces(before) =~= pieces(before).drop_last().push(pieces(before).last()));
            assert(strings_view(out@) =~= old_out.push(line@));
            assert(strings_view(out@) =~= pieces(after).drop_last().map_values(
                |l: Seq<char>| strip_cr(l),
            ));
            start = i + 1;
            assert(pieces(after).last() =~= s.subrange(start as int, i + 1));
        } else {
            assert(pieces(after).drop_last() =~= pieces(before).drop_last());
            assert(pieces(after).last() =~= s.subrange(start as int, i + 1));
        }
        prev = c;
        i = i + 1;
    }
    assert(s.subrange(0, s.len() as int) =~= s);
    proof {
        lemma_pieces_len(s);
    }
    let ghost p = pieces(s);
    if i == 0 || prev != '\n' {
        let line = content.substring_char(start, i).to_owned();
        proof {
            lemma_subrange_bytes(s, start as int, i as int);
        }
        let ghost old_out = strings_view(out@);
        out.push(line);
        assert(strings_view(out@) =~= old_out.push(line@));
    } else {
        assert(p == pieces(s.drop_last()).push(Seq::<char>::empty()));
    }
    assert(strings_view(out@) =~= text_lines(s));
    out
}

} // verus!
