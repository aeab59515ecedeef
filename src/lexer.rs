//! Splitting dump text into lines and whitespace-separated words.
use vstd::prelude::*;

verus! {

/// The bytes that separate words within a line.
pub open spec fn is_space(b: u8) -> bool {
    b == 32 || b == 9 || b == 13 || b == 11 || b == 12
}

/// Lines of `t[start..]` and beyond, scanning from `k`: lines end at `\n`,
/// and a final newline opens no empty line.
pub open spec fn lines_from(t: Seq<u8>, start: int, k: int) -> Seq<Seq<u8>>
    decreases t.len() - k,
{
    if k >= t.len() {
        if start < t.len() {
            seq![t.subrange(start, t.len() as int)]
        } else {
            Seq::empty()
        }
    } else if t[k] == 10 {
        seq![t.subrange(start, k)] + lines_from(t, k + 1, k + 1)
    } else {
        lines_from(t, start, k + 1)
    }
}

/// The lines of a text.
pub open spec fn lines_of(t: Seq<u8>) -> Seq<Seq<u8>> {
    lines_from(t, 0, 0)
}

/// Words of `t` scanning from `k`, where `w` is the start of the word being
/// read, or `-1` between words.
pub open spec fn words_from(t: Seq<u8>, w: int, k: int) -> Seq<Seq<u8>>
    decreases t.len() - k,
{
    if k >= t.len() {
        if w >= 0 {
            seq![t.subrange(w, t.len() as int)]
        } else {
            Seq::empty()
        }
    } else if is_space(t[k]) {
        if w >= 0 {
            seq![t.subrange(w, k)] + words_from(t, -1, k + 1)
        } else {
            words_from(t, -1, k + 1)
        }
    } else {
        words_from(t, if w >= 0 { w } else { k }, k + 1)
    }
}

/// The whitespace-separated words of a line.
pub open spec fn words_of(t: Seq<u8>) -> Seq<Seq<u8>> {
    words_from(t, -1, 0)
}

/// A pair of positions, read as the range `start..end` of a text.
pub open spec fn span(text: Seq<u8>, r: (usize, usize)) -> Seq<u8> {
    text.subrange(r.0 as int, r.1 as int)
}

/// `r` holds the ranges of the pieces `w` of `text`, in order.
pub open spec fn spans_are(text: Seq<u8>, r: Seq<(usize, usize)>, w: Seq<Seq<u8>>) -> bool {
    r.len() == w.len() && forall|k: int| 0 <= k < r.len() ==> span(text, #[trigger] r[k]) == w[k]
}

pub open spec fn spans_within(r: Seq<(usize, usize)>, lo: int, hi: int) -> bool {
    forall|k: int| 0 <= k < r.len() ==> lo <= (#[trigger] r[k]).0 <= r[k].1 <= hi
}

/// The ranges of the lines of `text`.
pub fn split_lines(text: &[u8]) -> (r: Vec<(usize, usize)>)
    ensures
        spans_within(r@, 0, text@.len() as int),
        spans_are(text@, r@, lines_of(text@)),
{
    let ghost t = text@;
    let mut r: Vec<(usize, usize)> = Vec::new();
    let mut start: usize = 0;
    let mut i: usize = 0;
    while i < text.len()
        invariant
            t == text@,
            start <= i <= t.len(),
            spans_within(r@, 0, t.len() as int),
            r@.map_values(|p: (usize, usize)| span(t, p)) + lines_from(t, start as int, i as int)
                == lines_of(t),
        decreases t.len() - i,
    {
        if text[i] == 10 {
            let ghost old_r = r@;
            r.push((start, i));
            assert(r@.map_values(|p: (usize, usize)| span(t, p)) =~= old_r.map_values(
                |p: (usize, usize)| span(t, p),
            ) + seq![t.subrange(start as int, i as int)]);
            assert(r@.map_values(|p: (usize, usize)| span(t, p)) + lines_from(t, i + 1, i + 1)
                =~= old_r.map_values(|p: (usize, usize)| span(t, p)) + lines_from(t, start as int, i as int));
            start = i + 1;
        }
        i = i + 1;
    }
    if start < text.len() {
        let ghost old_r = r@;
        r.push((start, text.len()));
        assert(r@.map_values(|p: (usize, usize)| span(t, p)) =~= old_r.map_values(
            |p: (usize, usize)| span(t, p),
        ) + lines_from(t, start as int, i as int));
    } else {
        assert(r@.map_values(|p: (usize, usize)| span(t, p)) =~= r@.map_values(
            |p: (usize, usize)| span(t, p),
        ) + lines_from(t, start as int, i as int));
    }
    assert forall|k: int| 0 <= k < r@.len() implies span(text@, #[trigger] r@[k]) == lines_of(text@)[k] by {
        assert(r@.map_values(|p: (usize, usize)| span(t, p))[k] == span(t, r@[k]));
    }
    r
}

/// The ranges of the words in `text[start..end]`.
pub fn split_words(text: &[u8], start: usize, end: usize) -> (r: Vec<(usize, usize)>)
    requires
        start <= end <= text@.len(),
    ensures
        spans_within(r@, start as int, end as int),
        spans_are(text@, r@, words_of(text@.subrange(start as int, end as int))),
{
    let ghost t = text@.subrange(start as int, end as int);
    let ghost f = |p: (usize, usize)| text@.subrange(p.0 as int, p.1 as int);
    let mut r: Vec<(usize, usize)> = Vec::new();
    let mut in_word = false;
    let mut w: usize = start;
    let mut i: usize = start;
    while i < end
        invariant
            t == text@.subrange(start as int, end as int),
            f == (|p: (usize, usize)| text@.subrange(p.0 as int, p.1 as int)),
            start <= w <= i <= end <= text@.len(),
            spans_within(r@, start as int, end as int),
            r@.map_values(f) + words_from(
                t,
                if in_word { w - start } else { -1 },
                i - start,
            ) == words_of(t),
        decreases end - i,
    {
        let b = text[i];
        assert(t[i - start] == b);
        if b == 32 || b == 9 || b == 13 || b == 11 || b == 12 {
            if in_word {
                let ghost old_r = r@;
                r.push((w, i));
                assert(t.subrange(w - start, i - start) =~= f((w, i)));
                assert(r@.map_values(f) =~= old_r.map_values(f) + seq![f((w, i))]);
                assert(r@.map_values(f) + words_from(t, -1, i - start + 1) =~= old_r.map_values(f)
                    + (seq![f((w, i))] + words_from(t, -1, i - start + 1)));
                in_word = false;
            }
        } else if !in_word {
            in_word = true;
            w = i;
        }
        i = i + 1;
    }
    if in_word {
        let ghost old_r = r@;
        r.push((w, end));
        assert(t.subrange(w - start, t.len() as int) =~= f((w, end)));
        assert(r@.map_values(f) =~= old_r.map_values(f) + seq![f((w, end))]);
    }
    assert(r@.map_values(f) =~= r@.map_values(f) + Seq::<Seq<u8>>::empty());
    assert forall|k: int|
        0 <= k < r@.len() implies span(text@, #[trigger] r@[k]) == words_of(t)[k] by {
        assert(r@.map_values(f)[k] == f(r@[k]));
    }
    r
}

} // verus!
