//! Text as characters: byte-order-mark stripping and line splitting with the
//! semantics of `str::lines` (split at `\n`, a `\r` before a `\n` dropped,
//! no empty line after a final line ending).
use vstd::prelude::*;

verus! {

pub const BOM: char = '\u{feff}';

/// The characters of `text`.
pub fn chars_of(text: &str) -> (r: Vec<char>)
    ensures
        r@ == text@,
{
    let mut r: Vec<char> = Vec::new();
    for c in it: text.chars()
        invariant
            it.seq() == text@,
            r@ == it.seq().take(it.index() as int),
    {
        proof {
            assert(it.seq().take(it.index() as int + 1) == it.seq().take(it.index() as int).push(c));
        }
        r.push(c);
    }
    r
}

/// `s` without one leading byte-order mark.
pub open spec fn strip_bom(s: Seq<char>) -> Seq<char> {
    if s.len() > 0 && s[0] == BOM { s.skip(1) } else { s }
}

/// The pieces of `s` between `\n` characters (one more than there are `\n`s).
pub open spec fn pieces(s: Seq<char>) -> Seq<Seq<char>>
    decreases s.len(),
{
    if s.len() == 0 {
        seq![Seq::empty()]
    } else {
        let p = pieces(s.drop_last());
        if s.last() == '\n' {
            p.push(Seq::empty())
        } else {
            p.update(p.len() - 1, p.last().push(s.last()))
        }
    }
}

pub proof fn lemma_pieces_nonempty(s: Seq<char>)
    ensures
        pieces(s).len() >= 1,
    decreases s.len(),
{
    if s.len() > 0 {
        lemma_pieces_nonempty(s.drop_last());
    }
}

pub proof fn lemma_pieces_bounded(s: Seq<char>)
    ensures
        pieces(s).len() <= s.len() + 1,
        forall|i: int| 0 <= i < pieces(s).len() ==> #[trigger] pieces(s)[i].len() <= s.len(),
    decreases s.len(),
{
    lemma_pieces_nonempty(s);
    if s.len() > 0 {
        lemma_pieces_bounded(s.drop_last());
        lemma_pieces_nonempty(s.drop_last());
    }
}

/// `l` without one trailing carriage return.
pub open spec fn strip_cr(l: Seq<char>) -> Seq<char> {
    if l.len() > 0 && l.last() == '\r' { l.drop_last() } else { l }
}

/// The lines of `s` as `str::lines` yields them.
pub open spec fn lines(s: Seq<char>) -> Seq<Seq<char>> {
    let p = pieces(s);
    let count = if p.last().len() == 0 { p.len() - 1 } else { p.len() as int };
    Seq::new(count as nat, |i: int| if i < p.len() - 1 { strip_cr(p[i]) } else { p[i] })
}

pub proof fn lemma_lines_bounded(s: Seq<char>)
    ensures
        lines(s).len() <= s.len() + 1,
        forall|i: int| 0 <= i < lines(s).len() ==> #[trigger] lines(s)[i].len() <= s.len(),
{
    lemma_pieces_bounded(s);
    lemma_pieces_nonempty(s);
    assert forall|i: int| 0 <= i < lines(s).len() implies #[trigger] lines(s)[i].len() <= s.len() by {
        assert(pieces(s)[i].len() <= s.len());
    }
}

/// The contents of a vector of lines.
pub open spec fn lines_view(v: Seq<Vec<char>>) -> Seq<Seq<char>> {
    Seq::new(v.len(), |i: int| v[i]@)
}

/// Split `s` (from `start` on) into lines.
pub fn split_lines(s: &Vec<char>, start: usize) -> (r: Vec<Vec<char>>)
    requires
        start <= s@.len(),
    ensures
        lines_view(r@) == lines(s@.skip(start as int)),
{
    let ghost t = s@.skip(start as int);
    let mut out: Vec<Vec<char>> = Vec::new();
    let mut cur: Vec<char> = Vec::new();
    let mut i: usize = start;
    proof {
        assert(t.take(0) =~= Seq::<char>::empty());
    }
    while i < s.len()
        invariant
            start <= i <= s@.len(),
            t == s@.skip(start as int),
            pieces(t.take(i - start)).len() == out@.len() + 1,
            cur@ == pieces(t.take(i - start)).last(),
            forall|j: int| 0 <= j < out@.len() ==> #[trigger] out@[j]@ == strip_cr(pieces(t.take(i - start))[j]),
        decreases s@.len() - i,
    {
        let c = s[i];
        let ghost before = t.take(i - start);
        proof {
            assert(t.take(i - start + 1).drop_last() == before);
            assert(t.take(i - start + 1).last() == c);
        }
        if c == '\n' {
            let mut line = cur;
            let len = line.len();
            if len > 0 && line[len - 1] == '\r' {
                line.pop();
            }
            out.push(line);
            cur = Vec::new();
            proof {
                assert(cur@ == Seq::<char>::empty());
            }
        } else {
            cur.push(c);
        }
        i += 1;
        proof {
            lemma_pieces_nonempty(before);
        }
    }
    proof {
        assert(t.take(i - start) == t);
        lemma_pieces_nonempty(t);
    }
    let ghost terminated = out@;
    if cur.len() > 0 {
        out.push(cur);
    }
    proof {
        let p = pieces(t);
        assert(lines_view(out@) =~= lines(t)) by {
            assert forall|j: int| 0 <= j < out@.len() implies #[trigger] lines_view(out@)[j] == lines(t)[j] by {
                if j < terminated.len() {
                    assert(out@[j] == terminated[j]);
                }
            }
        }
    }
    out
}

/// Index just past a leading byte-order mark, if any.
pub fn bom_len(s: &Vec<char>) -> (r: usize)
    ensures
        s@.skip(r as int) == strip_bom(s@),
        r <= s@.len(),
{
    if s.len() > 0 && s[0] == BOM { 1 } else {
        proof { assert(s@.skip(0) == s@); }
        0
    }
}

/// The lines of `text` after one leading byte-order mark is dropped.
pub fn text_lines(text: &str) -> (r: Vec<Vec<char>>)
    ensures
        lines_view(r@) == lines(strip_bom(text@)),
{
    let chars = chars_of(text);
    let start = bom_len(&chars);
    split_lines(&chars, start)
}

} // verus!
