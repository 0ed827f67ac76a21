//! Document chunking for retrieval pipelines.
//!
//! - [`FixedSizeChunker`] splits by character count with overlap.
//! - [`SentenceChunker`] splits on `.`, `!`, `?` and groups sentences.
//! - [`RecursiveChunker`] splits paragraphs, then sentences, then characters.

use vstd::prelude::*;
use crate::text::{lemma_trim_range, lemma_trim_empty, is_ws, chars_of, string_from_range, string_from_chars, trim, trim_bounds, views, push_char};

verus! {

// ---------------------------------------------------------------------------
// Specifications
// ---------------------------------------------------------------------------

/// Windows of at most `size` characters starting at `start`, `start + step`, ...,
/// the last one ending at the end of `cs`.
pub open spec fn windows(cs: Seq<char>, start: nat, size: nat, step: nat) -> Seq<Seq<char>>
    decreases cs.len() - start,
{
    if start >= cs.len() {
        Seq::empty()
    } else {
        let end: nat = if start + size < cs.len() { start + size } else { cs.len() };
        let w = cs.subrange(start as int, end as int);
        if end == cs.len() || step == 0 || start + step >= cs.len() {
            seq![w]
        } else {
            seq![w] + windows(cs, start + step, size, step)
        }
    }
}

/// The smaller of two integers.
pub open spec fn min_int(a: int, b: int) -> int {
    if a <= b { a } else { b }
}

/// What `FixedSizeChunker::chunk` returns for `text`.
pub open spec fn fixed_chunks(text: Seq<char>, size: nat, overlap: nat) -> Seq<Seq<char>> {
    if text.len() == 0 {
        Seq::empty()
    } else if text.len() <= size {
        seq![text]
    } else {
        windows(text, 0, size, (size - overlap) as nat)
    }
}

/// Whether `c` ends a sentence.
pub open spec fn is_delim(c: char) -> bool {
    c == '.' || c == '!' || c == '?'
}

/// Sentences of `s`, given the pending characters `cur` of the current one.
pub open spec fn sentences_from(s: Seq<char>, cur: Seq<char>) -> Seq<Seq<char>>
    decreases s.len(),
{
    if s.len() == 0 {
        let t = trim(cur);
        if t.len() == 0 { Seq::empty() } else { seq![t] }
    } else {
        let cur2 = cur.push(s[0]);
        if is_delim(s[0]) {
            let t = trim(cur2);
            let head: Seq<Seq<char>> = if t.len() == 0 { Seq::empty() } else { seq![t] };
            head + sentences_from(s.drop_first(), Seq::empty())
        } else {
            sentences_from(s.drop_first(), cur2)
        }
    }
}

/// The trimmed, non-empty sentences of `s`, each ending at `.`, `!` or `?`
/// (the last one may end at the end of the text).
pub open spec fn sentences(s: Seq<char>) -> Seq<Seq<char>> {
    sentences_from(s, Seq::empty())
}

/// Words joined with single spaces.
pub open spec fn join_space(ws: Seq<Seq<char>>) -> Seq<char>
    decreases ws.len(),
{
    if ws.len() == 0 {
        Seq::empty()
    } else if ws.len() == 1 {
        ws[0]
    } else {
        join_space(ws.drop_last()) + seq![' '] + ws.last()
    }
}

/// Consecutive groups of `n` items (the last may be shorter), each joined
/// with spaces.
pub open spec fn group_join(ws: Seq<Seq<char>>, n: nat) -> Seq<Seq<char>>
    decreases ws.len(),
{
    if ws.len() == 0 || n == 0 {
        Seq::empty()
    } else if ws.len() <= n {
        seq![join_space(ws)]
    } else {
        seq![join_space(ws.take(n as int))] + group_join(ws.skip(n as int), n)
    }
}

/// What `SentenceChunker::chunk` returns for `text`.
pub open spec fn sentence_chunks(text: Seq<char>, n: nat) -> Seq<Seq<char>> {
    group_join(sentences(text), n)
}

/// Pieces of `s` between occurrences of `"\n\n"`, scanning left to right,
/// given the pending characters `cur` of the current piece.
pub open spec fn split_paras_from(s: Seq<char>, cur: Seq<char>) -> Seq<Seq<char>>
    decreases s.len(),
{
    if s.len() == 0 {
        seq![cur]
    } else if s.len() >= 2 && s[0] == '\n' && s[1] == '\n' {
        seq![cur] + split_paras_from(s.skip(2), Seq::empty())
    } else {
        split_paras_from(s.drop_first(), cur.push(s[0]))
    }
}

/// What `str::split("\n\n")` yields.
pub open spec fn split_paras(s: Seq<char>) -> Seq<Seq<char>> {
    split_paras_from(s, Seq::empty())
}

/// Emit a sentence buffer: as is if it fits, else in fixed-size pieces.
pub open spec fn flush(buf: Seq<char>, max: nat) -> Seq<Seq<char>> {
    if buf.len() == 0 {
        Seq::empty()
    } else if buf.len() <= max {
        seq![buf]
    } else {
        fixed_chunks(buf, max, 0)
    }
}

/// Pack sentences greedily into buffers of at most `max` characters.
pub open spec fn pack(sents: Seq<Seq<char>>, buf: Seq<char>, max: nat) -> Seq<Seq<char>>
    decreases sents.len(),
{
    if sents.len() == 0 {
        flush(buf, max)
    } else {
        let s = sents[0];
        if buf.len() + s.len() + 1 <= max {
            let nb = if buf.len() == 0 { s } else { buf + seq![' '] + s };
            pack(sents.drop_first(), nb, max)
        } else {
            flush(buf, max) + pack(sents.drop_first(), s, max)
        }
    }
}

/// Chunks of one trimmed paragraph.
pub open spec fn para_chunks(t: Seq<char>, max: nat) -> Seq<Seq<char>> {
    if t.len() == 0 {
        Seq::empty()
    } else if t.len() <= max {
        seq![t]
    } else {
        pack(sentences(t), Seq::empty(), max)
    }
}

/// Chunks of a list of paragraphs, each trimmed first.
pub open spec fn paras_chunks(ps: Seq<Seq<char>>, max: nat) -> Seq<Seq<char>>
    decreases ps.len(),
{
    if ps.len() == 0 {
        Seq::empty()
    } else {
        para_chunks(trim(ps[0]), max) + paras_chunks(ps.drop_first(), max)
    }
}

/// What `RecursiveChunker::chunk` returns for `text`.
pub open spec fn recursive_chunks(text: Seq<char>, max: nat) -> Seq<Seq<char>> {
    if text.len() == 0 {
        Seq::empty()
    } else {
        paras_chunks(split_paras(text), max)
    }
}

/// The views of a sequence of character vectors.
pub open spec fn vviews(v: Seq<Vec<char>>) -> Seq<Seq<char>> {
    v.map_values(|x: Vec<char>| x@)
}

proof fn lemma_views_push(v: Seq<String>, x: String)
    ensures
        views(v.push(x)) == views(v).push(x@),
{
    assert(views(v.push(x)) =~= views(v).push(x@));
}

proof fn lemma_skip_succ(s: Seq<char>, i: int)
    requires
        0 <= i < s.len(),
    ensures
        s.skip(i)[0] == s[i],
        s.skip(i).drop_first() == s.skip(i + 1),
        s.skip(i).len() > 0,
{
    assert(s.skip(i).drop_first() =~= s.skip(i + 1));
}

// ---------------------------------------------------------------------------
// The chunking interface
// ---------------------------------------------------------------------------

/// A document chunking strategy. Implementations return no chunks for
/// empty input.
pub trait Chunker {
    /// Split `text` into a list of chunks.
    fn chunk(&self, text: &str) -> Vec<String>;
}

// ---------------------------------------------------------------------------
// FixedSizeChunker
// ---------------------------------------------------------------------------

/// Splits text by character count with a configurable overlap.
pub struct FixedSizeChunker {
    chunk_size: usize,
    overlap: usize,
}

impl FixedSizeChunker {
    /// Characters per chunk.
    pub closed spec fn size(&self) -> nat {
        self.chunk_size as nat
    }

    /// Characters shared by consecutive chunks.
    pub closed spec fn spec_overlap(&self) -> nat {
        self.overlap as nat
    }

    /// The overlap is smaller than the chunk size.
    #[verifier::type_invariant]
    spec fn wf(&self) -> bool {
        self.overlap < self.chunk_size
    }

    /// Create a chunker. The overlap must be smaller than the chunk size.
    pub fn new(chunk_size: usize, overlap: usize) -> (r: Self)
        requires
            overlap < chunk_size,
        ensures
            r.size() == chunk_size,
            r.spec_overlap() == overlap,
    {
        FixedSizeChunker { chunk_size, overlap }
    }

}

impl Chunker for FixedSizeChunker {
    /// Split `text` into windows of `chunk_size` characters, each starting
    /// `chunk_size - overlap` characters after the previous one.
    fn chunk(&self, text: &str) -> (r: Vec<String>)
        ensures
            views(r@) == fixed_chunks(text@, self.size(), self.spec_overlap()),
    {
        proof {
            use_type_invariant(self);
        }
        if text.is_empty() {
            let r: Vec<String> = Vec::new();
            proof {
                assert(views(r@) =~= Seq::<Seq<char>>::empty());
            }
            return r;
        }
        let chars = chars_of(text);
        let r = chunk_chars(chars.as_slice(), self.chunk_size, self.overlap);
        proof {
            if text@.len() <= self.size() {
                assert(text@.subrange(0, text@.len() as int) =~= text@);
            }
        }
        r
    }
}

/// Fixed-size chunks of a non-empty character slice.
fn chunk_chars(chars: &[char], size: usize, overlap: usize) -> (r: Vec<String>)
    requires
        overlap < size,
        chars@.len() > 0,
    ensures
        views(r@) == windows(chars@, 0, size as nat, (size - overlap) as nat),
{
    let total = chars.len();
    let step = size - overlap;
    let mut chunks: Vec<String> = Vec::new();
    let mut start: usize = 0;
    loop
        invariant
            total == chars@.len(),
            step == size - overlap,
            step > 0,
            start < total,
            views(chunks@) + windows(chars@, start as nat, size as nat, step as nat)
                == windows(chars@, 0, size as nat, step as nat),
        decreases total - start,
    {
        let end = if size < total - start { start + size } else { total };
        let piece = string_from_range(chars, start, end);
        let ghost before = chunks@;
        chunks.push(piece);
        proof {
            lemma_views_push(before, piece);
        }
        if end == total {
            proof {
                assert(views(chunks@) =~= views(before) + windows(chars@, start as nat, size as nat, step as nat));
            }
            return chunks;
        }
        proof {
            assert(views(chunks@) + windows(chars@, (start + step) as nat, size as nat, step as nat)
                =~= views(before) + windows(chars@, start as nat, size as nat, step as nat));
        }
        start = start + step;
    }
}


// ---------------------------------------------------------------------------
// Character-vector helpers
// ---------------------------------------------------------------------------

fn vec_from_range(cs: &[char], from: usize, to: usize) -> (r: Vec<char>)
    requires
        from <= to <= cs@.len(),
    ensures
        r@ == cs@.subrange(from as int, to as int),
{
    let mut out: Vec<char> = Vec::new();
    let mut i: usize = from;
    while i < to
        invariant
            from <= i <= to <= cs@.len(),
            out@ == cs@.subrange(from as int, i as int),
        decreases to - i,
    {
        out.push(cs[i]);
        proof {
            assert(cs@.subrange(from as int, i as int + 1) =~= cs@.subrange(from as int, i as int).push(cs@[i as int]));
        }
        i = i + 1;
    }
    out
}

fn append_chars(out: &mut Vec<char>, cs: &[char])
    ensures
        final(out)@ == old(out)@ + cs@,
{
    let ghost start = out@;
    let mut i: usize = 0;
    while i < cs.len()
        invariant
            i <= cs@.len(),
            out@ == start + cs@.take(i as int),
        decreases cs@.len() - i,
    {
        out.push(cs[i]);
        proof {
            assert(start + cs@.take(i as int + 1) =~= (start + cs@.take(i as int)).push(cs@[i as int]));
        }
        i = i + 1;
    }
    proof {
        assert(cs@.take(cs@.len() as int) =~= cs@);
    }
}

proof fn lemma_vviews_push(v: Seq<Vec<char>>, x: Vec<char>)
    ensures
        vviews(v.push(x)) == vviews(v).push(x@),
{
    assert(vviews(v.push(x)) =~= vviews(v).push(x@));
}

/// Push the trimmed `cur` onto `out` if it is not empty.
fn push_trimmed(out: &mut Vec<Vec<char>>, cur: &[char])
    ensures
        vviews(final(out)@) == vviews(old(out)@) + (if trim(cur@).len() == 0 {
            Seq::<Seq<char>>::empty()
        } else {
            seq![trim(cur@)]
        }),
{
    let (lo, hi) = trim_bounds(cur);
    if lo < hi {
        let t = vec_from_range(cur, lo, hi);
        let ghost before = out@;
        out.push(t);
        proof {
            lemma_vviews_push(before, t);
            assert(vviews(before).push(t@) =~= vviews(before) + seq![trim(cur@)]);
        }
    } else {
        proof {
            assert(vviews(out@) =~= vviews(out@) + Seq::<Seq<char>>::empty());
        }
    }
}

/// Sentences of a character slice.
fn sentence_list(chars: &[char]) -> (r: Vec<Vec<char>>)
    ensures
        vviews(r@) == sentences(chars@),
{
    let mut out: Vec<Vec<char>> = Vec::new();
    let mut cur: Vec<char> = Vec::new();
    let mut i: usize = 0;
    proof {
        assert(chars@.skip(0) =~= chars@);
        assert(vviews(out@) =~= Seq::<Seq<char>>::empty());
    }
    while i < chars.len()
        invariant
            i <= chars@.len(),
            vviews(out@) + sentences_from(chars@.skip(i as int), cur@) == sentences(chars@),
        decreases chars@.len() - i,
    {
        proof {
            lemma_skip_succ(chars@, i as int);
        }
        let c = chars[i];
        cur.push(c);
        if c == '.' || c == '!' || c == '?' {
            let ghost ob = vviews(out@);
            let ghost cb = cur@;
            push_trimmed(&mut out, cur.as_slice());
            cur = Vec::new();
            proof {
                assert(cur@ =~= Seq::<char>::empty());
                let head: Seq<Seq<char>> = if trim(cb).len() == 0 { Seq::empty() } else { seq![trim(cb)] };
                assert(ob + (head + sentences_from(chars@.skip(i as int + 1), Seq::empty()))
                    =~= (ob + head) + sentences_from(chars@.skip(i as int + 1), Seq::empty()));
            }
        }
        i = i + 1;
    }
    let ghost ob = vviews(out@);
    push_trimmed(&mut out, cur.as_slice());
    proof {
        assert(chars@.skip(chars@.len() as int) =~= Seq::<char>::empty());
    }
    out
}

/// Join `ws[from..to]` with single spaces.
fn join_range(ws: &[Vec<char>], from: usize, to: usize) -> (r: Vec<char>)
    requires
        from < to <= ws@.len(),
    ensures
        r@ == join_space(vviews(ws@).subrange(from as int, to as int)),
{
    let ghost v = vviews(ws@);
    let mut acc: Vec<char> = Vec::new();
    append_chars(&mut acc, ws[from].as_slice());
    proof {
        assert(v.subrange(from as int, from as int + 1) =~= seq![ws@[from as int]@]);
    }
    let mut k: usize = from + 1;
    while k < to
        invariant
            from < k <= to <= ws@.len(),
            v == vviews(ws@),
            acc@ == join_space(v.subrange(from as int, k as int)),
        decreases to - k,
    {
        acc.push(' ');
        append_chars(&mut acc, ws[k].as_slice());
        proof {
            let a = v.subrange(from as int, k as int + 1);
            assert(a.drop_last() =~= v.subrange(from as int, k as int));
            assert(a.last() == ws@[k as int]@);
            assert(acc@ =~= join_space(v.subrange(from as int, k as int)) + seq![' '] + ws@[k as int]@);
        }
        k = k + 1;
    }
    acc
}

// ---------------------------------------------------------------------------
// SentenceChunker
// ---------------------------------------------------------------------------

/// Splits text on sentence boundaries into groups of sentences.
pub struct SentenceChunker {
    sentences_per_chunk: usize,
}

impl SentenceChunker {
    /// Sentences per chunk.
    pub closed spec fn per_chunk(&self) -> nat {
        self.sentences_per_chunk as nat
    }

    /// At least one sentence per chunk.
    #[verifier::type_invariant]
    spec fn wf(&self) -> bool {
        self.sentences_per_chunk > 0
    }

    /// Create a chunker grouping `sentences_per_chunk` sentences (must be > 0).
    pub fn new(sentences_per_chunk: usize) -> (r: Self)
        requires
            sentences_per_chunk > 0,
        ensures
            r.per_chunk() == sentences_per_chunk,
    {
        SentenceChunker { sentences_per_chunk }
    }

    /// Split text into trimmed, non-empty sentences ending at `.`, `!` or `?`.
    pub fn split_sentences(text: &str) -> (r: Vec<String>)
        ensures
            views(r@) == sentences(text@),
    {
        let chars = chars_of(text);
        let list = sentence_list(chars.as_slice());
        let mut out: Vec<String> = Vec::new();
        let mut i: usize = 0;
        while i < list.len()
            invariant
                i <= list@.len(),
                views(out@) == vviews(list@).take(i as int),
            decreases list@.len() - i,
        {
            let s = string_from_chars(list[i].as_slice());
            let ghost before = out@;
            out.push(s);
            proof {
                lemma_views_push(before, s);
                assert(vviews(list@).take(i as int + 1) =~= vviews(list@).take(i as int).push(list@[i as int]@));
            }
            i = i + 1;
        }
        proof {
            assert(vviews(list@).take(list@.len() as int) =~= vviews(list@));
        }
        out
    }

}

impl Chunker for SentenceChunker {
    /// Group the sentences of `text` `sentences_per_chunk` at a time, each
    /// group joined with spaces.
    fn chunk(&self, text: &str) -> (r: Vec<String>)
        ensures
            views(r@) == sentence_chunks(text@, self.per_chunk()),
    {
        proof {
            use_type_invariant(self);
        }
        let chars = chars_of(text);
        let list = sentence_list(chars.as_slice());
        let ghost sv = vviews(list@);
        let n = self.sentences_per_chunk;
        let total = list.len();
        let mut out: Vec<String> = Vec::new();
        let mut i: usize = 0;
        proof {
            assert(sv.skip(0) =~= sv);
            assert(views(out@) =~= Seq::<Seq<char>>::empty());
        }
        while i < total
            invariant
                total == list@.len(),
                sv == vviews(list@),
                n > 0,
                i <= total,
                views(out@) + group_join(sv.skip(i as int), n as nat) == group_join(sv, n as nat),
            decreases total - i,
        {
            let end = if n < total - i { i + n } else { total };
            let joined = join_range(list.as_slice(), i, end);
            let s = string_from_chars(joined.as_slice());
            let ghost before = out@;
            out.push(s);
            proof {
                lemma_views_push(before, s);
                let rest = sv.skip(i as int);
                if end == total {
                    assert(rest =~= sv.subrange(i as int, total as int));
                    assert(views(out@) =~= views(before) + group_join(rest, n as nat));
                    assert(sv.skip(end as int) =~= Seq::<Seq<char>>::empty());
                } else {
                    assert(rest.take(n as int) =~= sv.subrange(i as int, end as int));
                    assert(rest.skip(n as int) =~= sv.skip(end as int));
                    assert(views(out@) + group_join(sv.skip(end as int), n as nat)
                        =~= views(before) + group_join(rest, n as nat));
                }
            }
            i = end;
        }
        proof {
            assert(sv.skip(total as int) =~= Seq::<Seq<char>>::empty());
            assert(views(out@) + Seq::<Seq<char>>::empty() =~= views(out@));
        }
        out
    }
}


// ---------------------------------------------------------------------------
// RecursiveChunker
// ---------------------------------------------------------------------------

/// Pieces of a character slice between occurrences of `"\n\n"`.
fn split_paragraphs(chars: &[char]) -> (r: Vec<Vec<char>>)
    ensures
        vviews(r@) == split_paras(chars@),
{
    let n = chars.len();
    let mut out: Vec<Vec<char>> = Vec::new();
    let mut cur: Vec<char> = Vec::new();
    let mut i: usize = 0;
    proof {
        assert(chars@.skip(0) =~= chars@);
        assert(vviews(out@) =~= Seq::<Seq<char>>::empty());
    }
    while i < n
        invariant
            n == chars@.len(),
            i <= n,
            vviews(out@) + split_paras_from(chars@.skip(i as int), cur@) == split_paras(chars@),
        decreases n - i,
    {
        proof {
            lemma_skip_succ(chars@, i as int);
        }
        if i + 1 < n && chars[i] == '\n' && chars[i + 1] == '\n' {
            let ghost ob = vviews(out@);
            let ghost cb = cur@;
            let ghost before = out@;
            let ghost cv = cur;
            out.push(cur);
            cur = Vec::new();
            proof {
                lemma_vviews_push(before, cv);
                assert(vviews(out@) =~= ob.push(cb));
                assert(chars@.skip(i as int).skip(2) =~= chars@.skip(i as int + 2));
                assert(chars@.skip(i as int)[1] == chars@[i as int + 1]);
                assert(cur@ =~= Seq::<char>::empty());
                assert(ob + (seq![cb] + split_paras_from(chars@.skip(i as int + 2), Seq::empty()))
                    =~= ob.push(cb) + split_paras_from(chars@.skip(i as int + 2), Seq::empty()));
            }
            i = i + 2;
        } else {
            proof {
                if i + 1 < n {
                    assert(chars@.skip(i as int)[1] == chars@[i as int + 1]);
                }
            }
            cur.push(chars[i]);
            i = i + 1;
        }
    }
    let ghost ob = vviews(out@);
    let ghost cb = cur@;
    let ghost before = out@;
    let ghost cv = cur;
    out.push(cur);
    proof {
        lemma_vviews_push(before, cv);
        assert(chars@.skip(n as int) =~= Seq::<char>::empty());
        assert(vviews(out@) =~= ob.push(cb));
        assert(ob + seq![cb] =~= ob.push(cb));
    }
    out
}

/// Emit a buffer: as is if it fits in `max`, else in `max`-sized pieces.
fn flush_buf(out: &mut Vec<String>, buf: &[char], max: usize)
    requires
        max > 0,
    ensures
        views(final(out)@) == views(old(out)@) + flush(buf@, max as nat),
{
    if buf.len() == 0 {
        proof {
            assert(views(out@) + Seq::<Seq<char>>::empty() =~= views(out@));
        }
    } else if buf.len() <= max {
        let s = string_from_chars(buf);
        let ghost before = out@;
        out.push(s);
        proof {
            lemma_views_push(before, s);
            assert(views(before).push(s@) =~= views(before) + seq![buf@]);
        }
    } else {
        let pieces = chunk_chars(buf, max, 0);
        let ghost before = out@;
        let mut i: usize = 0;
        while i < pieces.len()
            invariant
                i <= pieces@.len(),
                views(out@) == views(before) + views(pieces@).take(i as int),
            decreases pieces@.len() - i,
        {
            let ghost ob = out@;
            out.push(pieces[i].clone());
            proof {
                lemma_views_push(ob, pieces@[i as int]);
                assert(views(pieces@).take(i as int + 1) =~= views(pieces@).take(i as int).push(pieces@[i as int]@));
                assert(views(before) + views(pieces@).take(i as int + 1) =~= (views(before) + views(pieces@).take(i as int)).push(pieces@[i as int]@));
            }
            i = i + 1;
        }
        proof {
            assert(views(pieces@).take(pieces@.len() as int) =~= views(pieces@));
        }
    }
}

/// Chunks of one trimmed paragraph.
fn paragraph_chunks(out: &mut Vec<String>, t: &[char], max: usize)
    requires
        max > 0,
    ensures
        views(final(out)@) == views(old(out)@) + para_chunks(t@, max as nat),
{
    if t.len() == 0 {
        proof {
            assert(views(out@) + Seq::<Seq<char>>::empty() =~= views(out@));
        }
        return;
    }
    if t.len() <= max {
        let s = string_from_chars(t);
        let ghost before = out@;
        out.push(s);
        proof {
            lemma_views_push(before, s);
            assert(views(before).push(s@) =~= views(before) + seq![t@]);
        }
        return;
    }
    let sents = sentence_list(t);
    let ghost sv = vviews(sents@);
    let ghost start = views(out@);
    let mut buf: Vec<char> = Vec::new();
    let mut i: usize = 0;
    proof {
        assert(sv.skip(0) =~= sv);
        assert(start + pack(sv.skip(0), buf@, max as nat) =~= start + pack(sv, Seq::empty(), max as nat));
    }
    while i < sents.len()
        invariant
            max > 0,
            i <= sents@.len(),
            sv == vviews(sents@),
            views(out@) + pack(sv.skip(i as int), buf@, max as nat) == start + pack(sv, Seq::empty(), max as nat),
        decreases sents@.len() - i,
    {
        let ghost rest = sv.skip(i as int);
        proof {
            assert(rest[0] == sents@[i as int]@);
            assert(rest.drop_first() =~= sv.skip(i as int + 1));
        }
        let blen = buf.len();
        let slen = sents[i].len();
        if blen < max && slen < max - blen {
            let ghost bb = buf@;
            if blen > 0 {
                buf.push(' ');
            }
            append_chars(&mut buf, sents[i].as_slice());
            proof {
                if blen == 0 {
                    assert(buf@ =~= sents@[i as int]@);
                } else {
                    assert(buf@ =~= bb + seq![' '] + sents@[i as int]@);
                }
            }
        } else {
            let ghost ob = views(out@);
            let ghost bb = buf@;
            flush_buf(out, buf.as_slice(), max);
            buf = vec_from_range(sents[i].as_slice(), 0, slen);
            proof {
                assert(sents@[i as int]@.subrange(0, slen as int) =~= sents@[i as int]@);
                assert(views(out@) + pack(sv.skip(i as int + 1), buf@, max as nat)
                    =~= ob + (flush(bb, max as nat) + pack(sv.skip(i as int + 1), buf@, max as nat)));
            }
        }
        i = i + 1;
    }
    let ghost ob = views(out@);
    flush_buf(out, buf.as_slice(), max);
    proof {
        assert(sv.skip(sents@.len() as int) =~= Seq::<Seq<char>>::empty());
    }
}

/// Hierarchical chunker: paragraphs, then sentences, then fixed-size pieces.
pub struct RecursiveChunker {
    max_chunk_size: usize,
}

impl RecursiveChunker {
    /// Maximum characters per chunk.
    pub closed spec fn max(&self) -> nat {
        self.max_chunk_size as nat
    }

    /// The maximum is positive.
    #[verifier::type_invariant]
    spec fn wf(&self) -> bool {
        self.max_chunk_size > 0
    }

    /// Create a chunker with the given maximum chunk size (must be > 0).
    pub fn new(max_chunk_size: usize) -> (r: Self)
        requires
            max_chunk_size > 0,
        ensures
            r.max() == max_chunk_size,
    {
        RecursiveChunker { max_chunk_size }
    }

    /// Split by paragraphs (`"\n\n"`), then by sentences, then by characters,
    /// so that no chunk exceeds `max` characters.
    pub fn split_by_level(text: &str, max: usize) -> (r: Vec<String>)
        requires
            max > 0,
        ensures
            views(r@) == paras_chunks(split_paras(text@), max as nat),
    {
        let chars = chars_of(text);
        let paras = split_paragraphs(chars.as_slice());
        let ghost pv = vviews(paras@);
        let mut out: Vec<String> = Vec::new();
        let mut i: usize = 0;
        proof {
            assert(pv.skip(0) =~= pv);
            assert(views(out@) =~= Seq::<Seq<char>>::empty());
        }
        while i < paras.len()
            invariant
                max > 0,
                i <= paras@.len(),
                pv == vviews(paras@),
                views(out@) + paras_chunks(pv.skip(i as int), max as nat) == paras_chunks(pv, max as nat),
            decreases paras@.len() - i,
        {
            let ghost ob = views(out@);
            proof {
                assert(pv.skip(i as int)[0] == paras@[i as int]@);
                assert(pv.skip(i as int).drop_first() =~= pv.skip(i as int + 1));
            }
            let (lo, hi) = trim_bounds(paras[i].as_slice());
            let t = vec_from_range(paras[i].as_slice(), lo, hi);
            paragraph_chunks(&mut out, t.as_slice(), max);
            proof {
                assert(ob + paras_chunks(pv.skip(i as int), max as nat)
                    =~= (ob + para_chunks(t@, max as nat)) + paras_chunks(pv.skip(i as int + 1), max as nat));
            }
            i = i + 1;
        }
        proof {
            assert(pv.skip(paras@.len() as int) =~= Seq::<Seq<char>>::empty());
            assert(views(out@) + Seq::<Seq<char>>::empty() =~= views(out@));
        }
        out
    }

}

impl Chunker for RecursiveChunker {
    /// Chunk `text`; empty input gives no chunks.
    fn chunk(&self, text: &str) -> (r: Vec<String>)
        ensures
            views(r@) == recursive_chunks(text@, self.max()),
    {
        proof {
            use_type_invariant(self);
        }
        if text.is_empty() {
            let r: Vec<String> = Vec::new();
            proof {
                assert(views(r@) =~= Seq::<Seq<char>>::empty());
            }
            return r;
        }
        Self::split_by_level(text, self.max_chunk_size)
    }
}


// ---------------------------------------------------------------------------
// Laws
// ---------------------------------------------------------------------------

/// Every window is non-empty and at most `size` characters long.
proof fn lemma_windows_bounded(cs: Seq<char>, start: nat, size: nat, step: nat)
    requires
        size > 0,
    ensures
        forall|i: int| 0 <= i < windows(cs, start, size, step).len()
            ==> 0 < #[trigger] windows(cs, start, size, step)[i].len() <= size,
    decreases cs.len() - start,
{
    if start < cs.len() {
        let end: nat = if start + size < cs.len() { start + size } else { cs.len() };
        if !(end == cs.len() || step == 0 || start + step >= cs.len()) {
            lemma_windows_bounded(cs, start + step, size, step);
            let w = windows(cs, start, size, step);
            let rest = windows(cs, start + step, size, step);
            assert forall|i: int| 0 <= i < w.len() implies 0 < #[trigger] w[i].len() <= size by {
                if i > 0 {
                    assert(w[i] == rest[i - 1]);
                }
            }
        }
    }
}

/// Each window but the last is full, and its last `size - step` characters
/// are the first `size - step` characters of the next window.
proof fn lemma_windows_overlap(cs: Seq<char>, start: nat, size: nat, step: nat)
    requires
        0 < step <= size,
    ensures
        forall|i: int| 0 <= i && i + 1 < windows(cs, start, size, step).len() ==> {
            &&& (#[trigger] windows(cs, start, size, step)[i]).len() == size
            &&& windows(cs, start, size, step)[i].subrange(step as int, size as int)
                == windows(cs, start, size, step)[i + 1].take(size - step)
        },
    decreases cs.len() - start,
{
    if start < cs.len() {
        let end: nat = if start + size < cs.len() { start + size } else { cs.len() };
        if !(end == cs.len() || start + step >= cs.len()) {
            lemma_windows_overlap(cs, start + step, size, step);
            let w = windows(cs, start, size, step);
            let rest = windows(cs, start + step, size, step);
            assert(w[0] == cs.subrange(start as int, (start + size) as int));
            let end2: nat = if start + step + size < cs.len() { start + step + size } else { cs.len() };
            assert(rest[0] == cs.subrange((start + step) as int, end2 as int));
            assert(w[0].subrange(step as int, size as int) =~= w[1].take(size - step));
            assert forall|i: int| 0 <= i && i + 1 < w.len() implies {
                &&& (#[trigger] w[i]).len() == size
                &&& w[i].subrange(step as int, size as int) == w[i + 1].take(size - step)
            } by {
                if i > 0 {
                    assert(w[i] == rest[i - 1]);
                    assert(w[i + 1] == rest[i]);
                }
            }
        }
    }
}

/// Fixed-size chunks are non-empty and never longer than the chunk size.
pub proof fn law_fixed_chunks_bounded(text: Seq<char>, size: nat, overlap: nat)
    requires
        overlap < size,
    ensures
        forall|i: int| 0 <= i < fixed_chunks(text, size, overlap).len()
            ==> 0 < #[trigger] fixed_chunks(text, size, overlap)[i].len() <= size,
{
    if text.len() > size {
        lemma_windows_bounded(text, 0, size, (size - overlap) as nat);
    }
}

/// Consecutive fixed-size chunks share `overlap` characters: the end of one
/// chunk is the start of the next, and every chunk but the last is full.
pub proof fn law_fixed_chunks_overlap(text: Seq<char>, size: nat, overlap: nat)
    requires
        overlap < size,
    ensures
        forall|i: int| 0 <= i && i + 1 < fixed_chunks(text, size, overlap).len() ==> {
            &&& (#[trigger] fixed_chunks(text, size, overlap)[i]).len() == size
            &&& fixed_chunks(text, size, overlap)[i].subrange(size - overlap, size as int)
                == fixed_chunks(text, size, overlap)[i + 1].take(overlap as int)
        },
{
    if text.len() > size {
        lemma_windows_overlap(text, 0, size, (size - overlap) as nat);
    }
}

/// Chunks joined back: the first in full, each later one without its first
/// `overlap` characters.
pub open spec fn rejoin(ws: Seq<Seq<char>>, overlap: nat) -> Seq<char>
    decreases ws.len(),
{
    if ws.len() == 0 {
        Seq::empty()
    } else if ws.len() == 1 {
        ws[0]
    } else {
        rejoin(ws.drop_last(), overlap) + ws.last().skip(overlap as int)
    }
}

/// Window `j` starts `j` steps in and ends `size` later or at the end; every
/// window but the last ends before the end, the last one at it.
proof fn lemma_windows_shape(cs: Seq<char>, start: nat, size: nat, step: nat)
    requires
        0 < step <= size,
        start < cs.len(),
    ensures
        windows(cs, start, size, step).len() >= 1,
        forall|j: int| 0 <= j < windows(cs, start, size, step).len() ==> #[trigger] windows(cs, start, size, step)[j]
            == cs.subrange(start + j * step, min_int(start + j * step + size, cs.len() as int)),
        forall|j: int| 0 <= j < windows(cs, start, size, step).len() - 1 ==> #[trigger] (start + j * step) + size < cs.len(),
        start + (windows(cs, start, size, step).len() - 1) * step + size >= cs.len(),
    decreases cs.len() - start,
{
    let w = windows(cs, start, size, step);
    if start + size >= cs.len() {
        assert(w.len() == 1);
        assert(w[0] == cs.subrange(start as int, cs.len() as int));
        assert(start + 0 * step == start) by (nonlinear_arith);
        assert forall|j: int| 0 <= j < w.len() implies #[trigger] w[j]
            == cs.subrange(start + j * step, min_int(start + j * step + size, cs.len() as int)) by {
            assert(j == 0);
        }
    } else {
        let rest = windows(cs, start + step, size, step);
        lemma_windows_shape(cs, start + step, size, step);
        assert(w == seq![cs.subrange(start as int, (start + size) as int)] + rest);
        assert forall|j: int| 0 <= j < w.len() implies #[trigger] w[j]
            == cs.subrange(start + j * step, min_int(start + j * step + size, cs.len() as int)) by {
            if j > 0 {
                assert(w[j] == rest[j - 1]);
                assert((start + step) + (j - 1) * step == start + j * step) by (nonlinear_arith);
            }
        }
        assert forall|j: int| 0 <= j < w.len() - 1 implies #[trigger] (start + j * step) + size < cs.len() by {
            if j > 0 {
                assert((start + step) + (j - 1) * step == start + j * step) by (nonlinear_arith);
                assert(((start + step) + (j - 1) * step) + size < cs.len());
            }
        }
        assert((start + step) + (rest.len() - 1) * step == start + (w.len() - 1) * step) by (nonlinear_arith)
            requires
                w.len() == rest.len() + 1,
        ;
    }
}

/// Joining the first `k` windows gives the text up to the end of window
/// `k - 1`.
proof fn lemma_rejoin_windows(cs: Seq<char>, size: nat, overlap: nat, k: int)
    requires
        overlap < size,
        0 < cs.len(),
        1 <= k <= windows(cs, 0, size, (size - overlap) as nat).len(),
    ensures
        rejoin(windows(cs, 0, size, (size - overlap) as nat).take(k), overlap)
            == cs.take(min_int((k - 1) * (size - overlap) + size, cs.len() as int)),
    decreases k,
{
    let step = (size - overlap) as nat;
    let w = windows(cs, 0, size, step);
    lemma_windows_shape(cs, 0, size, step);
    assert(w[k - 1] == cs.subrange(0 + (k - 1) * step, min_int(0 + (k - 1) * step + size, cs.len() as int)));
    if k == 1 {
        assert(w.take(1) =~= seq![w[0]]);
        assert(0 * step == 0);
        assert(w[0] =~= cs.take(min_int((0 * step + size) as int, cs.len() as int)));
    } else {
        lemma_rejoin_windows(cs, size, overlap, k - 1);
        assert(w.take(k).drop_last() =~= w.take(k - 1));
        assert(w.take(k).last() == w[k - 1]);
        assert(0 + (k - 2) * step + size < cs.len());
        assert((k - 2) * step + size == (k - 1) * step + overlap) by (nonlinear_arith)
            requires
                step == size - overlap,
        ;
        assert(0 <= (k - 1) * step) by (nonlinear_arith)
            requires
                k >= 1,
        ;
        assert(cs.take((k - 2) * step + size) + w[k - 1].skip(overlap as int)
            =~= cs.take(min_int((k - 1) * step + size, cs.len() as int)));
    }
}

/// The shape of fixed-size chunks of a text longer than one chunk: chunk
/// `j` holds characters `j * step .. min(j * step + size, len)` with
/// `step = size - overlap`, and there are `ceil((len - size) / step) + 1`
/// chunks (the fewest whose windows reach the end). For every text, joining
/// the chunks without their overlaps gives the text back.
pub proof fn law_fixed_chunks_shape(text: Seq<char>, size: nat, overlap: nat)
    requires
        overlap < size,
    ensures
        rejoin(fixed_chunks(text, size, overlap), overlap) == text,
        text.len() > size ==> ({
            let cs = fixed_chunks(text, size, overlap);
            let step = size - overlap;
            &&& cs.len() >= 2
            &&& (cs.len() - 1) * step + size >= text.len()
            &&& (cs.len() - 2) * step + size < text.len()
            &&& forall|j: int| 0 <= j < cs.len() ==> #[trigger] cs[j]
                == text.subrange(j * step, min_int(j * step + size, text.len() as int))
        }),
{
    let step = (size - overlap) as nat;
    if text.len() == 0 {
    } else if text.len() <= size {
    } else {
        let w = windows(text, 0, size, step);
        lemma_windows_shape(text, 0, size, step);
        if w.len() == 1 {
            assert(0 + 0 * step + size >= text.len());
        }
        assert(0 + (w.len() - 2) * step + size < text.len());
        lemma_rejoin_windows(text, size, overlap, w.len() as int);
        assert(w.take(w.len() as int) =~= w);
        assert(text.take(text.len() as int) =~= text);
        assert forall|j: int| 0 <= j < w.len() implies #[trigger] w[j]
            == text.subrange(j * step, min_int(j * step + size, text.len() as int)) by {
            assert(w[j] == text.subrange(0 + j * step, min_int(0 + j * step + size, text.len() as int)));
        }
    }
}

/// Grouping `n` items at a time gives `ceil(len / n)` groups.
pub proof fn law_group_count(ws: Seq<Seq<char>>, n: nat)
    requires
        n > 0,
    ensures
        group_join(ws, n).len() == (ws.len() + n - 1) / (n as int),
    decreases ws.len(),
{
    if ws.len() == 0 {
        assert((n - 1) / (n as int) == 0) by (nonlinear_arith)
            requires n > 0;
    } else if ws.len() <= n {
        let l = ws.len();
        assert((l + n - 1) / (n as int) == 1) by (nonlinear_arith)
            requires n > 0, 0 < l <= n;
    } else {
        law_group_count(ws.skip(n as int), n);
        let l = ws.len();
        assert((l + n - 1) / (n as int) == (l - n + n - 1) / (n as int) + 1) by (nonlinear_arith)
            requires n > 0, l > n;
    }
}

/// A character at which the sentence splitter ends a sentence.
spec fn sentence_stop(c: char) -> bool {
    c == '.' || c == '!' || c == '?'
}

proof fn lemma_sentences_shape(s: Seq<char>, cur: Seq<char>)
    requires
        forall|j: int| 0 <= j < cur.len() ==> !sentence_stop(#[trigger] cur[j]),
    ensures
        ({
            let ss = sentences_from(s, cur);
            &&& forall|i: int| 0 <= i < ss.len() ==> (#[trigger] ss[i]).len() > 0
            &&& forall|i: int| 0 <= i < ss.len() - 1 ==> sentence_stop((#[trigger] ss[i]).last())
            &&& forall|i: int, j: int| 0 <= i < ss.len() && 0 <= j < ss[i].len() - 1
                ==> !sentence_stop(#[trigger] ss[i][j])
        }),
    decreases s.len(),
{
    if s.len() == 0 {
        let (lo, hi) = lemma_trim_range(cur);
        let t = trim(cur);
        assert forall|j: int| 0 <= j < t.len() implies !sentence_stop(#[trigger] t[j]) by {
            assert(t[j] == cur[lo + j]);
        }
        let ss = sentences_from(s, cur);
        if t.len() > 0 {
            assert(ss == seq![t]);
            assert forall|i: int, j: int| 0 <= i < ss.len() && 0 <= j < ss[i].len() - 1
                implies !sentence_stop(#[trigger] ss[i][j]) by {
                assert(ss[i] == t);
            }
        } else {
            assert(ss.len() == 0);
        }
        assert(forall|i: int| 0 <= i < ss.len() ==> (#[trigger] ss[i]).len() > 0);
        assert(forall|i: int| 0 <= i < ss.len() - 1 ==> sentence_stop((#[trigger] ss[i]).last()));
    } else {
        let cur2 = cur.push(s[0]);
        if is_delim(s[0]) {
            assert(!is_ws(s[0]));
            let (lo, hi) = lemma_trim_range(cur2);
            let t = trim(cur2);
            assert(cur2.last() == s[0]);
            assert forall|j: int| 0 <= j < t.len() - 1 implies !sentence_stop(#[trigger] t[j]) by {
                assert(t[j] == cur2[lo + j]);
                assert(cur2[lo + j] == cur[lo + j]);
            }
            assert(t.last() == cur2[hi - 1]);
            assert(t.len() > 0);
            lemma_sentences_shape(s.drop_first(), Seq::empty());
            let rest = sentences_from(s.drop_first(), Seq::empty());
            let ss = sentences_from(s, cur);
            assert(ss == seq![t] + rest);
            assert forall|i: int| 0 <= i < ss.len() implies (#[trigger] ss[i]).len() > 0 by {
                if i > 0 {
                    assert(ss[i] == rest[i - 1]);
                }
            }
            assert forall|i: int| 0 <= i < ss.len() - 1 implies sentence_stop((#[trigger] ss[i]).last()) by {
                if i > 0 {
                    assert(ss[i] == rest[i - 1]);
                }
            }
            assert forall|i: int, j: int| 0 <= i < ss.len() && 0 <= j < ss[i].len() - 1
                implies !sentence_stop(#[trigger] ss[i][j]) by {
                if i > 0 {
                    assert(ss[i] == rest[i - 1]);
                }
            }
        } else {
            assert forall|j: int| 0 <= j < cur2.len() implies !sentence_stop(#[trigger] cur2[j]) by {
                if j < cur.len() {
                    assert(cur2[j] == cur[j]);
                }
            }
            lemma_sentences_shape(s.drop_first(), cur2);
            assert(sentences_from(s, cur) == sentences_from(s.drop_first(), cur2));
        }
    }
}

proof fn lemma_sentences_no_stop(s: Seq<char>, cur: Seq<char>)
    requires
        forall|j: int| 0 <= j < s.len() ==> !sentence_stop(#[trigger] s[j]),
    ensures
        sentences_from(s, cur) == (if trim(cur + s).len() == 0 { Seq::<Seq<char>>::empty() } else { seq![trim(cur + s)] }),
    decreases s.len(),
{
    if s.len() == 0 {
        assert(cur + s =~= cur);
    } else {
        assert(!sentence_stop(s[0]));
        assert forall|j: int| 0 <= j < s.drop_first().len() implies !sentence_stop(#[trigger] s.drop_first()[j]) by {
            assert(s.drop_first()[j] == s[j + 1]);
        }
        lemma_sentences_no_stop(s.drop_first(), cur.push(s[0]));
        assert(cur.push(s[0]) + s.drop_first() =~= cur + s);
    }
}

/// Number of `.`, `!` and `?` characters in `s`.
pub open spec fn stop_count(s: Seq<char>) -> nat
    decreases s.len(),
{
    if s.len() == 0 {
        0
    } else {
        stop_count(s.drop_first()) + if s[0] == '.' || s[0] == '!' || s[0] == '?' { 1nat } else { 0nat }
    }
}

/// Whether `s` has a non-whitespace character with no `.`, `!` or `?` at or
/// after it: text left over after the last sentence end.
pub open spec fn has_trailing_text(s: Seq<char>) -> bool {
    exists|j: int| 0 <= j < s.len() && !is_ws(#[trigger] s[j])
        && forall|l: int| j <= l < s.len() ==> !(s[l] == '.' || s[l] == '!' || s[l] == '?')
}

spec fn has_non_ws(s: Seq<char>) -> bool {
    exists|j: int| 0 <= j < s.len() && !is_ws(#[trigger] s[j])
}

proof fn lemma_stop_count_zero(s: Seq<char>)
    ensures
        stop_count(s) == 0 <==> forall|l: int| 0 <= l < s.len() ==> !sentence_stop(#[trigger] s[l]),
    decreases s.len(),
{
    if s.len() > 0 {
        lemma_stop_count_zero(s.drop_first());
        if forall|l: int| 0 <= l < s.drop_first().len() ==> !sentence_stop(#[trigger] s.drop_first()[l]) {
            if !sentence_stop(s[0]) {
                assert forall|l: int| 0 <= l < s.len() implies !sentence_stop(#[trigger] s[l]) by {
                    if l > 0 {
                        assert(s[l] == s.drop_first()[l - 1]);
                    }
                }
            }
        } else {
            let l = choose|l: int| 0 <= l < s.drop_first().len() && sentence_stop(#[trigger] s.drop_first()[l]);
            assert(s[l + 1] == s.drop_first()[l]);
        }
    }
}

proof fn lemma_trailing_step(s: Seq<char>)
    requires
        s.len() > 0,
    ensures
        has_trailing_text(s) <==> has_trailing_text(s.drop_first())
            || (!is_ws(s[0]) && !sentence_stop(s[0]) && stop_count(s.drop_first()) == 0),
{
    let d = s.drop_first();
    lemma_stop_count_zero(d);
    if has_trailing_text(s) {
        let j = choose|j: int| 0 <= j < s.len() && !is_ws(#[trigger] s[j])
            && forall|l: int| j <= l < s.len() ==> !(s[l] == '.' || s[l] == '!' || s[l] == '?');
        if j == 0 {
            assert forall|l: int| 0 <= l < d.len() implies !sentence_stop(#[trigger] d[l]) by {
                assert(d[l] == s[l + 1]);
            }
        } else {
            assert(!is_ws(d[j - 1]));
            assert forall|l: int| j - 1 <= l < d.len() implies !(d[l] == '.' || d[l] == '!' || d[l] == '?') by {
                assert(d[l] == s[l + 1]);
            }
            assert(has_trailing_text(d));
        }
    }
    if has_trailing_text(d) {
        let j = choose|j: int| 0 <= j < d.len() && !is_ws(#[trigger] d[j])
            && forall|l: int| j <= l < d.len() ==> !(d[l] == '.' || d[l] == '!' || d[l] == '?');
        assert(!is_ws(s[j + 1]));
        assert forall|l: int| j + 1 <= l < s.len() implies !(s[l] == '.' || s[l] == '!' || s[l] == '?') by {
            assert(s[l] == d[l - 1]);
        }
        assert(has_trailing_text(s));
    }
    if !is_ws(s[0]) && !sentence_stop(s[0]) && stop_count(d) == 0 {
        assert forall|l: int| 0 <= l < s.len() implies !(s[l] == '.' || s[l] == '!' || s[l] == '?') by {
            if l > 0 {
                assert(s[l] == d[l - 1]);
                assert(!sentence_stop(d[l - 1]));
            }
        }
        assert(has_trailing_text(s));
    }
}

proof fn lemma_non_ws_push(cur: Seq<char>, c: char)
    ensures
        has_non_ws(cur.push(c)) <==> has_non_ws(cur) || !is_ws(c),
{
    let cur2 = cur.push(c);
    if has_non_ws(cur) {
        let j = choose|j: int| 0 <= j < cur.len() && !is_ws(#[trigger] cur[j]);
        assert(cur2[j] == cur[j]);
    }
    if !is_ws(c) {
        assert(cur2[cur.len() as int] == c);
    }
    if has_non_ws(cur2) {
        let j = choose|j: int| 0 <= j < cur2.len() && !is_ws(#[trigger] cur2[j]);
        if j < cur.len() {
            assert(cur[j] == cur2[j]);
        }
    }
}

proof fn lemma_sentence_count(s: Seq<char>, cur: Seq<char>)
    ensures
        sentences_from(s, cur).len() == stop_count(s)
            + if has_trailing_text(s) || (has_non_ws(cur) && stop_count(s) == 0) { 1nat } else { 0nat },
    decreases s.len(),
{
    if s.len() == 0 {
        lemma_trim_empty(cur);
        if has_non_ws(cur) {
            let j = choose|j: int| 0 <= j < cur.len() && !is_ws(#[trigger] cur[j]);
            assert(!is_ws(cur[j]));
        }
    } else {
        let d = s.drop_first();
        let cur2 = cur.push(s[0]);
        lemma_trailing_step(s);
        if is_delim(s[0]) {
            assert(!is_ws(s[0]));
            let (lo, hi) = lemma_trim_range(cur2);
            assert(cur2.last() == s[0]);
            lemma_sentence_count(d, Seq::empty());
            assert(!has_non_ws(Seq::<char>::empty()));
        } else {
            lemma_non_ws_push(cur, s[0]);
            lemma_sentence_count(d, cur2);
            assert(sentences_from(s, cur) == sentences_from(d, cur2));
        }
    }
}

/// The sentence splitter ends sentences exactly at `.`, `!` and `?`: every
/// sentence is non-empty, every sentence but the last ends with one of these
/// characters, and none holds one except as its last character. There is one
/// sentence per such character, plus one for text left after the last of
/// them. A text without any of them is a single sentence, itself trimmed (or
/// none when it is blank).
pub proof fn law_sentences_end_at_stops(text: Seq<char>)
    ensures
        ({
            let ss = sentences(text);
            &&& forall|i: int| 0 <= i < ss.len() ==> (#[trigger] ss[i]).len() > 0
            &&& forall|i: int| 0 <= i < ss.len() - 1 ==> {
                let c = (#[trigger] ss[i]).last();
                c == '.' || c == '!' || c == '?'
            }
            &&& forall|i: int, j: int| 0 <= i < ss.len() && 0 <= j < ss[i].len() - 1 ==> {
                let c = #[trigger] ss[i][j];
                !(c == '.' || c == '!' || c == '?')
            }
            &&& (forall|j: int| 0 <= j < text.len() ==> {
                let c = #[trigger] text[j];
                !(c == '.' || c == '!' || c == '?')
            }) ==> ss == (if trim(text).len() == 0 { Seq::<Seq<char>>::empty() } else { seq![trim(text)] })
            &&& ss.len() == stop_count(text) + if has_trailing_text(text) { 1nat } else { 0nat }
        }),
{
    lemma_sentences_shape(text, Seq::empty());
    lemma_sentence_count(text, Seq::empty());
    assert(!has_non_ws(Seq::<char>::empty()));
    if forall|j: int| 0 <= j < text.len() ==> !sentence_stop(#[trigger] text[j]) {
        lemma_sentences_no_stop(text, Seq::empty());
        assert(Seq::<char>::empty() + text =~= text);
    }
}

/// The sentence chunker returns one chunk per `n` sentences, rounded up.
pub proof fn law_sentence_chunk_count(text: Seq<char>, n: nat)
    requires
        n > 0,
    ensures
        sentence_chunks(text, n).len() == (sentences(text).len() + n - 1) / (n as int),
{
    law_group_count(sentences(text), n);
}

proof fn lemma_flush_bounded(buf: Seq<char>, max: nat)
    requires
        max > 0,
    ensures
        forall|i: int| 0 <= i < flush(buf, max).len() ==> 0 < #[trigger] flush(buf, max)[i].len() <= max,
{
    if buf.len() > max {
        law_fixed_chunks_bounded(buf, max, 0);
    }
}

proof fn lemma_pack_bounded(sents: Seq<Seq<char>>, buf: Seq<char>, max: nat)
    requires
        max > 0,
    ensures
        forall|i: int| 0 <= i < pack(sents, buf, max).len() ==> 0 < #[trigger] pack(sents, buf, max)[i].len() <= max,
    decreases sents.len(),
{
    lemma_flush_bounded(buf, max);
    if sents.len() > 0 {
        let s = sents[0];
        if buf.len() + s.len() + 1 <= max {
            let nb = if buf.len() == 0 { s } else { buf + seq![' '] + s };
            lemma_pack_bounded(sents.drop_first(), nb, max);
            assert(pack(sents, buf, max) == pack(sents.drop_first(), nb, max));
        } else {
            lemma_pack_bounded(sents.drop_first(), s, max);
            let f = flush(buf, max);
            let r = pack(sents.drop_first(), s, max);
            let p = pack(sents, buf, max);
            assert(p == f + r);
            assert forall|i: int| 0 <= i < p.len() implies 0 < #[trigger] p[i].len() <= max by {
                if i < f.len() {
                    assert(p[i] == f[i]);
                } else {
                    assert(p[i] == r[i - f.len()]);
                }
            }
        }
    }
}

proof fn lemma_paras_bounded(ps: Seq<Seq<char>>, max: nat)
    requires
        max > 0,
    ensures
        forall|i: int| 0 <= i < paras_chunks(ps, max).len() ==> 0 < #[trigger] paras_chunks(ps, max)[i].len() <= max,
    decreases ps.len(),
{
    if ps.len() > 0 {
        lemma_paras_bounded(ps.drop_first(), max);
        let t = trim(ps[0]);
        if t.len() > max {
            lemma_pack_bounded(sentences(t), Seq::empty(), max);
        }
        let f = para_chunks(t, max);
        let r = paras_chunks(ps.drop_first(), max);
        let p = paras_chunks(ps, max);
        assert forall|i: int| 0 <= i < p.len() implies 0 < #[trigger] p[i].len() <= max by {
            if i < f.len() {
                assert(p[i] == f[i]);
            } else {
                assert(p[i] == r[i - f.len()]);
            }
        }
    }
}

/// Every chunk of the recursive chunker is non-empty and at most `max`
/// characters long.
pub proof fn law_recursive_chunks_bounded(text: Seq<char>, max: nat)
    requires
        max > 0,
    ensures
        forall|i: int| 0 <= i < recursive_chunks(text, max).len()
            ==> 0 < #[trigger] recursive_chunks(text, max)[i].len() <= max,
{
    if text.len() > 0 {
        lemma_paras_bounded(split_paras(text), max);
    }
}

/// Every chunker returns no chunks for empty input.
pub proof fn law_empty_input_no_chunks(size: nat, overlap: nat, n: nat, max: nat)
    ensures
        fixed_chunks(Seq::empty(), size, overlap).len() == 0,
        sentence_chunks(Seq::empty(), n).len() == 0,
        recursive_chunks(Seq::empty(), max).len() == 0,
{
    assert(trim(Seq::<char>::empty()) =~= Seq::<char>::empty()) by {
        assert(crate::text::lead_ws(Seq::<char>::empty()) == 0);
        assert(crate::text::trail_ws(Seq::<char>::empty()) == 0);
    }
    assert(sentences(Seq::empty()) =~= Seq::<Seq<char>>::empty());
}

} // verus!
