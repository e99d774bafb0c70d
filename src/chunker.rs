//! Greedy, sentence-aligned chunking of text.
//!
//! Text is cut into segments at each `". "`; segments are then gathered into
//! chunks, a new chunk being started whenever the next segment, with the
//! separator restored, would make a non-empty chunk longer than the chunk
//! size. Chunks are trimmed when they are emitted.

use vstd::prelude::*;

use crate::text::{chars_of, is_space, trim, trim_end, trim_start, trimmed};

verus! {

/// The separator between segments, restored between the segments of a chunk.
pub open spec fn separator() -> Seq<char> {
    seq!['.', ' ']
}

/// `s` ends with the separator.
pub open spec fn ends_with_separator(s: Seq<char>) -> bool {
    s.len() >= 2 && s[s.len() - 2] == '.' && s[s.len() - 1] == ' '
}

/// The segments of `s`: the pieces between the occurrences of the separator,
/// in order, with the separators removed. There is always at least one.
pub open spec fn segments(s: Seq<char>) -> Seq<Seq<char>>
    decreases s.len(),
{
    if ends_with_separator(s) {
        segments(s.subrange(0, s.len() - 2)).push(Seq::empty())
    } else if s.len() == 0 {
        seq![Seq::empty()]
    } else {
        let init = segments(s.drop_last());
        init.update(init.len() - 1, init.last().push(s.last()))
    }
}

/// One step of chunking: `state` holds the chunks emitted so far and the
/// chunk being filled, and `seg` is the next segment.
pub open spec fn chunk_step(
    size: nat,
    state: (Seq<Seq<char>>, Seq<char>),
    seg: Seq<char>,
) -> (Seq<Seq<char>>, Seq<char>) {
    let (out, cur) = state;
    if cur.len() > 0 && cur.len() + separator().len() + seg.len() > size {
        (out.push(trim(cur)), seg)
    } else if cur.len() > 0 {
        (out, cur + separator() + seg)
    } else {
        (out, seg)
    }
}

/// The state after chunking the segments `segs` in order, starting with no
/// chunks and an empty chunk being filled.
pub open spec fn accumulate(size: nat, segs: Seq<Seq<char>>) -> (Seq<Seq<char>>, Seq<char>)
    decreases segs.len(),
{
    if segs.len() == 0 {
        (Seq::empty(), Seq::empty())
    } else {
        chunk_step(size, accumulate(size, segs.drop_last()), segs.last())
    }
}

/// The chunks of `s` for the chunk size `size`: the accumulated chunks, and
/// the last one being filled, trimmed, if it is not empty.
pub open spec fn chunks_of(size: nat, s: Seq<char>) -> Seq<Seq<char>> {
    let (out, cur) = accumulate(size, segments(s));
    if cur.len() > 0 {
        out.push(trim(cur))
    } else {
        out
    }
}

/// The segments `segs` joined back together with the separator.
pub open spec fn join(segs: Seq<Seq<char>>) -> Seq<char>
    decreases segs.len(),
{
    if segs.len() <= 1 {
        if segs.len() == 1 {
            segs[0]
        } else {
            Seq::empty()
        }
    } else {
        join(segs.drop_last()) + separator() + segs.last()
    }
}

/// `s` begins with the separator.
pub open spec fn starts_with_separator(s: Seq<char>) -> bool {
    s.len() >= 2 && s[0] == '.' && s[1] == ' '
}

proof fn lemma_join_segments(s: Seq<char>)
    ensures
        join(segments(s)) == s,
    decreases s.len(),
{
    lemma_segments_nonempty(s);
    if ends_with_separator(s) {
        let p = s.subrange(0, s.len() - 2);
        lemma_join_segments(p);
        lemma_segments_nonempty(p);
        assert(segments(s).drop_last() == segments(p));
        assert(s == p + separator() + Seq::<char>::empty());
    } else if s.len() > 0 {
        let p = s.drop_last();
        lemma_join_segments(p);
        lemma_segments_nonempty(p);
        let init = segments(p);
        let segs = segments(s);
        if init.len() > 1 {
            assert(segs.drop_last() == init.drop_last());
            assert(join(segs) == join(init.drop_last()) + separator() + init.last().push(s.last()));
            assert(join(init.drop_last()) + separator() + init.last().push(s.last()) == (join(
                init.drop_last(),
            ) + separator() + init.last()).push(s.last()));
        }
        assert(s == p.push(s.last()));
    }
}

proof fn lemma_first_segment_nonempty(s: Seq<char>)
    requires
        s.len() > 0,
        !starts_with_separator(s),
    ensures
        segments(s)[0].len() > 0,
    decreases s.len(),
{
    lemma_segments_nonempty(s);
    if ends_with_separator(s) {
        let p = s.subrange(0, s.len() - 2);
        assert(p.len() > 0);
        lemma_first_segment_nonempty(p);
        lemma_segments_nonempty(p);
    } else {
        let p = s.drop_last();
        lemma_segments_nonempty(p);
        if p.len() > 0 {
            assert(!starts_with_separator(p));
            lemma_first_segment_nonempty(p);
        }
    }
}

proof fn lemma_accumulate_within_size(size: nat, segs: Seq<Seq<char>>)
    requires
        segs.len() >= 1,
        segs[0].len() > 0,
        join(segs).len() <= size,
    ensures
        accumulate(size, segs) == (Seq::<Seq<char>>::empty(), join(segs)),
        join(segs).len() > 0,
    decreases segs.len(),
{
    if segs.len() > 1 {
        lemma_accumulate_within_size(size, segs.drop_last());
    } else {
        assert(accumulate(size, segs.drop_last()) == (
            Seq::<Seq<char>>::empty(),
            Seq::<char>::empty(),
        ));
    }
}

/// A text no longer than the chunk size makes a single chunk: the text,
/// trimmed. This needs a non-empty text that does not begin with the
/// separator, since an empty text has no chunk, and separators that come
/// before any character of a chunk are not restored.
pub proof fn lemma_short_text_single_chunk(size: nat, s: Seq<char>)
    requires
        0 < s.len() <= size,
        !starts_with_separator(s),
    ensures
        chunks_of(size, s) == seq![trim(s)],
{
    lemma_join_segments(s);
    lemma_segments_nonempty(s);
    lemma_first_segment_nonempty(s);
    lemma_accumulate_within_size(size, segments(s));
}

/// Chunking the empty text gives no chunk.
pub proof fn lemma_empty_text_no_chunks(size: nat)
    ensures
        chunks_of(size, Seq::empty()) == Seq::<Seq<char>>::empty(),
{
    let segs = segments(Seq::<char>::empty());
    assert(segs == seq![Seq::<char>::empty()]);
    assert(accumulate(size, segs.drop_last()) == (
        Seq::<Seq<char>>::empty(),
        Seq::<char>::empty(),
    ));
}

proof fn lemma_accumulate_count(size: nat, segs: Seq<Seq<char>>)
    ensures
        accumulate(size, segs).0.len() + (if accumulate(size, segs).1.len() > 0 {
            1nat
        } else {
            0nat
        }) <= segs.len(),
    decreases segs.len(),
{
    if segs.len() > 0 {
        lemma_accumulate_count(size, segs.drop_last());
    }
}

/// Each segment adds at most one chunk: chunking ends, with no more chunks
/// than the text has segments.
pub proof fn lemma_chunk_count_bounded(size: nat, s: Seq<char>)
    ensures
        chunks_of(size, s).len() <= segments(s).len(),
{
    lemma_accumulate_count(size, segments(s));
}

/// `c` is no longer than `size`, or is a single segment of `segs`, trimmed.
pub open spec fn fits_or_single_segment(size: nat, c: Seq<char>, segs: Seq<Seq<char>>) -> bool {
    c.len() <= size || exists|j: int| 0 <= j < segs.len() && #[trigger] trim(segs[j]) == c
}

proof fn lemma_trim_start_len(s: Seq<char>)
    ensures
        trim_start(s).len() <= s.len(),
    decreases s.len(),
{
    if s.len() > 0 && is_space(s[0]) {
        lemma_trim_start_len(s.drop_first());
    }
}

proof fn lemma_trim_end_len(s: Seq<char>)
    ensures
        trim_end(s).len() <= s.len(),
    decreases s.len(),
{
    if s.len() > 0 && is_space(s.last()) {
        lemma_trim_end_len(s.drop_last());
    }
}

proof fn lemma_accumulate_sizes(size: nat, segs: Seq<Seq<char>>)
    ensures
        forall|i: int|
            0 <= i < accumulate(size, segs).0.len() ==> fits_or_single_segment(
                size,
                #[trigger] accumulate(size, segs).0[i],
                segs,
            ),
        accumulate(size, segs).1.len() <= size || exists|j: int|
            0 <= j < segs.len() && segs[j] == accumulate(size, segs).1,
    decreases segs.len(),
{
    if segs.len() > 0 {
        let dl = segs.drop_last();
        lemma_accumulate_sizes(size, dl);
        let (out, cur) = accumulate(size, dl);
        let seg = segs.last();
        assert forall|i: int| 0 <= i < out.len() implies fits_or_single_segment(
            size,
            #[trigger] out[i],
            segs,
        ) by {
            assert(fits_or_single_segment(size, out[i], dl));
            if out[i].len() > size {
                let j = choose|j: int| 0 <= j < dl.len() && #[trigger] trim(dl[j]) == out[i];
                assert(segs[j] == dl[j]);
            }
        }
        if cur.len() > 0 && cur.len() + separator().len() + seg.len() > size {
            lemma_trim_start_len(cur);
            lemma_trim_end_len(trim_start(cur));
            if cur.len() > size {
                let j = choose|j: int| 0 <= j < dl.len() && dl[j] == cur;
                assert(segs[j] == dl[j]);
                assert(trim(segs[j]) == trim(cur));
            }
            assert(segs[segs.len() - 1] == seg);
        } else if cur.len() == 0 {
            assert(segs[segs.len() - 1] == seg);
        }
    }
}

/// A chunk is longer than the chunk size only when it is a single segment,
/// trimmed: a segment joins a chunk only when the result fits.
pub proof fn lemma_long_chunks_are_single_segments(size: nat, s: Seq<char>)
    ensures
        forall|i: int|
            0 <= i < chunks_of(size, s).len() ==> fits_or_single_segment(
                size,
                #[trigger] chunks_of(size, s)[i],
                segments(s),
            ),
{
    let segs = segments(s);
    lemma_accumulate_sizes(size, segs);
    let (out, cur) = accumulate(size, segs);
    if cur.len() > 0 {
        lemma_trim_start_len(cur);
        lemma_trim_end_len(trim_start(cur));
        if cur.len() > size {
            let j = choose|j: int| 0 <= j < segs.len() && segs[j] == cur;
            assert(trim(segs[j]) == trim(cur));
        }
        assert forall|i: int| 0 <= i < chunks_of(size, s).len() implies fits_or_single_segment(
            size,
            #[trigger] chunks_of(size, s)[i],
            segs,
        ) by {
            if i < out.len() {
                assert(chunks_of(size, s)[i] == out[i]);
            }
        }
    }
}

proof fn lemma_segments_nonempty(s: Seq<char>)
    ensures
        segments(s).len() >= 1,
    decreases s.len(),
{
    if ends_with_separator(s) {
        lemma_segments_nonempty(s.subrange(0, s.len() - 2));
    } else if s.len() > 0 {
        lemma_segments_nonempty(s.drop_last());
    }
}

/// Cuts `v` into its segments.
fn split_segments(v: &Vec<char>) -> (r: Vec<Vec<char>>)
    ensures
        r.deep_view() == segments(v@),
{
    let n = v.len();
    let mut segs: Vec<Vec<char>> = Vec::new();
    let mut cur: Vec<char> = Vec::new();
    let mut i: usize = 0;
    while i < n
        invariant
            i <= n == v.len(),
            segments(v@.take(i as int)) == segs.deep_view().push(cur@),
            0 < i < n ==> !(v@[i - 1] == '.' && v@[i as int] == ' '),
        decreases n - i,
    {
        if i + 1 < n && v[i] == '.' && v[i + 1] == ' ' {
            proof {
                let t = v@.take(i + 2);
                assert(ends_with_separator(t));
                assert(t.subrange(0, t.len() - 2) == v@.take(i as int));
            }
            let ghost before = segs.deep_view();
            let ghost done = cur@;
            assert(cur.deep_view() =~= done);
            segs.push(cur);
            assert(segs.deep_view() =~= before.push(done));
            cur = Vec::new();
            i = i + 2;
        } else {
            proof {
                let t = v@.take(i + 1);
                assert(t.drop_last() == v@.take(i as int));
                lemma_segments_nonempty(v@.take(i as int));
            }
            let ghost prefix = segs.deep_view().push(cur@);
            cur.push(v[i]);
            assert(segs.deep_view().push(cur@) =~= prefix.update(
                prefix.len() - 1,
                prefix.last().push(v@[i as int]),
            ));
            i = i + 1;
        }
    }
    assert(v@.take(n as int) == v@);
    let ghost before = segs.deep_view();
    let ghost last = cur@;
    assert(cur.deep_view() =~= last);
    segs.push(cur);
    assert(segs.deep_view() =~= before.push(last));
    segs
}

/// Appends the characters of `src` to `dst`.
fn append_chars(dst: &mut Vec<char>, src: &Vec<char>)
    ensures
        final(dst)@ == old(dst)@ + src@,
{
    let mut i: usize = 0;
    while i < src.len()
        invariant
            i <= src.len(),
            dst@ == old(dst)@ + src@.take(i as int),
        decreases src.len() - i,
    {
        dst.push(src[i]);
        assert(src@.take(i + 1) == src@.take(i as int).push(src@[i as int]));
        i = i + 1;
    }
    assert(src@.take(src.len() as int) == src@);
}

/// Splits text into chunks of about `chunk_size` characters each, cut at
/// sentence boundaries.
pub struct TextChunker {
    chunk_size: usize,
}

impl TextChunker {
    /// The chunk size this chunker was made with.
    pub closed spec fn spec_chunk_size(&self) -> nat {
        self.chunk_size as nat
    }

    /// A chunker for the given chunk size.
    pub fn new(chunk_size: usize) -> (r: TextChunker)
        ensures
            r.spec_chunk_size() == chunk_size,
    {
        TextChunker { chunk_size }
    }

    /// The chunks of `text`, in order. A chunk is longer than the chunk size
    /// only when it holds a single segment.
    pub fn chunk(&self, text: &str) -> (r: Vec<String>)
        ensures
            r.deep_view() == chunks_of(self.spec_chunk_size(), text@),
    {
        let chars = chars_of(text);
        let segs = split_segments(&chars);
        let size = self.chunk_size;
        let mut chunks: Vec<String> = Vec::new();
        let mut cur: Vec<char> = Vec::new();
        for k in 0..segs.len()
            invariant
                segs.deep_view() == segments(text@),
                (chunks.deep_view(), cur@) == accumulate(
                    size as nat,
                    segs.deep_view().take(k as int),
                ),
        {
            let seg = &segs[k];
            proof {
                let p = segs.deep_view().take(k + 1);
                assert(p.drop_last() == segs.deep_view().take(k as int));
                assert(p.last() == seg@);
            }
            if cur.len() > 0 && cur.len() as u128 + 2 + seg.len() as u128 > size as u128 {
                chunks.push(trimmed(&cur));
                cur = Vec::new();
            }
            if cur.len() > 0 {
                cur.push('.');
                cur.push(' ');
            }
            append_chars(&mut cur, seg);
        }
        assert(segs.deep_view().take(segs.len() as int) == segs.deep_view());
        if cur.len() > 0 {
            chunks.push(trimmed(&cur));
        }
        chunks
    }
}

} // verus!
