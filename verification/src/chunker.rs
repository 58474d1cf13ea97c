//! Splitting a transcript into chunks of roughly `chunk_size` tokens for
//! retrieval. Segments are grouped greedily and never split.
use vstd::prelude::*;
use crate::ids::{self, new_uuid_v4};
use crate::text::{self, chars_of, is_whitespace, join_strings, owned, trim_str};

verus! {

// ---------------------------------------------------------------------------
// Token estimate
// ---------------------------------------------------------------------------

/// The CJK Unified Ideographs (U+4E00..U+9FFF), their Extension A
/// (U+3400..U+4DBF), the CJK Compatibility Ideographs (U+F900..U+FAFF),
/// Hiragana (U+3040..U+309F) and Katakana (U+30A0..U+30FF).
pub open spec fn is_cjk(c: char) -> bool {
    let u = c as u32;
    ||| 0x4E00 <= u <= 0x9FFF
    ||| 0x3400 <= u <= 0x4DBF
    ||| 0xF900 <= u <= 0xFAFF
    ||| 0x3040 <= u <= 0x309F
    ||| 0x30A0 <= u <= 0x30FF
}

/// Number of characters of `s` that are not whitespace.
pub open spec fn non_ws_count(s: Seq<char>) -> nat
    decreases s.len(),
{
    if s.len() == 0 {
        0
    } else {
        non_ws_count(s.drop_last()) + if text::is_ws(s.last()) {
            0nat
        } else {
            1nat
        }
    }
}

/// Number of non-whitespace characters of `s` that are CJK.
pub open spec fn cjk_count(s: Seq<char>) -> nat
    decreases s.len(),
{
    if s.len() == 0 {
        0
    } else {
        cjk_count(s.drop_last()) + if !text::is_ws(s.last()) && is_cjk(s.last()) {
            1nat
        } else {
            0nat
        }
    }
}

/// More than 30% of the non-whitespace characters are CJK.
pub open spec fn significant_cjk(s: Seq<char>) -> bool {
    non_ws_count(s) > 0 && 100 * cjk_count(s) > 30 * non_ws_count(s)
}

/// Number of maximal runs of non-whitespace characters (`split_whitespace().count()`).
pub open spec fn word_count(s: Seq<char>) -> nat
    decreases s.len(),
{
    if s.len() == 0 {
        0
    } else {
        word_count(s.drop_last()) + if !text::is_ws(s.last()) && (s.len() == 1 || text::is_ws(
            s[s.len() - 2],
        )) {
            1nat
        } else {
            0nat
        }
    }
}

/// The token estimate: half the characters, rounded up, for CJK-heavy text,
/// and the number of words otherwise.
pub open spec fn token_estimate(s: Seq<char>) -> nat {
    if significant_cjk(s) {
        ((s.len() + 1) / 2) as nat
    } else {
        word_count(s)
    }
}

/// Whether `ch` lies in a CJK ideograph or Kana block.
pub fn is_cjk_char(ch: char) -> (b: bool)
    ensures
        b == is_cjk(ch),
{
    let u = ch as u32;
    (0x4E00 <= u && u <= 0x9FFF) || (0x3400 <= u && u <= 0x4DBF) || (0xF900 <= u && u <= 0xFAFF)
        || (0x3040 <= u && u <= 0x309F) || (0x30A0 <= u && u <= 0x30FF)
}

proof fn lemma_counts_bounded(s: Seq<char>)
    ensures
        cjk_count(s) <= non_ws_count(s) <= s.len(),
        word_count(s) <= s.len(),
    decreases s.len(),
{
    if s.len() > 0 {
        lemma_counts_bounded(s.drop_last());
    }
}

/// Whether more than 30% of the non-whitespace characters of `text` are CJK.
pub fn has_significant_cjk(text: &str) -> (b: bool)
    ensures
        b == significant_cjk(text@),
{
    let cs = chars_of(text);
    let n = cs.len();
    let mut total: usize = 0;
    let mut cjk: usize = 0;
    let mut i: usize = 0;
    while i < n
        invariant
            cs@ == text@,
            n == cs.len(),
            i <= n,
            total == non_ws_count(text@.take(i as int)),
            cjk == cjk_count(text@.take(i as int)),
            cjk <= total <= i,
        decreases n - i,
    {
        let ch = cs[i];
        assert(text@.take(i + 1).drop_last() =~= text@.take(i as int));
        if !is_whitespace(ch) {
            total += 1;
            if is_cjk_char(ch) {
                cjk += 1;
            }
        }
        i += 1;
    }
    assert(text@.take(n as int) =~= text@);
    total > 0 && (cjk as u128) * 100 > (total as u128) * 30
}

/// Number of whitespace-separated words in `text`.
pub fn count_words(text: &str) -> (n: usize)
    ensures
        n == word_count(text@),
{
    let cs = chars_of(text);
    let len = cs.len();
    let mut count: usize = 0;
    let mut i: usize = 0;
    while i < len
        invariant
            cs@ == text@,
            len == cs.len(),
            i <= len,
            count == word_count(text@.take(i as int)),
            count <= i,
        decreases len - i,
    {
        let ghost p = text@.take(i + 1);
        assert(p.drop_last() =~= text@.take(i as int));
        if !is_whitespace(cs[i]) && (i == 0 || is_whitespace(cs[i - 1])) {
            count += 1;
        }
        i += 1;
    }
    assert(text@.take(len as int) =~= text@);
    count
}

/// Approximate token count of `text`.
pub fn estimate_tokens(text: &str) -> (n: usize)
    ensures
        n == token_estimate(text@),
{
    if has_significant_cjk(text) {
        let len = chars_of(text).len();
        len / 2 + len % 2
    } else {
        count_words(text)
    }
}

// ---------------------------------------------------------------------------
// Chunk plan
// ---------------------------------------------------------------------------

/// A chunk as the plan describes it: its text and the indices of its first and
/// last (non-blank) segment.
pub struct ChunkSpan {
    pub text: Seq<char>,
    pub first: int,
    pub last: int,
}

/// The chunker's state after some prefix of the segments.
pub struct PlanState {
    pub done: Seq<ChunkSpan>,
    pub cur: Seq<Seq<char>>,
    pub tokens: nat,
    pub first: int,
    pub last: int,
}

/// The text of the chunk being built.
pub open spec fn pending_text(st: PlanState) -> Seq<char> {
    text::trim(text::join(st.cur, seq![' ']))
}

/// The finished chunks once the pending one is closed; a chunk whose text
/// trims to nothing is dropped.
pub open spec fn close(st: PlanState) -> Seq<ChunkSpan> {
    if pending_text(st).len() > 0 {
        st.done.push(ChunkSpan { text: pending_text(st), first: st.first, last: st.last })
    } else {
        st.done
    }
}

/// Closes the pending chunk and starts an empty one.
pub open spec fn flush(st: PlanState) -> PlanState {
    PlanState { done: close(st), cur: Seq::empty(), tokens: 0, first: st.first, last: st.last }
}

/// Feeds segment `idx` with text `text`: blank segments are skipped; if the
/// pending chunk is non-empty and would exceed `size` tokens, it is closed first.
pub open spec fn step(st: PlanState, text: Seq<char>, idx: int, size: nat) -> PlanState {
    if text::trim(text).len() == 0 {
        st
    } else {
        let t = token_estimate(text);
        let st1 = if st.tokens > 0 && st.tokens + t > size {
            flush(st)
        } else {
            st
        };
        PlanState {
            done: st1.done,
            cur: st1.cur.push(text),
            tokens: st1.tokens + t,
            first: if st1.cur.len() == 0 {
                idx
            } else {
                st1.first
            },
            last: idx,
        }
    }
}

/// The empty state.
pub open spec fn start_state() -> PlanState {
    PlanState { done: Seq::empty(), cur: Seq::empty(), tokens: 0, first: 0, last: 0 }
}

/// The state after feeding every segment of `texts` in order.
pub open spec fn plan(texts: Seq<Seq<char>>, size: nat) -> PlanState
    decreases texts.len(),
{
    if texts.len() == 0 {
        start_state()
    } else {
        step(plan(texts.drop_last(), size), texts.last(), texts.len() - 1, size)
    }
}

/// The chunks of a transcript whose segment texts are `texts`, for a target of
/// `size` tokens: none when `size` is 0, otherwise the plan's chunks with the
/// pending one closed at the end.
pub open spec fn chunk_spans(texts: Seq<Seq<char>>, size: nat) -> Seq<ChunkSpan> {
    if size == 0 || texts.len() == 0 {
        Seq::empty()
    } else {
        let st = plan(texts, size);
        if st.cur.len() > 0 {
            close(st)
        } else {
            st.done
        }
    }
}

/// A chunk of a meeting's transcript; `first_segment` and `last_segment` index
/// the transcript's segments and give the chunk its start and end time.
#[derive(Debug)]
pub struct TranscriptChunk {
    pub id: String,
    pub meeting_id: String,
    pub text: String,
    pub first_segment: usize,
    pub last_segment: usize,
    pub chunk_index: usize,
}

/// `c` is chunk number `i` of meeting `meeting_id` as `s` describes it.
pub open spec fn chunk_matches(c: TranscriptChunk, s: ChunkSpan, meeting_id: Seq<char>, i: int) -> bool {
    &&& c.text@ == s.text
    &&& c.first_segment == s.first
    &&& c.last_segment == s.last
    &&& c.chunk_index == i
    &&& c.meeting_id@ == meeting_id
    &&& ids::is_uuid_v4_text(c.id@)
}

/// `chunks` is exactly the list `spans` describes.
pub open spec fn chunks_match(chunks: Seq<TranscriptChunk>, spans: Seq<ChunkSpan>, meeting_id: Seq<char>) -> bool {
    &&& chunks.len() == spans.len()
    &&& forall|i: int| 0 <= i < chunks.len() ==> chunk_matches(#[trigger] chunks[i], spans[i], meeting_id, i)
}

/// Closes the pending chunk of the executable state, mirroring `close`.
fn close_pending(
    chunks: &mut Vec<TranscriptChunk>,
    cur: &Vec<String>,
    first: usize,
    last: usize,
    meeting_id: &str,
    Ghost(st): Ghost<PlanState>,
)
    requires
        chunks_match(old(chunks)@, st.done, meeting_id@),
        text::views(cur@) == st.cur,
        first == st.first,
        last == st.last,
    ensures
        chunks_match(final(chunks)@, close(st), meeting_id@),
{
    let joined = join_strings(cur, " ");
    assert(" "@ == seq![' ']) by {
        reveal_strlit(" ");
    }
    let text = trim_str(joined.as_str());
    if !text.as_str().is_empty() {
        proof {
            assert(text@.len() > 0) by {
                broadcast use vstd::string::group_string_axioms;
                if text@.len() == 0 {
                    assert(text@ =~= Seq::<char>::empty());
                }
            }
        }
        let idx = chunks.len();
        let c = TranscriptChunk {
            id: new_uuid_v4(),
            meeting_id: owned(meeting_id),
            text,
            first_segment: first,
            last_segment: last,
            chunk_index: idx,
        };
        chunks.push(c);
        assert forall|i: int| 0 <= i < chunks@.len() implies chunk_matches(
            #[trigger] chunks@[i],
            close(st)[i],
            meeting_id@,
            i,
        ) by {
            if i < idx {
                assert(chunks@[i] == old(chunks)@[i]);
            }
        }
    } else {
        proof {
            assert(text@.len() == 0) by {
                broadcast use vstd::string::group_string_axioms;
            }
        }
    }
}

/// Splits a transcript into chunks of about `chunk_size` tokens.
///
/// `segment_texts` are the texts of the transcript's segments in order. Blank
/// segments are skipped; consecutive segments are grouped until adding the next
/// one would push a non-empty chunk past `chunk_size` tokens; a chunk's text is
/// its segments' texts joined by spaces and trimmed. Each chunk gets a fresh
/// random id.
pub fn chunk_transcript(meeting_id: &str, segment_texts: &Vec<String>, chunk_size: usize) -> (chunks: Vec<TranscriptChunk>)
    ensures
        chunks_match(chunks@, chunk_spans(text::views(segment_texts@), chunk_size as nat), meeting_id@),
{
    let mut chunks: Vec<TranscriptChunk> = Vec::new();
    if chunk_size == 0 || segment_texts.len() == 0 {
        return chunks;
    }
    let n = segment_texts.len();
    let ghost size = chunk_size as nat;
    let mut cur: Vec<String> = Vec::new();
    let mut tokens: usize = 0;
    let mut first: usize = 0;
    let mut last: usize = 0;
    let mut i: usize = 0;
    while i < n
        invariant
            n == segment_texts.len(),
            size == chunk_size as nat,
            i <= n,
            chunks_match(chunks@, plan(text::views(segment_texts@.take(i as int)), size).done, meeting_id@),
            text::views(cur@) == plan(text::views(segment_texts@.take(i as int)), size).cur,
            tokens == plan(text::views(segment_texts@.take(i as int)), size).tokens,
            first == plan(text::views(segment_texts@.take(i as int)), size).first,
            last == plan(text::views(segment_texts@.take(i as int)), size).last,
            tokens <= usize::MAX,
        decreases n - i,
    {
        let ghost prefix = text::views(segment_texts@.take(i as int));
        let ghost st = plan(prefix, size);
        proof {
            let p1 = text::views(segment_texts@.take(i + 1));
            assert(p1.drop_last() =~= prefix);
            assert(p1.last() == segment_texts@[i as int]@);
            assert(p1.len() == i + 1);
        }
        let seg = &segment_texts[i];
        let trimmed = trim_str(seg.as_str());
        if !trimmed.as_str().is_empty() {
            proof {
                broadcast use vstd::string::group_string_axioms;
                assert(trimmed@.len() > 0) by {
                    if trimmed@.len() == 0 {
                        assert(trimmed@ =~= Seq::<char>::empty());
                    }
                }
            }
            let seg_tokens = estimate_tokens(seg.as_str());
            let ghost st1 = if st.tokens > 0 && st.tokens + seg_tokens > size {
                flush(st)
            } else {
                st
            };
            if tokens > 0 && (tokens as u128) + (seg_tokens as u128) > (chunk_size as u128) {
                close_pending(&mut chunks, &cur, first, last, meeting_id, Ghost(st));
                cur = Vec::new();
                tokens = 0;
                assert(text::views(cur@) =~= Seq::<Seq<char>>::empty());
            }
            if cur.len() == 0 {
                first = i;
                proof {
                    assert(text::views(cur@).len() == 0);
                }
            }
            cur.push(seg.clone());
            tokens = tokens + seg_tokens;
            last = i;
            proof {
                assert(text::views(cur@) =~= st1.cur.push(segment_texts@[i as int]@));
            }
        } else {
            proof {
                broadcast use vstd::string::group_string_axioms;
                assert(trimmed@.len() == 0);
            }
        }
        i += 1;
    }
    assert(segment_texts@.take(n as int) =~= segment_texts@);
    let ghost st = plan(text::views(segment_texts@), chunk_size as nat);
    if cur.len() > 0 {
        close_pending(&mut chunks, &cur, first, last, meeting_id, Ghost(st));
    }
    chunks
}

} // verus!

verus! {

// ---------------------------------------------------------------------------
// Laws of the chunk plan
// ---------------------------------------------------------------------------

/// A segment text with at least one non-whitespace character.
pub open spec fn nonblank(t: Seq<char>) -> bool {
    text::trim(t).len() > 0
}

/// Segment `k` lies inside one of `spans`.
pub open spec fn covered(spans: Seq<ChunkSpan>, k: int) -> bool {
    exists|i: int| 0 <= i < spans.len() && #[trigger] spans[i].first <= k <= spans[i].last
}

/// Each span is a non-empty range of segment indices below `bound` that starts
/// and ends at a non-blank segment, and the spans follow each other in order
/// without overlapping.
pub open spec fn spans_ordered(texts: Seq<Seq<char>>, spans: Seq<ChunkSpan>, bound: int) -> bool {
    &&& forall|i: int|
        0 <= i < spans.len() ==> {
            &&& 0 <= #[trigger] spans[i].first <= spans[i].last < bound
            &&& nonblank(texts[spans[i].first])
            &&& nonblank(texts[spans[i].last])
        }
    &&& forall|i: int, j: int| 0 <= i < j < spans.len() ==> #[trigger] spans[i].last < #[trigger] spans[j].first
}

spec fn plan_inv(texts: Seq<Seq<char>>, st: PlanState, n: int) -> bool {
    &&& 0 <= n <= texts.len()
    &&& spans_ordered(texts, st.done, n)
    &&& st.cur.len() > 0 ==> {
        &&& 0 <= st.first <= st.last < n
        &&& nonblank(texts[st.first])
        &&& nonblank(texts[st.last])
        &&& st.done.len() > 0 ==> st.done.last().last < st.first
        &&& forall|j: int| 0 <= j < st.cur.len() ==> nonblank(#[trigger] st.cur[j])
    }
    &&& forall|k: int|
        0 <= k < n && nonblank(#[trigger] texts[k]) ==> covered(st.done, k) || (
        st.cur.len() > 0 && st.first <= k <= st.last)
}

/// A string with a non-whitespace character at `k` keeps a non-empty leading trim
/// that starts with a non-whitespace character.
proof fn lemma_trim_start_nonblank(s: Seq<char>, k: int)
    requires
        0 <= k < s.len(),
        !text::is_ws(s[k]),
    ensures
        text::trim_start(s).len() > 0,
        !text::is_ws(text::trim_start(s)[0]),
    decreases k,
{
    if text::is_ws(s[0]) {
        assert(s.drop_first()[k - 1] == s[k]);
        lemma_trim_start_nonblank(s.drop_first(), k - 1);
    }
}

/// Trimming the end of a string that starts with a non-whitespace character
/// leaves it non-empty.
proof fn lemma_trim_end_keeps_first(s: Seq<char>)
    requires
        s.len() > 0,
        !text::is_ws(s[0]),
    ensures
        text::trim_end(s).len() > 0,
    decreases s.len(),
{
    if s.len() > 1 && text::is_ws(s.last()) {
        assert(s.drop_last()[0] == s[0]);
        lemma_trim_end_keeps_first(s.drop_last());
    }
}

/// A string trims to something non-empty exactly when it has a non-whitespace character.
proof fn lemma_nonblank_witness(s: Seq<char>, k: int)
    requires
        0 <= k < s.len(),
        !text::is_ws(s[k]),
    ensures
        nonblank(s),
{
    lemma_trim_start_nonblank(s, k);
    lemma_trim_end_keeps_first(text::trim_start(s));
}

/// A non-blank string has a non-whitespace character.
proof fn lemma_nonblank_has_char(s: Seq<char>) -> (k: int)
    requires
        nonblank(s),
    ensures
        0 <= k < s.len(),
        !text::is_ws(s[k]),
{
    if forall|k: int| 0 <= k < s.len() ==> text::is_ws(#[trigger] s[k]) {
        text::lemma_trim_start_skip(s, s.len() as int);
        assert(s.subrange(s.len() as int, s.len() as int) =~= Seq::<char>::empty());
        assert(false);
        0
    } else {
        choose|k: int| 0 <= k < s.len() && !text::is_ws(#[trigger] s[k])
    }
}

/// Joining keeps every character of the last part, so a non-blank part makes
/// the joined text non-blank.
proof fn lemma_join_nonblank(parts: Seq<Seq<char>>, sep: Seq<char>)
    requires
        parts.len() > 0,
        nonblank(parts.last()),
    ensures
        nonblank(text::join(parts, sep)),
{
    let k = lemma_nonblank_has_char(parts.last());
    let j = text::join(parts, sep);
    if parts.len() == 1 {
        lemma_nonblank_witness(j, k);
    } else {
        let pre = text::join(parts.drop_last(), sep) + sep;
        assert(j == pre + parts.last());
        assert(j[pre.len() + k] == parts.last()[k]);
        lemma_nonblank_witness(j, pre.len() + k);
    }
}

proof fn lemma_close_pushes(st: PlanState)
    requires
        st.cur.len() > 0,
        forall|j: int| 0 <= j < st.cur.len() ==> nonblank(#[trigger] st.cur[j]),
    ensures
        close(st) == st.done.push(ChunkSpan { text: pending_text(st), first: st.first, last: st.last }),
{
    assert(nonblank(st.cur.last()));
    lemma_join_nonblank(st.cur, seq![' ']);
}

#[verifier::spinoff_prover]
#[verifier::rlimit(40)]
proof fn lemma_close_ordered(texts: Seq<Seq<char>>, st: PlanState, n: int)
    requires
        plan_inv(texts, st, n),
        st.cur.len() > 0,
    ensures
        spans_ordered(texts, close(st), n),
        forall|k: int|
            0 <= k < n && nonblank(#[trigger] texts[k]) ==> covered(close(st), k),
        close(st).len() > 0,
        close(st).last().last == st.last,
{
    lemma_close_pushes(st);
    let c = close(st);
    assert forall|k: int| 0 <= k < n && nonblank(#[trigger] texts[k]) implies covered(c, k) by {
        if covered(st.done, k) {
            let i = choose|i: int| 0 <= i < st.done.len() && #[trigger] st.done[i].first <= k <= st.done[i].last;
            assert(c[i] == st.done[i]);
        } else {
            assert(c[st.done.len() as int].first <= k <= c[st.done.len() as int].last);
        }
    }
    assert forall|i: int, j: int| 0 <= i < j < c.len() implies #[trigger] c[i].last < #[trigger] c[j].first by {
        if j == st.done.len() {
            if i < st.done.len() - 1 {
                assert(st.done[i].last < st.done[st.done.len() - 1].first);
            }
        }
    }
}

/// The invariant over a prefix carries over to the longer sequence of texts.
proof fn lemma_plan_inv_extend(pre: Seq<Seq<char>>, texts: Seq<Seq<char>>, st: PlanState)
    requires
        plan_inv(pre, st, pre.len() as int),
        pre.len() <= texts.len(),
        forall|k: int| 0 <= k < pre.len() ==> texts[k] == #[trigger] pre[k],
    ensures
        plan_inv(texts, st, pre.len() as int),
{
    assert forall|i: int| 0 <= i < st.done.len() implies {
        &&& 0 <= #[trigger] st.done[i].first <= st.done[i].last < pre.len()
        &&& nonblank(texts[st.done[i].first])
        &&& nonblank(texts[st.done[i].last])
    } by {
        assert(texts[st.done[i].first] == pre[st.done[i].first]);
        assert(texts[st.done[i].last] == pre[st.done[i].last]);
    }
    if st.cur.len() > 0 {
        assert(texts[st.first] == pre[st.first]);
        assert(texts[st.last] == pre[st.last]);
    }
    assert forall|k: int| 0 <= k < pre.len() && nonblank(#[trigger] texts[k]) implies covered(st.done, k) || (
    st.cur.len() > 0 && st.first <= k <= st.last) by {
        assert(pre[k] == texts[k]);
    }
}

/// Spans below one bound are below any larger bound.
proof fn lemma_spans_ordered_weaken(texts: Seq<Seq<char>>, spans: Seq<ChunkSpan>, b1: int, b2: int)
    requires
        spans_ordered(texts, spans, b1),
        b1 <= b2,
    ensures
        spans_ordered(texts, spans, b2),
{
}

#[verifier::spinoff_prover]
#[verifier::rlimit(40)]
proof fn lemma_plan_inv(texts: Seq<Seq<char>>, size: nat)
    ensures
        plan_inv(texts, plan(texts, size), texts.len() as int),
    decreases texts.len(),
{
    if texts.len() > 0 {
        let pre = texts.drop_last();
        lemma_plan_inv(pre, size);
        let st = plan(pre, size);
        let x = texts.last();
        let idx = texts.len() - 1;
        let n = texts.len() as int;
        lemma_plan_inv_extend(pre, texts, st);
        let st2 = plan(texts, size);
        assert(st2 == step(st, x, idx, size));
        assert(texts[idx] == x);
        if !nonblank(x) {
            assert(st2 == st);
            lemma_spans_ordered_weaken(texts, st.done, idx, n);
            assert forall|k: int| 0 <= k < n && nonblank(#[trigger] texts[k]) implies covered(st2.done, k) || (
            st2.cur.len() > 0 && st2.first <= k <= st2.last) by {
                if k == idx {
                    assert(false);
                }
            }
        } else {
            let t = token_estimate(x);
            let flushed = st.tokens > 0 && st.tokens + t > size;
            let st1 = if flushed { flush(st) } else { st };
            if flushed && st.cur.len() > 0 {
                lemma_close_ordered(texts, st, idx);
                assert(spans_ordered(texts, st1.done, idx));
                assert forall|k: int| 0 <= k < idx && nonblank(#[trigger] texts[k]) implies covered(st1.done, k) by {}
            }
            assert(st2.done == st1.done);
            assert(spans_ordered(texts, st2.done, n)) by {
                assert forall|i: int| 0 <= i < st2.done.len() implies {
                    &&& 0 <= #[trigger] st2.done[i].first <= st2.done[i].last < n
                    &&& nonblank(texts[st2.done[i].first])
                    &&& nonblank(texts[st2.done[i].last])
                } by {
                    assert(st1.done[i] == st2.done[i]);
                }
            }
            assert forall|j: int| 0 <= j < st2.cur.len() implies nonblank(#[trigger] st2.cur[j]) by {
                if j < st1.cur.len() {
                    assert(st2.cur[j] == st1.cur[j]);
                }
            }
            assert(st2.cur.len() > 0);
            assert(0 <= st2.first <= st2.last < n);
            assert(nonblank(texts[st2.first]));
            assert(nonblank(texts[st2.last]));
            if st2.done.len() > 0 {
                if flushed && st.cur.len() > 0 {
                    assert(st2.done.last().last == st.last);
                } else if flushed {
                    assert(text::join(st.cur, seq![' ']) =~= Seq::<char>::empty());
                    assert(text::trim(Seq::<char>::empty()) =~= Seq::<char>::empty());
                    assert(close(st) == st.done);
                    let l = st.done.len() - 1;
                    assert(0 <= st.done[l].first);
                    assert(st.done[l].last < idx);
                } else if st.cur.len() == 0 {
                    let l = st.done.len() - 1;
                    assert(0 <= st.done[l].first);
                    assert(st.done[l].last < idx);
                }
                assert(st2.done.last().last < st2.first);
            }
            assert forall|k: int| 0 <= k < n && nonblank(#[trigger] texts[k]) implies covered(st2.done, k) || (
            st2.cur.len() > 0 && st2.first <= k <= st2.last) by {
                if k < idx {
                    if flushed && st.cur.len() > 0 {
                        assert(covered(st1.done, k));
                    }
                }
            }
        }
    }
}

/// The chunks are ordered, non-overlapping ranges of segments, each starting
/// and ending at a non-blank segment; and, for a positive `size`, every
/// non-blank segment lies in one of them (segments are never split or lost).
pub proof fn lemma_chunks_partition_segments(texts: Seq<Seq<char>>, size: nat)
    ensures
        spans_ordered(texts, chunk_spans(texts, size), texts.len() as int),
        size > 0 ==> forall|k: int|
            0 <= k < texts.len() && nonblank(#[trigger] texts[k]) ==> covered(chunk_spans(texts, size), k),
{
    if size > 0 && texts.len() > 0 {
        lemma_plan_inv(texts, size);
        let st = plan(texts, size);
        if st.cur.len() > 0 {
            lemma_close_ordered(texts, st, texts.len() as int);
        }
    }
}

// ---------------------------------------------------------------------------
// Token budget of the chunk plan
// ---------------------------------------------------------------------------

/// The tokens that segment `k` counts for: its estimate when it is non-blank.
pub open spec fn seg_tokens(texts: Seq<Seq<char>>, k: int) -> nat {
    if nonblank(texts[k]) {
        token_estimate(texts[k])
    } else {
        0
    }
}

/// The tokens of segments `a` through `b`.
pub open spec fn range_tokens(texts: Seq<Seq<char>>, a: int, b: int) -> nat
    decreases b - a + 1,
{
    if b < a {
        0
    } else {
        range_tokens(texts, a, b - 1) + seg_tokens(texts, b)
    }
}

/// Every chunk of two or more segments stays within `size` tokens.
pub open spec fn within_budget(texts: Seq<Seq<char>>, spans: Seq<ChunkSpan>, size: nat) -> bool {
    forall|i: int|
        #![trigger spans[i]]
        0 <= i < spans.len() && spans[i].first < spans[i].last ==> range_tokens(
            texts,
            spans[i].first,
            spans[i].last,
        ) <= size
}

/// Every chunk but the last was closed because the first segment of the next
/// one would have pushed it past `size` tokens.
pub open spec fn splits_forced(texts: Seq<Seq<char>>, spans: Seq<ChunkSpan>, size: nat) -> bool {
    forall|i: int, j: int|
        #![trigger spans[i], spans[j]]
        0 <= i && j == i + 1 && j < spans.len() ==> range_tokens(texts, spans[i].first, spans[i].last)
            + seg_tokens(texts, spans[j].first) > size
}

spec fn budget_inv(texts: Seq<Seq<char>>, st: PlanState, size: nat) -> bool {
    &&& within_budget(texts, st.done, size)
    &&& splits_forced(texts, st.done, size)
    &&& st.cur.len() == 0 ==> st.tokens == 0 && st.done.len() == 0
    &&& st.cur.len() > 0 ==> {
        &&& st.tokens == range_tokens(texts, st.first, st.last)
        &&& st.tokens > 0
        &&& st.first < st.last ==> st.tokens <= size
        &&& st.done.len() > 0 ==> range_tokens(texts, st.done.last().first, st.done.last().last)
            + seg_tokens(texts, st.first) > size
    }
}

/// A string with a non-whitespace character has at least one word.
proof fn lemma_word_count_pos(s: Seq<char>, k: int)
    requires
        0 <= k < s.len(),
        !text::is_ws(s[k]),
    ensures
        word_count(s) >= 1,
    decreases s.len(),
{
    let l = s.len() - 1;
    if k < l {
        assert(s.drop_last()[k] == s[k]);
        lemma_word_count_pos(s.drop_last(), k);
    } else if l > 0 && !text::is_ws(s[l - 1]) {
        assert(s.drop_last()[l - 1] == s[l - 1]);
        lemma_word_count_pos(s.drop_last(), l - 1);
    }
}

/// A non-blank segment counts for at least one token.
proof fn lemma_tokens_pos(s: Seq<char>)
    requires
        nonblank(s),
    ensures
        token_estimate(s) >= 1,
{
    let k = lemma_nonblank_has_char(s);
    lemma_counts_bounded(s);
    if !significant_cjk(s) {
        lemma_word_count_pos(s, k);
    }
}

/// The token total of a range depends only on the texts inside it.
proof fn lemma_range_tokens_agree(t1: Seq<Seq<char>>, t2: Seq<Seq<char>>, a: int, b: int)
    requires
        forall|k: int| a <= k <= b ==> #[trigger] t1[k] == t2[k],
    ensures
        range_tokens(t1, a, b) == range_tokens(t2, a, b),
    decreases b - a + 1,
{
    if b >= a {
        assert(t1[b] == t2[b]);
        lemma_range_tokens_agree(t1, t2, a, b - 1);
    }
}

/// Blank segments after `c` add no tokens.
proof fn lemma_range_tokens_blank_tail(texts: Seq<Seq<char>>, a: int, c: int, b: int)
    requires
        a - 1 <= c <= b,
        forall|k: int| c < k <= b ==> !nonblank(#[trigger] texts[k]),
    ensures
        range_tokens(texts, a, b) == range_tokens(texts, a, c),
    decreases b - c,
{
    if b > c {
        assert(!nonblank(texts[b]));
        lemma_range_tokens_blank_tail(texts, a, c, b - 1);
    }
}

/// The budget invariant over a prefix carries over to the longer sequence of texts.
proof fn lemma_budget_extend(pre: Seq<Seq<char>>, texts: Seq<Seq<char>>, st: PlanState, size: nat)
    requires
        plan_inv(pre, st, pre.len() as int),
        budget_inv(pre, st, size),
        pre.len() <= texts.len(),
        forall|k: int| 0 <= k < pre.len() ==> texts[k] == #[trigger] pre[k],
    ensures
        budget_inv(texts, st, size),
{
    let d = st.done;
    assert forall|i: int| 0 <= i < d.len() implies range_tokens(texts, d[i].first, d[i].last)
        == range_tokens(pre, d[i].first, d[i].last) && seg_tokens(texts, d[i].first) == seg_tokens(
        pre,
        d[i].first,
    ) by {
        assert(0 <= d[i].first <= d[i].last < pre.len());
        assert forall|k: int| d[i].first <= k <= d[i].last implies #[trigger] pre[k] == texts[k] by {}
        lemma_range_tokens_agree(pre, texts, d[i].first, d[i].last);
        assert(texts[d[i].first] == pre[d[i].first]);
    }
    assert forall|i: int| #![trigger d[i]] 0 <= i < d.len() && d[i].first < d[i].last implies range_tokens(
        texts,
        d[i].first,
        d[i].last,
    ) <= size by {
        assert(range_tokens(pre, d[i].first, d[i].last) <= size);
    }
    assert forall|i: int, j: int|
        #![trigger d[i], d[j]]
        0 <= i && j == i + 1 && j < d.len() implies range_tokens(texts, d[i].first, d[i].last)
        + seg_tokens(texts, d[j].first) > size by {
        assert(range_tokens(pre, d[i].first, d[i].last) + seg_tokens(pre, d[j].first) > size);
    }
    if st.cur.len() > 0 {
        assert forall|k: int| st.first <= k <= st.last implies #[trigger] pre[k] == texts[k] by {}
        lemma_range_tokens_agree(pre, texts, st.first, st.last);
        assert(texts[st.first] == pre[st.first]);
        if d.len() > 0 {
            let l = d.len() - 1;
            assert(d.last() == d[l]);
        }
    }
}

#[verifier::spinoff_prover]
#[verifier::rlimit(40)]
proof fn lemma_budget_inv(texts: Seq<Seq<char>>, size: nat)
    ensures
        budget_inv(texts, plan(texts, size), size),
    decreases texts.len(),
{
    if texts.len() > 0 {
        let pre = texts.drop_last();
        lemma_budget_inv(pre, size);
        lemma_plan_inv(pre, size);
        let st = plan(pre, size);
        let x = texts.last();
        let idx = pre.len() as int;
        lemma_budget_extend(pre, texts, st, size);
        lemma_plan_inv_extend(pre, texts, st);
        let st2 = plan(texts, size);
        assert(st2 == step(st, x, idx, size));
        assert(texts[idx] == x);
        if nonblank(x) {
            let t = token_estimate(x);
            lemma_tokens_pos(x);
            assert(seg_tokens(texts, idx) == t);
            assert(range_tokens(texts, idx, idx - 1) == 0);
            assert(range_tokens(texts, idx, idx) == t);
            if st.cur.len() > 0 {
                let d = st.done;
                if st.tokens + t > size {
                    lemma_close_pushes(st);
                    let sp = ChunkSpan { text: pending_text(st), first: st.first, last: st.last };
                    let d2 = d.push(sp);
                    assert(st2.done == d2);
                    assert forall|i: int|
                        #![trigger d2[i]]
                        0 <= i < d2.len() && d2[i].first < d2[i].last implies range_tokens(
                        texts,
                        d2[i].first,
                        d2[i].last,
                    ) <= size by {
                        if i < d.len() {
                            assert(d2[i] == d[i]);
                        }
                    }
                    assert forall|i: int, j: int|
                        #![trigger d2[i], d2[j]]
                        0 <= i && j == i + 1 && j < d2.len() implies range_tokens(
                        texts,
                        d2[i].first,
                        d2[i].last,
                    ) + seg_tokens(texts, d2[j].first) > size by {
                        if j < d.len() {
                            assert(d2[i] == d[i]);
                            assert(d2[j] == d[j]);
                        } else {
                            assert(d2[i] == d.last());
                            assert(d2[j] == sp);
                        }
                    }
                    assert(st2.done.last() == sp);
                } else {
                    assert forall|k: int| st.last < k <= idx - 1 implies !nonblank(#[trigger] texts[k]) by {
                        if nonblank(texts[k]) {
                            assert(covered(d, k));
                            let i = choose|i: int| 0 <= i < d.len() && #[trigger] d[i].first <= k <= d[i].last;
                            let l = d.len() - 1;
                            if i < l {
                                assert(d[i].last < d[l].first);
                            }
                            assert(d.last() == d[l]);
                        }
                    }
                    lemma_range_tokens_blank_tail(texts, st.first, st.last, idx - 1);
                    assert(range_tokens(texts, st.first, idx) == range_tokens(texts, st.first, idx - 1) + t);
                }
            }
        }
    }
}

/// The chunks keep to the token budget: a chunk of two or more segments holds
/// at most `size` tokens, and every chunk but the last was closed only because
/// the next segment would have taken it past `size`.
pub proof fn lemma_chunks_token_budget(texts: Seq<Seq<char>>, size: nat)
    ensures
        within_budget(texts, chunk_spans(texts, size), size),
        splits_forced(texts, chunk_spans(texts, size), size),
{
    if size > 0 && texts.len() > 0 {
        lemma_budget_inv(texts, size);
        lemma_plan_inv(texts, size);
        let st = plan(texts, size);
        if st.cur.len() > 0 {
            lemma_close_pushes(st);
            let d = st.done;
            let sp = ChunkSpan { text: pending_text(st), first: st.first, last: st.last };
            let d2 = d.push(sp);
            assert(chunk_spans(texts, size) == d2);
            assert forall|i: int|
                #![trigger d2[i]]
                0 <= i < d2.len() && d2[i].first < d2[i].last implies range_tokens(
                texts,
                d2[i].first,
                d2[i].last,
            ) <= size by {
                if i < d.len() {
                    assert(d2[i] == d[i]);
                }
            }
            assert forall|i: int, j: int|
                #![trigger d2[i], d2[j]]
                0 <= i && j == i + 1 && j < d2.len() implies range_tokens(texts, d2[i].first, d2[i].last)
                + seg_tokens(texts, d2[j].first) > size by {
                if j < d.len() {
                    assert(d2[i] == d[i]);
                    assert(d2[j] == d[j]);
                } else {
                    assert(d2[i] == d.last());
                    assert(d2[j] == sp);
                }
            }
        }
    }
}

// ---------------------------------------------------------------------------
// Text of the chunks
// ---------------------------------------------------------------------------

/// The texts of the non-blank segments among segments `a` through `b`, in order.
pub open spec fn nonblank_texts(texts: Seq<Seq<char>>, a: int, b: int) -> Seq<Seq<char>>
    decreases b - a + 1,
{
    if b < a {
        Seq::empty()
    } else {
        let r = nonblank_texts(texts, a, b - 1);
        if nonblank(texts[b]) {
            r.push(texts[b])
        } else {
            r
        }
    }
}

/// Each chunk's text is the texts of its non-blank segments joined by spaces
/// and trimmed.
pub open spec fn texts_joined(texts: Seq<Seq<char>>, spans: Seq<ChunkSpan>) -> bool {
    forall|i: int|
        #![trigger spans[i]]
        0 <= i < spans.len() ==> spans[i].text == text::trim(
            text::join(nonblank_texts(texts, spans[i].first, spans[i].last), seq![' ']),
        )
}

spec fn text_inv(texts: Seq<Seq<char>>, st: PlanState) -> bool {
    &&& texts_joined(texts, st.done)
    &&& st.cur.len() > 0 ==> st.cur == nonblank_texts(texts, st.first, st.last)
}

/// The non-blank texts of a range depend only on the texts inside it.
proof fn lemma_nonblank_texts_agree(t1: Seq<Seq<char>>, t2: Seq<Seq<char>>, a: int, b: int)
    requires
        forall|k: int| a <= k <= b ==> #[trigger] t1[k] == t2[k],
    ensures
        nonblank_texts(t1, a, b) == nonblank_texts(t2, a, b),
    decreases b - a + 1,
{
    if b >= a {
        assert(t1[b] == t2[b]);
        lemma_nonblank_texts_agree(t1, t2, a, b - 1);
    }
}

/// Blank segments after `c` add no text.
proof fn lemma_nonblank_texts_blank_tail(texts: Seq<Seq<char>>, a: int, c: int, b: int)
    requires
        a - 1 <= c <= b,
        forall|k: int| c < k <= b ==> !nonblank(#[trigger] texts[k]),
    ensures
        nonblank_texts(texts, a, b) == nonblank_texts(texts, a, c),
    decreases b - c,
{
    if b > c {
        assert(!nonblank(texts[b]));
        lemma_nonblank_texts_blank_tail(texts, a, c, b - 1);
    }
}

/// The text invariant over a prefix carries over to the longer sequence of texts.
proof fn lemma_text_extend(pre: Seq<Seq<char>>, texts: Seq<Seq<char>>, st: PlanState)
    requires
        plan_inv(pre, st, pre.len() as int),
        text_inv(pre, st),
        pre.len() <= texts.len(),
        forall|k: int| 0 <= k < pre.len() ==> texts[k] == #[trigger] pre[k],
    ensures
        text_inv(texts, st),
{
    let d = st.done;
    assert forall|i: int| #![trigger d[i]] 0 <= i < d.len() implies d[i].text == text::trim(
        text::join(nonblank_texts(texts, d[i].first, d[i].last), seq![' ']),
    ) by {
        assert(0 <= d[i].first <= d[i].last < pre.len());
        assert forall|k: int| d[i].first <= k <= d[i].last implies #[trigger] pre[k] == texts[k] by {}
        lemma_nonblank_texts_agree(pre, texts, d[i].first, d[i].last);
    }
    if st.cur.len() > 0 {
        assert forall|k: int| st.first <= k <= st.last implies #[trigger] pre[k] == texts[k] by {}
        lemma_nonblank_texts_agree(pre, texts, st.first, st.last);
    }
}

#[verifier::spinoff_prover]
#[verifier::rlimit(40)]
proof fn lemma_text_inv(texts: Seq<Seq<char>>, size: nat)
    ensures
        text_inv(texts, plan(texts, size)),
    decreases texts.len(),
{
    if texts.len() > 0 {
        let pre = texts.drop_last();
        lemma_text_inv(pre, size);
        lemma_plan_inv(pre, size);
        lemma_budget_inv(pre, size);
        let st = plan(pre, size);
        let x = texts.last();
        let idx = pre.len() as int;
        lemma_text_extend(pre, texts, st);
        lemma_plan_inv_extend(pre, texts, st);
        let st2 = plan(texts, size);
        assert(st2 == step(st, x, idx, size));
        assert(texts[idx] == x);
        if nonblank(x) {
            assert(nonblank_texts(texts, idx, idx - 1) == Seq::<Seq<char>>::empty());
            assert(nonblank_texts(texts, idx, idx) =~= seq![x]);
            let t = token_estimate(x);
            if st.cur.len() > 0 {
                let d = st.done;
                if st.tokens + t > size {
                    lemma_close_pushes(st);
                    let sp = ChunkSpan { text: pending_text(st), first: st.first, last: st.last };
                    let d2 = d.push(sp);
                    assert(st2.done == d2);
                    assert forall|i: int| #![trigger d2[i]] 0 <= i < d2.len() implies d2[i].text == text::trim(
                        text::join(nonblank_texts(texts, d2[i].first, d2[i].last), seq![' ']),
                    ) by {
                        if i < d.len() {
                            assert(d2[i] == d[i]);
                        }
                    }
                    assert(st2.cur =~= seq![x]);
                } else {
                    assert forall|k: int| st.last < k <= idx - 1 implies !nonblank(#[trigger] texts[k]) by {
                        if nonblank(texts[k]) {
                            assert(covered(d, k));
                            let i = choose|i: int| 0 <= i < d.len() && #[trigger] d[i].first <= k <= d[i].last;
                            let l = d.len() - 1;
                            if i < l {
                                assert(d[i].last < d[l].first);
                            }
                            assert(d.last() == d[l]);
                        }
                    }
                    lemma_nonblank_texts_blank_tail(texts, st.first, st.last, idx - 1);
                    assert(st2.cur =~= nonblank_texts(texts, st.first, idx));
                }
            } else {
                assert(st2.cur =~= seq![x]);
            }
        }
    }
}

/// The text of every chunk is the texts of its non-blank segments, in order,
/// joined by single spaces and trimmed.
pub proof fn lemma_chunk_texts(texts: Seq<Seq<char>>, size: nat)
    ensures
        texts_joined(texts, chunk_spans(texts, size)),
{
    if size > 0 && texts.len() > 0 {
        lemma_text_inv(texts, size);
        lemma_plan_inv(texts, size);
        let st = plan(texts, size);
        if st.cur.len() > 0 {
            lemma_close_pushes(st);
            let d = st.done;
            let sp = ChunkSpan { text: pending_text(st), first: st.first, last: st.last };
            let d2 = d.push(sp);
            assert(chunk_spans(texts, size) == d2);
            assert forall|i: int| #![trigger d2[i]] 0 <= i < d2.len() implies d2[i].text == text::trim(
                text::join(nonblank_texts(texts, d2[i].first, d2[i].last), seq![' ']),
            ) by {
                if i < d.len() {
                    assert(d2[i] == d[i]);
                }
            }
        }
    }
}

} // verus!
