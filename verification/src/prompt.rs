//! Building the chat-completion messages for a question about a meeting: a
//! fixed system prompt, the retrieved transcript excerpts with their times, and
//! the user's question.
use vstd::prelude::*;
use vstd::string::*;
use crate::text::{self, owned, push_char, push_decimal, push_padded, trim_str};

verus! {

/// A single message in the OpenAI chat format.
#[derive(Debug)]
pub struct ChatMessage {
    pub role: String,
    pub content: String,
}

/// A retrieved transcript excerpt with its start and end in whole seconds.
#[derive(Debug)]
pub struct ContextExcerpt {
    pub start_secs: u64,
    pub end_secs: u64,
    pub text: String,
}

/// `MM:SS`, minutes not capped at 59.
pub open spec fn mmss(t: nat) -> Seq<char> {
    text::padded(t / 60, 2) + seq![':'] + text::padded(t % 60, 2)
}

/// Formats whole seconds as `MM:SS` for display in prompts.
pub fn format_timestamp(total_secs: u64) -> (s: String)
    ensures
        s@ == mmss(total_secs as nat),
{
    let mut s = String::new();
    push_padded(&mut s, total_secs / 60, 2);
    push_char(&mut s, ':');
    push_padded(&mut s, total_secs % 60, 2);
    assert(s@ =~= mmss(total_secs as nat));
    s
}

/// The instructions sent first in every conversation.
pub open spec fn system_prompt() -> Seq<char> {
    "You are an AI assistant that helps users understand their meeting recordings. You answer questions based on the provided transcript excerpts. Guidelines:\n- Answer questions accurately based on the transcript context provided below.\n- If the answer is not in the provided context, say so honestly.\n- When referencing specific parts of the meeting, mention the timestamps.\n- Be concise and helpful.\n- Respond in the same language the user asks their question in."@
}

/// The heading of the context message.
pub open spec fn context_heading() -> Seq<char> {
    "Here are the most relevant excerpts from the meeting transcript:\n\n"@
}

/// The block for excerpt number `n` (counting from 1).
pub open spec fn excerpt_block(n: nat, e: ContextExcerpt) -> Seq<char> {
    "[Excerpt "@ + text::decimal(n) + " | "@ + mmss(e.start_secs as nat) + " - "@ + mmss(
        e.end_secs as nat,
    ) + "]\n"@ + text::trim(e.text@) + "\n\n"@
}

/// The blocks of all excerpts, numbered from 1.
pub open spec fn excerpt_blocks(es: Seq<ContextExcerpt>) -> Seq<char>
    decreases es.len(),
{
    if es.len() == 0 {
        Seq::empty()
    } else {
        excerpt_blocks(es.drop_last()) + excerpt_block(es.len(), es.last())
    }
}

/// The context message: the heading followed by one block per excerpt.
pub open spec fn context_text(es: Seq<ContextExcerpt>) -> Seq<char> {
    context_heading() + excerpt_blocks(es)
}

/// Builds the context block from the relevant excerpts.
#[verifier::spinoff_prover]
#[verifier::rlimit(30)]
pub fn build_context(excerpts: &Vec<ContextExcerpt>) -> (s: String)
    ensures
        s@ == context_text(excerpts@),
{
    let mut s = owned("Here are the most relevant excerpts from the meeting transcript:\n\n");
    let n = excerpts.len();
    let mut i: usize = 0;
    while i < n
        invariant
            n == excerpts.len(),
            i <= n,
            s@ == context_heading() + excerpt_blocks(excerpts@.take(i as int)),
        decreases n - i,
    {
        let e = &excerpts[i];
        let ghost before = s@;
        s.append("[Excerpt ");
        push_decimal(&mut s, i as u64 + 1);
        s.append(" | ");
        let a = format_timestamp(e.start_secs);
        s.append(a.as_str());
        s.append(" - ");
        let b = format_timestamp(e.end_secs);
        s.append(b.as_str());
        s.append("]\n");
        let t = trim_str(e.text.as_str());
        s.append(t.as_str());
        s.append("\n\n");
        proof {
            let pre = excerpts@.take(i + 1);
            assert(pre.drop_last() =~= excerpts@.take(i as int));
            assert(pre.last() == excerpts@[i as int]);
            assert(s@ =~= before + excerpt_block((i + 1) as nat, excerpts@[i as int]));
        }
        i += 1;
    }
    assert(excerpts@.take(n as int) =~= excerpts@);
    s
}

/// The block that excerpt `es[i]` gets in the context: its number `i + 1`, its
/// start and end as `MM:SS`, and its trimmed text.
#[verifier::opaque]
pub open spec fn numbered_block(es: Seq<ContextExcerpt>, i: int) -> Seq<char> {
    "[Excerpt "@ + text::decimal((i + 1) as nat) + " | "@ + mmss(es[i].start_secs as nat) + " - "@
        + mmss(es[i].end_secs as nat) + "]\n"@ + text::trim(es[i].text@) + "\n\n"@
}

/// The total length of the blocks of the first `k` excerpts.
pub open spec fn blocks_len(es: Seq<ContextExcerpt>, k: int) -> int
    decreases k,
{
    if k <= 0 {
        0
    } else {
        blocks_len(es, k - 1) + numbered_block(es, k - 1).len()
    }
}

proof fn lemma_blocks_len_prefix(es: Seq<ContextExcerpt>, m: int, k: int)
    requires
        0 <= k <= m <= es.len(),
    ensures
        blocks_len(es.take(m), k) == blocks_len(es, k),
    decreases k,
{
    if k > 0 {
        lemma_blocks_len_prefix(es, m, k - 1);
        lemma_numbered_block_prefix(es, m, k - 1);
    }
}

proof fn lemma_blocks_len_mono(es: Seq<ContextExcerpt>, j: int, k: int)
    requires
        0 <= j <= k,
    ensures
        blocks_len(es, j) <= blocks_len(es, k),
    decreases k,
{
    if j < k {
        lemma_blocks_len_mono(es, j, k - 1);
    }
}

proof fn lemma_numbered_block_is_last(es: Seq<ContextExcerpt>)
    requires
        es.len() > 0,
    ensures
        excerpt_blocks(es) == excerpt_blocks(es.drop_last()) + numbered_block(es, es.len() - 1),
{
    reveal(numbered_block);
    assert(excerpt_block(es.len(), es.last()) == numbered_block(es, es.len() - 1));
}

proof fn lemma_numbered_block_prefix(es: Seq<ContextExcerpt>, m: int, i: int)
    requires
        0 <= i < m <= es.len(),
    ensures
        numbered_block(es.take(m), i) == numbered_block(es, i),
{
    reveal(numbered_block);
    assert(es.take(m)[i] == es[i]);
}

proof fn lemma_excerpt_blocks_layout(es: Seq<ContextExcerpt>)
    ensures
        excerpt_blocks(es).len() == blocks_len(es, es.len() as int),
        forall|i: int| 0 <= i < es.len() ==> excerpt_blocks(es).subrange(
            blocks_len(es, i),
            blocks_len(es, i + 1),
        ) == #[trigger] numbered_block(es, i),
    decreases es.len(),
{
    if es.len() > 0 {
        let n = es.len() as int;
        let pre = es.drop_last();
        lemma_excerpt_blocks_layout(pre);
        assert(pre =~= es.take(n - 1));
        assert forall|k: int| 0 <= k <= n - 1 implies #[trigger] blocks_len(pre, k) == blocks_len(es, k) by {
            lemma_blocks_len_prefix(es, n - 1, k);
        }
        lemma_numbered_block_is_last(es);
        let a = excerpt_blocks(pre);
        let b = numbered_block(es, n - 1);
        assert(blocks_len(es, n) == blocks_len(es, n - 1) + b.len());
        assert(blocks_len(pre, n - 1) == blocks_len(es, n - 1));
        assert(a.len() == blocks_len(es, n - 1));
        assert forall|i: int| 0 <= i < n implies excerpt_blocks(es).subrange(
            blocks_len(es, i),
            blocks_len(es, i + 1),
        ) == #[trigger] numbered_block(es, i) by {
            if i < n - 1 {
                lemma_numbered_block_prefix(es, n - 1, i);
                assert(blocks_len(pre, i) == blocks_len(es, i));
                assert(blocks_len(pre, i + 1) == blocks_len(es, i + 1));
                lemma_blocks_len_mono(es, i + 1, n - 1);
                lemma_blocks_len_mono(es, i, i + 1);
                lemma_blocks_len_mono(es, 0, i);
                assert(a.subrange(blocks_len(pre, i), blocks_len(pre, i + 1)) == numbered_block(pre, i));
                lemma_subrange_of_front(a, b, blocks_len(es, i), blocks_len(es, i + 1));
            } else {
                lemma_subrange_of_back(a, b);
            }
        }
    }
}

proof fn lemma_subrange_of_front(a: Seq<char>, b: Seq<char>, p: int, q: int)
    requires
        0 <= p <= q <= a.len(),
    ensures
        (a + b).subrange(p, q) == a.subrange(p, q),
{
    assert((a + b).subrange(p, q) =~= a.subrange(p, q));
}

proof fn lemma_subrange_shift(a: Seq<char>, b: Seq<char>, p: int, q: int)
    requires
        0 <= p <= q <= b.len(),
    ensures
        (a + b).subrange(a.len() + p, a.len() + q) == b.subrange(p, q),
{
    assert((a + b).subrange(a.len() + p, a.len() + q) =~= b.subrange(p, q));
}

proof fn lemma_subrange_of_back(a: Seq<char>, b: Seq<char>)
    ensures
        (a + b).subrange(a.len() as int, (a.len() + b.len()) as int) == b,
{
    assert((a + b).subrange(a.len() as int, (a.len() + b.len()) as int) =~= b);
}

/// The context holds every excerpt, none dropped or added: after the heading
/// come the blocks of all the excerpts, one each, in order, numbered from 1;
/// block `i + 1` holds `es[i]`'s start, end and trimmed text and stands where
/// the blocks before it end, and the context is as long as the heading and all
/// the blocks together.
pub proof fn lemma_context_has_every_excerpt(es: Seq<ContextExcerpt>)
    ensures
        context_text(es).take(context_heading().len() as int)
            == "Here are the most relevant excerpts from the meeting transcript:\n\n"@,
        context_text(es).len() == context_heading().len() + blocks_len(es, es.len() as int),
        forall|i: int| 0 <= i < es.len() ==> context_text(es).subrange(
            context_heading().len() + blocks_len(es, i),
            context_heading().len() + blocks_len(es, i + 1),
        ) == #[trigger] numbered_block(es, i),
{
    lemma_excerpt_blocks_layout(es);
    let h = context_heading();
    let b = excerpt_blocks(es);
    lemma_subrange_of_front(h, b, 0, h.len() as int);
    assert(h.subrange(0, h.len() as int) =~= h);
    assert(context_text(es).take(h.len() as int) =~= context_text(es).subrange(0, h.len() as int));
    assert forall|i: int| 0 <= i < es.len() implies context_text(es).subrange(
        h.len() + blocks_len(es, i),
        h.len() + blocks_len(es, i + 1),
    ) == #[trigger] numbered_block(es, i) by {
        lemma_blocks_len_mono(es, 0, i);
        lemma_blocks_len_mono(es, i, i + 1);
        lemma_blocks_len_mono(es, i + 1, es.len() as int);
        lemma_subrange_shift(h, b, blocks_len(es, i), blocks_len(es, i + 1));
    }
}

/// The messages for a question: the system prompt, then (when there are
/// excerpts) a system message with the context, then the user's question.
pub open spec fn messages_spec(es: Seq<ContextExcerpt>, question: Seq<char>) -> Seq<(Seq<char>, Seq<char>)> {
    if es.len() == 0 {
        seq![("system"@, system_prompt()), ("user"@, question)]
    } else {
        seq![("system"@, system_prompt()), ("system"@, context_text(es)), ("user"@, question)]
    }
}

/// The role and content of each message.
pub open spec fn message_views(ms: Seq<ChatMessage>) -> Seq<(Seq<char>, Seq<char>)> {
    ms.map_values(|m: ChatMessage| (m.role@, m.content@))
}

/// Builds the full list of messages for a chat completion request.
pub fn build_messages(excerpts: &Vec<ContextExcerpt>, user_question: &str) -> (ms: Vec<ChatMessage>)
    ensures
        message_views(ms@) == messages_spec(excerpts@, user_question@),
{
    let mut ms: Vec<ChatMessage> = Vec::new();
    ms.push(
        ChatMessage {
            role: owned("system"),
            content: owned(
                "You are an AI assistant that helps users understand their meeting recordings. You answer questions based on the provided transcript excerpts. Guidelines:\n- Answer questions accurately based on the transcript context provided below.\n- If the answer is not in the provided context, say so honestly.\n- When referencing specific parts of the meeting, mention the timestamps.\n- Be concise and helpful.\n- Respond in the same language the user asks their question in.",
            ),
        },
    );
    if excerpts.len() > 0 {
        ms.push(ChatMessage { role: owned("system"), content: build_context(excerpts) });
    }
    ms.push(ChatMessage { role: owned("user"), content: owned(user_question) });
    assert(message_views(ms@) =~= messages_spec(excerpts@, user_question@));
    ms
}

} // verus!
