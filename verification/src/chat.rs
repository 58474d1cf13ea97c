//! Decisions of the chat completions client: its errors, which streamed
//! deltas are passed on, and what a non-streaming answer yields.
use vstd::prelude::*;
use crate::text::{self, owned, push_decimal};

verus! {

/// Errors of the chat client.
#[derive(Debug)]
pub enum ChatError {
    /// The request failed on the way (the transport's message).
    Http(String),
    /// The endpoint answered with an error status.
    Api { status: u16, message: String },
    /// The stream or the answer could not be used.
    Stream(String),
    /// A body did not parse (the parser's message).
    Json(String),
}

/// The message of an error, as the client reports it.
pub open spec fn chat_error_text(e: ChatError) -> Seq<char> {
    match e {
        ChatError::Http(m) => "HTTP error: "@ + m@,
        ChatError::Api { status, message } => "API error ("@ + text::decimal(status as nat) + "): "@
            + message@,
        ChatError::Stream(m) => "Stream error: "@ + m@,
        ChatError::Json(m) => "JSON parse error: "@ + m@,
    }
}

impl ChatError {
    /// The error's message.
    pub fn message(&self) -> (s: String)
        ensures
            s@ == chat_error_text(*self),
    {
        match self {
            ChatError::Http(m) => {
                let mut s = owned("HTTP error: ");
                s.append(m.as_str());
                s
            },
            ChatError::Api { status, message } => {
                let mut s = owned("API error (");
                push_decimal(&mut s, *status as u64);
                s.append("): ");
                s.append(message.as_str());
                s
            },
            ChatError::Stream(m) => {
                let mut s = owned("Stream error: ");
                s.append(m.as_str());
                s
            },
            ChatError::Json(m) => {
                let mut s = owned("JSON parse error: ");
                s.append(m.as_str());
                s
            },
        }
    }
}

/// The error for a streamed `data:` payload that did not parse, given the
/// parser's message.
pub fn stream_parse_error(detail: &str) -> (e: ChatError)
    ensures
        e matches ChatError::Stream(m) && m@ == "Failed to parse SSE chunk: "@ + detail@,
{
    let mut m = owned("Failed to parse SSE chunk: ");
    m.append(detail);
    ChatError::Stream(m)
}

/// The contents of a streamed chunk's deltas that are passed on, in order:
/// those present and non-empty.
pub open spec fn passed_contents(ds: Seq<Option<String>>) -> Seq<Seq<char>>
    decreases ds.len(),
{
    if ds.len() == 0 {
        Seq::empty()
    } else {
        let rest = passed_contents(ds.drop_last());
        match ds.last() {
            Some(c) => if c@.len() > 0 {
                rest.push(c@)
            } else {
                rest
            },
            None => rest,
        }
    }
}

/// Picks the delta contents of one streamed chunk that are passed on to the
/// reader: the present, non-empty ones, in order.
pub fn delta_contents(deltas: Vec<Option<String>>) -> (v: Vec<String>)
    ensures
        text::views(v@) == passed_contents(deltas@),
{
    let mut v: Vec<String> = Vec::new();
    let n = deltas.len();
    let mut i: usize = 0;
    while i < n
        invariant
            n == deltas.len(),
            i <= n,
            text::views(v@) == passed_contents(deltas@.take(i as int)),
        decreases n - i,
    {
        assert(deltas@.take(i + 1).drop_last() =~= deltas@.take(i as int));
        assert(deltas@.take(i + 1).last() == deltas@[i as int]);
        match &deltas[i] {
            Some(c) => {
                if !c.as_str().is_empty() {
                    let ghost before = v@;
                    v.push(c.clone());
                    proof {
                        broadcast use vstd::string::group_string_axioms;
                        assert(c@.len() > 0) by {
                            if c@.len() == 0 {
                                assert(c@ =~= Seq::<char>::empty());
                            }
                        }
                        assert(text::views(v@) =~= text::views(before).push(c@));
                    }
                } else {
                    proof {
                        broadcast use vstd::string::group_string_axioms;
                    }
                }
            },
            None => {},
        }
        i += 1;
    }
    assert(deltas@.take(n as int) =~= deltas@);
    v
}

/// The pieces of text laid end to end.
pub open spec fn joined(parts: Seq<Seq<char>>) -> Seq<char>
    decreases parts.len(),
{
    if parts.len() == 0 {
        Seq::empty()
    } else {
        joined(parts.drop_last()) + parts.last()
    }
}

/// All the text that the deltas carry, the empty contents included, in order.
pub open spec fn delta_text(ds: Seq<Option<String>>) -> Seq<char>
    decreases ds.len(),
{
    if ds.len() == 0 {
        Seq::empty()
    } else {
        delta_text(ds.drop_last()) + match ds.last() {
            Some(c) => c@,
            None => Seq::<char>::empty(),
        }
    }
}

/// `ks` picks, in increasing order, the deltas whose contents are `out`, and
/// picks every delta that is present with a content of at least one character.
pub open spec fn picks_deltas(ds: Seq<Option<String>>, ks: Seq<int>, out: Seq<Seq<char>>) -> bool {
    &&& ks.len() == out.len()
    &&& forall|j: int| 0 <= j < ks.len() ==> {
        &&& 0 <= #[trigger] ks[j] < ds.len()
        &&& ds[ks[j]] is Some
        &&& ds[ks[j]]->Some_0@ == out[j]
    }
    &&& forall|j1: int, j2: int| 0 <= j1 < j2 < ks.len() ==> ks[j1] < ks[j2]
    &&& forall|i: int| 0 <= i < ds.len() && (#[trigger] ds[i]) is Some && ds[i]->Some_0@.len() > 0
        ==> exists|j: int| 0 <= j < ks.len() && ks[j] == i
}

proof fn delta_picks(ds: Seq<Option<String>>) -> (ks: Seq<int>)
    ensures
        picks_deltas(ds, ks, passed_contents(ds)),
    decreases ds.len(),
{
    if ds.len() == 0 {
        Seq::empty()
    } else {
        let pre = ds.drop_last();
        let k0 = delta_picks(pre);
        let n = ds.len() - 1;
        assert forall|i: int| 0 <= i < n implies ds[i] == pre[i] by {}
        match ds.last() {
            Some(c) => {
                if c@.len() > 0 {
                    let ks = k0.push(n);
                    assert forall|i: int| 0 <= i < ds.len() && (#[trigger] ds[i]) is Some && ds[i]->Some_0@.len() > 0
                        implies exists|j: int| 0 <= j < ks.len() && ks[j] == i by {
                        if i == n {
                            assert(ks[ks.len() - 1] == i);
                        } else {
                            assert(pre[i] == ds[i]);
                            let j = choose|j: int| 0 <= j < k0.len() && k0[j] == i;
                            assert(ks[j] == i);
                        }
                    }
                    ks
                } else {
                    assert forall|i: int| 0 <= i < ds.len() && (#[trigger] ds[i]) is Some && ds[i]->Some_0@.len() > 0
                        implies exists|j: int| 0 <= j < k0.len() && k0[j] == i by {
                        assert(i != n);
                        assert(pre[i] == ds[i]);
                    }
                    k0
                }
            },
            None => {
                assert forall|i: int| 0 <= i < ds.len() && (#[trigger] ds[i]) is Some && ds[i]->Some_0@.len() > 0
                    implies exists|j: int| 0 <= j < k0.len() && k0[j] == i by {
                    assert(i != n);
                    assert(pre[i] == ds[i]);
                }
                k0
            },
        }
    }
}

proof fn lemma_passed_contents_join(ds: Seq<Option<String>>)
    ensures
        joined(passed_contents(ds)) == delta_text(ds),
        forall|j: int| 0 <= j < passed_contents(ds).len() ==> (#[trigger] passed_contents(ds)[j]).len() > 0,
    decreases ds.len(),
{
    if ds.len() > 0 {
        let pre = ds.drop_last();
        lemma_passed_contents_join(pre);
        let rest = passed_contents(pre);
        match ds.last() {
            Some(c) => {
                if c@.len() > 0 {
                    assert(rest.push(c@).drop_last() =~= rest);
                } else {
                    assert(c@ =~= Seq::<char>::empty());
                    assert(delta_text(ds) =~= delta_text(pre));
                }
            },
            None => {
                assert(delta_text(ds) =~= delta_text(pre));
            },
        }
    }
}

/// Every delta present with some content is passed on, whatever characters it
/// holds (spaces and line breaks alike), in order and each as it came: the
/// contents passed on are non-empty, lie end to end as all the text the deltas
/// carry, and are the contents of deltas picked in increasing order, every
/// present non-empty delta among them.
pub proof fn lemma_delta_contents_keep_all_text(ds: Seq<Option<String>>)
    ensures
        joined(passed_contents(ds)) == delta_text(ds),
        forall|j: int| 0 <= j < passed_contents(ds).len() ==> (#[trigger] passed_contents(ds)[j]).len() > 0,
        exists|ks: Seq<int>| picks_deltas(ds, ks, passed_contents(ds)),
{
    lemma_passed_contents_join(ds);
    let ks = delta_picks(ds);
    assert(picks_deltas(ds, ks, passed_contents(ds)));
}

/// The answer of a non-streaming completion, given the message contents of its
/// choices: the first one, or an error when there is none.
pub fn first_choice_content(contents: Vec<String>) -> (r: Result<String, ChatError>)
    ensures
        contents@.len() == 0 ==> (r matches Err(ChatError::Stream(m)) && m@
            == "API returned empty choices"@),
        contents@.len() > 0 ==> (r matches Ok(s) && s@ == contents@[0]@),
{
    if contents.len() == 0 {
        return Err(ChatError::Stream(owned("API returned empty choices")));
    }
    let mut contents = contents;
    Ok(contents.swap_remove(0))
}

} // verus!
