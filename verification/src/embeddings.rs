//! Checks on what an OpenAI-compatible embeddings endpoint returned: one
//! embedding per input, put back in input order by their `index` field, all of
//! one dimension.
use vstd::prelude::*;
use crate::text::{self, owned, push_decimal};

verus! {

/// Errors of the embeddings client.
#[derive(Debug)]
pub enum EmbeddingsError {
    /// The request failed on the way (the transport's message).
    Http(String),
    /// The endpoint answered with an error status.
    Api { status: u16, message: String },
    /// The wrong number of embeddings, or embeddings of different lengths.
    DimensionMismatch { expected: usize, got: usize },
    /// The endpoint returned no embedding at all.
    EmptyResponse,
}

/// The message of an error, as the client reports it.
pub open spec fn embeddings_error_text(e: EmbeddingsError) -> Seq<char> {
    match e {
        EmbeddingsError::Http(m) => "HTTP error: "@ + m@,
        EmbeddingsError::Api { status, message } => "API error ("@ + text::decimal(status as nat)
            + "): "@ + message@,
        EmbeddingsError::DimensionMismatch { expected, got } => "Embedding dimension mismatch: expected "@
            + text::decimal(expected as nat) + ", got "@ + text::decimal(got as nat),
        EmbeddingsError::EmptyResponse => "No embeddings returned from API"@,
    }
}

impl EmbeddingsError {
    /// The error's message.
    pub fn message(&self) -> (s: String)
        ensures
            s@ == embeddings_error_text(*self),
    {
        match self {
            EmbeddingsError::Http(m) => {
                let mut s = owned("HTTP error: ");
                s.append(m.as_str());
                s
            },
            EmbeddingsError::Api { status, message } => {
                let mut s = owned("API error (");
                push_decimal(&mut s, *status as u64);
                s.append("): ");
                s.append(message.as_str());
                s
            },
            EmbeddingsError::DimensionMismatch { expected, got } => {
                let mut s = owned("Embedding dimension mismatch: expected ");
                push_decimal(&mut s, *expected as u64);
                s.append(", got ");
                push_decimal(&mut s, *got as u64);
                s
            },
            EmbeddingsError::EmptyResponse => owned("No embeddings returned from API"),
        }
    }
}

/// What the checks read of one returned embedding: its `index` field and its
/// length.
#[derive(Debug, Clone, Copy)]
pub struct EmbeddingShape {
    pub index: usize,
    pub dimension: usize,
}

/// Entry `a` comes before entry `b` when sorting stably by `index`: a smaller
/// index first, and of equal indices the one that came first.
pub open spec fn precedes(s: Seq<EmbeddingShape>, a: int, b: int) -> bool {
    s[a].index < s[b].index || (s[a].index == s[b].index && a < b)
}

/// `order` lists every entry of `s` exactly once, in the order of a stable
/// sort by `index`.
pub open spec fn stable_order(s: Seq<EmbeddingShape>, order: Seq<usize>) -> bool {
    &&& order.len() == s.len()
    &&& forall|i: int| 0 <= i < order.len() ==> #[trigger] order[i] < s.len()
    &&& forall|i: int, j: int|
        0 <= i < j < order.len() ==> precedes(s, #[trigger] order[i] as int, #[trigger] order[j] as int)
    &&& forall|p: int| 0 <= p < s.len() ==> #[trigger] listed(order, p)
}

/// Position `p` occurs in `order`.
pub open spec fn listed(order: Seq<usize>, p: int) -> bool {
    exists|j: int| 0 <= j < order.len() && #[trigger] order[j] == p
}

/// All entries have the same length.
pub open spec fn same_dimension(s: Seq<EmbeddingShape>) -> bool {
    forall|a: int, b: int| 0 <= a < s.len() && 0 <= b < s.len() ==> #[trigger] s[a].dimension == #[trigger] s[b].dimension
}

/// Entry `q` comes first in the stable order.
pub open spec fn first_entry(s: Seq<EmbeddingShape>, q: int) -> bool {
    &&& 0 <= q < s.len()
    &&& forall|p: int| 0 <= p < s.len() && p != q ==> #[trigger] precedes(s, q, p)
}

/// Entry `q` is, in the stable order, the first whose length is not `dim`.
pub open spec fn first_mismatch(s: Seq<EmbeddingShape>, dim: nat, q: int) -> bool {
    &&& 0 <= q < s.len()
    &&& s[q].dimension != dim
    &&& forall|p: int| 0 <= p < s.len() && p != q && s[p].dimension != dim ==> #[trigger] precedes(s, q, p)
}

/// In the stable order, the first entry has length `expected` and the first
/// entry of another length has length `got`.
pub open spec fn reports_first_mismatch(s: Seq<EmbeddingShape>, expected: usize, got: usize) -> bool {
    exists|q: int, m: int|
        #![trigger first_entry(s, q), first_mismatch(s, expected as nat, m)]
        first_entry(s, q) && expected == s[q].dimension && first_mismatch(s, expected as nat, m) && got
            == s[m].dimension
}

/// A stable order by index is unique: two orders that both list every entry
/// once by index, equal indices in arrival order, are the same.
pub proof fn lemma_stable_order_unique(s: Seq<EmbeddingShape>, o1: Seq<usize>, o2: Seq<usize>)
    requires
        stable_order(s, o1),
        stable_order(s, o2),
    ensures
        o1 == o2,
{
    if o1 != o2 {
        assert(!(o1 =~= o2));
        let k = choose|k: int| 0 <= k < o1.len() && o1[k] != o2[k];
        lemma_first_difference(o1, o2, k);
        let first = choose|f: int| 0 <= f < o1.len() && o1[f] != o2[f] && forall|m: int| 0 <= m < f ==> o1[m] == o2[m];
        let a = o1[first] as int;
        let b = o2[first] as int;
        assert(listed(o2, a));
        let j = choose|j: int| 0 <= j < o2.len() && #[trigger] o2[j] == a;
        assert(listed(o1, b));
        let i = choose|i: int| 0 <= i < o1.len() && #[trigger] o1[i] == b;
        if j < first {
            assert(o1[j] == o2[j]);
            assert(precedes(s, o1[j] as int, o1[first] as int));
        }
        if i < first {
            assert(o1[i] == o2[i]);
            assert(precedes(s, o2[i] as int, o2[first] as int));
        }
        assert(j > first && i > first);
        assert(precedes(s, o2[first] as int, o2[j] as int));
        assert(precedes(s, o1[first] as int, o1[i] as int));
    }
}

proof fn lemma_first_difference(o1: Seq<usize>, o2: Seq<usize>, k: int)
    requires
        0 <= k < o1.len(),
        o1.len() == o2.len(),
        o1[k] != o2[k],
    ensures
        exists|f: int| 0 <= f < o1.len() && o1[f] != o2[f] && forall|m: int| 0 <= m < f ==> o1[m] == o2[m],
    decreases k,
{
    if forall|m: int| 0 <= m < k ==> o1[m] == o2[m] {
    } else {
        let m = choose|m: int| 0 <= m < k && o1[m] != o2[m];
        lemma_first_difference(o1, o2, m);
    }
}

/// The positions of the entries of `shapes` in the order of a stable sort by
/// `index`.
pub fn stable_order_by_index(shapes: &Vec<EmbeddingShape>) -> (order: Vec<usize>)
    ensures
        stable_order(shapes@, order@),
{
    let n = shapes.len();
    let mut order: Vec<usize> = Vec::new();
    let mut p: usize = 0;
    while p < n
        invariant
            n == shapes.len(),
            p <= n,
            order.len() == p,
            forall|i: int| 0 <= i < order.len() ==> #[trigger] order@[i] < p,
            forall|i: int, j: int|
                0 <= i < j < order.len() ==> precedes(shapes@, #[trigger] order@[i] as int, #[trigger] order@[j] as int),
            forall|q: int| 0 <= q < p ==> #[trigger] listed(order@, q),
        decreases n - p,
    {
        let key = shapes[p].index;
        let mut j = order.len();
        while j > 0 && shapes[order[j - 1]].index > key
            invariant
                n == shapes.len(),
                p < n,
                key == shapes@[p as int].index,
                order.len() == p,
                forall|i: int| 0 <= i < order.len() ==> #[trigger] order@[i] < p,
                j <= order.len(),
                forall|k: int| j <= k < order.len() ==> shapes@[#[trigger] order@[k] as int].index > key,
            decreases j,
        {
            j -= 1;
        }
        let ghost old_order = order@;
        order.insert(j, p);
        proof {
            let o = old_order;
            let o2 = order@;
            assert(o2 == o.insert(j as int, p));
            assert forall|i: int| 0 <= i < o2.len() implies #[trigger] o2[i] < p + 1 by {
                if i < j {
                    assert(o2[i] == o[i]);
                } else if i > j {
                    assert(o2[i] == o[i - 1]);
                }
            }
            assert forall|i: int, k: int| 0 <= i < k < o2.len() implies precedes(
                shapes@,
                #[trigger] o2[i] as int,
                #[trigger] o2[k] as int,
            ) by {
                if k < j {
                    assert(o2[i] == o[i] && o2[k] == o[k]);
                } else if k == j {
                    assert(o2[i] == o[i]);
                    assert(o2[k] == p);
                    if i < j - 1 {
                        assert(precedes(shapes@, o[i] as int, o[j - 1] as int));
                    }
                    assert(o[i] < p);
                } else if i == j {
                    assert(o2[i] == p);
                    assert(o2[k] == o[k - 1]);
                    assert(shapes@[o[k - 1] as int].index > key);
                } else if i < j {
                    assert(o2[i] == o[i] && o2[k] == o[k - 1]);
                } else {
                    assert(o2[i] == o[i - 1] && o2[k] == o[k - 1]);
                }
            }
            assert forall|q: int| 0 <= q < p + 1 implies #[trigger] listed(o2, q) by {
                if q == p {
                    assert(o2[j as int] == q);
                } else {
                    assert(listed(o, q));
                    let m = choose|m: int| 0 <= m < o.len() && #[trigger] o[m] == q;
                    if m < j {
                        assert(o2[m] == q);
                    } else {
                        assert(o2[m + 1] == q);
                    }
                }
            }
        }
        p += 1;
    }
    order
}

/// Checks the embeddings returned for `input_count` inputs, of which `shapes`
/// gives the `index` and length in the order they came, and returns the
/// positions that put them in input order.
///
/// None returned is an empty response; a count other than `input_count` is a
/// mismatch of the count; otherwise the entries are sorted stably by `index`
/// and every length must equal the first one's, else the first differing
/// length is reported against it.
pub fn order_embeddings(input_count: usize, shapes: &Vec<EmbeddingShape>) -> (r: Result<Vec<usize>, EmbeddingsError>)
    ensures
        shapes@.len() == 0 ==> r matches Err(EmbeddingsError::EmptyResponse),
        shapes@.len() > 0 && shapes@.len() != input_count ==> (r matches Err(
            EmbeddingsError::DimensionMismatch { expected, got },
        ) && expected == input_count && got == shapes@.len()),
        shapes@.len() > 0 && shapes@.len() == input_count ==> (r is Ok <==> same_dimension(shapes@)),
        r matches Ok(order) ==> stable_order(shapes@, order@),
        shapes@.len() > 0 && shapes@.len() == input_count && r is Err ==> (r matches Err(
            EmbeddingsError::DimensionMismatch { expected, got },
        ) && reports_first_mismatch(shapes@, expected, got)),
{
    let n = shapes.len();
    if n == 0 {
        return Err(EmbeddingsError::EmptyResponse);
    }
    if n != input_count {
        return Err(EmbeddingsError::DimensionMismatch { expected: input_count, got: n });
    }
    let order = stable_order_by_index(shapes);
    let ghost s = shapes@;
    let ghost o = order@;
    let first = order[0];
    let dim = shapes[first].dimension;
    proof {
        assert forall|p: int| 0 <= p < s.len() && p != first implies #[trigger] precedes(s, first as int, p) by {
            assert(listed(o, p));
            let j = choose|j: int| 0 <= j < o.len() && #[trigger] o[j] == p;
            assert(j != 0);
            assert(precedes(s, o[0] as int, o[j] as int));
        }
        assert(first_entry(s, first as int));
    }
    let mut i: usize = 0;
    while i < n
        invariant
            n == shapes.len(),
            n == input_count,
            n > 0,
            s == shapes@,
            first_entry(s, first as int),
            o == order@,
            stable_order(s, o),
            first == o[0],
            dim == s[first as int].dimension,
            i <= n,
            forall|k: int| 0 <= k < i ==> s[#[trigger] o[k] as int].dimension == dim,
        decreases n - i,
    {
        let e = order[i];
        if shapes[e].dimension != dim {
            let got = shapes[e].dimension;
            proof {
                assert forall|p: int| 0 <= p < s.len() && p != e && s[p].dimension != dim implies #[trigger] precedes(
                    s,
                    e as int,
                    p,
                ) by {
                    assert(listed(o, p));
            let j = choose|j: int| 0 <= j < o.len() && #[trigger] o[j] == p;
                    if j < i {
                        assert(s[o[j] as int].dimension == dim);
                    }
                    assert(j != i);
                    assert(precedes(s, o[i as int] as int, o[j] as int));
                }
                assert(first_mismatch(s, dim as nat, e as int));
                assert(!same_dimension(s)) by {
                    assert(s[e as int].dimension != s[first as int].dimension);
                }
            }
            assert(reports_first_mismatch(s, dim, got)) by {
                assert(first_entry(s, first as int) && first_mismatch(s, dim as nat, e as int));
            }
            return Err(EmbeddingsError::DimensionMismatch { expected: dim, got });
        }
        i += 1;
    }
    proof {
        assert forall|a: int, b: int| 0 <= a < s.len() && 0 <= b < s.len() implies #[trigger] s[a].dimension
            == #[trigger] s[b].dimension by {
            assert(listed(o, a) && listed(o, b));
            let ja = choose|j: int| 0 <= j < o.len() && #[trigger] o[j] == a;
            let jb = choose|j: int| 0 <= j < o.len() && #[trigger] o[j] == b;
            assert(s[o[ja] as int].dimension == dim);
            assert(s[o[jb] as int].dimension == dim);
        }
    }
    Ok(order)
}

} // verus!
