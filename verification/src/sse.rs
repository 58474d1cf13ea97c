//! Framing of a Server-Sent Events stream from a chat completions endpoint:
//! bytes are buffered, split into lines at `\n`, and each line is read as a
//! comment, a `data: ` payload, or the `[DONE]` marker.
use vstd::prelude::*;
use crate::text::{self, chars_of, owned, starts_with, trim_str};

verus! {

/// Decodes UTF-8 bytes.
/// Trusted: `String::from_utf8` fails exactly when the bytes are not valid
/// UTF-8 and otherwise holds the characters they encode.
#[verifier::external_body]
pub fn decode_utf8_bytes(bytes: Vec<u8>) -> (r: Option<String>)
    ensures
        r is Some <==> vstd::utf8::valid_utf8(bytes@),
        r matches Some(s) ==> s@ == vstd::utf8::decode_utf8(bytes@),
{
    String::from_utf8(bytes).ok()
}

/// Whether `b` holds a newline byte.
pub open spec fn has_newline(b: Seq<u8>) -> bool {
    exists|i: int| 0 <= i < b.len() && b[i] == 10u8
}

/// The position of the first newline byte of `b`, or -1 when it has none.
pub open spec fn newline_index(b: Seq<u8>) -> int
    decreases b.len(),
{
    if b.len() == 0 {
        -1
    } else if b[0] == 10u8 {
        0
    } else {
        let k = newline_index(b.drop_first());
        if k < 0 {
            -1
        } else {
            k + 1
        }
    }
}

/// Where the first newline is, and that none comes before it.
pub proof fn lemma_newline_index(b: Seq<u8>)
    ensures
        -1 <= newline_index(b) < b.len(),
        newline_index(b) >= 0 ==> b[newline_index(b)] == 10u8,
        newline_index(b) >= 0 ==> !has_newline(b.take(newline_index(b))),
        newline_index(b) < 0 <==> !has_newline(b),
    decreases b.len(),
{
    if b.len() > 0 {
        let t = b.drop_first();
        lemma_newline_index(t);
        if b[0] != 10u8 {
            let k = newline_index(t);
            if k >= 0 {
                let p = b.take(k + 1);
                assert forall|i: int| 0 <= i < k + 1 implies #[trigger] p[i] != 10u8 by {
                    if i > 0 {
                        assert(p[i] == t.take(k)[i - 1]);
                    }
                }
            }
            if has_newline(b) {
                let i = choose|i: int| 0 <= i < b.len() && b[i] == 10u8;
                assert(t[i - 1] == 10u8);
            }
            if has_newline(t) {
                let i = choose|i: int| 0 <= i < t.len() && t[i] == 10u8;
                assert(b[i + 1] == 10u8);
            }
        }
    }
}

/// The complete lines of a byte stream, each without its `\n`, in order.
pub open spec fn complete_lines(b: Seq<u8>) -> Seq<Seq<u8>>
    decreases b.len(),
{
    let k = newline_index(b);
    if k < 0 {
        Seq::empty()
    } else {
        proof {
            lemma_newline_index(b);
        }
        seq![b.take(k)] + complete_lines(b.skip(k + 1))
    }
}

/// What follows the last newline of a byte stream: a line still arriving.
pub open spec fn pending_bytes(b: Seq<u8>) -> Seq<u8>
    decreases b.len(),
{
    let k = newline_index(b);
    if k < 0 {
        b
    } else {
        proof {
            lemma_newline_index(b);
        }
        pending_bytes(b.skip(k + 1))
    }
}

/// The first newline of `line + \n + rest`, when `line` has none, ends `line`.
proof fn lemma_split_first_line(line: Seq<u8>, rest: Seq<u8>)
    requires
        !has_newline(line),
    ensures
        newline_index(line + seq![10u8] + rest) == line.len(),
        complete_lines(line + seq![10u8] + rest) == seq![line] + complete_lines(rest),
        pending_bytes(line + seq![10u8] + rest) == pending_bytes(rest),
    decreases line.len(),
{
    let b = line + seq![10u8] + rest;
    if line.len() > 0 {
        assert(b.drop_first() =~= line.drop_first() + seq![10u8] + rest);
        assert(!has_newline(line.drop_first())) by {
            if has_newline(line.drop_first()) {
                let i = choose|i: int| 0 <= i < line.drop_first().len() && line.drop_first()[i] == 10u8;
                assert(line[i + 1] == 10u8);
            }
        }
        assert(b[0] == line[0]);
        assert(line[0] != 10u8);
        lemma_split_first_line(line.drop_first(), rest);
    }
    lemma_newline_index(b);
    assert(b.take(line.len() as int) =~= line);
    assert(b.skip(line.len() as int + 1) =~= rest);
}

/// Bytes without a newline hold no complete line and are all pending.
proof fn lemma_no_newline(b: Seq<u8>)
    requires
        !has_newline(b),
    ensures
        complete_lines(b) == Seq::<Seq<u8>>::empty(),
        pending_bytes(b) == b,
{
    lemma_newline_index(b);
}

/// Framing does not depend on how the stream is cut into pieces: the lines of
/// `a + c` are the lines of `a` followed by the lines of what was pending
/// after `a` with `c` appended, and the same bytes are left pending.
pub proof fn lemma_lines_of_concat(a: Seq<u8>, c: Seq<u8>)
    ensures
        complete_lines(a + c) == complete_lines(a) + complete_lines(pending_bytes(a) + c),
        pending_bytes(a + c) == pending_bytes(pending_bytes(a) + c),
    decreases a.len(),
{
    lemma_newline_index(a);
    let k = newline_index(a);
    if k < 0 {
        lemma_no_newline(a);
        assert(complete_lines(a) + complete_lines(a + c) =~= complete_lines(a + c));
    } else {
        let line = a.take(k);
        let rest = a.skip(k + 1);
        assert(a =~= line + seq![10u8] + rest);
        assert(a + c =~= line + seq![10u8] + (rest + c));
        lemma_split_first_line(line, rest);
        lemma_split_first_line(line, rest + c);
        lemma_lines_of_concat(rest, c);
        assert(complete_lines(a + c) =~= complete_lines(a) + complete_lines(pending_bytes(a) + c));
    }
}

/// Bytes received but not yet split into lines.
pub struct SseBuffer {
    buf: Vec<u8>,
}

impl View for SseBuffer {
    type V = Seq<u8>;

    closed spec fn view(&self) -> Seq<u8> {
        self.buf@
    }
}

impl SseBuffer {
    /// An empty buffer.
    pub fn new() -> (b: Self)
        ensures
            b@ == Seq::<u8>::empty(),
    {
        SseBuffer { buf: Vec::new() }
    }

    /// Appends received bytes.
    pub fn extend(&mut self, bytes: &[u8])
        ensures
            final(self)@ == old(self)@ + bytes@,
    {
        let mut i: usize = 0;
        while i < bytes.len()
            invariant
                i <= bytes@.len(),
                self.buf@ == old(self)@ + bytes@.take(i as int),
            decreases bytes.len() - i,
        {
            self.buf.push(bytes[i]);
            assert(bytes@.take(i + 1) =~= bytes@.take(i as int).push(bytes@[i as int]));
            i += 1;
        }
        assert(bytes@.take(bytes@.len() as int) =~= bytes@);
    }

    /// Whether nothing is buffered.
    pub fn is_empty(&self) -> (b: bool)
        ensures
            b == (self@.len() == 0),
    {
        self.buf.len() == 0
    }

    /// Takes the first complete line off the buffer, without its `\n`.
    /// Returns `None`, leaving the buffer as it was, when no `\n` is buffered.
    pub fn next_line(&mut self) -> (r: Option<Vec<u8>>)
        ensures
            r is None ==> final(self)@ == old(self)@ && !has_newline(old(self)@),
            r is None ==> complete_lines(old(self)@).len() == 0,
            r matches Some(line) ==> {
                &&& old(self)@ == line@ + seq![10u8] + final(self)@
                &&& !has_newline(line@)
                &&& complete_lines(old(self)@) == seq![line@] + complete_lines(final(self)@)
                &&& pending_bytes(old(self)@) == pending_bytes(final(self)@)
            },
    {
        let n = self.buf.len();
        let mut i: usize = 0;
        while i < n && self.buf[i] != 10u8
            invariant
                n == self.buf.len(),
                self.buf@ == old(self)@,
                i <= n,
                forall|k: int| 0 <= k < i ==> self.buf@[k] != 10u8,
            decreases n - i,
        {
            i += 1;
        }
        if i == n {
            proof {
                lemma_no_newline(self.buf@);
            }
            return None;
        }
        let mut line: Vec<u8> = Vec::new();
        let mut rest: Vec<u8> = Vec::new();
        let mut k: usize = 0;
        while k < n
            invariant
                n == self.buf.len(),
                self.buf@ == old(self)@,
                i < n,
                self.buf@[i as int] == 10u8,
                k <= n,
                line@ == self.buf@.take(if k < i { k as int } else { i as int }),
                rest@ == if k <= i + 1 { Seq::<u8>::empty() } else { self.buf@.subrange(i + 1, k as int) },
            decreases n - k,
        {
            if k < i {
                line.push(self.buf[k]);
                assert(self.buf@.take(k + 1) =~= self.buf@.take(k as int).push(self.buf@[k as int]));
            } else if k > i {
                rest.push(self.buf[k]);
                if k == i + 1 {
                    assert(self.buf@.subrange(i + 1, k + 1) =~= seq![self.buf@[k as int]]);
                } else {
                    assert(self.buf@.subrange(i + 1, k + 1) =~= self.buf@.subrange(i + 1, k as int).push(
                        self.buf@[k as int],
                    ));
                }
            }
            k += 1;
        }
        proof {
            let b = old(self)@;
            if n == i + 1 {
                assert(rest@ =~= b.subrange(i + 1, n as int));
            }
            assert(b =~= line@ + seq![10u8] + rest@);
            assert forall|j: int| 0 <= j < line@.len() implies line@[j] != 10u8 by {
                assert(line@[j] == b[j]);
            }
        }
        self.buf = rest;
        proof {
            lemma_split_first_line(line@, rest@);
        }
        Some(line)
    }

    /// At the end of the stream, terminates a trailing partial line with `\n`
    /// so that it can be taken as a line.
    pub fn finish(&mut self)
        ensures
            old(self)@.len() == 0 ==> final(self)@ == old(self)@,
            old(self)@.len() > 0 ==> final(self)@ == old(self)@.push(10u8),
    {
        if self.buf.len() > 0 {
            self.buf.push(10u8);
        }
    }
}

/// What one line of the stream carries.
#[derive(Debug)]
pub enum SseLine {
    /// Invalid UTF-8, blank, a `:` comment, or not a `data: ` line.
    Skip,
    /// The `[DONE]` marker: the stream is over.
    Done,
    /// The payload of a `data: ` line, trimmed.
    Data(String),
}

/// The decoded line, trimmed.
pub open spec fn line_text(line: Seq<u8>) -> Seq<char> {
    text::trim(vstd::utf8::decode_utf8(line))
}

/// Lines that carry nothing.
pub open spec fn line_skipped(line: Seq<u8>) -> bool {
    ||| !vstd::utf8::valid_utf8(line)
    ||| line_text(line).len() == 0
    ||| line_text(line)[0] == ':'
    ||| !text::has_prefix(line_text(line), "data: "@)
}

/// The payload after `data: `, trimmed.
pub open spec fn line_data(line: Seq<u8>) -> Seq<char> {
    text::trim(line_text(line).skip("data: "@.len() as int))
}

/// Reads one line of the stream.
pub fn classify_line(line: Vec<u8>) -> (r: SseLine)
    ensures
        r is Skip <==> line_skipped(line@),
        r is Done <==> !line_skipped(line@) && line_data(line@) == "[DONE]"@,
        r matches SseLine::Data(d) ==> !line_skipped(line@) && line_data(line@) != "[DONE]"@ && d@
            == line_data(line@),
{
    let ghost bytes = line@;
    let decoded = match decode_utf8_bytes(line) {
        Some(s) => s,
        None => return SseLine::Skip,
    };
    let t = trim_str(decoded.as_str());
    let cs = chars_of(t.as_str());
    if cs.len() == 0 || cs[0] == ':' {
        return SseLine::Skip;
    }
    if !starts_with(t.as_str(), "data: ") {
        return SseLine::Skip;
    }
    proof {
        reveal_strlit("data: ");
    }
    let mut rest = String::new();
    let mut k: usize = 6;
    while k < cs.len()
        invariant
            cs@ == t@,
            6 <= k <= cs.len(),
            rest@ == t@.subrange(6, k as int),
        decreases cs.len() - k,
    {
        text::push_char(&mut rest, cs[k]);
        assert(t@.subrange(6, k + 1) =~= t@.subrange(6, k as int).push(t@[k as int]));
        k += 1;
    }
    assert(t@.skip(6) =~= t@.subrange(6, cs.len() as int));
    let data = trim_str(rest.as_str());
    if data == owned("[DONE]") {
        SseLine::Done
    } else {
        SseLine::Data(data)
    }
}

} // verus!
