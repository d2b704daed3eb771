//! Framing of streamed model replies: Ollama sends one JSON object per line,
//! OpenAI sends server-sent events separated by blank lines. The decoders here
//! buffer the received text and hand out complete lines or event payloads.
use vstd::prelude::*;

use crate::text::{
    chars_of, copy_str, find_in, first_occurrence, lemma_first_occurrence, occurs_at, starts_with,
    starts_with_at, string_of_range, trim, trim_bounds,
};

verus! {

/// Index of the first `c` in `s`.
pub open spec fn index_of_char(s: Seq<char>, c: char) -> Option<int>
    decreases s.len(),
{
    if s.len() == 0 {
        None
    } else if s[0] == c {
        Some(0)
    } else {
        match index_of_char(s.drop_first(), c) {
            Some(i) => Some(i + 1),
            None => None,
        }
    }
}

pub proof fn lemma_index_of_char(s: Seq<char>, c: char)
    ensures
        match index_of_char(s, c) {
            Some(i) => 0 <= i < s.len() && s[i] == c && forall|j: int| 0 <= j < i ==> s[j] != c,
            None => forall|j: int| 0 <= j < s.len() ==> s[j] != c,
        },
    decreases s.len(),
{
    if s.len() > 0 && s[0] != c {
        lemma_index_of_char(s.drop_first(), c);
        assert forall|j: int| 1 <= j < s.len() implies s[j] == s.drop_first()[j - 1] by {}
    }
}

/// The next non-blank line (trimmed) of an NDJSON buffer and the buffer after it;
/// blank lines before it are consumed, and `None` means no complete non-blank line.
pub open spec fn next_ndjson_line(buf: Seq<char>) -> (Option<Seq<char>>, Seq<char>)
    decreases buf.len(),
{
    match index_of_char(buf, '\n') {
        None => (None, buf),
        Some(p) => {
            proof {
                lemma_index_of_char(buf, '\n');
            }
            let line = trim(buf.take(p));
            if line.len() > 0 {
                (Some(line), buf.skip(p + 1))
            } else {
                next_ndjson_line(buf.skip(p + 1))
            }
        },
    }
}

proof fn lemma_index_of_char_concat(x: Seq<char>, b: Seq<char>, c: char)
    ensures
        index_of_char(x, c) is Some ==> index_of_char(x + b, c) == index_of_char(x, c),
        index_of_char(x, c) is None ==> index_of_char(x + b, c) == match index_of_char(b, c) {
            Some(i) => Some(i + x.len()),
            None => None,
        },
    decreases x.len(),
{
    if x.len() == 0 {
        assert(x + b =~= b);
    } else {
        assert((x + b)[0] == x[0]);
        assert((x + b).drop_first() =~= x.drop_first() + b);
        lemma_index_of_char_concat(x.drop_first(), b, c);
    }
}

pub proof fn lemma_next_line_shrinks(buf: Seq<char>)
    ensures
        next_ndjson_line(buf).1.len() <= buf.len(),
        next_ndjson_line(buf).0 is Some ==> next_ndjson_line(buf).1.len() < buf.len(),
    decreases buf.len(),
{
    match index_of_char(buf, '\n') {
        None => {},
        Some(p) => {
            lemma_index_of_char(buf, '\n');
            lemma_next_line_shrinks(buf.skip(p + 1));
        },
    }
}

/// The complete non-blank lines of a buffer, in order, and what is left of it.
pub open spec fn ndjson_drain(buf: Seq<char>) -> (Seq<Seq<char>>, Seq<char>)
    decreases buf.len(),
{
    let (l, rest) = next_ndjson_line(buf);
    match l {
        Some(line) => {
            proof {
                lemma_next_line_shrinks(buf);
            }
            let (more, left) = ndjson_drain(rest);
            (seq![line] + more, left)
        },
        None => (seq![], rest),
    }
}

proof fn lemma_next_line_append(x: Seq<char>, b: Seq<char>)
    ensures
        next_ndjson_line(x).0 is Some ==> next_ndjson_line(x + b) == (
            next_ndjson_line(x).0,
            next_ndjson_line(x).1 + b,
        ),
        next_ndjson_line(x).0 is None ==> next_ndjson_line(x + b) == next_ndjson_line(
            next_ndjson_line(x).1 + b,
        ),
    decreases x.len(),
{
    lemma_index_of_char_concat(x, b, '\n');
    match index_of_char(x, '\n') {
        None => {},
        Some(p) => {
            lemma_index_of_char(x, '\n');
            assert((x + b).take(p) =~= x.take(p));
            assert((x + b).skip(p + 1) =~= x.skip(p + 1) + b);
            lemma_next_line_append(x.skip(p + 1), b);
        },
    }
}

/// Law: how the received text is cut into pieces does not change the lines that
/// come out: draining the lines of `a`, then of what is left of it followed by
/// `b`, gives the lines of `a + b` and leaves the same text.
pub proof fn law_ndjson_chunking(a: Seq<char>, b: Seq<char>)
    ensures
        ndjson_drain(a + b) == (
            ndjson_drain(a).0 + ndjson_drain(ndjson_drain(a).1 + b).0,
            ndjson_drain(ndjson_drain(a).1 + b).1,
        ),
    decreases a.len(),
{
    lemma_next_line_append(a, b);
    let (l, rest) = next_ndjson_line(a);
    match l {
        Some(line) => {
            lemma_next_line_shrinks(a);
            law_ndjson_chunking(rest, b);
            let d = ndjson_drain(ndjson_drain(rest).1 + b);
            assert(seq![line] + (ndjson_drain(rest).0 + d.0) =~= (seq![line] + ndjson_drain(rest).0)
                + d.0);
        },
        None => {
            assert(seq![] + ndjson_drain(rest + b).0 =~= ndjson_drain(rest + b).0);
        },
    }
}

/// Index of the first `c` in `v[lo..]`.
fn find_char(v: &Vec<char>, lo: usize, c: char) -> (r: Option<usize>)
    requires
        lo <= v.len(),
    ensures
        match r {
            Some(i) => index_of_char(v@.skip(lo as int), c) == Some(i - lo) && lo <= i < v.len(),
            None => index_of_char(v@.skip(lo as int), c) is None,
        },
{
    let mut i = lo;
    while i < v.len()
        invariant
            lo <= i <= v.len(),
            forall|j: int| lo <= j < i ==> v@[j] != c,
        decreases v.len() - i,
    {
        if v[i] == c {
            proof {
                lemma_index_of_char(v@.skip(lo as int), c);
                lemma_index_unique(v@.skip(lo as int), c, i - lo);
            }
            return Some(i);
        }
        i = i + 1;
    }
    proof {
        lemma_index_of_char(v@.skip(lo as int), c);
        if index_of_char(v@.skip(lo as int), c) is Some {
            let k = index_of_char(v@.skip(lo as int), c)->0;
            assert(v@.skip(lo as int)[k] == v@[lo + k]);
        }
    }
    None
}

proof fn lemma_index_unique(s: Seq<char>, c: char, i: int)
    requires
        0 <= i < s.len(),
        s[i] == c,
        forall|j: int| 0 <= j < i ==> s[j] != c,
    ensures
        index_of_char(s, c) == Some(i),
    decreases s.len(),
{
    if i > 0 {
        assert forall|j: int| 0 <= j < i - 1 implies s.drop_first()[j] != c by {
            assert(s.drop_first()[j] == s[j + 1]);
        }
        lemma_index_unique(s.drop_first(), c, i - 1);
    }
}

/// Splits an Ollama NDJSON stream into its lines.
pub struct NdjsonLines {
    buffer: Vec<char>,
}

impl NdjsonLines {
    /// Text received and not yet handed out.
    pub closed spec fn view(&self) -> Seq<char> {
        self.buffer@
    }

    /// An empty decoder.
    pub fn new() -> (d: Self)
        ensures
            d.view() == Seq::<char>::empty(),
    {
        NdjsonLines { buffer: Vec::new() }
    }

    /// Appends received text.
    pub fn push(&mut self, piece: &str)
        ensures
            final(self).view() == old(self).view() + piece@,
    {
        let v = chars_of(piece);
        let mut i: usize = 0;
        let ghost b0 = self.buffer@;
        while i < v.len()
            invariant
                i <= v.len(),
                v@ == piece@,
                self.buffer@ == b0 + v@.take(i as int),
            decreases v.len() - i,
        {
            self.buffer.push(v[i]);
            i = i + 1;
            assert(self.buffer@ =~= b0 + v@.take(i as int));
        }
        assert(v@.take(v.len() as int) =~= v@);
    }

    /// Takes the next complete non-blank line, trimmed; blank lines are dropped.
    pub fn next_line(&mut self) -> (r: Option<String>)
        ensures
            (match r {
                Some(l) => Some(l@),
                None => None,
            }, final(self).view()) == next_ndjson_line(old(self).view()),
    {
        let mut start: usize = 0;
        assert(self.buffer@.skip(0) =~= self.buffer@);
        loop
            invariant
                start <= self.buffer.len(),
                self.buffer@ == old(self).buffer@,
                next_ndjson_line(self.buffer@.skip(start as int)) == next_ndjson_line(
                    old(self).buffer@,
                ),
            decreases self.buffer.len() - start,
        {
            let ghost b = self.buffer@.skip(start as int);
            match find_char(&self.buffer, start, '\n') {
                None => {
                    let rest = self.buffer.split_off(start);
                    self.buffer = rest;
                    assert(self.buffer@ =~= b);
                    return None;
                },
                Some(p) => {
                    let (x, y) = trim_bounds(&self.buffer, start, p);
                    proof {
                        lemma_index_of_char(b, '\n');
                        assert(b.take(p - start) =~= self.buffer@.subrange(start as int, p as int));
                        assert(b.skip(p - start + 1) =~= self.buffer@.skip(p + 1));
                    }
                    if x < y {
                        let line = string_of_range(&self.buffer, x, y);
                        let rest = self.buffer.split_off(p + 1);
                        self.buffer = rest;
                        return Some(line);
                    }
                    start = p + 1;
                },
            }
        }
    }

    /// At the end of the stream: the trimmed remaining text, if not blank; the
    /// buffer is then emptied (a blank remainder is left as it is).
    pub fn finish(&mut self) -> (r: Option<String>)
        ensures
            match r {
                Some(l) => l@ == trim(old(self).view()) && l@.len() > 0 && final(self).view()
                    == Seq::<char>::empty(),
                None => trim(old(self).view()).len() == 0 && final(self).view() == old(
                    self,
                ).view(),
            },
    {
        assert(self.buffer@.subrange(0, self.buffer@.len() as int) =~= self.buffer@);
        let (x, y) = trim_bounds(&self.buffer, 0, self.buffer.len());
        if x == y {
            return None;
        }
        let rest = string_of_range(&self.buffer, x, y);
        self.buffer.clear();
        Some(rest)
    }
}

// ---------------------------------------------------------------------------
// Server-sent events
// ---------------------------------------------------------------------------

/// The payload of one event line: the trimmed line without its `data:` prefix,
/// trimmed again; blank lines and the `data: [DONE]` marker carry none.
pub open spec fn sse_payload(line: Seq<char>) -> Option<Seq<char>> {
    let l = trim(line);
    if l.len() == 0 || l == "data: [DONE]"@ {
        None
    } else {
        let d = trim(
            if starts_with(l, "data:"@) {
                l.skip("data:"@.len() as int)
            } else {
                l
            },
        );
        if d.len() == 0 {
            None
        } else {
            Some(d)
        }
    }
}

/// The payloads of a list of lines, in order.
pub open spec fn payloads_of(lines: Seq<Seq<char>>) -> Seq<Seq<char>>
    decreases lines.len(),
{
    if lines.len() == 0 {
        Seq::empty()
    } else {
        let head = payloads_of(lines.drop_last());
        match sse_payload(lines.last()) {
            Some(p) => head.push(p),
            None => head,
        }
    }
}

/// The lines of `s`: the pieces between newlines.
pub open spec fn lines_of(s: Seq<char>) -> Seq<Seq<char>>
    decreases s.len(),
{
    match index_of_char(s, '\n') {
        None => seq![s],
        Some(p) => {
            proof {
                lemma_index_of_char(s, '\n');
            }
            seq![s.take(p)] + lines_of(s.skip(p + 1))
        },
    }
}

/// The next complete event block of a buffer (the text before the first blank
/// line separator `\n\n`) and the buffer after the separator.
#[verifier::opaque]
pub open spec fn next_sse_block(buf: Seq<char>) -> Option<(Seq<char>, Seq<char>)> {
    match first_occurrence(buf, "\n\n"@) {
        Some(i) => Some((buf.take(i), buf.skip(i + 2))),
        None => None,
    }
}

/// The event blocks of a buffer, in order, and what is left of it.
pub open spec fn sse_drain(buf: Seq<char>) -> (Seq<Seq<char>>, Seq<char>)
    decreases buf.len(),
{
    match next_sse_block(buf) {
        Some((block, rest)) => {
            proof {
                lemma_sse_block_shrinks(buf);
            }
            let (more, left) = sse_drain(rest);
            (seq![block] + more, left)
        },
        None => (seq![], buf),
    }
}

pub proof fn lemma_sse_block_shrinks(buf: Seq<char>)
    ensures
        next_sse_block(buf) matches Some((_, rest)) ==> rest.len() < buf.len(),
{
    reveal(next_sse_block);
    reveal_strlit("\n\n");
    if first_occurrence(buf, "\n\n"@) is Some {
        let i = first_occurrence(buf, "\n\n"@)->0;
        lemma_first_occurrence_found(buf, "\n\n"@);
        assert(occurs_at(buf, "\n\n"@, i));
    }
}

proof fn lemma_least_occurrence(s: Seq<char>, p: Seq<char>, j: int)
    requires
        occurs_at(s, p, j),
    ensures
        exists|i: int| occurs_at(s, p, i) && forall|k: int| occurs_at(s, p, k) ==> i <= k,
    decreases j,
{
    if exists|k: int| occurs_at(s, p, k) && k < j {
        let k = choose|k: int| occurs_at(s, p, k) && k < j;
        lemma_least_occurrence(s, p, k);
    } else {
        assert(forall|k: int| occurs_at(s, p, k) ==> j <= k);
    }
}

proof fn lemma_first_occurrence_found(s: Seq<char>, p: Seq<char>)
    ensures
        first_occurrence(s, p) matches Some(i) ==> occurs_at(s, p, i) && forall|j: int|
            occurs_at(s, p, j) ==> i <= j,
{
    if exists|j: int| occurs_at(s, p, j) {
        let j = choose|j: int| occurs_at(s, p, j);
        lemma_least_occurrence(s, p, j);
    }
}

proof fn lemma_sse_block_append(x: Seq<char>, b: Seq<char>)
    ensures
        next_sse_block(x) matches Some((block, rest)) ==> next_sse_block(x + b) == Some(
            (block, rest + b),
        ),
{
    reveal(next_sse_block);
    reveal_strlit("\n\n");
    let p = "\n\n"@;
    if first_occurrence(x, p) is Some {
        let i = first_occurrence(x, p)->0;
        lemma_first_occurrence_found(x, p);
        assert(x.subrange(i, i + 2) =~= (x + b).subrange(i, i + 2));
        assert(occurs_at(x + b, p, i));
        assert forall|j: int| occurs_at(x + b, p, j) implies i <= j by {
            if j < i {
                assert(x.subrange(j, j + 2) =~= (x + b).subrange(j, j + 2));
                assert(occurs_at(x, p, j));
            }
        }
        lemma_first_occurrence(x + b, p, i);
        assert((x + b).take(i) =~= x.take(i));
        assert((x + b).skip(i + 2) =~= x.skip(i + 2) + b);
    }
}

/// Law: how the received text is cut into pieces does not change the event blocks
/// that come out: taking the blocks of `a`, then of what is left of it followed by
/// `b`, gives the blocks of `a + b` and leaves the same text.
pub proof fn law_sse_chunking(a: Seq<char>, b: Seq<char>)
    ensures
        sse_drain(a + b) == (
            sse_drain(a).0 + sse_drain(sse_drain(a).1 + b).0,
            sse_drain(sse_drain(a).1 + b).1,
        ),
    decreases a.len(),
{
    lemma_sse_block_append(a, b);
    match next_sse_block(a) {
        Some((block, rest)) => {
            lemma_sse_block_shrinks(a);
            law_sse_chunking(rest, b);
            let d = sse_drain(sse_drain(rest).1 + b);
            assert(seq![block] + (sse_drain(rest).0 + d.0) =~= (seq![block] + sse_drain(rest).0)
                + d.0);
        },
        None => {
            assert(seq![] + sse_drain(a + b).0 =~= sse_drain(a + b).0);
        },
    }
}

/// The payload of one line of `v[lo..hi]`.
fn line_payload(v: &Vec<char>, lo: usize, hi: usize) -> (r: Option<String>)
    requires
        lo <= hi <= v.len(),
    ensures
        match r {
            Some(p) => sse_payload(v@.subrange(lo as int, hi as int)) == Some(p@),
            None => sse_payload(v@.subrange(lo as int, hi as int)) is None,
        },
{
    let (a, b) = trim_bounds(v, lo, hi);
    let ghost l = v@.subrange(a as int, b as int);
    if a == b {
        return None;
    }
    let done_marker = chars_of("data: [DONE]");
    let data_prefix = chars_of("data:");
    let is_done = b - a == done_marker.len() && starts_with_at(v, a, b, &done_marker);
    proof {
        if b - a == done_marker@.len() {
            assert(l.take(done_marker@.len() as int) =~= l);
        }
        if l == done_marker@ {
            assert(l.take(done_marker@.len() as int) =~= l);
        }
    }
    if is_done {
        return None;
    }
    let start = if starts_with_at(v, a, b, &data_prefix) {
        a + data_prefix.len()
    } else {
        a
    };
    proof {
        if starts_with(l, data_prefix@) {
            assert(l.skip(data_prefix@.len() as int) =~= v@.subrange(start as int, b as int));
        } else {
            assert(l =~= v@.subrange(start as int, b as int));
        }
    }
    let (c, d) = trim_bounds(v, start, b);
    if c == d {
        return None;
    }
    Some(string_of_range(v, c, d))
}

/// Splits an OpenAI server-sent event stream into blocks of data payloads.
pub struct SseBlocks {
    buffer: Vec<char>,
}

impl SseBlocks {
    /// Text received and not yet handed out.
    pub closed spec fn view(&self) -> Seq<char> {
        self.buffer@
    }

    /// An empty decoder.
    pub fn new() -> (d: Self)
        ensures
            d.view() == Seq::<char>::empty(),
    {
        SseBlocks { buffer: Vec::new() }
    }

    /// Appends received text.
    pub fn push(&mut self, piece: &str)
        ensures
            final(self).view() == old(self).view() + piece@,
    {
        let v = chars_of(piece);
        let mut i: usize = 0;
        let ghost b0 = self.buffer@;
        while i < v.len()
            invariant
                i <= v.len(),
                v@ == piece@,
                self.buffer@ == b0 + v@.take(i as int),
            decreases v.len() - i,
        {
            self.buffer.push(v[i]);
            i = i + 1;
            assert(self.buffer@ =~= b0 + v@.take(i as int));
        }
        assert(v@.take(v.len() as int) =~= v@);
    }

    /// Takes the next complete event block and returns the payloads of its lines,
    /// in order; `None` (and nothing taken) while no block is complete.
    pub fn take_block(&mut self) -> (r: Option<Vec<String>>)
        ensures
            match next_sse_block(old(self).view()) {
                Some((block, rest)) => r matches Some(ps) && ps@.map_values(|p: String| p@)
                    == payloads_of(lines_of(block)) && final(self).view() == rest,
                None => r is None && final(self).view() == old(self).view(),
            },
    {
        let sep = chars_of("\n\n");
        let ghost buf = self.buffer@;
        proof {
            reveal(next_sse_block);
        }
        let found = find_in(&self.buffer, 0, self.buffer.len(), &sep);
        proof {
            reveal_strlit("\n\n");
            assert(buf.subrange(0, buf.len() as int) =~= buf);
        }
        match found {
            None => None,
            Some(idx) => {
                proof {
                    assert(occurs_at(buf, sep@, idx as int));
                    assert(next_sse_block(buf) == Some((buf.take(idx as int), buf.skip(idx + 2))));
                }
                let payloads = block_payloads(&self.buffer, idx);
                assert(buf.take(idx as int) =~= buf.subrange(0, idx as int));
                let rest = self.buffer.split_off(idx + 2);
                self.buffer = rest;
                assert(self.buffer@ =~= buf.skip(idx + 2));
                Some(payloads)
            },
        }
    }
}

/// The payloads of the lines of `v[..end]`.
fn block_payloads(v: &Vec<char>, end: usize) -> (r: Vec<String>)
    requires
        end <= v.len(),
    ensures
        r@.map_values(|p: String| p@) == payloads_of(lines_of(v@.subrange(0, end as int))),
{
    let mut out: Vec<String> = Vec::new();
    let mut start: usize = 0;
    let ghost whole = v@.subrange(0, end as int);
    proof {
        assert(whole.skip(0) =~= whole);
        lemma_payloads_prefix(Seq::empty(), lines_of(whole));
        assert(Seq::<Seq<char>>::empty() + lines_of(whole) =~= lines_of(whole));
    }
    loop
        invariant
            start <= end <= v.len(),
            whole == v@.subrange(0, end as int),
            payloads_of(lines_of(whole)) == out@.map_values(|p: String| p@) + payloads_of(
                lines_of(whole.skip(start as int)),
            ),
        decreases end - start,
    {
        let ghost s = whole.skip(start as int);
        let nl = find_char_until(v, start, end, '\n');
        match nl {
            None => {
                let p = line_payload(v, start, end);
                proof {
                    assert(lines_of(s) == seq![s]);
                    lemma_payloads_cons(s, Seq::empty());
                    assert(s =~= v@.subrange(start as int, end as int));
                    assert(seq![s].drop_last() =~= Seq::<Seq<char>>::empty());
                }
                let ghost before = out@;
                match p {
                    Some(x) => {
                        out.push(x);
                        assert(out@.map_values(|p: String| p@) =~= before.map_values(
                            |p: String| p@,
                        ).push(x@));
                    },
                    None => {},
                }
                assert(out@.map_values(|p: String| p@) + Seq::<Seq<char>>::empty() =~= out@.map_values(|p: String| p@));
                return out;
            },
            Some(i) => {
                let p = line_payload(v, start, i);
                proof {
                    lemma_index_of_char(s, '\n');
                    assert(s.take(i - start) =~= v@.subrange(start as int, i as int));
                    assert(s.skip(i - start + 1) =~= whole.skip(i + 1));
                    let ls = lines_of(s);
                    assert(ls == seq![s.take(i - start)] + lines_of(whole.skip(i + 1)));
                    lemma_payloads_cons(s.take(i - start), lines_of(whole.skip(i + 1)));
                }
                let ghost before = out@;
                match p {
                    Some(x) => {
                        out.push(x);
                        assert(out@.map_values(|p: String| p@) =~= before.map_values(
                            |p: String| p@,
                        ).push(x@));
                    },
                    None => {},
                }
                start = i + 1;
            },
        }
    }
}

/// Index of the first `c` in `v[lo..hi]`, as an index into `v`.
fn find_char_until(v: &Vec<char>, lo: usize, hi: usize, c: char) -> (r: Option<usize>)
    requires
        lo <= hi <= v.len(),
    ensures
        match r {
            Some(i) => lo <= i < hi && index_of_char(v@.subrange(0, hi as int).skip(lo as int), c)
                == Some(i - lo),
            None => index_of_char(v@.subrange(0, hi as int).skip(lo as int), c) is None,
        },
{
    let ghost s = v@.subrange(0, hi as int).skip(lo as int);
    let mut i = lo;
    while i < hi
        invariant
            lo <= i <= hi <= v.len(),
            s == v@.subrange(0, hi as int).skip(lo as int),
            forall|j: int| lo <= j < i ==> v@[j] != c,
        decreases hi - i,
    {
        if v[i] == c {
            proof {
                assert forall|j: int| 0 <= j < i - lo implies s[j] != c by {
                    assert(s[j] == v@[lo + j]);
                }
                assert(s[i - lo] == v@[i as int]);
                lemma_index_unique(s, c, i - lo);
            }
            return Some(i);
        }
        i = i + 1;
    }
    proof {
        lemma_index_of_char(s, c);
        if index_of_char(s, c) is Some {
            let k = index_of_char(s, c)->0;
            assert(s[k] == v@[lo + k]);
        }
    }
    None
}

proof fn lemma_payloads_prefix(a: Seq<Seq<char>>, b: Seq<Seq<char>>)
    ensures
        payloads_of(a + b) == payloads_of(a) + payloads_of(b),
    decreases b.len(),
{
    if b.len() == 0 {
        assert(a + b =~= a);
        assert(payloads_of(a) + Seq::<Seq<char>>::empty() =~= payloads_of(a));
    } else {
        lemma_payloads_prefix(a, b.drop_last());
        assert((a + b).drop_last() =~= a + b.drop_last());
        assert((a + b).last() == b.last());
        match sse_payload(b.last()) {
            Some(p) => {
                assert(payloads_of(a) + payloads_of(b.drop_last()).push(p) =~= (payloads_of(a)
                    + payloads_of(b.drop_last())).push(p));
            },
            None => {},
        }
    }
}

proof fn lemma_payloads_cons(x: Seq<char>, rest: Seq<Seq<char>>)
    ensures
        payloads_of(seq![x] + rest) == payloads_of(seq![x]) + payloads_of(rest),
        payloads_of(seq![x]) == match sse_payload(x) {
            Some(p) => seq![p],
            None => Seq::<Seq<char>>::empty(),
        },
{
    lemma_payloads_prefix(seq![x], rest);
    let one = seq![x];
    assert(one.drop_last() =~= Seq::<Seq<char>>::empty());
    assert(one.last() == x);
    assert(payloads_of(one.drop_last()) == Seq::<Seq<char>>::empty());
    match sse_payload(x) {
        Some(p) => {
            assert(Seq::<Seq<char>>::empty().push(p) =~= seq![p]);
        },
        None => {},
    }
}

// ---------------------------------------------------------------------------
// What the decoded events carry
// ---------------------------------------------------------------------------

/// The `delta` of a streamed OpenAI choice.
pub struct StreamDelta {
    pub content: Option<String>,
}

/// One streamed OpenAI choice.
pub struct StreamChoice {
    pub delta: Option<StreamDelta>,
}

/// One streamed OpenAI event (a `data:` payload).
pub struct StreamEvent {
    pub choices: Option<Vec<StreamChoice>>,
}

/// The text an event adds to the reply: the content of its first choice's delta,
/// when that is there and not empty.
pub open spec fn event_text(ev: StreamEvent) -> Option<Seq<char>> {
    match ev.choices {
        Some(cs) => if cs.len() > 0 {
            match cs[0].delta {
                Some(d) => match d.content {
                    Some(t) => if t@.len() > 0 {
                        Some(t@)
                    } else {
                        None
                    },
                    None => None,
                },
                None => None,
            }
        } else {
            None
        },
        None => None,
    }
}

/// The text of the first event of a block that adds any; payloads that are not
/// valid events are given as `None` and passed over.
pub open spec fn first_event_text(events: Seq<Option<StreamEvent>>) -> Option<Seq<char>>
    decreases events.len(),
{
    if events.len() == 0 {
        None
    } else {
        match events[0] {
            Some(ev) => match event_text(ev) {
                Some(t) => Some(t),
                None => first_event_text(events.drop_first()),
            },
            None => first_event_text(events.drop_first()),
        }
    }
}

fn event_delta(ev: &StreamEvent) -> (r: Option<String>)
    ensures
        match event_text(*ev) {
            Some(t) => r matches Some(s) && s@ == t,
            None => r is None,
        },
{
    match &ev.choices {
        Some(cs) => {
            if cs.len() == 0 {
                return None;
            }
            match &cs[0].delta {
                Some(d) => match &d.content {
                    Some(t) => {
                        if t.as_str().unicode_len() > 0 {
                            Some(copy_str(t.as_str()))
                        } else {
                            None
                        }
                    },
                    None => None,
                },
                None => None,
            }
        },
        None => None,
    }
}

/// The text a block of streamed events adds to the reply, if any.
pub fn first_delta(events: &Vec<Option<StreamEvent>>) -> (r: Option<String>)
    ensures
        match first_event_text(events@) {
            Some(t) => r matches Some(s) && s@ == t,
            None => r is None,
        },
{
    let mut i: usize = 0;
    assert(events@.skip(0) =~= events@);
    while i < events.len()
        invariant
            i <= events.len(),
            first_event_text(events@) == first_event_text(events@.skip(i as int)),
        decreases events.len() - i,
    {
        proof {
            assert(events@.skip(i as int)[0] == events@[i as int]);
            assert(events@.skip(i as int).drop_first() =~= events@.skip(i + 1));
        }
        match &events[i] {
            Some(ev) => {
                let d = event_delta(ev);
                if d.is_some() {
                    return d;
                }
            },
            None => {},
        }
        i = i + 1;
    }
    None
}

/// The text of one streamed Ollama line: its message content, when that is there
/// and not empty.
pub fn line_text(message_content: Option<String>) -> (r: Option<String>)
    ensures
        match message_content {
            Some(c) => if c@.len() > 0 {
                r == Some(c)
            } else {
                r is None
            },
            None => r is None,
        },
{
    match message_content {
        Some(c) => if c.as_str().unicode_len() > 0 {
            Some(c)
        } else {
            None
        },
        None => None,
    }
}

} // verus!
