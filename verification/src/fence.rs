//! Removing a Markdown code fence around JSON that a model was asked to return bare.
use vstd::prelude::*;

use crate::text::{
    chars_of, is_ws, last_occurrence, lemma_last_occurrence, lemma_trim_end_take, lemma_trim_ends,
    lemma_trim_of_trimmed, lemma_trim_start_skip, occurs_at, rfind_in, skip_ws, starts_with,
    starts_with_at, string_of_range, strip_all_prefix, strip_all_prefix_at, trim, trim_bounds,
    trim_start,
};

verus! {

/// What `strip_json_fences` keeps of `raw`: the trimmed text, or, when it opens with
/// a code fence, the trimmed body between the opening fence (with its `json`/`JSON`
/// language tags) and the last closing fence.
pub open spec fn stripped_json(raw: Seq<char>) -> Seq<char> {
    let t = trim(raw);
    if starts_with(t, "```"@) {
        let rest = trim_start(
            strip_all_prefix(strip_all_prefix(t.skip("```"@.len() as int), "json"@), "JSON"@),
        );
        match last_occurrence(rest, "```"@) {
            Some(e) => trim(rest.take(e)),
            None => trim(rest),
        }
    } else {
        t
    }
}

/// Strips an optional Markdown code fence (```` ```json ... ``` ````) around a JSON body.
pub fn strip_json_fences(raw: &str) -> (r: String)
    ensures
        r@ == stripped_json(raw@),
{
    let v = chars_of(raw);
    let (a, b) = trim_bounds(&v, 0, v.len());
    assert(v@.subrange(0, v@.len() as int) =~= raw@);
    let fence = chars_of("```");
    if starts_with_at(&v, a, b, &fence) {
        let c = a + fence.len();
        assert(v@.subrange(a as int, b as int).skip(fence@.len() as int) =~= v@.subrange(
            c as int,
            b as int,
        ));
        let json_tag = chars_of("json");
        let c2 = strip_all_prefix_at(&v, c, b, &json_tag);
        let upper_tag = chars_of("JSON");
        let c3 = strip_all_prefix_at(&v, c2, b, &upper_tag);
        let d = skip_ws(&v, c3, b);
        match rfind_in(&v, d, b, &fence) {
            Some(e) => {
                assert(v@.subrange(d as int, b as int).take(e as int) =~= v@.subrange(
                    d as int,
                    d + e,
                ));
                let (x, y) = trim_bounds(&v, d, d + e);
                string_of_range(&v, x, y)
            },
            None => {
                let (x, y) = trim_bounds(&v, d, b);
                string_of_range(&v, x, y)
            },
        }
    } else {
        string_of_range(&v, a, b)
    }
}

/// Law: whatever the input, the stripped text has no whitespace at either end.
pub proof fn law_stripped_json_is_trimmed(raw: Seq<char>)
    ensures
        stripped_json(raw).len() == 0 || (!is_ws(stripped_json(raw)[0]) && !is_ws(
            stripped_json(raw).last(),
        )),
{
    let t = trim(raw);
    lemma_trim_ends(raw);
    if starts_with(t, "```"@) {
        let rest = trim_start(
            strip_all_prefix(strip_all_prefix(t.skip("```"@.len() as int), "json"@), "JSON"@),
        );
        match last_occurrence(rest, "```"@) {
            Some(e) => lemma_trim_ends(rest.take(e)),
            None => lemma_trim_ends(rest),
        }
    }
}

/// Law: text without an opening fence is only trimmed.
pub proof fn law_unfenced_text_is_trimmed(raw: Seq<char>)
    requires
        !starts_with(trim(raw), "```"@),
    ensures
        stripped_json(raw) == trim(raw),
{
}

/// Law: wrapping a non-empty body that has no whitespace at its ends in a
/// ```` ```json ```` fence, each fence on its own line, and stripping it gives the body back.
pub proof fn law_fenced_body_round_trip(body: Seq<char>)
    requires
        body.len() > 0,
        !is_ws(body[0]),
        !is_ws(body.last()),
    ensures
        stripped_json("```json\n"@ + body + "\n```"@) == body,
{
    reveal_strlit("```json\n");
    reveal_strlit("\n```");
    reveal_strlit("```");
    reveal_strlit("json");
    reveal_strlit("JSON");
    let fence = "```"@;
    let raw = "```json\n"@ + body + "\n```"@;
    let n = body.len() as int;
    assert(raw.len() == n + 12);
    // The whole input is already trimmed.
    assert(raw[0] == '`');
    assert(raw.last() == '`');
    lemma_trim_of_trimmed(raw);
    assert(starts_with(raw, fence)) by {
        assert(raw.take(3) =~= fence);
    }
    // After the fence comes the `json` tag, once.
    let s1 = raw.skip(3);
    let s2 = s1.skip(4);
    assert(starts_with(s1, "json"@)) by {
        assert(s1.take(4) =~= "json"@);
    }
    assert(s2[0] == '\n');
    assert(!starts_with(s2, "json"@)) by {
        assert(s2.take(4)[0] == '\n');
    }
    assert(strip_all_prefix(s2, "json"@) == s2);
    assert(strip_all_prefix(s1, "json"@) == s2);
    assert(!starts_with(s2, "JSON"@)) by {
        assert(s2.take(4)[0] == '\n');
    }
    assert(strip_all_prefix(s2, "JSON"@) == s2);
    // Then the newline before the body is dropped.
    assert(is_ws(s2[0]));
    assert(s2[1] == body[0]);
    lemma_trim_start_skip(s2, 1);
    let s3 = s2.skip(1);
    assert(s3 =~= body + "\n```"@);
    // The last fence is the closing one.
    assert(occurs_at(s3, fence, n + 1)) by {
        assert(s3.subrange(n + 1, n + 4) =~= fence);
    }
    lemma_last_occurrence(s3, fence, n + 1);
    let s4 = s3.take(n + 1);
    assert(s4 =~= body.push('\n'));
    // Trimming the body and its trailing newline gives the body.
    assert(s4[0] == body[0]);
    lemma_trim_start_skip(s4, 0);
    assert(s4.skip(0) =~= s4);
    assert(s4[n - 1] == body[n - 1]);
    lemma_trim_end_take(s4, n);
    assert(s4.take(n) =~= body);
}

} // verus!
