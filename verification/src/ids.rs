//! Identifiers of agents, tasks and runs: UUIDs held as their 128-bit value.
use vstd::prelude::*;

verus! {

/// Identifier of an agent instance.
pub type AgentId = u128;

/// Identifier of a task within an execution plan.
pub type TaskId = u128;

/// Identifier of a full orchestration run.
pub type RunId = u128;

/// Lowercase hexadecimal digit of `d` (`0 <= d < 16`).
pub open spec fn hex_digit(d: u128) -> char {
    if d < 10 {
        ((48 + d) as u32) as char
    } else {
        ((87 + d) as u32) as char
    }
}

/// Four-bit group `i` of `id`, counting from the most significant (`0 <= i < 32`).
pub open spec fn nibble(id: u128, i: int) -> u128 {
    (id >> ((124 - 4 * i) as u128)) & 0xf
}

/// Number of hyphens before position `k` of the hyphenated form.
pub open spec fn hyphens_before(k: int) -> int {
    if k < 8 {
        0
    } else if k < 13 {
        1
    } else if k < 18 {
        2
    } else if k < 23 {
        3
    } else {
        4
    }
}

/// The hyphenated lowercase form of a UUID, `xxxxxxxx-xxxx-xxxx-xxxx-xxxxxxxxxxxx`,
/// its 32 hexadecimal digits written most significant first.
pub open spec fn hyphenated(id: u128) -> Seq<char> {
    Seq::new(
        36,
        |k: int|
            if k == 8 || k == 13 || k == 18 || k == 23 {
                '-'
            } else {
                hex_digit(nibble(id, k - hyphens_before(k)))
            },
    )
}

/// Whether `id` has the version and variant bits of a random (version 4) UUID.
pub open spec fn version_four(id: u128) -> bool {
    (id >> 76u128) & 0xfu128 == 4 && (id >> 62u128) & 0x3u128 == 2
}

/// `uuid::Uuid::new_v4`: a random version-4 UUID. Its value is drawn from the
/// operating system's random source; only the version and variant bits are fixed.
#[verifier::external_body]
pub(crate) fn new_id() -> (id: u128)
    ensures
        (id >> 76u128) & 0xfu128 == 4,
        (id >> 62u128) & 0x3u128 == 2,
{
    uuid::Uuid::new_v4().as_u128()
}

/// `Display` of `uuid::Uuid` (built with `Uuid::from_u128`): the hyphenated lowercase form.
#[verifier::external_body]
pub(crate) fn id_text(id: u128) -> (s: String)
    ensures
        s@ == hyphenated(id),
{
    uuid::Uuid::from_u128(id).to_string()
}

/// A fresh random identifier for a run, a task or an agent.
pub fn fresh_id() -> (id: u128)
    ensures
        version_four(id),
{
    new_id()
}

/// The display text of an identifier: its hyphenated lowercase UUID form.
pub fn id_string(id: u128) -> (s: String)
    ensures
        s@ == hyphenated(id),
{
    id_text(id)
}

} // verus!
