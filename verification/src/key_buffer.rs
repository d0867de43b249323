//! The fixed-capacity buffer that carries the keys of one scan cycle.
//!
//! The buffer is a `heapless::Vec` of usage ids. Verus cannot look inside it, so
//! its contents are given a name and the few operations the pipeline needs are
//! wrapped with contracts taken from the `heapless` source.

use vstd::prelude::*;

verus! {

/// Number of switch lines one keyboard can monitor, and the capacity of a
/// [`KeyBuffer`]. A sixteen-bit port expander offers that many lines.
pub const MAX_LINES: usize = 16;

/// Keys held during one scan cycle, in the order of their switch lines.
pub type KeyBuffer = heapless::Vec<u8, 16>;

/// `heapless::Vec`, made known so that it can stand in signatures. Nothing is
/// said of what is inside a value of it.
#[verifier::external_type_specification]
#[verifier::external_body]
#[verifier::reject_recursive_types(T)]
pub struct ExHeaplessVec<T, const N: usize>(heapless::Vec<T, N>);

/// The usage ids a buffer holds, oldest first. The wrappers below say how
/// `new`, `push` and `as_slice` of `heapless::Vec` relate to it.
pub uninterp spec fn held_keys(buffer: heapless::Vec<u8, 16>) -> Seq<u8>;

/// `heapless::Vec::new`: the new buffer holds nothing.
#[verifier::external_body]
pub(crate) fn empty_buffer() -> (buffer: KeyBuffer)
    ensures
        held_keys(buffer) == Seq::<u8>::empty(),
{
    heapless::Vec::new()
}

/// `heapless::Vec::push`: while fewer than `MAX_LINES` keys are held the key is
/// appended and `Ok` comes back; a full buffer is left as it was and the key is
/// handed back in `Err`.
#[verifier::external_body]
pub(crate) fn push_key(buffer: &mut KeyBuffer, key: u8) -> (outcome: Result<(), u8>)
    ensures
        outcome is Ok <==> held_keys(*old(buffer)).len() < MAX_LINES,
        outcome is Ok ==> held_keys(*final(buffer)) == held_keys(*old(buffer)).push(key),
        outcome matches Err(returned) ==> returned == key && held_keys(*final(buffer))
            == held_keys(*old(buffer)),
{
    buffer.push(key)
}

/// `heapless::Vec::as_slice`: the slice shows exactly the held keys, oldest
/// first.
#[verifier::external_body]
pub(crate) fn buffer_keys(buffer: &KeyBuffer) -> (keys: &[u8])
    ensures
        keys@ == held_keys(*buffer),
{
    buffer.as_slice()
}

} // verus!
