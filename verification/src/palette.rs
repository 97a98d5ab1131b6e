//! Deterministic per-class hue for windows drawn without captured pixels.

use vstd::prelude::*;
use vstd::string::StringSliceAdditionalSpecFns;

verus! {

/// 32-bit FNV-1a hash of `bytes`.
pub open spec fn fnv1a(bytes: Seq<u8>) -> u32
    decreases bytes.len(),
{
    if bytes.len() == 0 {
        2166136261u32
    } else {
        (((fnv1a(bytes.drop_last()) ^ (bytes.last() as u32)) as nat * 16777619nat)
            % 0x1_0000_0000nat) as u32
    }
}

/// Hue in degrees (`0..360`) of windows of class `class`: the 32-bit FNV-1a
/// hash of the class's bytes, modulo 360.
pub fn class_hue(class: &str) -> (h: u32)
    ensures
        h == fnv1a(class.spec_bytes()) % 360,
        h < 360,
{
    let bytes = class.as_bytes();
    let mut hash: u32 = 2166136261;
    let mut i: usize = 0;
    while i < bytes.len()
        invariant
            i <= bytes.len(),
            hash == fnv1a(bytes@.take(i as int)),
        decreases bytes.len() - i,
    {
        assert(bytes@.take(i + 1).drop_last() =~= bytes@.take(i as int));
        hash = hash ^ (bytes[i] as u32);
        hash = hash.wrapping_mul(16777619);
        i = i + 1;
    }
    assert(bytes@.take(bytes.len() as int) =~= bytes@);
    hash % 360
}

} // verus!
