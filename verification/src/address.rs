//! Hyprland window addresses: `"0x5693171ffe00"` and friends.

use vstd::prelude::*;
use vstd::string::StringSliceAdditionalSpecFns;

verus! {

/// Value of one hexadecimal digit byte (`0-9`, `a-f`, `A-F`).
pub open spec fn hex_digit_value(b: u8) -> Option<nat> {
    if 48 <= b && b <= 57 {
        Some((b - 48) as nat)
    } else if 97 <= b && b <= 102 {
        Some((b - 87) as nat)
    } else if 65 <= b && b <= 70 {
        Some((b - 55) as nat)
    } else {
        None
    }
}

/// Every byte of `s` is a hexadecimal digit.
pub open spec fn all_hex(s: Seq<u8>) -> bool {
    forall|i: int| 0 <= i < s.len() ==> (#[trigger] hex_digit_value(s[i])) is Some
}

/// The number that the hexadecimal digits `s` denote, most significant first.
pub open spec fn hex_value(s: Seq<u8>) -> nat
    decreases s.len(),
{
    if s.len() == 0 {
        0
    } else {
        hex_value(s.drop_last()) * 16 + hex_digit_value(s.last()).unwrap_or(0)
    }
}

/// `s` without one leading `+` sign, if it has one.
pub open spec fn without_plus(s: Seq<u8>) -> Seq<u8> {
    if s.len() > 0 && s[0] == 43u8 {
        s.skip(1)
    } else {
        s
    }
}

/// Unsigned base-16 parsing of a 64-bit value: an optional `+`, then at least
/// one hexadecimal digit, and a value that fits in 64 bits.
pub open spec fn parse_hex_u64(s: Seq<u8>) -> Option<u64> {
    let d = without_plus(s);
    if d.len() > 0 && all_hex(d) && hex_value(d) <= u64::MAX {
        Some(hex_value(d) as u64)
    } else {
        None
    }
}

/// `s` without one leading `0x`, if it has one.
pub open spec fn without_0x(s: Seq<u8>) -> Seq<u8> {
    if s.len() >= 2 && s[0] == 48u8 && s[1] == 120u8 {
        s.skip(2)
    } else {
        s
    }
}

/// The address that the text `s` (UTF-8 bytes) names, if any.
pub open spec fn spec_parse_address(s: Seq<u8>) -> Option<u64> {
    parse_hex_u64(without_0x(s))
}

/// Extending the digit sequence never makes its value smaller.
pub proof fn lemma_hex_value_prefix(s: Seq<u8>, i: int)
    requires
        0 <= i <= s.len(),
    ensures
        hex_value(s.take(i)) <= hex_value(s),
    decreases s.len(),
{
    if i < s.len() {
        lemma_hex_value_prefix(s.drop_last(), i);
        assert(s.drop_last().take(i) =~= s.take(i));
    } else {
        assert(s.take(i) =~= s);
    }
}

fn hex_digit(b: u8) -> (r: Option<u64>)
    ensures
        match hex_digit_value(b) {
            Some(v) => r == Some(v as u64),
            None => r is None,
        },
{
    if 48 <= b && b <= 57 {
        Some((b - 48) as u64)
    } else if 97 <= b && b <= 102 {
        Some((b - 87) as u64)
    } else if 65 <= b && b <= 70 {
        Some((b - 55) as u64)
    } else {
        None
    }
}

/// Parse a Hyprland window address (`"0x5693…"`, the `0x` being optional)
/// into its numeric form. The digits after the prefix are read as an
/// unsigned base-16 number, which may carry one leading `+`; anything else,
/// an empty digit string or a value beyond 64 bits gives `None`.
pub fn parse_address(s: &str) -> (r: Option<u64>)
    ensures
        r == spec_parse_address(s.spec_bytes()),
{
    let bytes = s.as_bytes();
    let n = bytes.len();
    let ghost b = bytes@;
    let mut i: usize = if n >= 2 && bytes[0] == 48u8 && bytes[1] == 120u8 {
        2
    } else {
        0
    };
    let ghost h = without_0x(b);
    assert(h =~= b.skip(i as int));
    if i < n && bytes[i] == 43u8 {
        i = i + 1;
    }
    let start = i;
    let ghost d = without_plus(h);
    assert(d =~= b.skip(start as int));
    if start >= n {
        assert(d.len() == 0);
        return None;
    }
    let mut acc: u64 = 0;
    while i < n
        invariant
            b == bytes@,
            b == s.spec_bytes(),
            d == without_plus(without_0x(b)),
            n == b.len(),
            start <= i <= n,
            d =~= b.skip(start as int),
            all_hex(d.take(i - start)),
            acc as nat == hex_value(d.take(i - start)),
        decreases n - i,
    {
        let k: Ghost<int> = Ghost(i - start);
        assert(d.take(k@ + 1).drop_last() =~= d.take(k@));
        assert(d[k@] == bytes@[i as int]);
        match hex_digit(bytes[i]) {
            None => {
                assert(!all_hex(d)) by {
                    assert(hex_digit_value(d[k@]) is None);
                }
                return None;
            },
            Some(v) => {
                if acc > (u64::MAX - v) / 16 {
                    proof {
                        assert(hex_value(d.take(k@ + 1)) == acc * 16 + v);
                        assert(acc * 16 + v > u64::MAX) by (nonlinear_arith)
                            requires
                                acc > (u64::MAX - v) / 16,
                                v <= 15,
                        ;
                        lemma_hex_value_prefix(d, k@ + 1);
                    }
                    return None;
                }
                proof {
                    assert(acc * 16 + v <= u64::MAX) by (nonlinear_arith)
                        requires
                            acc <= (u64::MAX - v) / 16,
                            v <= 15,
                    ;
                }
                acc = acc * 16 + v;
                i = i + 1;
                assert(all_hex(d.take(i - start))) by {
                    assert forall|j: int| 0 <= j < d.take(i - start).len() implies (
                    #[trigger] hex_digit_value(d.take(i - start)[j])) is Some by {
                        if j < k@ {
                            assert(d.take(i - start)[j] == d.take(k@)[j]);
                        }
                    }
                }
            },
        }
    }
    assert(d.take(i - start) =~= d);
    Some(acc)
}

/// The lowercase hexadecimal digit for `d < 16`.
pub open spec fn hex_digit_char(d: nat) -> u8 {
    if d < 10 {
        (48 + d) as u8
    } else {
        (87 + d) as u8
    }
}

/// Lowercase hexadecimal digits of `v`, most significant first, without
/// leading zeros (`"0"` for zero).
pub open spec fn hex_text(v: nat) -> Seq<u8>
    decreases v,
{
    if v < 16 {
        seq![hex_digit_char(v)]
    } else {
        hex_text(v / 16).push(hex_digit_char(v % 16))
    }
}

proof fn lemma_hex_text(v: nat)
    ensures
        hex_text(v).len() > 0,
        all_hex(hex_text(v)),
        hex_value(hex_text(v)) == v,
        hex_text(v)[0] != 43u8,
        hex_text(v)[0] != 120u8,
    decreases v,
{
    if v >= 16 {
        lemma_hex_text(v / 16);
        let t = hex_text(v);
        let p = hex_text(v / 16);
        assert(t.drop_last() =~= p);
        assert(hex_digit_value(hex_digit_char(v % 16)) == Some(v % 16));
        assert(t.last() == hex_digit_char(v % 16));
        assert(v == (v / 16) * 16 + v % 16);
        assert(hex_value(t) == hex_value(p) * 16 + v % 16);
        assert forall|i: int| 0 <= i < t.len() implies (#[trigger] hex_digit_value(t[i])) is Some by {
            if i < p.len() {
                assert(t[i] == p[i]);
            }
        }
    } else {
        assert(hex_text(v).drop_last() =~= Seq::<u8>::empty());
        assert(hex_digit_value(hex_digit_char(v)) == Some(v));
        assert(hex_value(Seq::<u8>::empty()) == 0);
        assert(hex_value(hex_text(v)) == hex_value(hex_text(v).drop_last()) * 16 + v);
    }
}

/// A window address as Hyprland prints it, `0x` and lowercase hexadecimal
/// digits, parses back to that address.
pub proof fn lemma_address_roundtrip(v: u64)
    ensures
        spec_parse_address(seq![48u8, 120u8] + hex_text(v as nat)) == Some(v),
{
    lemma_hex_text(v as nat);
    let s = seq![48u8, 120u8] + hex_text(v as nat);
    assert(s.skip(2) =~= hex_text(v as nat));
}

/// The `0x` prefix is optional: digits that do not themselves start with
/// `0x` parse to the same address with and without it.
pub proof fn lemma_prefix_optional(d: Seq<u8>)
    requires
        !(d.len() >= 2 && d[0] == 48u8 && d[1] == 120u8),
    ensures
        spec_parse_address(seq![48u8, 120u8] + d) == spec_parse_address(d),
{
    let s = seq![48u8, 120u8] + d;
    assert(s.skip(2) =~= d);
}

/// The handle by which the compositor's toplevel export protocol names the
/// window with address `addr`: Hyprland matches toplevels on the low 32 bits
/// of the window address.
pub fn toplevel_handle(addr: u64) -> (h: u32)
    ensures
        h == addr % 0x1_0000_0000,
{
    assert(addr as u32 == addr % 0x1_0000_0000) by (bit_vector);
    addr as u32
}

} // verus!
