//! Pure DTC semantics: the code number and the ISO 14229 status flags.
use vstd::prelude::*;

verus! {

/// The 24-bit number of a trouble code, most significant byte first.
pub open spec fn number_of(code: [u8; 3]) -> int {
    code@[0] as int * 0x1_0000 + code@[1] as int * 0x100 + code@[2] as int
}

/// Convert a raw 3-byte UDS DTC into its 24-bit code number (e.g. `D9 04 0A` is 14222346), the
/// key of the fault catalog.
pub fn code_number(code: [u8; 3]) -> (r: u32)
    ensures
        r == number_of(code),
{
    code[0] as u32 * 0x1_0000 + code[1] as u32 * 0x100 + code[2] as u32
}

/// Different trouble codes have different numbers, and every number fits 24 bits.
pub proof fn law_code_numbers_identify_codes(a: [u8; 3], b: [u8; 3])
    ensures
        0 <= number_of(a) < 0x100_0000,
        number_of(a) == number_of(b) ==> a@ == b@,
{
    if number_of(a) == number_of(b) {
        assert(a@ =~= b@);
    }
}

/// The ISO name of a status bit, counted from the least significant.
pub open spec fn flag_name(bit: int) -> Seq<char> {
    if bit == 0 {
        "testFailed"@
    } else if bit == 1 {
        "testFailedThisOperationCycle"@
    } else if bit == 2 {
        "pendingDTC"@
    } else if bit == 3 {
        "confirmedDTC"@
    } else if bit == 4 {
        "testNotCompletedSinceLastClear"@
    } else if bit == 5 {
        "testFailedSinceLastClear"@
    } else if bit == 6 {
        "testNotCompletedThisOperationCycle"@
    } else {
        "warningIndicatorRequested"@
    }
}

/// The value of a status bit.
pub open spec fn bit_weight(bit: int) -> int {
    if bit == 0 {
        1
    } else if bit == 1 {
        2
    } else if bit == 2 {
        4
    } else if bit == 3 {
        8
    } else if bit == 4 {
        16
    } else if bit == 5 {
        32
    } else if bit == 6 {
        64
    } else {
        128
    }
}

/// Whether a status bit is set.
pub open spec fn bit_set(status: u8, bit: int) -> bool {
    status as int / bit_weight(bit) % 2 == 1
}

/// The names of the set bits among the lowest `count`, low bit first.
pub open spec fn set_flags(status: u8, count: nat) -> Seq<Seq<char>>
    decreases count,
{
    if count == 0 {
        Seq::<Seq<char>>::empty()
    } else {
        let before = set_flags(status, (count - 1) as nat);
        if bit_set(status, count - 1) {
            before.push(flag_name(count - 1))
        } else {
            before
        }
    }
}

/// The views of the names in `v`.
pub open spec fn name_views(v: Seq<&'static str>) -> Seq<Seq<char>> {
    Seq::new(v.len(), |i: int| v[i]@)
}

/// The weight and ISO name of the status bit `bit`.
fn status_flag(bit: u8) -> (r: (u8, &'static str))
    requires
        bit < 8,
    ensures
        r.0 == bit_weight(bit as int),
        r.1@ == flag_name(bit as int),
{
    if bit == 0 {
        (1, "testFailed")
    } else if bit == 1 {
        (2, "testFailedThisOperationCycle")
    } else if bit == 2 {
        (4, "pendingDTC")
    } else if bit == 3 {
        (8, "confirmedDTC")
    } else if bit == 4 {
        (16, "testNotCompletedSinceLastClear")
    } else if bit == 5 {
        (32, "testFailedSinceLastClear")
    } else if bit == 6 {
        (64, "testNotCompletedThisOperationCycle")
    } else {
        (128, "warningIndicatorRequested")
    }
}

/// Decode a 1-byte DTC status into the set ISO 14229 flag names, low bit first.
///
/// An all-clear status returns an empty list.
pub fn status_flags(status: u8) -> (r: Vec<&'static str>)
    ensures
        name_views(r@) == set_flags(status, 8),
{
    let mut out: Vec<&'static str> = Vec::new();
    let mut bit: u8 = 0;
    assert(name_views(out@) =~= Seq::<Seq<char>>::empty());
    while bit < 8
        invariant
            bit <= 8,
            name_views(out@) == set_flags(status, bit as nat),
        decreases 8 - bit,
    {
        let (weight, name) = status_flag(bit);
        let ghost before = name_views(out@);
        if status / weight % 2 == 1 {
            out.push(name);
            assert(name_views(out@) =~= before.push(name@));
        }
        bit = bit + 1;
    }
    out
}

/// The number of a code is its three bytes, most significant first.
pub proof fn law_a_code_number_is_its_bytes(code: [u8; 3])
    ensures
        number_of(code) == code@[0] * 65536 + code@[1] * 256 + code@[2],
        number_of(code) / 65536 == code@[0],
        number_of(code) / 256 % 256 == code@[1],
        number_of(code) % 256 == code@[2],
{
}

/// A status is listed flag by flag: each set bit gives its own name, no clear bit gives one, and
/// the names stand from the lowest bit to the highest.
pub proof fn law_each_set_bit_is_named(status: u8, bit: int)
    requires
        0 <= bit < 8,
    ensures
        set_flags(status, 8).contains(flag_name(bit)) <==> (if bit == 0 {
            status & 0x01 != 0
        } else if bit == 1 {
            status & 0x02 != 0
        } else if bit == 2 {
            status & 0x04 != 0
        } else if bit == 3 {
            status & 0x08 != 0
        } else if bit == 4 {
            status & 0x10 != 0
        } else if bit == 5 {
            status & 0x20 != 0
        } else if bit == 6 {
            status & 0x40 != 0
        } else {
            status & 0x80 != 0
        }),
{
    lemma_flags(status, 8);
    lemma_names();
    assert(status & 0x01 != 0 <==> status / 1 % 2 == 1) by (bit_vector);
    assert(status & 0x02 != 0 <==> status / 2 % 2 == 1) by (bit_vector);
    assert(status & 0x04 != 0 <==> status / 4 % 2 == 1) by (bit_vector);
    assert(status & 0x08 != 0 <==> status / 8 % 2 == 1) by (bit_vector);
    assert(status & 0x10 != 0 <==> status / 16 % 2 == 1) by (bit_vector);
    assert(status & 0x20 != 0 <==> status / 32 % 2 == 1) by (bit_vector);
    assert(status & 0x40 != 0 <==> status / 64 % 2 == 1) by (bit_vector);
    assert(status & 0x80 != 0 <==> status / 128 % 2 == 1) by (bit_vector);
}

/// The standard names of the bits, from the lowest to the highest.
pub proof fn law_the_bits_have_their_standard_names()
    ensures
        flag_name(0) == "testFailed"@,
        flag_name(1) == "testFailedThisOperationCycle"@,
        flag_name(2) == "pendingDTC"@,
        flag_name(3) == "confirmedDTC"@,
        flag_name(4) == "testNotCompletedSinceLastClear"@,
        flag_name(5) == "testFailedSinceLastClear"@,
        flag_name(6) == "testNotCompletedThisOperationCycle"@,
        flag_name(7) == "warningIndicatorRequested"@,
{
}

proof fn lemma_names()
    ensures
        forall|i: int, j: int|
            0 <= i < j < 8 ==> #[trigger] flag_name(i) != #[trigger] flag_name(j),
{
    reveal_strlit("testFailed");
    reveal_strlit("testFailedThisOperationCycle");
    reveal_strlit("pendingDTC");
    reveal_strlit("confirmedDTC");
    reveal_strlit("testNotCompletedSinceLastClear");
    reveal_strlit("testFailedSinceLastClear");
    reveal_strlit("testNotCompletedThisOperationCycle");
    reveal_strlit("warningIndicatorRequested");
    assert("testFailed"@.len() == 10);
    assert("testFailedThisOperationCycle"@.len() == 28);
    assert("pendingDTC"@.len() == 10);
    assert("pendingDTC"@[0] != "testFailed"@[0]);
    assert("confirmedDTC"@.len() == 12);
    assert("testNotCompletedSinceLastClear"@.len() == 30);
    assert("testFailedSinceLastClear"@.len() == 24);
    assert("testNotCompletedThisOperationCycle"@.len() == 34);
    assert("warningIndicatorRequested"@.len() == 25);
}

proof fn lemma_flags(status: u8, count: nat)
    requires
        count <= 8,
    ensures
        forall|bit: int|
            0 <= bit < 8 ==> (set_flags(status, count).contains(#[trigger] flag_name(bit)) <==> bit
                < count && bit_set(status, bit)),
    decreases count,
{
    lemma_names();
    if count > 0 {
        lemma_flags(status, (count - 1) as nat);
        let before = set_flags(status, (count - 1) as nat);
        let all = set_flags(status, count);
        assert forall|bit: int| 0 <= bit < 8 implies (all.contains(#[trigger] flag_name(bit)) <==> bit
            < count && bit_set(status, bit)) by {
            if before.contains(flag_name(bit)) {
                let k = choose|k: int| 0 <= k < before.len() && before[k] == flag_name(bit);
                assert(all[k] == flag_name(bit));
            }
            if bit == count - 1 && bit_set(status, bit) {
                assert(all[all.len() - 1] == flag_name(bit));
            }
            if all.contains(flag_name(bit)) {
                let k = choose|k: int| 0 <= k < all.len() && all[k] == flag_name(bit);
                if k < before.len() {
                    assert(before[k] == flag_name(bit));
                    assert(before.contains(flag_name(bit)));
                } else {
                    assert(flag_name(bit) == flag_name(count - 1));
                    if bit != count - 1 {
                        if bit < count - 1 {
                            assert(flag_name(bit) != flag_name(count - 1));
                        } else {
                            assert(flag_name(count - 1) != flag_name(bit));
                        }
                    }
                }
            }
        }
    }
}

} // verus!
