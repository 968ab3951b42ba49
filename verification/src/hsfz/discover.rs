//! Gateway discovery: what an identification reply says.
//!
//! On an ENET cable the host and the car's central gateway come up on a link-local
//! `169.254.0.0/16` network. The gateway's address is the source address of its reply; the
//! internal layout of the identification string is undocumented, so the VIN is extracted
//! best-effort by scanning for a run of VIN characters.
use vstd::prelude::*;
use crate::text::from_chars;

verus! {

/// Length of a VIN in characters (ISO 3779).
pub const VIN_LEN: usize = 17;

/// A gateway that answered the HSFZ identification broadcast.
#[derive(Debug, Clone, PartialEq, Eq)]
pub struct Gateway {
    /// The gateway's IPv4 address: the source address of its reply (authoritative).
    pub ip: [u8; 4],
    /// The VIN, if a 17-character VIN run was found in the reply (best-effort).
    pub vin: Option<String>,
    /// The full reply datagram.
    pub raw: Vec<u8>,
}

impl Gateway {
    /// The gateway that sent the reply `raw` from `ip`.
    pub fn from_reply(ip: [u8; 4], raw: Vec<u8>) -> (r: Gateway)
        ensures
            r.ip == ip,
            r.raw == raw,
            crate::text::opt_view(r.vin) == vin_in(raw@),
    {
        let vin = scan_vin(raw.as_slice());
        Gateway { ip, vin, raw }
    }
}

/// A character allowed in a VIN: digits and capital letters but I, O and Q.
pub open spec fn vin_char(b: u8) -> bool {
    ||| 0x30 <= b <= 0x39
    ||| 0x41 <= b <= 0x5A && b != 0x49 && b != 0x4F && b != 0x51
}

/// Whether a whole VIN stands at position `i`.
pub open spec fn vin_run_at(bytes: Seq<u8>, i: int) -> bool {
    &&& 0 <= i
    &&& i + VIN_LEN <= bytes.len()
    &&& forall|k: int| i <= k < i + VIN_LEN ==> vin_char(#[trigger] bytes[k])
}

/// The text of the ASCII bytes from `i` on that make up a VIN.
pub open spec fn vin_text(bytes: Seq<u8>, i: int) -> Seq<char> {
    Seq::new(VIN_LEN as nat, |k: int| bytes[i + k] as char)
}

/// The first VIN at or behind position `i`.
pub open spec fn vin_from(bytes: Seq<u8>, i: int) -> Option<Seq<char>>
    decreases bytes.len() - i,
{
    if i + VIN_LEN > bytes.len() {
        None
    } else if vin_run_at(bytes, i) {
        Some(vin_text(bytes, i))
    } else {
        vin_from(bytes, i + 1)
    }
}

/// The first VIN in `bytes`.
pub open spec fn vin_in(bytes: Seq<u8>) -> Option<Seq<char>> {
    vin_from(bytes, 0)
}

proof fn lemma_vin_from(bytes: Seq<u8>, i: int)
    requires
        0 <= i,
    ensures
        match vin_from(bytes, i) {
            Some(t) => exists|j: int|
                i <= j && #[trigger] vin_run_at(bytes, j) && t == vin_text(bytes, j) && forall|k: int|
                    i <= k < j ==> !#[trigger] vin_run_at(bytes, k),
            None => forall|j: int| i <= j ==> !#[trigger] vin_run_at(bytes, j),
        },
    decreases bytes.len() - i,
{
    if i + VIN_LEN <= bytes.len() && !vin_run_at(bytes, i) {
        lemma_vin_from(bytes, i + 1);
        if vin_from(bytes, i + 1) is Some {
            let j = choose|j: int|
                i + 1 <= j && #[trigger] vin_run_at(bytes, j) && vin_from(bytes, i + 1)->0
                    == vin_text(bytes, j) && forall|k: int|
                    i + 1 <= k < j ==> !#[trigger] vin_run_at(bytes, k);
            assert(vin_run_at(bytes, j));
            assert forall|k: int| i <= k < j implies !#[trigger] vin_run_at(bytes, k) by {}
        }
    }
}

/// The scan finds a VIN wherever in the reply it stands, and finds the first one.
pub proof fn law_the_first_vin_is_found(bytes: Seq<u8>)
    ensures
        match vin_in(bytes) {
            Some(t) => exists|j: int|
                #[trigger] vin_run_at(bytes, j) && t == vin_text(bytes, j) && forall|k: int|
                    0 <= k < j ==> !#[trigger] vin_run_at(bytes, k),
            None => forall|j: int| !#[trigger] vin_run_at(bytes, j),
        },
{
    lemma_vin_from(bytes, 0);
}

/// True for a character allowed in a VIN (ISO 3779 excludes I, O, and Q).
pub fn is_vin_char(byte: u8) -> (r: bool)
    ensures
        r == vin_char(byte),
{
    (0x30 <= byte && byte <= 0x39) || (0x41 <= byte && byte <= 0x5A && byte != 0x49 && byte != 0x4F
        && byte != 0x51)
}

/// Best-effort VIN scan: the first 17-byte run of VIN characters in `bytes`.
pub fn scan_vin(bytes: &[u8]) -> (r: Option<String>)
    ensures
        crate::text::opt_view(r) == vin_in(bytes@),
{
    let mut i: usize = 0;
    while VIN_LEN <= bytes.len() && i <= bytes.len() - VIN_LEN
        invariant
            i <= bytes.len(),
            vin_in(bytes@) == vin_from(bytes@, i as int),
        decreases bytes.len() - i,
    {
        let mut chars: Vec<char> = Vec::new();
        while chars.len() < VIN_LEN && is_vin_char(bytes[i + chars.len()])
            invariant
                chars.len() <= VIN_LEN,
                i + VIN_LEN <= bytes.len(),
                chars@ == vin_text(bytes@, i as int).take(chars@.len() as int),
                forall|k: int| i <= k < i + chars.len() ==> vin_char(#[trigger] bytes@[k]),
            decreases VIN_LEN - chars.len(),
        {
            let ghost before = chars@;
            let b: u8 = bytes[i + chars.len()];
            chars.push(b as char);
            assert(chars@ =~= vin_text(bytes@, i as int).take(chars@.len() as int));
        }
        if chars.len() == VIN_LEN {
            assert(vin_run_at(bytes@, i as int));
            assert(chars@ =~= vin_text(bytes@, i as int));
            return Some(from_chars(chars.as_slice()));
        }
        assert(!vin_char(bytes@[i + chars.len()]));
        assert(!vin_run_at(bytes@, i as int));
        i = i + 1;
    }
    None
}

/// Whether an IPv4 address is link-local (`169.254.0.0/16`).
pub open spec fn link_local(ip: [u8; 4]) -> bool {
    ip@[0] == 169 && ip@[1] == 254
}

/// The first link-local address at or behind position `i`.
pub open spec fn link_local_from(addresses: Seq<[u8; 4]>, i: int) -> Option<[u8; 4]>
    decreases addresses.len() - i,
{
    if i >= addresses.len() {
        None
    } else if link_local(addresses[i]) {
        Some(addresses[i])
    } else {
        link_local_from(addresses, i + 1)
    }
}

/// The first link-local address among the host's IPv4 interface addresses, if any.
///
/// On a plugged-in ENET cable that is the address on the cable's NIC.
pub fn first_link_local(addresses: &[[u8; 4]]) -> (r: Option<[u8; 4]>)
    ensures
        r == link_local_from(addresses@, 0),
{
    let mut i: usize = 0;
    while i < addresses.len()
        invariant
            i <= addresses.len(),
            link_local_from(addresses@, 0) == link_local_from(addresses@, i as int),
        decreases addresses.len() - i,
    {
        let ip: [u8; 4] = addresses[i];
        if ip[0] == 169 && ip[1] == 254 {
            return Some(ip);
        }
        i = i + 1;
    }
    None
}

/// A VIN has seventeen characters, each a digit or a capital letter other than I, O and Q, and they
/// are the reply's own bytes, one behind the other.
pub proof fn law_a_vin_is_a_run_of_the_reply(bytes: Seq<u8>)
    ensures
        vin_in(bytes) matches Some(t) ==> {
            &&& t.len() == 17
            &&& forall|k: int|
                0 <= k < 17 ==> ('0' <= (#[trigger] t[k]) <= '9' || 'A' <= t[k] <= 'Z') && t[k]
                    != 'I' && t[k] != 'O' && t[k] != 'Q'
            &&& exists|i: int|
                #![trigger bytes.skip(i)]
                0 <= i && i + 17 <= bytes.len() && forall|k: int|
                    0 <= k < 17 ==> #[trigger] t[k] == (bytes.skip(i)[k] as char)
        },
{
    law_the_first_vin_is_found(bytes);
    if vin_in(bytes) is Some {
        let t = vin_in(bytes)->0;
        let j = choose|j: int|
            #[trigger] vin_run_at(bytes, j) && t == vin_text(bytes, j) && forall|k: int|
                0 <= k < j ==> !#[trigger] vin_run_at(bytes, k);
        assert forall|k: int| 0 <= k < 17 implies ('0' <= (#[trigger] t[k]) <= '9' || 'A' <= t[k]
            <= 'Z') && t[k] != 'I' && t[k] != 'O' && t[k] != 'Q' by {
            assert(vin_char(bytes[j + k]));
        }
        assert forall|k: int| 0 <= k < 17 implies #[trigger] t[k] == (bytes.skip(
            j,
        )[k] as char) by {
            assert(t[k] == bytes[j + k] as char);
        }
        assert(bytes.skip(j).len() == bytes.len() - j);
    }
}

/// A VIN is found wherever it stands, unless one starts ahead of it.
pub proof fn law_a_vin_is_found_wherever_it_stands(front: Seq<u8>, vin: Seq<u8>, back: Seq<u8>)
    requires
        vin.len() == 17,
        forall|k: int|
            0 <= k < 17 ==> (0x30 <= (#[trigger] vin[k]) <= 0x39 || 0x41 <= vin[k] <= 0x5A)
                && vin[k] != 0x49 && vin[k] != 0x4F && vin[k] != 0x51,
        front.len() > 0 ==> !(0x30 <= front.last() <= 0x39) && !(0x41 <= front.last() <= 0x5A),
        vin_in(front) is None,
    ensures
        vin_in(front + vin + back) == Some(Seq::new(17, |k: int| vin[k] as char)),
{
    let bytes = front + vin + back;
    let n = front.len() as int;
    law_the_first_vin_is_found(bytes);
    law_the_first_vin_is_found(front);
    assert forall|k: int| n <= k < n + VIN_LEN implies vin_char(#[trigger] bytes[k]) by {
        assert(bytes[k] == vin[k - n]);
    }
    assert(vin_run_at(bytes, n));
    assert forall|j: int| 0 <= j < n implies !#[trigger] vin_run_at(bytes, j) by {
        if vin_run_at(bytes, j) {
            if j + VIN_LEN <= n {
                assert forall|k: int| j <= k < j + VIN_LEN implies vin_char(
                    #[trigger] front[k],
                ) by {
                    assert(vin_char(bytes[k]));
                }
                assert(vin_run_at(front, j));
            } else {
                assert(vin_char(bytes[n - 1]));
                assert(bytes[n - 1] == front.last());
            }
        }
    }
    let t = vin_in(bytes)->0;
    let j = choose|j: int|
        #[trigger] vin_run_at(bytes, j) && t == vin_text(bytes, j) && forall|k: int|
            0 <= k < j ==> !#[trigger] vin_run_at(bytes, k);
    assert(j == n);
    assert(vin_text(bytes, n) =~= Seq::new(17, |k: int| vin[k] as char));
}

proof fn lemma_link_local_from(addresses: Seq<[u8; 4]>, i: int, k: int)
    requires
        0 <= i <= k <= addresses.len(),
        forall|j: int|
            i <= j < k ==> !((#[trigger] addresses[j])@[0] == 169 && addresses[j]@[1] == 254),
    ensures
        link_local_from(addresses, i) == link_local_from(addresses, k),
    decreases k - i,
{
    if i < k {
        assert(!(addresses[i]@[0] == 169 && addresses[i]@[1] == 254));
        lemma_link_local_from(addresses, i + 1, k);
    }
}

/// The first address in `169.254.0.0/16` is taken, and none where there is none.
pub proof fn law_the_first_link_local_address_is_taken(addresses: Seq<[u8; 4]>, k: int)
    requires
        0 <= k <= addresses.len(),
        forall|j: int|
            0 <= j < k ==> !((#[trigger] addresses[j])@[0] == 169 && addresses[j]@[1] == 254),
    ensures
        k == addresses.len() ==> link_local_from(addresses, 0) is None,
        k < addresses.len() && addresses[k]@[0] == 169 && addresses[k]@[1] == 254
            ==> link_local_from(addresses, 0) == Some(addresses[k]),
{
    lemma_link_local_from(addresses, 0, k);
}

} // verus!
