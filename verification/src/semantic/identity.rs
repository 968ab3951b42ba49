//! Vehicle identity: ECU names over the gateway's address list, and the vehicle order (FA).
//!
//! The gateway's list gives diagnostic addresses only, so names come from the catalog's ECU
//! slots; an address the catalog does not know is kept without a name rather than dropped.
use vstd::prelude::*;
use crate::bytes::{copy_bytes, read_be16};
use crate::semantic::catalog::EcuSlot;
use crate::text::{copy_opt, from_chars, push_text};

verus! {

/// One installed ECU with a catalog name, or without one.
#[derive(Debug, Clone, PartialEq, Eq)]
pub struct NamedEcu {
    /// The diagnostic address from the gateway's list.
    pub address: u8,
    /// The group name for this address, or `None` if the catalog lacks it.
    pub name: Option<String>,
    /// A human title for the address, if the catalog has one.
    pub title: Option<String>,
}

/// What a [`NamedEcu`] holds.
#[verifier::ext_equal]
pub struct NamedEcuView {
    pub address: u8,
    pub name: Option<Seq<char>>,
    pub title: Option<Seq<char>>,
}

impl View for NamedEcu {
    type V = NamedEcuView;

    open spec fn view(&self) -> NamedEcuView {
        NamedEcuView {
            address: self.address,
            name: crate::text::opt_view(self.name),
            title: crate::text::opt_view(self.title),
        }
    }
}

/// The first slot for `address`.
pub open spec fn slot_for(slots: Seq<EcuSlot>, address: u8) -> Option<EcuSlot>
    decreases slots.len(),
{
    if slots.len() == 0 {
        None
    } else if slots[0].address == address {
        Some(slots[0])
    } else {
        slot_for(slots.skip(1), address)
    }
}

/// `address` with the names of its slot.
pub open spec fn named(slots: Seq<EcuSlot>, address: u8) -> NamedEcuView {
    match slot_for(slots, address) {
        Some(slot) => NamedEcuView {
            address,
            name: Some(slot.group_name@),
            title: crate::text::opt_view(slot.title),
        },
        None => NamedEcuView { address, name: None, title: None },
    }
}

/// The slots that are known: none without a catalog.
pub open spec fn known_slots(slots: Option<&[EcuSlot]>) -> Seq<EcuSlot> {
    match slots {
        Some(s) => s@,
        None => Seq::<EcuSlot>::empty(),
    }
}

/// Overlay catalog names onto ECU addresses. Order and multiplicity follow `addresses`.
///
/// Without slots, or for an address they do not cover, `name` and `title` are `None`; the
/// address is always kept.
pub fn name_ecu_list(slots: Option<&[EcuSlot]>, addresses: &[u8]) -> (r: Vec<NamedEcu>)
    ensures
        r@.len() == addresses@.len(),
        forall|i: int|
            0 <= i < addresses@.len() ==> (#[trigger] r@[i])@ == named(
                known_slots(slots),
                addresses@[i],
            ),
{
    let mut out: Vec<NamedEcu> = Vec::new();
    let mut i: usize = 0;
    while i < addresses.len()
        invariant
            i <= addresses.len(),
            out@.len() == i,
            forall|k: int|
                0 <= k < i ==> (#[trigger] out@[k])@ == named(known_slots(slots), addresses@[k]),
        decreases addresses.len() - i,
    {
        let ecu = match slots {
            Some(s) => name_ecu(s, addresses[i]),
            None => NamedEcu { address: addresses[i], name: None, title: None },
        };
        out.push(ecu);
        i = i + 1;
    }
    out
}

/// Overlays the name of the first slot for `address`.
fn name_ecu(slots: &[EcuSlot], address: u8) -> (r: NamedEcu)
    ensures
        r@ == named(slots@, address),
{
    let mut i: usize = 0;
    assert(slots@.skip(0) =~= slots@);
    while i < slots.len()
        invariant
            i <= slots.len(),
            slot_for(slots@, address) == slot_for(slots@.skip(i as int), address),
        decreases slots.len() - i,
    {
        if slots[i].address == address {
            return NamedEcu {
                address,
                name: Some(slots[i].group_name.clone()),
                title: copy_opt(&slots[i].title),
            };
        }
        assert(slots@.skip(i as int).skip(1) =~= slots@.skip(i + 1));
        i = i + 1;
    }
    NamedEcu { address, name: None, title: None }
}

// ---------------------------------------------------------------------------
// The vehicle order
// ---------------------------------------------------------------------------

/// The decoded vehicle order (Fahrzeugauftrag / FA) from gateway DID 0x3F06.
///
/// Fields are `None` only when the region is too short or a character fails to decode; `raw` is
/// always kept.
#[derive(Debug, Clone, PartialEq, Eq)]
pub struct VehicleOrder {
    /// FA format version.
    pub version: Option<u16>,
    /// Series, e.g. `F025`.
    pub baureihe: Option<String>,
    /// Type key.
    pub typ_schluessel: Option<String>,
    /// Paint code.
    pub lackcode: Option<String>,
    /// Upholstery code.
    pub polstercode: Option<String>,
    /// Build date, the raw `MMyy` string, so `0317` is March 2017.
    pub build_date: Option<String>,
    /// SA (SALAPA) option codes, 3 characters each, in wire order.
    pub options: Vec<String>,
    /// E-Worte, 4 characters each.
    pub e_worte: Vec<String>,
    /// HO-Worte, 4 characters each.
    pub ho_worte: Vec<String>,
    /// The whole data region, verbatim.
    pub raw: Vec<u8>,
}

/// What a [`VehicleOrder`] holds.
#[verifier::ext_equal]
pub struct VehicleOrderView {
    pub version: Option<u16>,
    pub baureihe: Option<Seq<char>>,
    pub typ_schluessel: Option<Seq<char>>,
    pub lackcode: Option<Seq<char>>,
    pub polstercode: Option<Seq<char>>,
    pub build_date: Option<Seq<char>>,
    pub options: Seq<Seq<char>>,
    pub e_worte: Seq<Seq<char>>,
    pub ho_worte: Seq<Seq<char>>,
    pub raw: Seq<u8>,
}

impl View for VehicleOrder {
    type V = VehicleOrderView;

    open spec fn view(&self) -> VehicleOrderView {
        VehicleOrderView {
            version: self.version,
            baureihe: crate::text::opt_view(self.baureihe),
            typ_schluessel: crate::text::opt_view(self.typ_schluessel),
            lackcode: crate::text::opt_view(self.lackcode),
            polstercode: crate::text::opt_view(self.polstercode),
            build_date: crate::text::opt_view(self.build_date),
            options: crate::text::text_views(self.options@),
            e_worte: crate::text::text_views(self.e_worte@),
            ho_worte: crate::text::text_views(self.ho_worte@),
            raw: self.raw@,
        }
    }
}

/// Every text of `parts` with `mark` in front of it, one after the other.
pub open spec fn marked(mark: char, parts: Seq<Seq<char>>) -> Seq<char>
    decreases parts.len(),
{
    if parts.len() == 0 {
        Seq::<char>::empty()
    } else {
        marked(mark, parts.drop_last()) + seq![mark] + parts.last()
    }
}

/// The canonical order text: `{BR}#{C_DATE}*{TYPE}%{LACK}&{POLSTER}`, then `$SA`, `-EW`, `+HO`.
pub open spec fn standard_text(fa: VehicleOrderView) -> Option<Seq<char>> {
    match (fa.baureihe, fa.build_date, fa.typ_schluessel, fa.lackcode, fa.polstercode) {
        (Some(br), Some(date), Some(ty), Some(lack), Some(polster)) => Some(
            br + seq!['#'] + date + seq!['*'] + ty + seq!['%'] + lack + seq!['&'] + polster
                + marked('$', fa.options) + marked('-', fa.e_worte) + marked('+', fa.ho_worte),
        ),
        _ => None,
    }
}

impl VehicleOrder {
    /// The canonical `STANDARD_FA` string: `{BR}#{C_DATE}*{TYPE}%{LACK}&{POLSTER}`, then `$SA`,
    /// `-EW`, `+HO`.
    ///
    /// `None` unless all five header fields decoded.
    pub fn standard_fa(&self) -> (r: Option<String>)
        ensures
            crate::text::opt_view(r) == standard_text(self@),
    {
        match (
            &self.baureihe,
            &self.build_date,
            &self.typ_schluessel,
            &self.lackcode,
            &self.polstercode,
        ) {
            (Some(br), Some(date), Some(ty), Some(lack), Some(polster)) => {
                let mut out: Vec<char> = Vec::new();
                push_text(&mut out, br.as_str());
                out.push('#');
                push_text(&mut out, date.as_str());
                out.push('*');
                push_text(&mut out, ty.as_str());
                out.push('%');
                push_text(&mut out, lack.as_str());
                out.push('&');
                push_text(&mut out, polster.as_str());
                assert(out@ =~= br@ + seq!['#'] + date@ + seq!['*'] + ty@ + seq!['%'] + lack@
                    + seq!['&'] + polster@);
                push_marked(&mut out, '$', self.options.as_slice());
                push_marked(&mut out, '-', self.e_worte.as_slice());
                push_marked(&mut out, '+', self.ho_worte.as_slice());
                Some(from_chars(out.as_slice()))
            },
            _ => None,
        }
    }
}

/// Appends every text of `parts` with `mark` in front of it.
fn push_marked(out: &mut Vec<char>, mark: char, parts: &[String])
    ensures
        final(out)@ == old(out)@ + marked(mark, crate::text::text_views(parts@)),
{
    let ghost start = out@;
    let ghost views = crate::text::text_views(parts@);
    let mut i: usize = 0;
    assert(start + marked(mark, views.take(0)) =~= start);
    while i < parts.len()
        invariant
            i <= parts.len(),
            views == crate::text::text_views(parts@),
            out@ == start + marked(mark, views.take(i as int)),
        decreases parts.len() - i,
    {
        out.push(mark);
        push_text(out, parts[i].as_str());
        assert(views.take(i + 1).drop_last() =~= views.take(i as int));
        assert(views.take(i + 1).last() == parts@[i as int]@);
        assert(out@ =~= start + marked(mark, views.take(i + 1)));
        i = i + 1;
    }
    assert(views.take(views.len() as int) =~= views);
}

/// Offset of the declared length in the region behind the identifier echo.
pub const FA_LENGTH: usize = 0;

/// Offset of the version byte.
pub const FA_VERSION: usize = 2;

/// Offset of the build date.
pub const FA_ZEIT_KRITERIUM: usize = 3;

/// Offset of the series.
pub const FA_BAUREIHE: usize = 6;

/// Offset of the type key.
pub const FA_TYP_SCHLUESSEL: usize = 9;

/// Offset of the paint code.
pub const FA_LACKCODE: usize = 12;

/// Offset of the upholstery code.
pub const FA_POLSTERCODE: usize = 15;

/// Offset of the option stream.
pub const FA_OPTIONS: usize = 18;

/// The tag in front of the SA list.
pub const TAG_SA: u32 = 8;

/// The tag in front of the E-Wort list.
pub const TAG_E_WORT: u32 = 4;

/// The tag in front of the HO-Wort list.
pub const TAG_HO_WORT: u32 = 12;

/// The character of a 6-bit value: ASCII less the first 32 codes. Values below `0x10` stand for
/// no character; they end a list.
pub open spec fn fa_char(value: int) -> Option<char> {
    if 0x10 <= value <= 0x3F {
        Some((value + 0x20) as char)
    } else {
        None
    }
}

/// The four characters packed most significant bit first into three bytes.
pub open spec fn four_chars(a: u8, b: u8, c: u8) -> Option<Seq<char>> {
    match (
        fa_char(a as int / 4),
        fa_char(a as int % 4 * 16 + b as int / 16),
        fa_char(b as int % 16 * 4 + c as int / 64),
        fa_char(c as int % 64),
    ) {
        (Some(w), Some(x), Some(y), Some(z)) => Some(seq![w, x, y, z]),
        _ => None,
    }
}

/// The four characters at `offset` of the region, if it is long enough and all of them decode.
pub open spec fn field_at(region: Seq<u8>, offset: int) -> Option<Seq<char>> {
    if offset + 3 <= region.len() {
        four_chars(region[offset], region[offset + 1], region[offset + 2])
    } else {
        None
    }
}

/// Bit `k` of a byte, counted from the most significant.
pub open spec fn bit_of(b: u8, k: int) -> int {
    if k == 0 {
        b as int / 128 % 2
    } else if k == 1 {
        b as int / 64 % 2
    } else if k == 2 {
        b as int / 32 % 2
    } else if k == 3 {
        b as int / 16 % 2
    } else if k == 4 {
        b as int / 8 % 2
    } else if k == 5 {
        b as int / 4 % 2
    } else if k == 6 {
        b as int / 2 % 2
    } else {
        b as int % 2
    }
}

/// The bits of `bytes`, most significant first.
pub open spec fn bits_of(bytes: Seq<u8>) -> Seq<int> {
    Seq::new(8 * bytes.len(), |p: int| bit_of(bytes[p / 8], p % 8))
}

/// The number that `bits` write, most significant first.
pub open spec fn bits_value(bits: Seq<int>) -> int
    decreases bits.len(),
{
    if bits.len() == 0 {
        0
    } else {
        bits_value(bits.drop_last()) * 2 + bits.last()
    }
}

/// The number in the `count` bits from `pos` on, if there are that many.
pub open spec fn bits_at(bits: Seq<int>, pos: int, count: int) -> Option<int> {
    if pos + count <= bits.len() {
        Some(bits_value(bits.subrange(pos, pos + count)))
    } else {
        None
    }
}

/// The position behind a read of `count` bits; a read past the end uses up all bits.
pub open spec fn after(bits: Seq<int>, pos: int, count: int) -> int {
    if pos + count <= bits.len() {
        pos + count
    } else {
        bits.len() as int
    }
}

/// The word of `chars` more characters at `pos` that continues `word`, and the position behind
/// it; `None` at the first character that is missing or does not decode.
pub open spec fn word_at(bits: Seq<int>, pos: int, chars: nat, word: Seq<char>) -> (
    Option<Seq<char>>,
    int,
)
    decreases chars,
{
    if chars == 0 {
        (Some(word), pos)
    } else {
        match bits_at(bits, pos, 6) {
            Some(v) => match fa_char(v) {
                Some(c) => word_at(bits, pos + 6, (chars - 1) as nat, word.push(c)),
                None => (None, pos + 6),
            },
            None => (None, after(bits, pos, 6)),
        }
    }
}

/// The words from `pos` on that join the list `found`, and the position behind the list.
///
/// A 6-bit value below `0x10` ends the list; the terminator takes up 2 bits. A word that is
/// already in the list is not added again.
pub open spec fn list_at(bits: Seq<int>, pos: int, chars: nat, found: Seq<Seq<char>>) -> (
    Seq<Seq<char>>,
    int,
)
    decreases bits.len() - pos,
{
    proof {
        lemma_word_end(bits, pos, chars, Seq::<char>::empty());
    }
    match bits_at(bits, pos, 6) {
        None => (found, pos),
        Some(first) => if first < 0x10 || chars == 0 {
            (found, pos + 2)
        } else {
            let word = word_at(bits, pos, chars, Seq::<char>::empty());
            match word.0 {
                None => (found, word.1),
                Some(w) => if found.contains(w) {
                    list_at(bits, word.1, chars, found)
                } else {
                    list_at(bits, word.1, chars, found.push(w))
                },
            }
        },
    }
}

/// A word takes up six bits for each of its characters.
pub proof fn lemma_word_end(bits: Seq<int>, pos: int, chars: nat, word: Seq<char>)
    ensures
        word_at(bits, pos, chars, word).0 is Some ==> word_at(bits, pos, chars, word).1 == pos + 6
            * chars && (chars > 0 ==> pos + 6 * chars <= bits.len()),
    decreases chars,
{
    if chars > 0 {
        match bits_at(bits, pos, 6) {
            Some(v) => match fa_char(v) {
                Some(c) => {
                    lemma_word_end(bits, pos + 6, (chars - 1) as nat, word.push(c));
                },
                None => {},
            },
            None => {},
        }
    }
}

/// The three lists of an option stream: SA, E-Worte and HO-Worte.
///
/// The first tag is consumed only if it is the SA tag; the second and third are consumed
/// whatever they are.
pub open spec fn lists_of(bits: Seq<int>) -> (Seq<Seq<char>>, Seq<Seq<char>>, Seq<Seq<char>>) {
    let none = Seq::<Seq<char>>::empty();
    let sa = if bits_at(bits, 0, 4) == Some(TAG_SA as int) {
        list_at(bits, 4, 3, none)
    } else {
        (none, 0int)
    };
    let ew_start = after(bits, sa.1, 4);
    let ew = if bits_at(bits, sa.1, 4) == Some(TAG_E_WORT as int) {
        list_at(bits, ew_start, 4, none)
    } else {
        (none, ew_start)
    };
    let ho_start = after(bits, ew.1, 4);
    let ho = if bits_at(bits, ew.1, 4) == Some(TAG_HO_WORT as int) {
        list_at(bits, ho_start, 4, none)
    } else {
        (none, ho_start)
    };
    (sa.0, ew.0, ho.0)
}

/// Where the option stream ends: the declared length counts from the version byte and keeps
/// the trailing signature block out.
pub open spec fn stream_end(region: Seq<u8>) -> int {
    if region.len() >= 2 && FA_VERSION + crate::bytes::be16(region[0], region[1]) < region.len() {
        FA_VERSION + crate::bytes::be16(region[0], region[1])
    } else {
        region.len() as int
    }
}

/// The option stream of a region.
pub open spec fn stream_of(region: Seq<u8>) -> Seq<u8> {
    if FA_OPTIONS <= stream_end(region) {
        region.subrange(FA_OPTIONS as int, stream_end(region))
    } else {
        Seq::<u8>::empty()
    }
}

/// The vehicle order in the region behind the identifier echo.
pub open spec fn order_in(region: Seq<u8>) -> VehicleOrderView {
    let lists = lists_of(bits_of(stream_of(region)));
    VehicleOrderView {
        version: if FA_VERSION < region.len() {
            Some(region[FA_VERSION as int] as u16)
        } else {
            None
        },
        baureihe: field_at(region, FA_BAUREIHE as int),
        typ_schluessel: field_at(region, FA_TYP_SCHLUESSEL as int),
        lackcode: field_at(region, FA_LACKCODE as int),
        polstercode: field_at(region, FA_POLSTERCODE as int),
        build_date: field_at(region, FA_ZEIT_KRITERIUM as int),
        options: lists.0,
        e_worte: lists.1,
        ho_worte: lists.2,
        raw: region,
    }
}

/// Decode one 6-bit FA character: `value + 0x20`, or `None` for a value below `0x10`.
pub fn decode_fa_char(value: u8) -> (r: Option<char>)
    ensures
        r == fa_char(value as int),
{
    if 0x10 <= value && value <= 0x3F {
        Some((value + 0x20) as char)
    } else {
        None
    }
}

/// Unpack the 4 characters packed MSB-first into the 3 bytes at `offset`.
///
/// `None` if the region is short or any character is unmapped.
pub fn unpack_four(region: &[u8], offset: usize) -> (r: Option<String>)
    ensures
        crate::text::opt_view(r) == field_at(region@, offset as int),
{
    if region.len() < 3 || offset > region.len() - 3 {
        return None;
    }
    let a: u8 = region[offset];
    let b: u8 = region[offset + 1];
    let c: u8 = region[offset + 2];
    match (
        decode_fa_char(a / 4),
        decode_fa_char(a % 4 * 16 + b / 16),
        decode_fa_char(b % 16 * 4 + c / 64),
        decode_fa_char(c % 64),
    ) {
        (Some(w), Some(x), Some(y), Some(z)) => {
            let chars: Vec<char> = vec![w, x, y, z];
            assert(chars@ =~= seq![w, x, y, z]);
            Some(from_chars(chars.as_slice()))
        },
        _ => None,
    }
}

/// An MSB-first bit reader over the FA's tagged option stream.
struct BitReader<'a> {
    bytes: &'a [u8],
    pos: usize,
}

impl<'a> BitReader<'a> {
    /// The position lies within the stream, and the stream is short enough to count its bits.
    spec fn wf(&self) -> bool {
        &&& self.bytes@.len() <= 0x100_0000
        &&& self.pos <= 8 * self.bytes@.len()
    }

    spec fn bits(&self) -> Seq<int> {
        bits_of(self.bytes@)
    }

    /// Reads `count` bits MSB-first, or `None` past the end.
    fn take(&mut self, count: usize) -> (r: Option<u32>)
        requires
            old(self).wf(),
            count <= 16,
        ensures
            final(self).wf(),
            final(self).bytes == old(self).bytes,
            match r {
                Some(v) => bits_at(old(self).bits(), old(self).pos as int, count as int) == Some(
                    v as int,
                ),
                None => bits_at(old(self).bits(), old(self).pos as int, count as int) is None,
            },
            final(self).pos == after(old(self).bits(), old(self).pos as int, count as int),
    {
        let ghost bits = self.bits();
        let ghost start = self.pos as int;
        let mut value: u32 = 0;
        let mut n: usize = 0;
        let mut bound: u32 = 1;
        while n < count
            invariant
                n <= count <= 16,
                self.wf(),
                self.bytes == old(self).bytes,
                bits == self.bits(),
                bits == old(self).bits(),
                start == old(self).pos,
                self.pos == start + n,
                value == bits_value(bits.subrange(start, start + n)),
                value < bound,
                bound <= 0x1_0000,
                n == 0 ==> bound == 1,
                n == 1 ==> bound == 2,
                n == 2 ==> bound == 4,
                n == 3 ==> bound == 8,
                n == 4 ==> bound == 16,
                n == 5 ==> bound == 32,
                n == 6 ==> bound == 64,
                n == 7 ==> bound == 128,
                n == 8 ==> bound == 256,
                n == 9 ==> bound == 512,
                n == 10 ==> bound == 1024,
                n == 11 ==> bound == 2048,
                n == 12 ==> bound == 4096,
                n == 13 ==> bound == 8192,
                n == 14 ==> bound == 16384,
                n == 15 ==> bound == 32768,
            decreases count - n,
        {
            if self.pos / 8 >= self.bytes.len() {
                return None;
            }
            let bit: u8 = bit_at(self.bytes[self.pos / 8], self.pos % 8);
            assert(bits[self.pos as int] == bit);
            assert(bits.subrange(start, start + n + 1).drop_last() =~= bits.subrange(
                start,
                start + n,
            ));
            assert(bits.subrange(start, start + n + 1).last() == bits[start + n]);
            value = value * 2 + bit as u32;
            bound = bound * 2;
            self.pos = self.pos + 1;
            n = n + 1;
        }
        Some(value)
    }

    /// Peeks the next `count` bits without consuming them.
    fn peek(&mut self, count: usize) -> (r: Option<u32>)
        requires
            old(self).wf(),
            count <= 16,
        ensures
            *final(self) == *old(self),
            match r {
                Some(v) => bits_at(old(self).bits(), old(self).pos as int, count as int) == Some(
                    v as int,
                ),
                None => bits_at(old(self).bits(), old(self).pos as int, count as int) is None,
            },
    {
        let mark: usize = self.pos;
        let value: Option<u32> = self.take(count);
        self.pos = mark;
        value
    }

    /// Reads one word of `chars` characters; `None` if one is missing or does not decode.
    fn read_word(&mut self, chars: usize) -> (r: Option<Vec<char>>)
        requires
            old(self).wf(),
        ensures
            final(self).wf(),
            final(self).bytes == old(self).bytes,
            ({
                let word = word_at(
                    old(self).bits(),
                    old(self).pos as int,
                    chars as nat,
                    Seq::<char>::empty(),
                );
                &&& final(self).pos == word.1
                &&& match r {
                    Some(w) => word.0 == Some(w@),
                    None => word.0 is None,
                }
            }),
            r is Some && chars > 0 ==> final(self).pos > old(self).pos,
    {
        let ghost bits = self.bits();
        let ghost whole = word_at(bits, self.pos as int, chars as nat, Seq::<char>::empty());
        let mut word: Vec<char> = Vec::new();
        let mut n: usize = 0;
        assert(word@ =~= Seq::<char>::empty());
        while n < chars
            invariant
                n <= chars,
                self.wf(),
                self.bytes == old(self).bytes,
                bits == self.bits(),
                bits == old(self).bits(),
                whole == word_at(bits, old(self).pos as int, chars as nat, Seq::<char>::empty()),
                whole == word_at(bits, self.pos as int, (chars - n) as nat, word@),
                self.pos == old(self).pos + 6 * n,
            decreases chars - n,
        {
            match self.take(6) {
                Some(v) => {
                    proof {
                        lemma_six_bits(
                            bits,
                            self.pos - 6,
                        );
                    }
                    match decode_fa_char(v as u8) {
                        Some(c) => {
                            word.push(c);
                        },
                        None => {
                            return None;
                        },
                    }
                },
                None => {
                    return None;
                },
            }
            n = n + 1;
        }
        Some(word)
    }

    /// Reads one list of `chars`-character entries until the terminator.
    ///
    /// Before each entry the next 6 bits are inspected; a value below `0x10` ends the list and
    /// consumes only 2 bits, so that the following 4 are the next tag.
    fn read_list(&mut self, chars: usize) -> (r: Vec<String>)
        requires
            old(self).wf(),
            chars > 0,
        ensures
            final(self).wf(),
            final(self).bytes == old(self).bytes,
            (crate::text::text_views(r@), final(self).pos as int) == list_at(
                old(self).bits(),
                old(self).pos as int,
                chars as nat,
                Seq::<Seq<char>>::empty(),
            ),
    {
        let ghost bits = self.bits();
        let ghost whole = list_at(
            bits,
            self.pos as int,
            chars as nat,
            Seq::<Seq<char>>::empty(),
        );
        let mut out: Vec<String> = Vec::new();
        assert(crate::text::text_views(out@) =~= Seq::<Seq<char>>::empty());
        loop
            invariant
                self.wf(),
                self.bytes == old(self).bytes,
                bits == self.bits(),
                chars > 0,
                whole == list_at(
                    bits,
                    self.pos as int,
                    chars as nat,
                    crate::text::text_views(out@),
                ),
                whole == list_at(
                    old(self).bits(),
                    old(self).pos as int,
                    chars as nat,
                    Seq::<Seq<char>>::empty(),
                ),
            decreases 8 * self.bytes@.len() - self.pos,
        {
            let first: u32 = match self.peek(6) {
                Some(v) => v,
                None => {
                    return out;
                },
            };
            if first < 0x10 {
                self.pos = self.pos + 2;  // the terminator is 2 bits, not 6
                return out;
            }
            let ghost found = crate::text::text_views(out@);
            match self.read_word(chars) {
                None => {
                    return out;
                },
                Some(word) => {
                    if !contains_chars(out.as_slice(), word.as_slice()) {
                        out.push(from_chars(word.as_slice()));
                        assert(crate::text::text_views(out@) =~= found.push(word@));
                    }
                },
            }
        }
    }
}

/// Bit `k` of a byte, counted from the most significant.
fn bit_at(b: u8, k: usize) -> (r: u8)
    requires
        k < 8,
    ensures
        r == bit_of(b, k as int),
        r <= 1,
{
    let shifted: u8 = if k == 0 {
        b / 128
    } else if k == 1 {
        b / 64
    } else if k == 2 {
        b / 32
    } else if k == 3 {
        b / 16
    } else if k == 4 {
        b / 8
    } else if k == 5 {
        b / 4
    } else if k == 6 {
        b / 2
    } else {
        b
    };
    shifted % 2
}

/// Whether `word` is among `texts`.
fn contains_chars(texts: &[String], word: &[char]) -> (r: bool)
    ensures
        r == crate::text::text_views(texts@).contains(word@),
{
    let text = from_chars(word);
    let ghost views = crate::text::text_views(texts@);
    match crate::text::position_of(texts, text.as_str()) {
        Some(i) => {
            proof {
                crate::text::lemma_position(views, word@);
                assert(views[i as int] == word@);
            }
            true
        },
        None => {
            proof {
                crate::text::lemma_position(views, word@);
            }
            false
        },
    }
}

/// Six bits write a number below 64.
proof fn lemma_six_bits(bits: Seq<int>, pos: int)
    requires
        0 <= pos,
        pos + 6 <= bits.len(),
        forall|i: int| 0 <= i < bits.len() ==> 0 <= #[trigger] bits[i] <= 1,
    ensures
        0 <= bits_value(bits.subrange(pos, pos + 6)) < 64,
{
    reveal_with_fuel(bits_value, 7);
    let s = bits.subrange(pos, pos + 6);
    assert(s.drop_last() =~= bits.subrange(pos, pos + 5));
    assert(s.drop_last().drop_last() =~= bits.subrange(pos, pos + 4));
    assert(s.drop_last().drop_last().drop_last() =~= bits.subrange(pos, pos + 3));
    assert(s.drop_last().drop_last().drop_last().drop_last() =~= bits.subrange(pos, pos + 2));
    assert(s.drop_last().drop_last().drop_last().drop_last().drop_last() =~= bits.subrange(
        pos,
        pos + 1,
    ));
}

/// Decode the FA (vehicle order) data region: the payload after the `62 3F 06` echo.
///
/// Header fields are 6-bit packed 4-character strings; the tail is a bit stream of tagged lists
/// (`1000` SA / 3 characters, `0100` E-Worte / 4 characters, `1100` HO-Worte / 4 characters).
///
/// Everything degrades: a short or malformed region yields `None`/empty fields with `raw` intact.
pub fn decode_vehicle_order(region: &[u8]) -> (r: VehicleOrder)
    ensures
        r@ == order_in(region@),
{
    let mut end: usize = region.len();
    if region.len() >= 2 {
        let declared: usize = read_be16(region[FA_LENGTH], region[FA_LENGTH + 1]) as usize;
        if FA_VERSION + declared < end {
            end = FA_VERSION + declared;
        }
    }
    assert(end == stream_end(region@));
    let stream: &[u8] = if FA_OPTIONS <= end {
        vstd::slice::slice_subrange(region, FA_OPTIONS, end)
    } else {
        vstd::slice::slice_subrange(region, 0, 0)
    };
    assert(stream@ =~= stream_of(region@));
    let ghost bits = bits_of(stream@);
    let mut reader = BitReader { bytes: stream, pos: 0 };
    let mut options: Vec<String> = Vec::new();
    let mut e_worte: Vec<String> = Vec::new();
    let mut ho_worte: Vec<String> = Vec::new();
    assert(crate::text::text_views(options@) =~= Seq::<Seq<char>>::empty());
    // The SA tag is peeked: it is only consumed on a match.
    let sa_tag: Option<u32> = reader.peek(4);
    if sa_tag == Some(TAG_SA) {
        reader.pos = 4;
        options = reader.read_list(3);
    }
    let ghost ew_pos = reader.pos as int;
    // The other two tags are consumed whether or not they match.
    let ew_tag: Option<u32> = reader.take(4);
    if ew_tag == Some(TAG_E_WORT) {
        e_worte = reader.read_list(4);
    }
    let ho_tag: Option<u32> = reader.take(4);
    if ho_tag == Some(TAG_HO_WORT) {
        ho_worte = reader.read_list(4);
    }
    assert((
        crate::text::text_views(options@),
        crate::text::text_views(e_worte@),
        crate::text::text_views(ho_worte@),
    ) == lists_of(bits));
    let version: Option<u16> = if FA_VERSION < region.len() {
        Some(region[FA_VERSION] as u16)
    } else {
        None
    };
    VehicleOrder {
        version,
        baureihe: unpack_four(region, FA_BAUREIHE),
        typ_schluessel: unpack_four(region, FA_TYP_SCHLUESSEL),
        lackcode: unpack_four(region, FA_LACKCODE),
        polstercode: unpack_four(region, FA_POLSTERCODE),
        build_date: unpack_four(region, FA_ZEIT_KRITERIUM),
        options,
        e_worte,
        ho_worte,
        raw: copy_bytes(region),
    }
}

// ---------------------------------------------------------------------------
// Laws of the encoding
// ---------------------------------------------------------------------------

/// A text of characters that the 6-bit alphabet has.
pub open spec fn fa_text(word: Seq<char>) -> bool {
    forall|i: int| 0 <= i < word.len() ==> 0x30 <= #[trigger] word[i] as int <= 0x5F
}

/// The six bits of a value, most significant first.
pub open spec fn six_bits(v: int) -> Seq<int> {
    seq![v / 32 % 2, v / 16 % 2, v / 8 % 2, v / 4 % 2, v / 2 % 2, v % 2]
}

/// The bits of a word, six for each character.
pub open spec fn word_bits(word: Seq<char>) -> Seq<int>
    decreases word.len(),
{
    if word.len() == 0 {
        Seq::<int>::empty()
    } else {
        six_bits(word[0] as int - 0x20) + word_bits(word.skip(1))
    }
}

/// The bits of a list: its words, then the two-bit terminator.
pub open spec fn list_bits(words: Seq<Seq<char>>) -> Seq<int>
    decreases words.len(),
{
    if words.len() == 0 {
        seq![0int, 0int]
    } else {
        word_bits(words[0]) + list_bits(words.skip(1))
    }
}

/// The bits of an option stream: the three tagged lists, then whatever fills the last byte.
pub open spec fn stream_bits(
    sa: Seq<Seq<char>>,
    ew: Seq<Seq<char>>,
    ho: Seq<Seq<char>>,
    fill: Seq<int>,
) -> Seq<int> {
    seq![1int, 0int, 0int, 0int] + list_bits(sa) + seq![0int, 1int, 0int, 0int] + list_bits(ew)
        + seq![1int, 1int, 0int, 0int] + list_bits(ho) + fill
}

/// A list that can be written: different words of the alphabet, `chars` characters each.
pub open spec fn writable(words: Seq<Seq<char>>, chars: nat) -> bool {
    &&& words.no_duplicates()
    &&& forall|i: int|
        0 <= i < words.len() ==> (#[trigger] words[i]).len() == chars && fa_text(words[i])
}

proof fn lemma_six_bits_value(v: int)
    requires
        0 <= v < 64,
    ensures
        bits_value(six_bits(v)) == v,
{
    reveal_with_fuel(bits_value, 7);
    let s = six_bits(v);
    let a = seq![v / 32 % 2];
    let b = a.push(v / 16 % 2);
    let c = b.push(v / 8 % 2);
    let d = c.push(v / 4 % 2);
    let e = d.push(v / 2 % 2);
    assert(s =~= e.push(v % 2));
    assert(s.drop_last() =~= e);
    assert(e.drop_last() =~= d);
    assert(d.drop_last() =~= c);
    assert(c.drop_last() =~= b);
    assert(b.drop_last() =~= a);
    assert(a.drop_last() =~= Seq::<int>::empty());
}

proof fn lemma_four_bits_value(s: Seq<int>)
    requires
        s.len() == 4,
    ensures
        bits_value(s) == s[0] * 8 + s[1] * 4 + s[2] * 2 + s[3],
{
    reveal_with_fuel(bits_value, 5);
    assert(s.drop_last().drop_last().drop_last().drop_last() =~= Seq::<int>::empty());
}

proof fn lemma_word_bits_len(word: Seq<char>)
    ensures
        word_bits(word).len() == 6 * word.len(),
    decreases word.len(),
{
    if word.len() > 0 {
        lemma_word_bits_len(word.skip(1));
    }
}

proof fn lemma_word_read_back(bits: Seq<int>, pos: int, word: Seq<char>, so_far: Seq<char>)
    requires
        0 <= pos,
        pos + 6 * word.len() <= bits.len(),
        bits.subrange(pos, pos + 6 * word.len()) == word_bits(word),
        fa_text(word),
    ensures
        word_at(bits, pos, word.len(), so_far) == (
            Some(so_far + word),
            pos + 6 * word.len() as int,
        ),
    decreases word.len(),
{
    if word.len() == 0 {
        assert(so_far + word =~= so_far);
    } else {
        let v = word[0] as int - 0x20;
        let whole = bits.subrange(pos, pos + 6 * word.len());
        lemma_six_bits_value(v);
        assert(bits.subrange(pos, pos + 6) =~= six_bits(v)) by {
            assert forall|i: int| 0 <= i < 6 implies bits[pos + i] == six_bits(v)[i] by {
                assert(whole[i] == bits[pos + i]);
                assert(word_bits(word)[i] == six_bits(v)[i]);
            }
        }
        let rest = word.skip(1);
        lemma_word_bits_len(rest);
        assert(bits.subrange(pos + 6, pos + 6 + 6 * rest.len()) =~= word_bits(rest)) by {
            assert forall|i: int| 0 <= i < 6 * rest.len() implies bits[pos + 6 + i] == word_bits(
                rest,
            )[i] by {
                assert(whole[6 + i] == bits[pos + 6 + i]);
                assert(word_bits(word)[6 + i] == word_bits(rest)[i]);
            }
        }
        assert(fa_text(rest)) by {
            assert forall|i: int| 0 <= i < rest.len() implies 0x30 <= #[trigger] rest[i] as int
                <= 0x5F by {
                assert(rest[i] == word[i + 1]);
            }
        }
        assert((v + 0x20) as char == word[0]);
        lemma_word_read_back(bits, pos + 6, rest, so_far.push(word[0]));
        assert(so_far.push(word[0]) + rest =~= so_far + word);
    }
}

proof fn lemma_list_bits_len(words: Seq<Seq<char>>, chars: nat)
    requires
        writable(words, chars),
    ensures
        list_bits(words).len() == 6 * chars * words.len() + 2,
    decreases words.len(),
{
    if words.len() > 0 {
        lemma_word_bits_len(words[0]);
        assert(writable(words.skip(1), chars)) by {
            assert forall|i: int| 0 <= i < words.skip(1).len() implies (#[trigger] words.skip(
                1,
            )[i]).len() == chars && fa_text(words.skip(1)[i]) by {
                assert(words.skip(1)[i] == words[i + 1]);
            }
        }
        lemma_list_bits_len(words.skip(1), chars);
        let n = words.len() as int;
        assert(6 * chars * (n - 1) + 6 * chars == 6 * chars * n) by (nonlinear_arith);
    }
}

/// Reads back a list that stands at `pos`: its words always, and the position behind its
/// terminator where the stream goes on for at least four bits.
proof fn lemma_list_read_back(
    bits: Seq<int>,
    pos: int,
    words: Seq<Seq<char>>,
    chars: nat,
    found: Seq<Seq<char>>,
)
    requires
        0 <= pos,
        chars > 0,
        writable(words, chars),
        pos + list_bits(words).len() <= bits.len(),
        bits.subrange(pos, pos + list_bits(words).len()) == list_bits(words),
        forall|i: int| 0 <= i < words.len() ==> !found.contains(#[trigger] words[i]),
        forall|i: int| 0 <= i < bits.len() ==> 0 <= #[trigger] bits[i] <= 1,
    ensures
        list_at(bits, pos, chars, found).0 == found + words,
        pos + list_bits(words).len() + 4 <= bits.len() ==> list_at(bits, pos, chars, found).1
            == pos + list_bits(words).len(),
    decreases words.len(),
{
    let whole = bits.subrange(pos, pos + list_bits(words).len());
    if words.len() == 0 {
        assert(found + words =~= found);
        assert(bits[pos] == whole[0] && bits[pos + 1] == whole[1]);
        if pos + 6 <= bits.len() {
            reveal_with_fuel(bits_value, 7);
            let s = bits.subrange(pos, pos + 6);
            assert(s.drop_last().drop_last().drop_last().drop_last() =~= seq![0int, 0int]);
            assert(seq![0int, 0int].drop_last().drop_last() =~= Seq::<int>::empty());
            assert(s[2] <= 1 && s[3] <= 1 && s[4] <= 1 && s[5] <= 1);
            assert(bits_value(s) < 0x10);
        }
    } else {
        let word = words[0];
        let rest = words.skip(1);
        lemma_word_bits_len(word);
        assert(bits.subrange(pos, pos + 6 * word.len()) =~= word_bits(word)) by {
            assert forall|i: int| 0 <= i < 6 * word.len() implies bits[pos + i] == word_bits(
                word,
            )[i] by {
                assert(whole[i] == bits[pos + i]);
                assert(list_bits(words)[i] == word_bits(word)[i]);
            }
        }
        lemma_word_read_back(bits, pos, word, Seq::<char>::empty());
        assert(Seq::<char>::empty() + word =~= word);
        // The first six bits are those of a character, not a terminator.
        let v = word[0] as int - 0x20;
        lemma_six_bits_value(v);
        assert(bits.subrange(pos, pos + 6) =~= six_bits(v)) by {
            assert forall|i: int| 0 <= i < 6 implies bits[pos + i] == six_bits(v)[i] by {
                assert(bits.subrange(pos, pos + 6 * word.len())[i] == word_bits(word)[i]);
            }
        }
        let next = pos + 6 * word.len();
        assert(writable(rest, chars)) by {
            assert forall|i: int| 0 <= i < rest.len() implies (#[trigger] rest[i]).len() == chars
                && fa_text(rest[i]) by {
                assert(rest[i] == words[i + 1]);
            }
        }
        assert(list_bits(words).len() == 6 * word.len() + list_bits(rest).len());
        assert(bits.subrange(next, next + list_bits(rest).len()) =~= list_bits(rest)) by {
            assert forall|i: int| 0 <= i < list_bits(rest).len() implies bits[next + i]
                == list_bits(rest)[i] by {
                assert(whole[6 * word.len() + i] == bits[next + i]);
                assert(list_bits(words)[6 * word.len() + i] == list_bits(rest)[i]);
            }
        }
        assert(!found.contains(words[0]));
        assert forall|i: int| 0 <= i < rest.len() implies !found.push(word).contains(
            #[trigger] rest[i],
        ) by {
            assert(rest[i] == words[i + 1]);
            assert(!found.contains(words[i + 1]));
            assert(words[i + 1] != words[0]);
            if found.push(word).contains(rest[i]) {
                let k = choose|k: int|
                    0 <= k < found.push(word).len() && found.push(word)[k] == rest[i];
                if k < found.len() {
                    assert(found[k] == rest[i]);
                }
            }
        }
        lemma_list_read_back(bits, next, rest, chars, found.push(word));
        assert(found.push(word) + rest =~= found + words);
    }
}

/// Every bit of a written stream is a bit.
proof fn lemma_list_bits_are_bits(words: Seq<Seq<char>>, chars: nat)
    requires
        writable(words, chars),
    ensures
        forall|i: int| 0 <= i < list_bits(words).len() ==> 0 <= #[trigger] list_bits(words)[i] <= 1,
    decreases words.len(),
{
    if words.len() > 0 {
        lemma_word_bits_are_bits(words[0]);
        assert(writable(words.skip(1), chars)) by {
            assert forall|i: int| 0 <= i < words.skip(1).len() implies (#[trigger] words.skip(
                1,
            )[i]).len() == chars && fa_text(words.skip(1)[i]) by {
                assert(words.skip(1)[i] == words[i + 1]);
            }
        }
        lemma_list_bits_are_bits(words.skip(1), chars);
        let head = word_bits(words[0]);
        assert forall|i: int| 0 <= i < list_bits(words).len() implies 0 <= #[trigger] list_bits(
            words,
        )[i] <= 1 by {
            if i < head.len() {
                assert(list_bits(words)[i] == head[i]);
            } else {
                assert(list_bits(words)[i] == list_bits(words.skip(1))[i - head.len()]);
            }
        }
    }
}

proof fn lemma_word_bits_are_bits(word: Seq<char>)
    ensures
        forall|i: int| 0 <= i < word_bits(word).len() ==> 0 <= #[trigger] word_bits(word)[i] <= 1,
    decreases word.len(),
{
    if word.len() > 0 {
        lemma_word_bits_are_bits(word.skip(1));
        assert forall|i: int| 0 <= i < word_bits(word).len() implies 0 <= #[trigger] word_bits(
            word,
        )[i] <= 1 by {
            if i >= 6 {
                assert(word_bits(word)[i] == word_bits(word.skip(1))[i - 6]);
            }
        }
    }
}

/// The option stream round-trips: the three lists that were written are read back, in order and
/// without a bit of what follows them.
#[verifier::rlimit(40)]
pub proof fn law_option_lists_round_trip(
    sa: Seq<Seq<char>>,
    ew: Seq<Seq<char>>,
    ho: Seq<Seq<char>>,
    fill: Seq<int>,
)
    requires
        writable(sa, 3),
        writable(ew, 4),
        writable(ho, 4),
        forall|i: int| 0 <= i < fill.len() ==> 0 <= #[trigger] fill[i] <= 1,
    ensures
        lists_of(stream_bits(sa, ew, ho, fill)) == (sa, ew, ho),
{
    let bits = stream_bits(sa, ew, ho, fill);
    let none = Seq::<Seq<char>>::empty();
    lemma_list_bits_are_bits(sa, 3);
    lemma_list_bits_are_bits(ew, 4);
    lemma_list_bits_are_bits(ho, 4);
    let p1: int = 4 + list_bits(sa).len() as int;
    let p2: int = p1 + 4 + list_bits(ew).len() as int;
    let p3: int = p2 + 4 + list_bits(ho).len() as int;
    assert(bits.len() == p3 + fill.len());
    assert forall|i: int| 0 <= i < bits.len() implies 0 <= #[trigger] bits[i] <= 1 by {
        if i < 4 {
        } else if i < p1 {
            assert(bits[i] == list_bits(sa)[i - 4]);
        } else if i < p1 + 4 {
        } else if i < p2 {
            assert(bits[i] == list_bits(ew)[i - p1 - 4]);
        } else if i < p2 + 4 {
        } else if i < p3 {
            assert(bits[i] == list_bits(ho)[i - p2 - 4]);
        } else {
            assert(bits[i] == fill[i - p3]);
        }
    }
    assert(bits.subrange(0, 4) =~= seq![1int, 0int, 0int, 0int]);
    lemma_four_bits_value(bits.subrange(0, 4));
    assert(bits.subrange(4, p1 as int) =~= list_bits(sa));
    lemma_list_read_back(bits, 4, sa, 3, none);
    assert(none + sa =~= sa);
    assert(bits.subrange(p1 as int, p1 + 4) =~= seq![0int, 1int, 0int, 0int]);
    lemma_four_bits_value(bits.subrange(p1 as int, p1 + 4));
    assert(bits.subrange(p1 + 4, p2 as int) =~= list_bits(ew));
    lemma_list_read_back(bits, p1 + 4, ew, 4, none);
    assert(none + ew =~= ew);
    assert(bits.subrange(p2 as int, p2 + 4) =~= seq![1int, 1int, 0int, 0int]);
    lemma_four_bits_value(bits.subrange(p2 as int, p2 + 4));
    assert(bits.subrange(p2 + 4, p3 as int) =~= list_bits(ho));
    lemma_list_read_back(bits, p2 + 4, ho, 4, none);
    assert(none + ho =~= ho);
}

/// A header field round-trips: four characters of the alphabet, packed into three bytes, are
/// read back.
pub proof fn law_header_field_round_trips(word: Seq<char>)
    requires
        word.len() == 4,
        fa_text(word),
    ensures
        ({
            let w = word[0] as int - 0x20;
            let x = word[1] as int - 0x20;
            let y = word[2] as int - 0x20;
            let z = word[3] as int - 0x20;
            four_chars(
                (w * 4 + x / 16) as u8,
                (x % 16 * 16 + y / 4) as u8,
                (y % 4 * 64 + z) as u8,
            ) == Some(word)
        }),
{
    let w = word[0] as int - 0x20;
    let x = word[1] as int - 0x20;
    let y = word[2] as int - 0x20;
    let z = word[3] as int - 0x20;
    assert(0x10 <= w <= 0x3F && 0x10 <= x <= 0x3F && 0x10 <= y <= 0x3F && 0x10 <= z <= 0x3F);
    assert(seq![word[0], word[1], word[2], word[3]] =~= word);
}

/// The trailing signature block never reaches the option stream: bytes behind the declared
/// length change no option, and where the header is complete nothing but `raw`.
pub proof fn law_declared_length_bounds_the_stream(region: Seq<u8>, trailing: Seq<u8>)
    requires
        region.len() >= FA_VERSION,
        region.len() >= FA_VERSION + crate::bytes::be16(region[0], region[1]),
    ensures
        order_in(region + trailing).options == order_in(region).options,
        order_in(region + trailing).e_worte == order_in(region).e_worte,
        order_in(region + trailing).ho_worte == order_in(region).ho_worte,
        region.len() >= FA_OPTIONS ==> order_in(region + trailing) == (VehicleOrderView {
            raw: region + trailing,
            ..order_in(region)
        }),
{
    let more = region + trailing;
    assert(more[0] == region[0] && more[1] == region[1]);
    assert(stream_of(more) =~= stream_of(region));
    if region.len() >= FA_OPTIONS {
        assert(field_at(more, FA_BAUREIHE as int) == field_at(region, FA_BAUREIHE as int));
        assert(field_at(more, FA_TYP_SCHLUESSEL as int) == field_at(
            region,
            FA_TYP_SCHLUESSEL as int,
        ));
        assert(field_at(more, FA_LACKCODE as int) == field_at(region, FA_LACKCODE as int));
        assert(field_at(more, FA_POLSTERCODE as int) == field_at(region, FA_POLSTERCODE as int));
        assert(field_at(more, FA_ZEIT_KRITERIUM as int) == field_at(
            region,
            FA_ZEIT_KRITERIUM as int,
        ));
    }
}

/// A region too short for the option stream has no options, and one too short for the version
/// byte has no version; the bytes are kept either way.
pub proof fn law_short_regions_degrade(region: Seq<u8>)
    requires
        region.len() <= FA_OPTIONS,
    ensures
        order_in(region).options.len() == 0,
        order_in(region).e_worte.len() == 0,
        order_in(region).ho_worte.len() == 0,
        region.len() <= FA_VERSION ==> order_in(region).version is None,
        order_in(region).raw == region,
{
    assert(stream_of(region) =~= Seq::<u8>::empty());
}

// ---------------------------------------------------------------------------
// What the identity blocks amount to
// ---------------------------------------------------------------------------

/// An address is named by the first slot for it, with the slot's group and title, and keeps its
/// place without one. `k` is the first slot for the address, or the number of slots.
pub proof fn law_an_address_has_the_names_of_its_slot(slots: Seq<EcuSlot>, address: u8, k: int)
    requires
        0 <= k <= slots.len(),
        forall|j: int| 0 <= j < k ==> (#[trigger] slots[j]).address != address,
        k < slots.len() ==> slots[k].address == address,
    ensures
        named(slots, address).address == address,
        k < slots.len() ==> named(slots, address).name == Some(slots[k].group_name@) && named(
            slots,
            address,
        ).title == crate::text::opt_view(slots[k].title),
        k == slots.len() ==> named(slots, address).name is None && named(slots, address).title
            is None,
{
    lemma_slot_for(slots, address, k);
}

proof fn lemma_slot_for(slots: Seq<EcuSlot>, address: u8, k: int)
    requires
        0 <= k <= slots.len(),
        forall|j: int| 0 <= j < k ==> (#[trigger] slots[j]).address != address,
        k < slots.len() ==> slots[k].address == address,
    ensures
        slot_for(slots, address) == (if k < slots.len() {
            Some(slots[k])
        } else {
            None
        }),
    decreases slots.len(),
{
    if k > 0 {
        assert(slots[0].address != address);
        assert forall|j: int| 0 <= j < k - 1 implies (#[trigger] slots.skip(1)[j]).address
            != address by {
            assert(slots.skip(1)[j] == slots[j + 1]);
        }
        lemma_slot_for(slots.skip(1), address, k - 1);
    }
}

/// Four characters of the alphabet packed into three bytes, six bits each.
pub open spec fn packed(word: Seq<char>) -> Seq<u8> {
    let w = word[0] as int - 0x20;
    let x = word[1] as int - 0x20;
    let y = word[2] as int - 0x20;
    let z = word[3] as int - 0x20;
    seq![(w * 4 + x / 16) as u8, (x % 16 * 16 + y / 4) as u8, (y % 4 * 64 + z) as u8]
}

/// Whether a word can be packed.
pub open spec fn packable(word: Seq<char>) -> bool {
    word.len() == 4 && fa_text(word)
}

/// A vehicle order gives back what was written into it, each part from its own place: behind the
/// length stand the version, the build date, the series, the type key, the paint and the
/// upholstery, and the bytes are kept as they are.
pub proof fn law_each_part_of_an_order_stands_in_its_place(
    high: u8,
    low: u8,
    version: u8,
    date: Seq<char>,
    series: Seq<char>,
    key: Seq<char>,
    paint: Seq<char>,
    upholstery: Seq<char>,
    stream: Seq<u8>,
)
    requires
        packable(date),
        packable(series),
        packable(key),
        packable(paint),
        packable(upholstery),
    ensures
        ({
            let region = seq![high, low, version] + packed(date) + packed(series) + packed(key)
                + packed(paint) + packed(upholstery) + stream;
            let order = order_in(region);
            &&& order.version == Some(version as u16)
            &&& order.build_date == Some(date)
            &&& order.baureihe == Some(series)
            &&& order.typ_schluessel == Some(key)
            &&& order.lackcode == Some(paint)
            &&& order.polstercode == Some(upholstery)
            &&& order.raw == region
            &&& standard_text(order) == Some(
                series + seq!['#'] + date + seq!['*'] + key + seq!['%'] + paint + seq!['&']
                    + upholstery + marked('$', order.options) + marked('-', order.e_worte)
                    + marked('+', order.ho_worte),
            )
        }),
{
    law_header_field_round_trips(date);
    law_header_field_round_trips(series);
    law_header_field_round_trips(key);
    law_header_field_round_trips(paint);
    law_header_field_round_trips(upholstery);
    let region = seq![high, low, version] + packed(date) + packed(series) + packed(key) + packed(
        paint,
    ) + packed(upholstery) + stream;
    assert(region[2] == version);
    assert(region[3] == packed(date)[0] && region[4] == packed(date)[1] && region[5] == packed(
        date,
    )[2]);
    assert(region[6] == packed(series)[0] && region[7] == packed(series)[1] && region[8] == packed(
        series,
    )[2]);
    assert(region[9] == packed(key)[0] && region[10] == packed(key)[1] && region[11] == packed(
        key,
    )[2]);
    assert(region[12] == packed(paint)[0] && region[13] == packed(paint)[1] && region[14]
        == packed(paint)[2]);
    assert(region[15] == packed(upholstery)[0] && region[16] == packed(upholstery)[1] && region[17]
        == packed(upholstery)[2]);
}

/// Where the length covers the whole region, the options of an order are the three lists that the
/// bits of the bytes behind the header write.
pub proof fn law_the_options_are_the_lists_behind_the_header(
    header: Seq<u8>,
    stream: Seq<u8>,
    sa: Seq<Seq<char>>,
    ew: Seq<Seq<char>>,
    ho: Seq<Seq<char>>,
    fill: Seq<int>,
)
    requires
        header.len() == 18,
        header[0] * 0x100 + header[1] == 16 + stream.len(),
        writable(sa, 3),
        writable(ew, 4),
        writable(ho, 4),
        forall|i: int| 0 <= i < fill.len() ==> 0 <= #[trigger] fill[i] <= 1,
        bits_of(stream) == stream_bits(sa, ew, ho, fill),
    ensures
        order_in(header + stream).options == sa,
        order_in(header + stream).e_worte == ew,
        order_in(header + stream).ho_worte == ho,
{
    law_option_lists_round_trip(sa, ew, ho, fill);
    let region = header + stream;
    assert(region[0] == header[0] && region[1] == header[1]);
    assert(stream_of(region) =~= stream);
}

/// The bits of bytes are those bytes, most significant bit first: each byte is the number that its
/// eight bits write.
pub proof fn law_the_bits_write_the_bytes(bytes: Seq<u8>, i: int)
    requires
        0 <= i < bytes.len(),
    ensures
        bits_of(bytes).len() == 8 * bytes.len(),
        bits_value(bits_of(bytes).subrange(8 * i, 8 * i + 8)) == bytes[i],
        forall|p: int| 0 <= p < 8 * bytes.len() ==> 0 <= #[trigger] bits_of(bytes)[p] <= 1,
{
    let b = bytes[i];
    let bits = bits_of(bytes).subrange(8 * i, 8 * i + 8);
    assert forall|k: int| 0 <= k < 8 implies #[trigger] bits[k] == bit_of(b, k) by {
        assert((8 * i + k) / 8 == i && (8 * i + k) % 8 == k);
    }
    assert(bits =~= seq![
        bit_of(b, 0),
        bit_of(b, 1),
        bit_of(b, 2),
        bit_of(b, 3),
        bit_of(b, 4),
        bit_of(b, 5),
        bit_of(b, 6),
        bit_of(b, 7),
    ]);
    lemma_eight_bits(bits);
}

proof fn lemma_eight_bits(bits: Seq<int>)
    requires
        bits.len() == 8,
    ensures
        bits_value(bits) == ((((((bits[0] * 2 + bits[1]) * 2 + bits[2]) * 2 + bits[3]) * 2
            + bits[4]) * 2 + bits[5]) * 2 + bits[6]) * 2 + bits[7],
{
    reveal_with_fuel(bits_value, 9);
    let a = bits.drop_last();
    let b = a.drop_last();
    let c = b.drop_last();
    let d = c.drop_last();
    let e = d.drop_last();
    let f = e.drop_last();
    let g = f.drop_last();
    assert(g.drop_last().len() == 0);
}

/// A character of the alphabet is a digit, a capital letter or one of the signs between and
/// behind them; the values below end a list.
pub proof fn law_the_alphabet_is_the_upper_half(value: int)
    requires
        0 <= value < 64,
    ensures
        fa_char(value) is Some <==> value >= 0x10,
        fa_char(value) matches Some(c) ==> '0' <= c <= '_' && c as int == value + 0x20,
{
}

/// A list has no word twice.
pub proof fn law_a_list_has_no_word_twice(
    bits: Seq<int>,
    pos: int,
    chars: nat,
    found: Seq<Seq<char>>,
)
    requires
        found.no_duplicates(),
    ensures
        list_at(bits, pos, chars, found).0.no_duplicates(),
        list_at(bits, pos, chars, found).0.len() >= found.len(),
        list_at(bits, pos, chars, found).0.take(found.len() as int) == found,
    decreases bits.len() - pos,
{
    lemma_word_end(bits, pos, chars, Seq::<char>::empty());
    let word = word_at(bits, pos, chars, Seq::<char>::empty());
    let list = list_at(bits, pos, chars, found).0;
    match bits_at(bits, pos, 6) {
        Some(first) if first >= 0x10 && chars > 0 => {
            if let Some(w) = word.0 {
                if found.contains(w) {
                    law_a_list_has_no_word_twice(bits, word.1, chars, found);
                } else {
                    assert(found.push(w).no_duplicates()) by {
                        assert forall|i: int, j: int|
                            0 <= i < found.push(w).len() && 0 <= j < found.push(w).len() && i
                                != j implies found.push(w)[i] != found.push(w)[j] by {
                            if i == found.len() {
                                assert(found.contains(found[j]));
                            } else if j == found.len() {
                                assert(found.contains(found[i]));
                            }
                        }
                    }
                    law_a_list_has_no_word_twice(bits, word.1, chars, found.push(w));
                    assert(list.take(found.len() as int) =~= found.push(w).take(
                        found.len() as int,
                    ));
                }
            }
        },
        _ => {},
    }
    assert(list.take(found.len() as int) =~= found);
}

/// A marked text is its parts in order, each behind the mark.
pub proof fn law_a_marked_text_holds_every_part(mark: char, parts: Seq<Seq<char>>, part: Seq<char>)
    ensures
        marked(mark, Seq::<Seq<char>>::empty()).len() == 0,
        marked(mark, parts.push(part)) == marked(mark, parts).push(mark) + part,
{
    assert(parts.push(part).drop_last() =~= parts);
    assert(marked(mark, parts) + seq![mark] =~= marked(mark, parts).push(mark));
}

/// An order without one of its five header fields has no canonical text.
pub proof fn law_an_incomplete_order_has_no_text(order: VehicleOrderView)
    ensures
        standard_text(order) is Some <==> order.baureihe is Some && order.build_date is Some
            && order.typ_schluessel is Some && order.lackcode is Some && order.polstercode is Some,
{
}

/// The model of a value says of each field what the field holds.
pub proof fn law_a_model_shows_what_its_value_holds(
    named_ecu: NamedEcu,
    vehicle_order: VehicleOrder,
)
    ensures
        named_ecu@.address == named_ecu.address,
        named_ecu@.name == crate::text::opt_view(named_ecu.name),
        named_ecu@.title == crate::text::opt_view(named_ecu.title),
        vehicle_order@.version == vehicle_order.version,
        vehicle_order@.baureihe == crate::text::opt_view(vehicle_order.baureihe),
        vehicle_order@.typ_schluessel == crate::text::opt_view(vehicle_order.typ_schluessel),
        vehicle_order@.lackcode == crate::text::opt_view(vehicle_order.lackcode),
        vehicle_order@.polstercode == crate::text::opt_view(vehicle_order.polstercode),
        vehicle_order@.build_date == crate::text::opt_view(vehicle_order.build_date),
        vehicle_order@.options == crate::text::text_views(vehicle_order.options@),
        vehicle_order@.e_worte == crate::text::text_views(vehicle_order.e_worte@),
        vehicle_order@.ho_worte == crate::text::text_views(vehicle_order.ho_worte@),
        vehicle_order@.raw == vehicle_order.raw@,
{
}

} // verus!
