//! The semantic catalog: what its rows hold, and what is decided from them.
//!
//! The catalog is a read-only database. Reading it is the application's part; the choices made
//! from the rows (canonical groups, dated series, unambiguous quantities, stored bodies) are here.
use std::io::Read;
use vstd::prelude::*;
use crate::ratio::Ratio;
use crate::semantic::quantity::Quantity;
use crate::text::{
    from_chars, parse_unsigned, position_of, prefer, push_chars, same_chars, same_text, split_chars,
    to_chars, to_upper, trim,
};

verus! {

// ---------------------------------------------------------------------------
// Rows
// ---------------------------------------------------------------------------

/// An error from the catalog.
#[derive(Debug, Clone, PartialEq, Eq)]
pub enum SemanticError {
    /// The database could not be opened (missing file, not a database).
    Open { path: String, message: String },
    /// A query failed, or a stored body could not be decoded.
    Query { message: String },
}

/// A human fault description for a DTC at a specific ECU variant.
#[derive(Debug, Clone, PartialEq, Eq)]
pub struct DtcDescription {
    /// The ECU variant the description belongs to (e.g. `fem_20`).
    pub ecu_variant: String,
    /// The 24-bit DTC code number.
    pub code: u32,
    /// The SAE J2012 code (e.g. `P0306`), when the fault carries one.
    pub saecode: Option<String>,
    /// The English fault text, if present.
    pub title_en: Option<String>,
    /// The German fault text, if present.
    pub title_de: Option<String>,
}

/// One document linked to a fault: its title, kind, and identifiers.
#[derive(Debug, Clone, PartialEq, Eq)]
pub struct FaultDoc {
    /// The document's stable id.
    pub infoobject_id: i64,
    /// The info type (e.g. `FKB` fault description).
    pub infotype: Option<String>,
    /// The document number, if present.
    pub docnumber: Option<String>,
    /// True when the document is flagged safety-relevant.
    pub safety_relevant: bool,
    /// The document title (English preferred, German fallback).
    pub title: Option<String>,
}

/// A diagnostic ECU slot: an address, its canonical group, and a title.
#[derive(Debug, Clone, PartialEq, Eq)]
pub struct EcuSlot {
    /// The diagnostic address (e.g. `0x12` for the engine).
    pub address: u8,
    /// The canonical group name: the `d_00XX` matching the address when present, else the first
    /// group seen.
    pub group_name: String,
    /// The other group names recorded at this address, each once.
    pub extra_groups: Vec<String>,
    /// A representative human title for the address, if the catalog has one.
    pub title: Option<String>,
}

/// A localized label for a freeze-frame environmental condition.
#[derive(Debug, Clone, PartialEq, Eq)]
pub struct EnvCondLabel {
    /// The environmental-condition identifier.
    pub uwnr: u32,
    /// The English label, if present.
    pub title_en: Option<String>,
    /// The German label, if present.
    pub title_de: Option<String>,
    /// The engineering unit, if the catalog records one.
    pub unit: Option<String>,
    /// True for a status field, not a numeric measurement.
    pub is_status: bool,
}

/// One ECU variant candidate for an address.
#[derive(Debug, Clone, PartialEq, Eq)]
pub struct VariantInfo {
    /// The variant name (the `.prg` stem), e.g. `d72n47a0`.
    pub name: String,
    /// The variant's human title, if the catalog has one.
    pub title: Option<String>,
}

/// A quantity resolved to a concrete measurement on one ECU variant.
#[derive(Debug, Clone, PartialEq, Eq)]
pub struct ResolvedQuantity {
    /// The result name to read.
    pub name: String,
    /// Multiply the read value by this to get the quantity's canonical unit.
    pub factor: Ratio,
}

/// One positional argument of one documented job invocation.
#[derive(Debug, Clone, PartialEq, Eq)]
pub struct JobParameterEntry {
    /// The owning fixed function's catalog id.
    pub function_id: i64,
    /// The function's English title, if any.
    pub function_en: Option<String>,
    /// The function's German title, if any.
    pub function_de: Option<String>,
    /// The actuation phase: `Main`, `Preset`, or `Reset`.
    pub phase: Option<String>,
    /// The job's rank within its function and phase.
    pub rank: Option<i64>,
    /// The 1-based argument position.
    pub position: i64,
    /// The argument value.
    pub value: Option<String>,
    /// The human label of what the parameter means, if any.
    pub label: Option<String>,
    /// The job this argument's phase runs.
    pub job: String,
}

/// One fixed function's hold parameters and operator text.
#[derive(Debug, Clone, PartialEq, Eq)]
pub struct FixedFunction {
    /// The fixed function's catalog id.
    pub function_id: i64,
    /// `> 0` means a timed hold, `0` means hold-until-stop.
    pub activation: Option<i64>,
    /// The timed-hold duration in milliseconds, when `activation > 0`.
    pub activation_duration_ms: Option<i64>,
    /// The operator text before actuation, if any.
    pub preparing_text: Option<String>,
    /// The operator text during actuation, if any.
    pub processing_text: Option<String>,
    /// The operator text after actuation, if any.
    pub post_text: Option<String>,
}

/// One runnable service function for an ECU variant, for discovery.
#[derive(Debug, Clone, PartialEq, Eq)]
pub struct ServiceFunctionCatalogEntry {
    /// The fixed-function catalog id: the value a service runner takes.
    pub function_id: i64,
    /// The human title (English preferred, German fallback), if any.
    pub title: Option<String>,
    /// True when the function defines a `Reset` (return-to-safe) phase.
    pub has_reset: bool,
    /// `> 0` timed hold, `0` hold-until-stop, when known.
    pub activation: Option<i64>,
    /// The timed-hold duration in milliseconds, when `activation > 0`.
    pub activation_duration_ms: Option<i64>,
    /// The operator instruction before actuation, if any.
    pub preparing_text: Option<String>,
}

/// One node of a platform's ECU tree (the graph view).
#[derive(Debug, Clone, PartialEq, Eq)]
pub struct EcuTreeEntry {
    /// The diagnostic address (e.g. `0x12`).
    pub address: u8,
    /// The short display name for the box (e.g. `DME`).
    pub name: Option<String>,
    /// The group that identifies the slot (e.g. `G_MOTOR`).
    pub group_sgbd: Option<String>,
    /// The bus name (e.g. `FACAN`).
    pub bus: Option<String>,
    /// The bus display label (e.g. `PT-CAN`).
    pub bus_label: Option<String>,
    /// The grid column.
    pub col: Option<i64>,
    /// The grid row.
    pub row: Option<i64>,
    /// True when the address is part of the platform's minimal configuration.
    pub minimal: bool,
}

// ---------------------------------------------------------------------------
// The ECU map
// ---------------------------------------------------------------------------

/// One row of the ECU table.
#[derive(Debug, Clone, PartialEq, Eq)]
pub struct EcuRow {
    pub address: u8,
    pub group_name: String,
    pub title_en: Option<String>,
    pub title_de: Option<String>,
}

/// What an [`EcuSlot`] holds.
#[verifier::ext_equal]
pub struct EcuSlotView {
    pub address: u8,
    pub group_name: Seq<char>,
    pub extra_groups: Seq<Seq<char>>,
    pub title: Option<Seq<char>>,
}

impl View for EcuSlot {
    type V = EcuSlotView;

    open spec fn view(&self) -> EcuSlotView {
        EcuSlotView {
            address: self.address,
            group_name: self.group_name@,
            extra_groups: crate::text::text_views(self.extra_groups@),
            title: crate::text::opt_view(self.title),
        }
    }
}

/// The views of slots.
pub open spec fn slots_view(v: Seq<EcuSlot>) -> Seq<EcuSlotView> {
    Seq::new(v.len(), |i: int| v[i]@)
}

/// The addresses of `rows`, each once, in order of first appearance.
pub open spec fn addresses_in(rows: Seq<EcuRow>) -> Seq<u8>
    decreases rows.len(),
{
    if rows.len() == 0 {
        Seq::<u8>::empty()
    } else {
        let before = addresses_in(rows.drop_last());
        if before.contains(rows.last().address) {
            before
        } else {
            before.push(rows.last().address)
        }
    }
}

/// The group names that `rows` record at `address`, each once, in order of first appearance.
pub open spec fn groups_at(rows: Seq<EcuRow>, address: u8) -> Seq<Seq<char>>
    decreases rows.len(),
{
    if rows.len() == 0 {
        Seq::<Seq<char>>::empty()
    } else {
        let before = groups_at(rows.drop_last(), address);
        if rows.last().address == address && !before.contains(rows.last().group_name@) {
            before.push(rows.last().group_name@)
        } else {
            before
        }
    }
}

/// The first title that `rows` have at `address`, English before German within a row.
pub open spec fn title_at(rows: Seq<EcuRow>, address: u8) -> Option<Seq<char>>
    decreases rows.len(),
{
    if rows.len() == 0 {
        None
    } else {
        let row = rows.last();
        let before = title_at(rows.drop_last(), address);
        if row.address == address {
            crate::text::first_of(
                before,
                crate::text::first_of(
                    crate::text::opt_view(row.title_en),
                    crate::text::opt_view(row.title_de),
                ),
            )
        } else {
            before
        }
    }
}

/// The lower-case hexadecimal digit of `d`.
pub open spec fn lower_hex_char(d: int) -> char {
    if d < 10 {
        (48 + d) as char
    } else {
        (87 + d) as char
    }
}

/// The canonical group name of an address: `d_` and its four lower-case hexadecimal digits.
pub open spec fn canonical_group(address: u8) -> Seq<char> {
    seq![
        'd',
        '_',
        '0',
        '0',
        lower_hex_char(address as int / 16),
        lower_hex_char(address as int % 16),
    ]
}

/// The slot of an address whose groups are `groups`: the canonical group if it is among them,
/// else the first. A group that gives way to the canonical one moves to the end of the others.
pub open spec fn slot_of(address: u8, groups: Seq<Seq<char>>, title: Option<Seq<char>>) -> EcuSlotView {
    let first = groups[0];
    let others = groups.skip(1);
    let canonical = canonical_group(address);
    match crate::text::position(others, canonical) {
        Some(p) => if first != canonical {
            EcuSlotView {
                address,
                group_name: canonical,
                extra_groups: others.remove(p).push(first),
                title,
            }
        } else {
            EcuSlotView { address, group_name: first, extra_groups: others, title }
        },
        None => EcuSlotView { address, group_name: first, extra_groups: others, title },
    }
}

/// The ECU map of `rows`: one slot per address, in order of first appearance.
pub open spec fn slots_in(rows: Seq<EcuRow>) -> Seq<EcuSlotView> {
    Seq::new(
        addresses_in(rows).len(),
        |i: int|
            slot_of(
                addresses_in(rows)[i],
                groups_at(rows, addresses_in(rows)[i]),
                title_at(rows, addresses_in(rows)[i]),
            ),
    )
}

/// Every address has one slot, in the order in which `rows` first name them.
pub proof fn law_one_slot_per_address(rows: Seq<EcuRow>)
    ensures
        forall|i: int, j: int|
            0 <= i < j < slots_in(rows).len() ==> (#[trigger] slots_in(rows)[i]).address != (
            #[trigger] slots_in(rows)[j]).address,
        forall|k: int|
            0 <= k < rows.len() ==> addresses_in(rows).contains(#[trigger] rows[k].address),
        forall|i: int|
            0 <= i < slots_in(rows).len() ==> groups_at(rows, #[trigger] slots_in(rows)[i].address).len()
                > 0,
{
    lemma_addresses(rows);
}

proof fn lemma_addresses(rows: Seq<EcuRow>)
    ensures
        forall|i: int, j: int|
            0 <= i < j < addresses_in(rows).len() ==> (#[trigger] addresses_in(rows)[i]) != (
            #[trigger] addresses_in(rows)[j]),
        forall|k: int|
            0 <= k < rows.len() ==> addresses_in(rows).contains(#[trigger] rows[k].address),
        forall|i: int|
            0 <= i < addresses_in(rows).len() ==> groups_at(
                rows,
                #[trigger] addresses_in(rows)[i],
            ).len() > 0,
    decreases rows.len(),
{
    if rows.len() > 0 {
        let short = rows.drop_last();
        lemma_addresses(short);
        let before = addresses_in(short);
        let after = addresses_in(rows);
        let last = rows.last().address;
        assert(after.contains(last)) by {
            if !before.contains(last) {
                assert(after[after.len() - 1] == last);
            }
        }
        assert forall|k: int| 0 <= k < rows.len() implies after.contains(
            #[trigger] rows[k].address,
        ) by {
            if k < rows.len() - 1 {
                assert(short[k] == rows[k]);
                assert(before.contains(short[k].address));
                let at = choose|at: int|
                    0 <= at < before.len() && before[at] == short[k].address;
                assert(after[at] == rows[k].address);
            }
        }
        assert forall|i: int| 0 <= i < after.len() implies groups_at(
            rows,
            #[trigger] after[i],
        ).len() > 0 by {
            if i < before.len() {
                assert(before[i] == after[i]);
                assert(groups_at(short, before[i]).len() > 0);
            } else if groups_at(short, last).contains(rows.last().group_name@) {
                assert(groups_at(short, last).len() > 0);
            }
        }
        assert forall|i: int, j: int| 0 <= i < j < after.len() implies (#[trigger] after[i]) != (
        #[trigger] after[j]) by {
            if j < before.len() {
                assert(before[i] == after[i] && before[j] == after[j]);
            } else {
                assert(before[i] == after[i]);
                assert(before.contains(before[i]));
            }
        }
    }
}

proof fn lemma_slot_of(address: u8, groups: Seq<Seq<char>>, title: Option<Seq<char>>)
    requires
        groups.len() > 0,
    ensures
        ({
            let slot = slot_of(address, groups, title);
            &&& slot.extra_groups.push(slot.group_name).to_multiset() == groups.to_multiset()
            &&& groups.contains(canonical_group(address)) ==> slot.group_name == canonical_group(
                address,
            )
            &&& !groups.contains(canonical_group(address)) ==> slot.group_name == groups[0]
        }),
{
    broadcast use vstd::seq_lib::group_to_multiset_ensures;

    let first = groups[0];
    let others = groups.skip(1);
    let canonical = canonical_group(address);
    crate::text::lemma_position(others, canonical);
    assert(groups =~= seq![first] + others);
    vstd::seq_lib::lemma_multiset_commutative(seq![first], others);
    assert(others.push(first) =~= others + seq![first]);
    vstd::seq_lib::lemma_multiset_commutative(others, seq![first]);
    if groups.contains(canonical) {
        let at = choose|at: int| 0 <= at < groups.len() && groups[at] == canonical;
        if at > 0 {
            assert(others[at - 1] == canonical);
        }
    } else {
        assert forall|j: int| 0 <= j < others.len() implies others[j] != canonical by {
            assert(groups[j + 1] == others[j]);
        }
    }
    match crate::text::position(others, canonical) {
        Some(p) => {
            assert(groups[p + 1] == canonical);
            if first != canonical {
                let rest = others.remove(p);
                assert(rest.push(first).push(canonical).to_multiset()
                    =~= others.push(first).to_multiset());
            }
        },
        None => {},
    }
}

proof fn lemma_groups(rows: Seq<EcuRow>, address: u8)
    ensures
        groups_at(rows, address).no_duplicates(),
        forall|name: Seq<char>| #[trigger]
            groups_at(rows, address).contains(name) <==> is_recorded(rows, address, name),
    decreases rows.len(),
{
    if rows.len() > 0 {
        let short = rows.drop_last();
        let row = rows.last();
        lemma_groups(short, address);
        let before = groups_at(short, address);
        let after = groups_at(rows, address);
        assert forall|name: Seq<char>| #[trigger] after.contains(name) <==> is_recorded(
            rows,
            address,
            name,
        ) by {
            if after.contains(name) {
                let at = choose|at: int| 0 <= at < after.len() && after[at] == name;
                if at < before.len() {
                    assert(before[at] == name);
                    assert(before.contains(name));
                    let k = choose|k: int|
                        0 <= k < short.len() && (#[trigger] short[k]).address == address
                            && short[k].group_name@ == name;
                    assert(rows[k] == short[k]);
                } else {
                    assert(rows[rows.len() - 1].group_name@ == name);
                }
            }
            if is_recorded(rows, address, name) {
                let k = choose|k: int|
                    0 <= k < rows.len() && (#[trigger] rows[k]).address == address
                        && rows[k].group_name@ == name;
                if k < short.len() {
                    assert(short[k] == rows[k]);
                    assert(is_recorded(short, address, name));
                    assert(before.contains(name));
                }
                if before.contains(name) {
                    let at = choose|at: int| 0 <= at < before.len() && before[at] == name;
                    assert(after[at] == name);
                } else {
                    assert(after[after.len() - 1] == name);
                }
            }
        }
        assert forall|i: int, j: int| 0 <= i < after.len() && 0 <= j < after.len() && i
            != j implies after[i] != after[j] by {
            if i < before.len() && j < before.len() {
                assert(before[i] != before[j]);
            } else if i < before.len() {
                assert(before.contains(before[i]));
            } else {
                assert(before.contains(before[j]));
            }
        }
    }
}

/// Whether some row records the group `name` at `address`.
pub open spec fn is_recorded(rows: Seq<EcuRow>, address: u8, name: Seq<char>) -> bool {
    exists|k: int|
        0 <= k < rows.len() && (#[trigger] rows[k]).address == address && rows[k].group_name@
            == name
}

/// A slot holds exactly the group names recorded at its address, each once: its own group and the
/// others. It leads with the canonical one whenever that is among them.
pub proof fn law_a_slot_keeps_every_group(rows: Seq<EcuRow>, i: int)
    requires
        0 <= i < slots_in(rows).len(),
    ensures
        ({
            let slot = slots_in(rows)[i];
            &&& slot.extra_groups.no_duplicates()
            &&& !slot.extra_groups.contains(slot.group_name)
            &&& forall|name: Seq<char>|
                slot.group_name == name || #[trigger] slot.extra_groups.contains(name)
                    <==> is_recorded(rows, slot.address, name)
            &&& is_recorded(rows, slot.address, canonical_group(slot.address)) ==> slot.group_name
                == canonical_group(slot.address)
            &&& !is_recorded(rows, slot.address, canonical_group(slot.address))
                ==> slot.group_name == groups_at(rows, slot.address)[0]
        }),
{
    broadcast use vstd::seq_lib::group_to_multiset_ensures;

    let slot = slots_in(rows)[i];
    let groups = groups_at(rows, slot.address);
    lemma_addresses(rows);
    assert(addresses_in(rows)[i] == slot.address);
    lemma_groups(rows, slot.address);
    lemma_slot_of(slot.address, groups, title_at(rows, slot.address));
    let held = slot.extra_groups.push(slot.group_name);
    groups.lemma_multiset_has_no_duplicates();
    held.lemma_multiset_has_no_duplicates_conv();
    assert(held[held.len() - 1] == slot.group_name);
    assert forall|a: int, b: int| 0 <= a < slot.extra_groups.len() && 0 <= b
        < slot.extra_groups.len() && a != b implies slot.extra_groups[a]
        != slot.extra_groups[b] by {
        assert(held[a] != held[b]);
    }
    if slot.extra_groups.contains(slot.group_name) {
        let a = choose|a: int|
            0 <= a < slot.extra_groups.len() && slot.extra_groups[a] == slot.group_name;
        assert(held[a] == held[held.len() - 1]);
    }
    assert forall|name: Seq<char>|
        slot.group_name == name || #[trigger] slot.extra_groups.contains(name) <==> is_recorded(
            rows,
            slot.address,
            name,
        ) by {
        assert(held.contains(name) <==> held.to_multiset().count(name) > 0);
        assert(groups.contains(name) <==> groups.to_multiset().count(name) > 0);
        if slot.extra_groups.contains(name) {
            let a = choose|a: int| 0 <= a < slot.extra_groups.len() && slot.extra_groups[a] == name;
            assert(held[a] == name);
        }
        if held.contains(name) && slot.group_name != name {
            let a = choose|a: int| 0 <= a < held.len() && held[a] == name;
            assert(slot.extra_groups[a] == name);
        }
    }
}

/// The canonical group name of an address.
fn canonical_name(address: u8) -> (r: String)
    ensures
        r@ == canonical_group(address),
{
    let hi: u8 = address / 16;
    let lo: u8 = address % 16;
    let chars: Vec<char> = vec!['d', '_', '0', '0', lower_hex_digit(hi), lower_hex_digit(lo)];
    assert(chars@ =~= canonical_group(address));
    from_chars(chars.as_slice())
}

/// The lower-case hexadecimal digit of `d`.
fn lower_hex_digit(d: u8) -> (r: char)
    requires
        d < 16,
    ensures
        r == lower_hex_char(d as int),
{
    if d < 10 {
        (48 + d) as char
    } else {
        (87 + d) as char
    }
}

/// The addresses of `rows`, each once.
fn distinct_addresses(rows: &[EcuRow]) -> (r: Vec<u8>)
    ensures
        r@ == addresses_in(rows@),
{
    let mut out: Vec<u8> = Vec::new();
    let mut i: usize = 0;
    while i < rows.len()
        invariant
            i <= rows.len(),
            out@ == addresses_in(rows@.take(i as int)),
        decreases rows.len() - i,
    {
        let address: u8 = rows[i].address;
        assert(rows@.take(i + 1).drop_last() =~= rows@.take(i as int));
        if !crate::bytes::contains_byte(out.as_slice(), address) {
            out.push(address);
        }
        i = i + 1;
    }
    assert(rows@.take(i as int) =~= rows@);
    out
}

/// The groups and the title of one address.
fn slot_parts(rows: &[EcuRow], address: u8) -> (r: (Vec<String>, Option<String>))
    ensures
        crate::text::text_views(r.0@) == groups_at(rows@, address),
        crate::text::opt_view(r.1) == title_at(rows@, address),
{
    let mut groups: Vec<String> = Vec::new();
    let mut title: Option<String> = None;
    let mut i: usize = 0;
    assert(crate::text::text_views(groups@) =~= Seq::<Seq<char>>::empty());
    while i < rows.len()
        invariant
            i <= rows.len(),
            crate::text::text_views(groups@) == groups_at(rows@.take(i as int), address),
            crate::text::opt_view(title) == title_at(rows@.take(i as int), address),
        decreases rows.len() - i,
    {
        assert(rows@.take(i + 1).drop_last() =~= rows@.take(i as int));
        if rows[i].address == address {
            let ghost before = crate::text::text_views(groups@);
            let ghost name = rows@[i as int].group_name@;
            proof {
                crate::text::lemma_position(before, name);
            }
            if position_of(groups.as_slice(), rows[i].group_name.as_str()).is_none() {
                groups.push(rows[i].group_name.clone());
                assert(crate::text::text_views(groups@) =~= before.push(name));
            }
            if title.is_none() {
                title = prefer(&rows[i].title_en, &rows[i].title_de);
            }
        }
        i = i + 1;
    }
    assert(rows@.take(i as int) =~= rows@);
    (groups, title)
}

/// The slot of one address.
fn slot_for_groups(address: u8, groups: Vec<String>, title: Option<String>) -> (r: EcuSlot)
    requires
        groups@.len() > 0,
    ensures
        r@ == slot_of(address, crate::text::text_views(groups@), crate::text::opt_view(title)),
{
    let mut extra_groups = groups;
    let first = extra_groups.remove(0);
    let ghost others = crate::text::text_views(groups@).skip(1);
    assert(crate::text::text_views(extra_groups@) =~= others);
    let canonical = canonical_name(address);
    if !same_text(first.as_str(), canonical.as_str()) {
        if let Some(p) = position_of(extra_groups.as_slice(), canonical.as_str()) {
            let promoted = extra_groups.remove(p);
            proof {
                crate::text::lemma_position(others, canonical@);
            }
            assert(promoted@ == canonical@);
            extra_groups.push(first);
            assert(crate::text::text_views(extra_groups@) =~= others.remove(p as int).push(first@));
            return EcuSlot { address, group_name: promoted, extra_groups, title };
        }
    }
    EcuSlot { address, group_name: first, extra_groups, title }
}

/// The general ECU map: one [`EcuSlot`] per diagnostic address, from the rows of the ECU table.
pub fn ecus(rows: &[EcuRow]) -> (r: Vec<EcuSlot>)
    ensures
        slots_view(r@) == slots_in(rows@),
{
    let addresses = distinct_addresses(rows);
    proof {
        lemma_addresses(rows@);
    }
    let mut out: Vec<EcuSlot> = Vec::new();
    let mut i: usize = 0;
    while i < addresses.len()
        invariant
            i <= addresses.len(),
            addresses@ == addresses_in(rows@),
            slots_view(out@) == slots_in(rows@).take(i as int),
            forall|k: int|
                0 <= k < addresses@.len() ==> groups_at(rows@, #[trigger] addresses@[k]).len() > 0,
        decreases addresses.len() - i,
    {
        let address: u8 = addresses[i];
        let (groups, title) = slot_parts(rows, address);
        let ghost before = slots_view(out@);
        let slot = slot_for_groups(address, groups, title);
        out.push(slot);
        assert(slots_view(out@) =~= before.push(slot@));
        assert(slots_in(rows@).take(i + 1) =~= slots_in(rows@).take(i as int).push(
            slots_in(rows@)[i as int],
        ));
        i = i + 1;
    }
    assert(slots_in(rows@).take(i as int) =~= slots_in(rows@));
    out
}

// ---------------------------------------------------------------------------
// The series of a vehicle
// ---------------------------------------------------------------------------

/// What an integration level says of a vehicle: its series, and its build date as `YYMM`.
pub open spec fn level_parts(istufe: Seq<char>) -> Option<(Seq<char>, int)> {
    let parts = crate::text::split(istufe, '-');
    if parts.len() < 3 {
        None
    } else {
        match (
            crate::text::unsigned_value(crate::text::trimmed(parts[1]), 10, u32::MAX as int),
            crate::text::unsigned_value(crate::text::trimmed(parts[2]), 10, u32::MAX as int),
        ) {
            (Some(yy), Some(mm)) => Some(
                (crate::text::upper(crate::text::trimmed(parts[0])), yy * 100 + mm),
            ),
            _ => None,
        }
    }
}

/// A series without the zero that pads its model code (`F025` is `F25`).
pub open spec fn zero_dropped(series: Seq<char>) -> Seq<char> {
    if series.len() > 2 && (series[0] as u32) < 0x80 && series[1] == '0' {
        seq![series[0]] + series.skip(2)
    } else {
        series
    }
}

/// Whether `candidate` is the plain series `base`.
pub open spec fn is_plain(candidate: Seq<char>, base: Seq<char>) -> bool {
    crate::text::upper(candidate) == base
}

/// The date of `candidate` if it is a dated variant `<base>_<YYMM>` that applies at `build`.
pub open spec fn applicable_date(candidate: Seq<char>, base: Seq<char>, build: int) -> Option<int> {
    let u = crate::text::upper(candidate);
    if u.len() > base.len() && u.take(base.len() as int) == base && u[base.len() as int] == '_' {
        match crate::text::unsigned_value(u.skip(base.len() as int + 1), 10, u32::MAX as int) {
            Some(date) => if date <= build {
                Some(date)
            } else {
                None
            },
            None => None,
        }
    } else {
        None
    }
}

/// The position of the last candidate that is the plain series.
pub open spec fn plain_in(known: Seq<Seq<char>>, base: Seq<char>) -> Option<int>
    decreases known.len(),
{
    if known.len() == 0 {
        None
    } else if is_plain(known.last(), base) {
        Some(known.len() - 1)
    } else {
        plain_in(known.drop_last(), base)
    }
}

/// The position of the applicable dated variant with the latest date; the first of equals.
pub open spec fn dated_in(known: Seq<Seq<char>>, base: Seq<char>, build: int) -> Option<int>
    decreases known.len(),
{
    if known.len() == 0 {
        None
    } else {
        let before = dated_in(known.drop_last(), base, build);
        match (before, applicable_date(known.last(), base, build)) {
            (Some(i), Some(date)) => match applicable_date(known[i], base, build) {
                Some(best) => if date > best {
                    Some(known.len() - 1)
                } else {
                    before
                },
                None => before,
            },
            (None, Some(_)) => Some(known.len() - 1),
            _ => before,
        }
    }
}

/// The candidate for one form of the series: a dated variant before the plain series.
pub open spec fn candidate_in(known: Seq<Seq<char>>, base: Seq<char>, build: int) -> Option<int> {
    match dated_in(known, base, build) {
        Some(i) => Some(i),
        None => plain_in(known, base),
    }
}

/// The position of the series in `known` that a level resolves to.
pub open spec fn series_in(istufe: Seq<char>, known: Seq<Seq<char>>) -> Option<int> {
    match level_parts(istufe) {
        Some((series, build)) => match candidate_in(known, series, build) {
            Some(i) => Some(i),
            None => candidate_in(known, zero_dropped(series), build),
        },
        None => None,
    }
}

/// Among the dated variants that apply at the build date, the one with the latest date is taken,
/// and it is found whenever there is one.
pub proof fn law_the_latest_applicable_variant_is_taken(
    known: Seq<Seq<char>>,
    base: Seq<char>,
    build: int,
)
    ensures
        match dated_in(known, base, build) {
            Some(i) => 0 <= i < known.len() && applicable_date(known[i], base, build) is Some
                && forall|j: int|
                #![trigger known[j]]
                0 <= j < known.len() && applicable_date(known[j], base, build) is Some
                    ==> applicable_date(known[j], base, build)->0 <= applicable_date(
                    known[i],
                    base,
                    build,
                )->0,
            None => forall|j: int|
                0 <= j < known.len() ==> applicable_date(#[trigger] known[j], base, build) is None,
        },
    decreases known.len(),
{
    if known.len() > 0 {
        let short = known.drop_last();
        law_the_latest_applicable_variant_is_taken(short, base, build);
        assert forall|j: int| 0 <= j < short.len() implies #[trigger] known[j] == short[j] by {}
        match dated_in(short, base, build) {
            Some(i) => {
                assert(known[i] == short[i]);
            },
            None => {},
        }
    }
}

/// A resolved series is one of the known ones: a dated or plain form of the level's own series,
/// and never a variant dated after the build.
pub proof fn law_a_resolved_series_is_known(istufe: Seq<char>, known: Seq<Seq<char>>)
    ensures
        series_in(istufe, known) matches Some(i) ==> {
            &&& 0 <= i < known.len()
            &&& level_parts(istufe) matches Some((series, build)) && {
                ||| is_plain(known[i], series)
                ||| is_plain(known[i], zero_dropped(series))
                ||| applicable_date(known[i], series, build) is Some
                ||| applicable_date(known[i], zero_dropped(series), build) is Some
            }
        },
{
    if let Some((series, build)) = level_parts(istufe) {
        law_the_latest_applicable_variant_is_taken(known, series, build);
        law_the_latest_applicable_variant_is_taken(known, zero_dropped(series), build);
        lemma_plain_in(known, series);
        lemma_plain_in(known, zero_dropped(series));
    }
}

/// Whether `candidate` stands for the series `base` at `build`: plain, or dated and applicable.
pub open spec fn is_form(candidate: Seq<char>, base: Seq<char>, build: int) -> bool {
    is_plain(candidate, base) || applicable_date(candidate, base, build) is Some
}

/// Whether some known series stands for `base` at `build`.
pub open spec fn has_form(known: Seq<Seq<char>>, base: Seq<char>, build: int) -> bool {
    exists|j: int| 0 <= j < known.len() && is_form(#[trigger] known[j], base, build)
}

/// Whether position `i` is a best form of `base`: where a dated variant applies, it is one, and
/// none that applies is later.
pub open spec fn is_best_form(known: Seq<Seq<char>>, i: int, base: Seq<char>, build: int) -> bool {
    &&& 0 <= i < known.len()
    &&& is_form(known[i], base, build)
    &&& forall|j: int|
        0 <= j < known.len() && applicable_date(#[trigger] known[j], base, build) is Some
            ==> applicable_date(known[i], base, build) is Some && applicable_date(
            known[j],
            base,
            build,
        )->0 <= applicable_date(known[i], base, build)->0
}

proof fn lemma_candidate_in(known: Seq<Seq<char>>, base: Seq<char>, build: int)
    ensures
        match candidate_in(known, base, build) {
            Some(i) => has_form(known, base, build) && is_best_form(known, i, base, build),
            None => !has_form(known, base, build),
        },
{
    law_the_latest_applicable_variant_is_taken(known, base, build);
    lemma_plain_in(known, base);
    match candidate_in(known, base, build) {
        Some(i) => {
            assert(is_form(known[i], base, build));
        },
        None => {},
    }
}

/// The ladder of a level that can be read: the exact series comes before its zero-dropped form, a
/// dated variant before the plain series, and nothing is found only where neither form is known.
pub proof fn law_the_exact_series_comes_first(istufe: Seq<char>, known: Seq<Seq<char>>)
    ensures
        match level_parts(istufe) {
            Some((series, build)) => match series_in(istufe, known) {
                Some(i) => if has_form(known, series, build) {
                    is_best_form(known, i, series, build)
                } else {
                    is_best_form(known, i, zero_dropped(series), build)
                },
                None => !has_form(known, series, build) && !has_form(
                    known,
                    zero_dropped(series),
                    build,
                ),
            },
            None => series_in(istufe, known) is None,
        },
{
    match level_parts(istufe) {
        Some((series, build)) => {
            lemma_candidate_in(known, series, build);
            lemma_candidate_in(known, zero_dropped(series), build);
        },
        None => {},
    }
}

proof fn lemma_plain_in(known: Seq<Seq<char>>, base: Seq<char>)
    ensures
        match plain_in(known, base) {
            Some(i) => 0 <= i < known.len() && is_plain(known[i], base),
            None => forall|j: int| 0 <= j < known.len() ==> !is_plain(#[trigger] known[j], base),
        },
    decreases known.len(),
{
    if known.len() > 0 && !is_plain(known.last(), base) {
        let short = known.drop_last();
        lemma_plain_in(short, base);
        if plain_in(short, base) is None {
            assert forall|j: int| 0 <= j < known.len() implies !is_plain(
                #[trigger] known[j],
                base,
            ) by {
                if j < short.len() {
                    assert(short[j] == known[j]);
                }
            }
        }
    }
}

/// The date of a dated variant of `base` that applies at `build`.
fn date_of(candidate: &[char], base: &[char], build: u64) -> (r: Option<u64>)
    ensures
        match r {
            Some(date) => applicable_date(candidate@, base@, build as int) == Some(date as int),
            None => applicable_date(candidate@, base@, build as int) is None,
        },
{
    let u = to_upper(candidate);
    if u.len() <= base.len() {
        return None;
    }
    let front = vstd::slice::slice_subrange(u.as_slice(), 0, base.len());
    assert(front@ =~= u@.take(base@.len() as int));
    if !same_chars(front, base) || u[base.len()] != '_' {
        return None;
    }
    let suffix = vstd::slice::slice_subrange(u.as_slice(), base.len() + 1, u.len());
    assert(suffix@ =~= u@.skip(base@.len() as int + 1));
    match parse_unsigned(suffix, 10, u32::MAX as u64) {
        Some(date) => if date <= build {
            Some(date)
        } else {
            None
        },
        None => None,
    }
}

/// The candidate for one form of the series.
fn find_candidate(known: &[String], base: &[char], build: u64) -> (r: Option<usize>)
    ensures
        match r {
            Some(i) => i < known@.len() && candidate_in(
                crate::text::text_views(known@),
                base@,
                build as int,
            ) == Some(i as int),
            None => candidate_in(crate::text::text_views(known@), base@, build as int) is None,
        },
{
    let ghost views = crate::text::text_views(known@);
    let mut plain: Option<usize> = None;
    let mut best: Option<(u64, usize)> = None;
    let mut i: usize = 0;
    while i < known.len()
        invariant
            i <= known.len(),
            views == crate::text::text_views(known@),
            match plain {
                Some(p) => p < i && plain_in(views.take(i as int), base@) == Some(p as int),
                None => plain_in(views.take(i as int), base@) is None,
            },
            match best {
                Some((date, p)) => p < i && dated_in(views.take(i as int), base@, build as int)
                    == Some(p as int) && applicable_date(views[p as int], base@, build as int)
                    == Some(date as int),
                None => dated_in(views.take(i as int), base@, build as int) is None,
            },
        decreases known.len() - i,
    {
        let candidate = to_chars(known[i].as_str());
        assert(candidate@ == views[i as int]);
        let ghost upto = views.take(i + 1);
        assert(upto.drop_last() =~= views.take(i as int));
        assert(upto.last() == views[i as int]);
        let u = to_upper(candidate.as_slice());
        if same_chars(u.as_slice(), base) {
            plain = Some(i);
        }
        let dated = date_of(candidate.as_slice(), base, build);
        if let Some(date) = dated {
            match best {
                Some((d, p)) => {
                    assert(upto[p as int] == views[p as int]);
                    if date > d {
                        best = Some((date, i));
                    }
                },
                None => {
                    best = Some((date, i));
                },
            }
        }
        i = i + 1;
    }
    assert(views.take(i as int) =~= views);
    match best {
        Some((_, p)) => Some(p),
        None => plain,
    }
}

/// Resolve the bordnet series for a vehicle from an integration-level text.
///
/// `istufe` is `SERIES-YY-MM-PPP` (e.g. `F025-17-03-505`), ideally the factory level, since dated
/// platform splits key on the construction date. The match ladder: the exact series (ignoring
/// ASCII case), else the zero-dropped form; among dated variants `<base>_<YYMM>` the latest whose
/// date is at or before the level's `YY-MM` wins over the plain base.
pub fn bordnet_series_for(istufe: &str, known: &[String]) -> (r: Option<String>)
    ensures
        crate::text::opt_view(r) == (match series_in(istufe@, crate::text::text_views(known@)) {
            Some(i) => Some(known@[i]@),
            None => None,
        }),
{
    let chars = to_chars(istufe);
    let parts = split_chars(chars.as_slice(), '-');
    if parts.len() < 3 {
        return None;
    }
    let ghost views = crate::text::chars_views(parts@);
    assert(views[0] == parts@[0]@ && views[1] == parts@[1]@ && views[2] == parts@[2]@);
    let series = to_upper(trim(parts[0].as_slice()));
    let yy: u64 = match parse_unsigned(trim(parts[1].as_slice()), 10, u32::MAX as u64) {
        Some(n) => n,
        None => {
            return None;
        },
    };
    let mm: u64 = match parse_unsigned(trim(parts[2].as_slice()), 10, u32::MAX as u64) {
        Some(n) => n,
        None => {
            return None;
        },
    };
    let build: u64 = yy * 100 + mm;
    if let Some(i) = find_candidate(known, series.as_slice(), build) {
        return Some(known[i].clone());
    }
    let mut dropped: Vec<char> = Vec::new();
    if series.len() > 2 && (series[0] as u32) < 0x80 && series[1] == '0' {
        dropped.push(series[0]);
        push_chars(&mut dropped, vstd::slice::slice_subrange(series.as_slice(), 2, series.len()));
        assert(dropped@ =~= zero_dropped(series@));
    } else {
        push_chars(&mut dropped, series.as_slice());
        assert(dropped@ =~= zero_dropped(series@));
    }
    match find_candidate(known, dropped.as_slice(), build) {
        Some(i) => Some(known[i].clone()),
        None => None,
    }
}

// ---------------------------------------------------------------------------
// Quantities
// ---------------------------------------------------------------------------

/// One measurement row offered for a quantity.
#[derive(Debug, Clone, PartialEq, Eq)]
pub struct QuantityRow {
    /// The result name.
    pub name: String,
    /// The unit that the catalog records.
    pub unit: Option<String>,
    /// Whether the row's title is the quantity's.
    pub title_matches: bool,
}

/// The rows that carry the quantity in a unit that can be normalised: name and factor.
pub open spec fn matching(rows: Seq<QuantityRow>, q: Quantity) -> Seq<(Seq<char>, Ratio)>
    decreases rows.len(),
{
    if rows.len() == 0 {
        Seq::<(Seq<char>, Ratio)>::empty()
    } else {
        let before = matching(rows.drop_last(), q);
        let row = rows.last();
        match crate::semantic::quantity::unit_factor_of(q, crate::text::opt_view(row.unit)) {
            Some(factor) => if row.title_matches {
                before.push((row.name@, factor))
            } else {
                before
            },
            None => before,
        }
    }
}

/// The one measurement that `rows` give the quantity: the first match, unless another match names
/// a different measurement.
pub open spec fn resolved(rows: Seq<QuantityRow>, q: Quantity) -> Option<(Seq<char>, Ratio)> {
    let hits = matching(rows, q);
    if hits.len() == 0 || exists|k: int|
        0 <= k < hits.len() && (#[trigger] hits[k]).0 != hits[0].0 {
        None
    } else {
        Some(hits[0])
    }
}

/// Resolve `quantity` among the measurements of one ECU variant.
///
/// `None`, never a guess, when no title matches, when the match's unit is absent or unrecognised,
/// or when two *different* measurements match. The same measurement listed twice is not
/// ambiguous.
pub fn resolve_quantity(rows: &[QuantityRow], quantity: Quantity) -> (r: Option<ResolvedQuantity>)
    ensures
        match r {
            Some(found) => resolved(rows@, quantity) == Some((found.name@, found.factor)),
            None => resolved(rows@, quantity) is None,
        },
{
    let mut found: Option<ResolvedQuantity> = None;
    let mut i: usize = 0;
    let ghost all = matching(rows@, quantity);
    while i < rows.len()
        invariant
            i <= rows.len(),
            all == matching(rows@, quantity),
            match found {
                Some(f) => {
                    let hits = matching(rows@.take(i as int), quantity);
                    &&& hits.len() > 0
                    &&& hits[0] == (f.name@, f.factor)
                    &&& forall|k: int| 0 <= k < hits.len() ==> (#[trigger] hits[k]).0 == f.name@
                },
                None => matching(rows@.take(i as int), quantity).len() == 0,
            },
        decreases rows.len() - i,
    {
        assert(rows@.take(i + 1).drop_last() =~= rows@.take(i as int));
        let ghost hits = matching(rows@.take(i as int), quantity);
        let factor = match &rows[i].unit {
            Some(u) => quantity.unit_factor(Some(u.as_str())),
            None => quantity.unit_factor(None),
        };
        if let Some(factor) = factor {
            if rows[i].title_matches {
                let mut first = false;
                match &found {
                    Some(f) => {
                        if !same_text(f.name.as_str(), rows[i].name.as_str()) {
                            proof {
                                let more = matching(rows@.take(i + 1), quantity);
                                lemma_matching_grows(rows@, quantity, i + 1);
                                assert(more[hits.len() as int].0 == rows@[i as int].name@);
                                assert(more[0] == hits[0]);
                                assert(all[hits.len() as int].0 != all[0].0);
                            }
                            return None;
                        }
                    },
                    None => {
                        first = true;
                    },
                }
                if first {
                    found = Some(ResolvedQuantity { name: rows[i].name.clone(), factor });
                }
            }
        }
        i = i + 1;
    }
    assert(rows@.take(i as int) =~= rows@);
    found
}

/// Whether a row carries the quantity in a unit that can be normalised.
pub open spec fn offers(row: QuantityRow, q: Quantity) -> bool {
    row.title_matches && crate::semantic::quantity::unit_factor_of(
        q,
        crate::text::opt_view(row.unit),
    ) is Some
}

/// A quantity is never guessed: once it resolves to a measurement, every row that carries it in a
/// unit that can be normalised names that same measurement; and where such rows agree on one
/// measurement, it resolves.
pub proof fn law_an_ambiguous_quantity_is_refused(rows: Seq<QuantityRow>, q: Quantity)
    ensures
        resolved(rows, q) matches Some(found) ==> forall|i: int|
            0 <= i < rows.len() && offers(#[trigger] rows[i], q) ==> rows[i].name@ == found.0,
        resolved(rows, q) is None ==> (forall|i: int|
            0 <= i < rows.len() ==> !offers(#[trigger] rows[i], q)) || exists|i: int, j: int|
            0 <= i < rows.len() && 0 <= j < rows.len() && offers(#[trigger] rows[i], q) && offers(
                #[trigger] rows[j],
                q,
            ) && rows[i].name@ != rows[j].name@,
{
    lemma_matching_rows(rows, q);
    let hits = matching(rows, q);
    if resolved(rows, q) is Some {
        assert forall|i: int| 0 <= i < rows.len() && offers(#[trigger] rows[i], q) implies rows[i].name@
            == hits[0].0 by {
            let k = choose|k: int| 0 <= k < hits.len() && (#[trigger] hits[k]).0 == rows[i].name@;
            assert(hits[k].0 == hits[0].0);
        }
    } else if hits.len() == 0 {
        assert forall|i: int| 0 <= i < rows.len() implies !offers(#[trigger] rows[i], q) by {
            if offers(rows[i], q) {
                let k = choose|k: int| 0 <= k < hits.len() && (#[trigger] hits[k]).0 == rows[i].name@;
                assert(false);
            }
        }
    } else {
        let k = choose|k: int| 0 <= k < hits.len() && (#[trigger] hits[k]).0 != hits[0].0;
        assert(is_offered(rows, q, hits[0].0) && is_offered(rows, q, hits[k].0));
        let i = choose|i: int|
            0 <= i < rows.len() && offers(#[trigger] rows[i], q) && rows[i].name@ == hits[0].0;
        let j = choose|j: int|
            0 <= j < rows.len() && offers(#[trigger] rows[j], q) && rows[j].name@ == hits[k].0;
        assert(offers(rows[i], q) && offers(rows[j], q) && rows[i].name@ != rows[j].name@);
    }
}

/// Whether a row that carries the quantity names the measurement `name`.
pub open spec fn is_offered(rows: Seq<QuantityRow>, q: Quantity, name: Seq<char>) -> bool {
    exists|i: int| 0 <= i < rows.len() && offers(#[trigger] rows[i], q) && rows[i].name@ == name
}

proof fn lemma_matching_rows(rows: Seq<QuantityRow>, q: Quantity)
    ensures
        forall|i: int|
            0 <= i < rows.len() && offers(#[trigger] rows[i], q) ==> exists|k: int|
                0 <= k < matching(rows, q).len() && (#[trigger] matching(rows, q)[k]).0
                    == rows[i].name@,
        forall|k: int|
            0 <= k < matching(rows, q).len() ==> is_offered(rows, q, #[trigger] matching(rows, q)[k].0),
    decreases rows.len(),
{
    if rows.len() > 0 {
        let front = rows.drop_last();
        let before = matching(front, q);
        let hits = matching(rows, q);
        lemma_matching_rows(front, q);
        assert forall|i: int| 0 <= i < rows.len() && offers(#[trigger] rows[i], q) implies exists|k: int|
            0 <= k < hits.len() && (#[trigger] hits[k]).0 == rows[i].name@ by {
            if i < front.len() {
                assert(offers(front[i], q));
                let k = choose|k: int| 0 <= k < before.len() && (#[trigger] before[k]).0 == front[i].name@;
                assert(hits[k] == before[k]);
            } else {
                assert(hits[hits.len() - 1].0 == rows[i].name@);
            }
        }
        assert forall|k: int| 0 <= k < hits.len() implies is_offered(
            rows,
            q,
            #[trigger] hits[k].0,
        ) by {
            if k < before.len() {
                assert(hits[k] == before[k]);
                assert(is_offered(front, q, before[k].0));
                let i = choose|i: int|
                    0 <= i < front.len() && offers(#[trigger] front[i], q) && front[i].name@
                        == before[k].0;
                assert(rows[i] == front[i]);
            } else {
                assert(offers(rows[rows.len() - 1], q));
            }
        }
    }
}

proof fn lemma_matching_grows(rows: Seq<QuantityRow>, q: Quantity, n: int)
    requires
        0 <= n <= rows.len(),
    ensures
        matching(rows.take(n), q).len() <= matching(rows, q).len(),
        forall|k: int|
            0 <= k < matching(rows.take(n), q).len() ==> #[trigger] matching(rows.take(n), q)[k]
                == matching(rows, q)[k],
    decreases rows.len() - n,
{
    if n < rows.len() {
        lemma_matching_grows(rows, q, n + 1);
        assert(rows.take(n + 1).drop_last() =~= rows.take(n));
        let short = matching(rows.take(n), q);
        let long = matching(rows.take(n + 1), q);
        assert forall|k: int| 0 <= k < short.len() implies #[trigger] short[k] == matching(
            rows,
            q,
        )[k] by {
            assert(long[k] == short[k]);
        }
    } else {
        assert(rows.take(n) =~= rows);
    }
}

// ---------------------------------------------------------------------------
// Titles and flags of rows
// ---------------------------------------------------------------------------

/// A document from its row: the title is English where there is one, and a missing safety flag
/// counts as unset.
pub fn fault_doc(
    infoobject_id: i64,
    infotype: Option<String>,
    docnumber: Option<String>,
    safety: Option<i64>,
    title_en: Option<String>,
    title_de: Option<String>,
) -> (r: FaultDoc)
    ensures
        r.infoobject_id == infoobject_id,
        r.infotype == infotype,
        r.docnumber == docnumber,
        r.safety_relevant == (safety matches Some(n) && n != 0),
        crate::text::opt_view(r.title) == crate::text::first_of(
            crate::text::opt_view(title_en),
            crate::text::opt_view(title_de),
        ),
{
    let safety_relevant = match safety {
        Some(n) => n != 0,
        None => false,
    };
    FaultDoc {
        infoobject_id,
        infotype,
        docnumber,
        safety_relevant,
        title: prefer(&title_en, &title_de),
    }
}

/// A variant from its row: the title is English where there is one.
pub fn variant_info(name: String, title_en: Option<String>, title_de: Option<String>) -> (r:
    VariantInfo)
    ensures
        r.name == name,
        crate::text::opt_view(r.title) == crate::text::first_of(
            crate::text::opt_view(title_en),
            crate::text::opt_view(title_de),
        ),
{
    VariantInfo { name, title: prefer(&title_en, &title_de) }
}

/// A runnable function from its row: the title is English where there is one, and it has a reset
/// where the flag is set.
pub fn service_function_entry(
    function_id: i64,
    function_en: Option<String>,
    function_de: Option<String>,
    has_reset: i64,
    activation: Option<i64>,
    activation_duration_ms: Option<i64>,
    preparing_text: Option<String>,
) -> (r: ServiceFunctionCatalogEntry)
    ensures
        r.function_id == function_id,
        crate::text::opt_view(r.title) == crate::text::first_of(
            crate::text::opt_view(function_en),
            crate::text::opt_view(function_de),
        ),
        r.has_reset == (has_reset != 0),
        r.activation == activation,
        r.activation_duration_ms == activation_duration_ms,
        r.preparing_text == preparing_text,
{
    ServiceFunctionCatalogEntry {
        function_id,
        title: prefer(&function_en, &function_de),
        has_reset: has_reset != 0,
        activation,
        activation_duration_ms,
        preparing_text,
    }
}

// ---------------------------------------------------------------------------
// Stored bodies
// ---------------------------------------------------------------------------

/// What `flate2`'s gzip reader gives back of compressed bytes: the text that they hold, or the
/// words of the error where they are no gzip stream or do not hold UTF-8.
pub uninterp spec fn gunzipped(gz: Seq<u8>) -> Result<Seq<char>, Seq<char>>;

/// `flate2::read::GzDecoder`, read to its end as text, and the words of its error where the read
/// fails. The result is named; that it fails on anything but a gzip stream of UTF-8 text, and what
/// the error says, is not stated.
#[verifier::external_body]
fn gunzip(gz: &[u8]) -> (r: Result<String, String>)
    ensures
        decoding_view(r) == gunzipped(gz@),
{
    let mut out = String::new();
    match flate2::read::GzDecoder::new(gz).read_to_string(&mut out) {
        Ok(_) => Ok(out),
        Err(error) => Err(error.to_string()),
    }
}

/// What decoding one blob gave: its text, or the words of the error.
pub open spec fn decoding_view(decoding: Result<String, String>) -> Result<Seq<char>, Seq<char>> {
    match decoding {
        Ok(text) => Ok(text@),
        Err(message) => Err(message@),
    }
}

/// The bodies that a store's blobs hold: blobs that are not there are skipped, and the first one
/// that cannot be decoded makes the whole store corrupt, with the words of its error.
pub open spec fn bodies_of(decoded: Seq<Option<Result<Seq<char>, Seq<char>>>>) -> Result<
    Seq<Seq<char>>,
    Seq<char>,
>
    decreases decoded.len(),
{
    if decoded.len() == 0 {
        Ok(Seq::<Seq<char>>::empty())
    } else {
        match bodies_of(decoded.drop_last()) {
            Ok(before) => match decoded.last() {
                Some(Ok(text)) => Ok(before.push(text)),
                Some(Err(message)) => Err(message),
                None => Ok(before),
            },
            Err(message) => Err(message),
        }
    }
}

/// What decoding each stored blob gives.
pub open spec fn decoded_blobs(stored: Seq<Option<Vec<u8>>>) -> Seq<
    Option<Result<Seq<char>, Seq<char>>>,
> {
    Seq::new(
        stored.len(),
        |i: int|
            match stored[i] {
                Some(gz) => Some(gunzipped(gz@)),
                None => None,
            },
    )
}

/// The views of decoded blobs.
pub open spec fn decoded_view(decoded: Seq<Option<Result<String, String>>>) -> Seq<
    Option<Result<Seq<char>, Seq<char>>>,
> {
    Seq::new(
        decoded.len(),
        |i: int|
            match decoded[i] {
                Some(decoding) => Some(decoding_view(decoding)),
                None => None,
            },
    )
}

proof fn lemma_a_corrupt_blob_spoils_the_rest(
    decoded: Seq<Option<Result<Seq<char>, Seq<char>>>>,
    n: int,
)
    requires
        0 <= n <= decoded.len(),
        bodies_of(decoded.take(n)) is Err,
    ensures
        bodies_of(decoded) == bodies_of(decoded.take(n)),
    decreases decoded.len() - n,
{
    if n < decoded.len() {
        assert(decoded.take(n + 1).drop_last() =~= decoded.take(n));
        lemma_a_corrupt_blob_spoils_the_rest(decoded, n + 1);
    } else {
        assert(decoded.take(n) =~= decoded);
    }
}

/// The bodies of a fault from what decoding each linked blob gave; `None` for a blob that the
/// store lacks. The first blob that could not be decoded is the query's failure, in the words of
/// its error.
pub fn collect_bodies(decoded: &[Option<Result<String, String>>]) -> (r: Result<
    Vec<String>,
    SemanticError,
>)
    ensures
        match r {
            Ok(bodies) => bodies_of(decoded_view(decoded@)) == Ok::<Seq<Seq<char>>, Seq<char>>(
                crate::text::text_views(bodies@),
            ),
            Err(e) => e matches SemanticError::Query { message } && bodies_of(
                decoded_view(decoded@),
            ) == Err::<Seq<Seq<char>>, Seq<char>>(message@),
        },
{
    let ghost views = decoded_view(decoded@);
    let mut out: Vec<String> = Vec::new();
    let mut i: usize = 0;
    assert(crate::text::text_views(out@) =~= Seq::<Seq<char>>::empty());
    while i < decoded.len()
        invariant
            i <= decoded.len(),
            views == decoded_view(decoded@),
            bodies_of(views.take(i as int)) == Ok::<Seq<Seq<char>>, Seq<char>>(
                crate::text::text_views(out@),
            ),
        decreases decoded.len() - i,
    {
        assert(views.take(i + 1).drop_last() =~= views.take(i as int));
        assert(views.take(i + 1).last() == views[i as int]);
        match &decoded[i] {
            Some(Ok(text)) => {
                let ghost before = crate::text::text_views(out@);
                out.push(text.clone());
                assert(crate::text::text_views(out@) =~= before.push(text@));
            },
            Some(Err(message)) => {
                proof {
                    lemma_a_corrupt_blob_spoils_the_rest(views, i + 1);
                }
                return Err(SemanticError::Query { message: message.clone() });
            },
            None => {},
        }
        i = i + 1;
    }
    assert(views.take(i as int) =~= views);
    Ok(out)
}

/// The rendered bodies of a fault, from the compressed blobs that its linked documents have in
/// the store; `None` for a document without one.
pub fn fault_bodies(stored: &[Option<Vec<u8>>]) -> (r: Result<Vec<String>, SemanticError>)
    ensures
        match r {
            Ok(bodies) => bodies_of(decoded_blobs(stored@)) == Ok::<Seq<Seq<char>>, Seq<char>>(
                crate::text::text_views(bodies@),
            ),
            Err(e) => e matches SemanticError::Query { message } && bodies_of(
                decoded_blobs(stored@),
            ) == Err::<Seq<Seq<char>>, Seq<char>>(message@),
        },
{
    let mut decoded: Vec<Option<Result<String, String>>> = Vec::new();
    let mut i: usize = 0;
    while i < stored.len()
        invariant
            i <= stored.len(),
            decoded_view(decoded@) == decoded_blobs(stored@).take(i as int),
        decreases stored.len() - i,
    {
        let ghost before = decoded_view(decoded@);
        let decoding: Option<Result<String, String>> = match &stored[i] {
            Some(gz) => Some(gunzip(gz.as_slice())),
            None => None,
        };
        decoded.push(decoding);
        assert(decoded_view(decoded@) =~= before.push(decoded_blobs(stored@)[i as int]));
        assert(decoded_view(decoded@) =~= decoded_blobs(stored@).take(i + 1));
        i = i + 1;
    }
    assert(decoded_blobs(stored@).take(i as int) =~= decoded_blobs(stored@));
    collect_bodies(decoded.as_slice())
}

/// Whether `rows` name the address `x` ahead of the address `y`.
pub open spec fn named_ahead(rows: Seq<EcuRow>, x: u8, y: u8) -> bool {
    exists|k: int|
        0 <= k < rows.len() && (#[trigger] rows[k]).address == x && forall|m: int|
            0 <= m <= k ==> (#[trigger] rows[m]).address != y
}

proof fn lemma_addresses_in_order(rows: Seq<EcuRow>)
    ensures
        forall|i: int|
            0 <= i < addresses_in(rows).len() ==> exists|k: int|
                0 <= k < rows.len() && (#[trigger] rows[k]).address
                    == #[trigger] addresses_in(rows)[i],
        forall|i: int, j: int|
            0 <= i < j < addresses_in(rows).len() ==> named_ahead(
                rows,
                #[trigger] addresses_in(rows)[i],
                #[trigger] addresses_in(rows)[j],
            ),
    decreases rows.len(),
{
    if rows.len() > 0 {
        let short = rows.drop_last();
        lemma_addresses_in_order(short);
        lemma_addresses(short);
        let before = addresses_in(short);
        let after = addresses_in(rows);
        assert forall|i: int| 0 <= i < after.len() implies exists|k: int|
            0 <= k < rows.len() && (#[trigger] rows[k]).address == #[trigger] after[i] by {
            if i < before.len() {
                assert(after[i] == before[i]);
                let k = choose|k: int|
                    0 <= k < short.len() && (#[trigger] short[k]).address == before[i];
                assert(rows[k].address == after[i]);
            } else {
                assert(rows[rows.len() - 1].address == after[i]);
            }
        }
        assert forall|i: int, j: int| 0 <= i < j < after.len() implies named_ahead(
            rows,
            #[trigger] after[i],
            #[trigger] after[j],
        ) by {
            assert(after[i] == before[i]);
            if j < before.len() {
                assert(after[j] == before[j]);
                assert(named_ahead(short, before[i], before[j]));
                let k = choose|k: int|
                    0 <= k < short.len() && (#[trigger] short[k]).address == before[i] && forall|
                        m: int,
                    |
                        0 <= m <= k ==> (#[trigger] short[m]).address != before[j];
                assert(rows[k].address == before[i]);
                assert forall|m: int| 0 <= m <= k implies (#[trigger] rows[m]).address
                    != before[j] by {
                    assert(short[m] == rows[m]);
                }
            } else {
                let k = choose|k: int|
                    0 <= k < short.len() && (#[trigger] short[k]).address == before[i];
                assert(rows[k].address == before[i]);
                assert forall|m: int| 0 <= m <= k implies (#[trigger] rows[m]).address
                    != after[j] by {
                    assert(short[m] == rows[m]);
                    assert(before.contains(short[m].address));
                }
            }
        }
    }
}

/// The slots stand in the order in which the rows first name their addresses, and none stands for
/// an address that no row names.
pub proof fn law_slots_stand_in_the_order_of_the_rows(rows: Seq<EcuRow>, i: int, j: int)
    requires
        0 <= i < slots_in(rows).len(),
    ensures
        exists|k: int|
            0 <= k < rows.len() && (#[trigger] rows[k]).address == slots_in(rows)[i].address,
        i < j < slots_in(rows).len() ==> named_ahead(
            rows,
            slots_in(rows)[i].address,
            slots_in(rows)[j].address,
        ),
{
    lemma_addresses_in_order(rows);
    assert(slots_in(rows)[i].address == addresses_in(rows)[i]) by {
        lemma_addresses(rows);
    }
    if i < j < slots_in(rows).len() {
        assert(slots_in(rows)[j].address == addresses_in(rows)[j]);
    }
}

/// Whether `rows` record the group `x` at `address` ahead of the group `y`.
pub open spec fn recorded_ahead(
    rows: Seq<EcuRow>,
    address: u8,
    x: Seq<char>,
    y: Seq<char>,
) -> bool {
    exists|k: int|
        0 <= k < rows.len() && (#[trigger] rows[k]).address == address && rows[k].group_name@ == x
            && forall|m: int|
            0 <= m <= k ==> !((#[trigger] rows[m]).address == address && rows[m].group_name@ == y)
}

proof fn lemma_groups_in_order(rows: Seq<EcuRow>, address: u8)
    ensures
        forall|i: int, j: int|
            0 <= i < j < groups_at(rows, address).len() ==> recorded_ahead(
                rows,
                address,
                #[trigger] groups_at(rows, address)[i],
                #[trigger] groups_at(rows, address)[j],
            ),
    decreases rows.len(),
{
    if rows.len() > 0 {
        let short = rows.drop_last();
        lemma_groups_in_order(short, address);
        lemma_groups(short, address);
        let before = groups_at(short, address);
        let after = groups_at(rows, address);
        assert forall|i: int, j: int| 0 <= i < j < after.len() implies recorded_ahead(
            rows,
            address,
            #[trigger] after[i],
            #[trigger] after[j],
        ) by {
            assert(after[i] == before[i]);
            if j < before.len() {
                assert(after[j] == before[j]);
                assert(recorded_ahead(short, address, before[i], before[j]));
                let k = choose|k: int|
                    0 <= k < short.len() && (#[trigger] short[k]).address == address
                        && short[k].group_name@ == before[i] && forall|m: int|
                        0 <= m <= k ==> !((#[trigger] short[m]).address == address
                            && short[m].group_name@ == before[j]);
                assert(rows[k] == short[k]);
                assert forall|m: int| 0 <= m <= k implies !((#[trigger] rows[m]).address == address
                    && rows[m].group_name@ == after[j]) by {
                    assert(short[m] == rows[m]);
                }
            } else {
                assert(before.contains(before[i]));
                assert(is_recorded(short, address, before[i]));
                let k = choose|k: int|
                    0 <= k < short.len() && (#[trigger] short[k]).address == address
                        && short[k].group_name@ == before[i];
                assert(rows[k] == short[k]);
                assert forall|m: int| 0 <= m <= k implies !((#[trigger] rows[m]).address == address
                    && rows[m].group_name@ == after[j]) by {
                    assert(short[m] == rows[m]);
                    if short[m].address == address && short[m].group_name@ == after[j] {
                        assert(is_recorded(short, address, after[j]));
                        assert(before.contains(after[j]));
                    }
                }
            }
        }
    }
}

/// The groups of a slot stand in the order in which the rows first record them, its own in front;
/// only where the canonical group took the front from another does that other stand last.
pub proof fn law_the_groups_of_a_slot_stand_in_order(rows: Seq<EcuRow>, i: int, a: int, b: int)
    requires
        0 <= i < slots_in(rows).len(),
        0 <= a < b < slots_in(rows)[i].extra_groups.len(),
    ensures
        ({
            let slot = slots_in(rows)[i];
            let x = slot.extra_groups[a];
            let y = slot.extra_groups[b];
            ||| recorded_ahead(rows, slot.address, slot.group_name, x) && recorded_ahead(
                rows,
                slot.address,
                x,
                y,
            )
            ||| slot.group_name == canonical_group(slot.address) && recorded_ahead(
                rows,
                slot.address,
                slot.extra_groups.last(),
                slot.group_name,
            ) && if b == slot.extra_groups.len() - 1 {
                recorded_ahead(rows, slot.address, y, x)
            } else {
                recorded_ahead(rows, slot.address, x, y)
            }
        }),
{
    lemma_addresses(rows);
    let address = addresses_in(rows)[i];
    let groups = groups_at(rows, address);
    let slot = slots_in(rows)[i];
    assert(slot == slot_of(address, groups, title_at(rows, address)));
    lemma_groups_in_order(rows, address);
    let others = groups.skip(1);
    let canonical = canonical_group(address);
    crate::text::law_a_position_is_the_first_occurrence(others, canonical);
    if others.contains(canonical) && groups[0] != canonical {
        let p = crate::text::position(others, canonical)->0;
        let kept = others.remove(p);
        assert(slot.extra_groups == kept.push(groups[0]));
        assert(slot.extra_groups.last() == groups[0]);
        assert(groups[p + 1] == canonical);
        assert(recorded_ahead(rows, address, groups[0], groups[p + 1]));
        let at = |q: int|
            if q < p {
                q + 1
            } else {
                q + 2
            };
        assert(slot.extra_groups[a] == groups[at(a)]);
        if b < kept.len() {
            assert(slot.extra_groups[b] == groups[at(b)]);
            assert(recorded_ahead(rows, address, groups[at(a)], groups[at(b)]));
        } else {
            assert(recorded_ahead(rows, address, groups[0], groups[at(a)]));
        }
    } else {
        assert(slot.extra_groups == others);
        assert(slot.extra_groups[a] == groups[a + 1]);
        assert(slot.extra_groups[b] == groups[b + 1]);
        assert(recorded_ahead(rows, address, groups[0], groups[a + 1]));
        assert(recorded_ahead(rows, address, groups[a + 1], groups[b + 1]));
    }
}

proof fn lemma_title_at(rows: Seq<EcuRow>, address: u8, k: int)
    requires
        0 <= k < rows.len(),
        rows[k].address == address,
        rows[k].title_en is Some || rows[k].title_de is Some,
        forall|m: int|
            0 <= m < k && (#[trigger] rows[m]).address == address ==> rows[m].title_en is None
                && rows[m].title_de is None,
    ensures
        title_at(rows, address) == Some(
            if rows[k].title_en is Some {
                rows[k].title_en->0@
            } else {
                rows[k].title_de->0@
            },
        ),
    decreases rows.len(),
{
    let short = rows.drop_last();
    if k < short.len() {
        assert(short[k] == rows[k]);
        assert forall|m: int| 0 <= m < k && (#[trigger] short[m]).address
            == address implies short[m].title_en is None && short[m].title_de is None by {
            assert(short[m] == rows[m]);
        }
        lemma_title_at(short, address, k);
    } else {
        assert forall|m: int| 0 <= m < short.len() && (#[trigger] short[m]).address
            == address implies short[m].title_en is None && short[m].title_de is None by {
            assert(short[m] == rows[m]);
        }
        lemma_no_title(short, address);
    }
}

proof fn lemma_no_title(rows: Seq<EcuRow>, address: u8)
    requires
        forall|m: int|
            0 <= m < rows.len() && (#[trigger] rows[m]).address == address ==> rows[m].title_en
                is None && rows[m].title_de is None,
    ensures
        title_at(rows, address) is None,
    decreases rows.len(),
{
    if rows.len() > 0 {
        let short = rows.drop_last();
        assert forall|m: int| 0 <= m < short.len() && (#[trigger] short[m]).address
            == address implies short[m].title_en is None && short[m].title_de is None by {
            assert(short[m] == rows[m]);
        }
        lemma_no_title(short, address);
        assert(rows[rows.len() - 1] == rows.last());
    }
}

/// A slot has the title of the first row at its address that has one, English before German, and
/// none where no row has one.
pub proof fn law_a_slot_has_the_first_title_of_its_rows(rows: Seq<EcuRow>, i: int, k: int)
    requires
        0 <= i < slots_in(rows).len(),
        0 <= k <= rows.len(),
        forall|m: int|
            0 <= m < k && (#[trigger] rows[m]).address == slots_in(rows)[i].address
                ==> rows[m].title_en is None && rows[m].title_de is None,
    ensures
        k == rows.len() ==> slots_in(rows)[i].title is None,
        k < rows.len() && rows[k].address == slots_in(rows)[i].address && rows[k].title_en is Some
            ==> slots_in(rows)[i].title == Some(rows[k].title_en->0@),
        k < rows.len() && rows[k].address == slots_in(rows)[i].address && rows[k].title_en is None
            && rows[k].title_de is Some ==> slots_in(rows)[i].title == Some(rows[k].title_de->0@),
{
    let address = addresses_in(rows)[i];
    assert(slots_in(rows)[i] == slot_of(
        address,
        groups_at(rows, address),
        title_at(rows, address),
    ));
    assert(slots_in(rows)[i].address == address);
    if k == rows.len() {
        lemma_no_title(rows, address);
    } else if rows[k].address == address && (rows[k].title_en is Some || rows[k].title_de is Some) {
        lemma_title_at(rows, address, k);
    }
}

/// The canonical group of an address is `d_00` and its two lower-case hexadecimal digits.
pub proof fn law_a_canonical_group_spells_its_address(address: u8)
    ensures
        canonical_group(address) == "d_00"@ + seq![
            "0123456789abcdef"@[address as int / 16],
            "0123456789abcdef"@[address as int % 16],
        ],
{
    reveal_strlit("d_00");
    reveal_strlit("0123456789abcdef");
    let hi = address as int / 16;
    let lo = address as int % 16;
    assert(0 <= hi < 16 && 0 <= lo < 16);
    assert forall|d: int| 0 <= d < 16 implies #[trigger] lower_hex_char(d)
        == "0123456789abcdef"@[d] by {}
    assert(canonical_group(address) =~= "d_00"@ + seq![lower_hex_char(hi), lower_hex_char(lo)]);
}

proof fn lemma_number_text(s: Seq<char>, max: int)
    requires
        crate::text::unsigned_value(s, 10, max) is Some,
    ensures
        s.len() > 0,
        forall|i: int| 0 <= i < s.len() ==> '0' <= (#[trigger] s[i]) <= '9' || s[i] == '+',
        crate::text::trimmed(s) == s,
        crate::text::upper(s) == s,
{
    let body = if s.len() > 0 && s[0] == '+' {
        s.skip(1)
    } else {
        s
    };
    assert forall|i: int| 0 <= i < s.len() implies '0' <= (#[trigger] s[i]) <= '9' || s[i]
        == '+' by {
        if body.len() == s.len() {
            assert(crate::text::digit_of(body[i], 10) is Some);
        } else if i > 0 {
            assert(body[i - 1] == s[i]);
            assert(crate::text::digit_of(body[i - 1], 10) is Some);
        }
    }
    let none = Seq::<char>::empty();
    crate::text::law_printable_ascii_is_not_white(s[0]);
    crate::text::law_printable_ascii_is_not_white(s.last());
    assert(s.last() == s[s.len() - 1]);
    crate::text::law_trimming_takes_the_white_ends_only(none, s, none);
    assert(none + s + none =~= s);
    assert(crate::text::upper(s) =~= s);
}

/// A level `SERIES-YY-MM`, with or without more behind it, says its series in capitals and its
/// build date as `YYMM`.
pub proof fn law_a_level_says_its_series_and_its_date(
    series: Seq<char>,
    yy: nat,
    mm: nat,
    more: Seq<Seq<char>>,
)
    requires
        yy <= u32::MAX,
        mm <= u32::MAX,
        !series.contains('-'),
        forall|i: int| 0 <= i < more.len() ==> !(#[trigger] more[i]).contains('-'),
    ensures
        level_parts(
            crate::text::join(
                seq![
                    series,
                    crate::text::decimal_padded(yy, 2),
                    crate::text::decimal_padded(mm, 2),
                ] + more,
                seq!['-'],
            ),
        ) == Some((crate::text::upper(crate::text::trimmed(series)), (100 * yy + mm) as int)),
{
    let y = crate::text::decimal_padded(yy, 2);
    let m = crate::text::decimal_padded(mm, 2);
    crate::text::law_padded_decimals_read_back(yy, 2, u32::MAX as int);
    crate::text::law_padded_decimals_read_back(mm, 2, u32::MAX as int);
    lemma_number_text(y, u32::MAX as int);
    lemma_number_text(m, u32::MAX as int);
    assert(!y.contains('-'));
    assert(!m.contains('-'));
    let parts = seq![series, y, m] + more;
    assert forall|i: int| 0 <= i < parts.len() implies !(#[trigger] parts[i]).contains('-') by {
        if i >= 3 {
            assert(parts[i] == more[i - 3]);
        }
    }
    crate::text::law_splitting_undoes_joining(parts, '-');
}

/// A text with fewer than three parts, or whose second or third part is no number, is no level.
pub proof fn law_other_texts_are_no_level(istufe: Seq<char>, parts: Seq<Seq<char>>)
    requires
        parts.len() > 0,
        forall|i: int| 0 <= i < parts.len() ==> !(#[trigger] parts[i]).contains('-'),
        istufe == crate::text::join(parts, seq!['-']),
        parts.len() < 3 || crate::text::unsigned_value(
            crate::text::trimmed(parts[1]),
            10,
            u32::MAX as int,
        ) is None || crate::text::unsigned_value(
            crate::text::trimmed(parts[2]),
            10,
            u32::MAX as int,
        ) is None,
    ensures
        level_parts(istufe) is None,
        forall|known: Seq<Seq<char>>| #[trigger] series_in(istufe, known) is None,
{
    crate::text::law_splitting_undoes_joining(parts, '-');
}

/// Only a zero right behind the first letter is dropped, and only where something stands behind it.
pub proof fn law_only_the_padding_zero_is_dropped(letter: char, rest: Seq<char>, series: Seq<char>)
    requires
        letter <= '~',
    ensures
        rest.len() > 0 ==> zero_dropped(seq![letter, '0'] + rest) == seq![letter] + rest,
        zero_dropped(seq![letter, '0']) == seq![letter, '0'],
        series.len() < 2 || series[1] != '0' ==> zero_dropped(series) == series,
{
    assert((seq![letter, '0'] + rest).skip(2) =~= rest);
}

/// A variant of a series is dated by the digits behind its underscore, and applies from that date
/// on; case does not matter.
pub proof fn law_a_dated_variant_applies_from_its_date(
    series: Seq<char>,
    date: nat,
    width: nat,
    build: int,
)
    requires
        date <= u32::MAX,
    ensures
        applicable_date(
            series + seq!['_'] + crate::text::decimal_padded(date, width),
            crate::text::upper(series),
            build,
        ) == (if date <= build {
            Some(date as int)
        } else {
            None
        }),
{
    let digits = crate::text::decimal_padded(date, width);
    crate::text::law_padded_decimals_read_back(date, width, u32::MAX as int);
    lemma_number_text(digits, u32::MAX as int);
    let base = crate::text::upper(series);
    let u = crate::text::upper(series + seq!['_'] + digits);
    assert(u.take(base.len() as int) =~= base);
    assert(u[base.len() as int] == '_');
    assert(u.skip(base.len() as int + 1) =~= crate::text::upper(digits));
}

/// A dated variant bears the name of its series, an underscore and a date that is not after the
/// build.
pub proof fn law_an_applicable_variant_bears_the_name_of_its_series(
    candidate: Seq<char>,
    base: Seq<char>,
    build: int,
)
    requires
        applicable_date(candidate, base, build) is Some,
    ensures
        applicable_date(candidate, base, build)->0 <= build,
        candidate.len() > base.len() + 1,
        crate::text::upper(candidate).take(base.len() as int) == base,
        candidate[base.len() as int] == '_',
{
    let u = crate::text::upper(candidate);
    let c = candidate[base.len() as int];
    assert(u[base.len() as int] == crate::text::ascii_upper(c));
    assert(c == '_');
    lemma_number_text(u.skip(base.len() as int + 1), u32::MAX as int);
}

proof fn lemma_first_of_the_latest(known: Seq<Seq<char>>, base: Seq<char>, build: int)
    ensures
        dated_in(known, base, build) matches Some(i) ==> forall|j: int|
            0 <= j < i && applicable_date(#[trigger] known[j], base, build) is Some
                ==> applicable_date(known[j], base, build)->0 < applicable_date(
                known[i],
                base,
                build,
            )->0,
    decreases known.len(),
{
    if known.len() > 0 {
        let front = known.drop_last();
        lemma_first_of_the_latest(front, base, build);
        law_the_latest_applicable_variant_is_taken(front, base, build);
        law_the_latest_applicable_variant_is_taken(known, base, build);
        if dated_in(known, base, build) is Some {
            let i = dated_in(known, base, build)->0;
            assert forall|j: int|
                0 <= j < i && applicable_date(
                    #[trigger] known[j],
                    base,
                    build,
                ) is Some implies applicable_date(known[j], base, build)->0 < applicable_date(
                known[i],
                base,
                build,
            )->0 by {
                assert(front[j] == known[j]);
                if i < front.len() {
                    assert(front[i] == known[i]);
                } else {
                    match dated_in(front, base, build) {
                        Some(p) => {
                            assert(front[p] == known[p]);
                        },
                        None => {},
                    }
                }
            }
        }
    }
}

proof fn lemma_last_of_the_plain(known: Seq<Seq<char>>, base: Seq<char>)
    ensures
        plain_in(known, base) matches Some(i) ==> forall|j: int|
            i < j < known.len() ==> crate::text::upper(#[trigger] known[j]) != base,
    decreases known.len(),
{
    if known.len() > 0 && !is_plain(known.last(), base) {
        let front = known.drop_last();
        lemma_last_of_the_plain(front, base);
        lemma_plain_in(front, base);
        if plain_in(known, base) is Some {
            let i = plain_in(known, base)->0;
            assert forall|j: int| i < j < known.len() implies crate::text::upper(
                #[trigger] known[j],
            ) != base by {
                if j < front.len() {
                    assert(front[j] == known[j]);
                } else {
                    assert(known[j] == known.last());
                }
            }
        }
    }
}

/// Of several forms of one series with the same date the first is taken, and of several plain forms
/// the last.
pub proof fn law_ties_between_forms_are_settled(known: Seq<Seq<char>>, base: Seq<char>, build: int)
    ensures
        candidate_in(known, base, build) matches Some(i) ==> {
            &&& applicable_date(known[i], base, build) is Some ==> forall|j: int|
                0 <= j < i && applicable_date(#[trigger] known[j], base, build) is Some
                    ==> applicable_date(known[j], base, build)->0 < applicable_date(
                    known[i],
                    base,
                    build,
                )->0
            &&& applicable_date(known[i], base, build) is None ==> forall|j: int|
                i < j < known.len() ==> crate::text::upper(#[trigger] known[j]) != base
        },
{
    lemma_first_of_the_latest(known, base, build);
    lemma_last_of_the_plain(known, base);
    law_the_latest_applicable_variant_is_taken(known, base, build);
    lemma_plain_in(known, base);
}

proof fn lemma_no_match(rows: Seq<QuantityRow>, q: Quantity)
    requires
        forall|i: int| 0 <= i < rows.len() ==> !offers(#[trigger] rows[i], q),
    ensures
        matching(rows, q).len() == 0,
    decreases rows.len(),
{
    if rows.len() > 0 {
        let front = rows.drop_last();
        assert forall|i: int| 0 <= i < front.len() implies !offers(#[trigger] front[i], q) by {
            assert(front[i] == rows[i]);
        }
        lemma_no_match(front, q);
        assert(!offers(rows[rows.len() - 1], q));
    }
}

/// A quantity resolves to the name and the factor of the first row that carries it in a unit that
/// can be normalised, if no such row names another measurement.
pub proof fn law_a_quantity_resolves_to_its_first_row(
    rows: Seq<QuantityRow>,
    q: Quantity,
    k: int,
)
    requires
        0 <= k < rows.len(),
        offers(rows[k], q),
        forall|i: int| 0 <= i < k ==> !offers(#[trigger] rows[i], q),
        forall|i: int|
            0 <= i < rows.len() && offers(#[trigger] rows[i], q) ==> rows[i].name@ == rows[k].name@,
    ensures
        resolved(rows, q) == Some(
            (
                rows[k].name@,
                crate::semantic::quantity::unit_factor_of(
                    q,
                    crate::text::opt_view(rows[k].unit),
                )->0,
            ),
        ),
{
    let upto = rows.take(k + 1);
    assert(upto.drop_last() =~= rows.take(k));
    assert forall|i: int| 0 <= i < rows.take(k).len() implies !offers(
        #[trigger] rows.take(k)[i],
        q,
    ) by {
        assert(rows.take(k)[i] == rows[i]);
    }
    lemma_no_match(rows.take(k), q);
    assert(upto.last() == rows[k]);
    assert(matching(upto, q).len() == 1);
    assert(matching(upto, q)[0].0 == rows[k].name@);
    lemma_matching_grows(rows, q, k + 1);
    assert(matching(rows, q)[0] == matching(upto, q)[0]);
    lemma_matching_rows(rows, q);
    let hits = matching(rows, q);
    assert forall|j: int| 0 <= j < hits.len() implies (#[trigger] hits[j]).0 == hits[0].0 by {
        assert(is_offered(rows, q, hits[j].0));
        let i = choose|i: int|
            0 <= i < rows.len() && offers(#[trigger] rows[i], q) && rows[i].name@ == hits[j].0;
        assert(rows[i].name@ == rows[k].name@);
    }
}

/// Where every stored blob decodes, the bodies are their texts in order, with nothing for a blob
/// that is not there.
pub proof fn law_the_bodies_are_the_decoded_texts(
    decoded: Seq<Option<Result<Seq<char>, Seq<char>>>>,
)
    requires
        forall|i: int|
            0 <= i < decoded.len() ==> !((#[trigger] decoded[i]) matches Some(Err(_))),
    ensures
        bodies_of(decoded) is Ok,
        bodies_of(decoded)->Ok_0 == decoded.filter(
            |blob: Option<Result<Seq<char>, Seq<char>>>| blob is Some,
        ).map_values(|blob: Option<Result<Seq<char>, Seq<char>>>| blob->0->Ok_0),
    decreases decoded.len(),
{
    reveal(Seq::filter);
    let there = |blob: Option<Result<Seq<char>, Seq<char>>>| blob is Some;
    let text = |blob: Option<Result<Seq<char>, Seq<char>>>| blob->0->Ok_0;
    if decoded.len() > 0 {
        let front = decoded.drop_last();
        assert forall|i: int| 0 <= i < front.len() implies !((#[trigger] front[i]) matches Some(
            Err(_),
        )) by {
            assert(front[i] == decoded[i]);
        }
        law_the_bodies_are_the_decoded_texts(front);
        assert(!(decoded[decoded.len() - 1] matches Some(Err(_))));
        assert(bodies_of(decoded)->Ok_0 =~= decoded.filter(there).map_values(text));
    } else {
        assert(decoded.filter(there).map_values(text) =~= Seq::<Seq<char>>::empty());
    }
}

/// The first blob that does not decode makes the whole store corrupt, in the words of its error.
pub proof fn law_the_first_corrupt_blob_is_reported(
    decoded: Seq<Option<Result<Seq<char>, Seq<char>>>>,
    k: int,
)
    requires
        0 <= k < decoded.len(),
        decoded[k] matches Some(Err(_)),
        forall|i: int| 0 <= i < k ==> !((#[trigger] decoded[i]) matches Some(Err(_))),
    ensures
        bodies_of(decoded) == Err::<Seq<Seq<char>>, Seq<char>>(decoded[k]->0->Err_0),
{
    let upto = decoded.take(k + 1);
    let front = decoded.take(k);
    assert(upto.drop_last() =~= front);
    assert forall|i: int| 0 <= i < front.len() implies !((#[trigger] front[i]) matches Some(
        Err(_),
    )) by {
        assert(front[i] == decoded[i]);
    }
    law_the_bodies_are_the_decoded_texts(front);
    assert(upto.last() == decoded[k]);
    lemma_a_corrupt_blob_spoils_the_rest(decoded, k + 1);
}

/// The model of a value says of each field what the field holds, and a list is modelled item by
/// item, in order.
pub proof fn law_a_model_shows_what_its_value_holds(ecu_slot: EcuSlot, slots: Seq<EcuSlot>)
    ensures
        ecu_slot@.address == ecu_slot.address,
        ecu_slot@.group_name == ecu_slot.group_name@,
        ecu_slot@.extra_groups == crate::text::text_views(ecu_slot.extra_groups@),
        ecu_slot@.title == crate::text::opt_view(ecu_slot.title),
        slots_view(slots).len() == slots.len(),
        forall|i: int| 0 <= i < slots.len() ==> #[trigger] slots_view(slots)[i] == slots[i]@,
{
}

} // verus!
