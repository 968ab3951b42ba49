//! Data-identifier (DID) semantics: ISO-standard naming and raw rendering.
use vstd::prelude::*;
use crate::bytes::copy_bytes;
use crate::text::printable_text;

verus! {

/// A decoded data identifier: its name (if standard), raw bytes, and text view.
#[derive(Debug, Clone, PartialEq, Eq)]
pub struct DecodedDid {
    /// The 2-byte DID that was read.
    pub did: u16,
    /// The ISO-standard name, or `None` for an ECU-specific DID.
    pub name: Option<&'static str>,
    /// The raw value bytes, exactly as returned by the ECU.
    pub raw: Vec<u8>,
    /// A text rendering, present only when the bytes are printable text.
    pub text: Option<String>,
}

/// The ISO-standard name of an identification DID.
pub open spec fn name_of(did: u16) -> Option<&'static str> {
    match did {
        0xF180 => Some("bootSoftwareIdentification"),
        0xF181 => Some("applicationSoftwareIdentification"),
        0xF182 => Some("applicationDataIdentification"),
        0xF187 => Some("vehicleManufacturerSparePartNumber"),
        0xF188 => Some("vehicleManufacturerECUSoftwareNumber"),
        0xF189 => Some("vehicleManufacturerECUSoftwareVersionNumber"),
        0xF18A => Some("systemSupplierIdentifier"),
        0xF18C => Some("ECUSerialNumber"),
        0xF190 => Some("VIN"),
        0xF191 => Some("vehicleManufacturerECUHardwareNumber"),
        0xF192 => Some("systemSupplierECUHardwareNumber"),
        0xF193 => Some("systemSupplierECUHardwareVersionNumber"),
        0xF194 => Some("systemSupplierECUSoftwareNumber"),
        0xF195 => Some("systemSupplierECUSoftwareVersionNumber"),
        0xF197 => Some("systemName"),
        0xF19E => Some("ASAMODXFileIdentifier"),
        0x172A => Some("IPConfiguration"),
        _ => None,
    }
}

/// Only the standardized identification range 0xF1xx and the IP-configuration DID are named: any
/// other DID keeps its ECU-specific meaning.
pub proof fn law_only_identification_dids_are_named(did: u16)
    requires
        name_of(did) is Some,
    ensures
        did == 0x172A || 0xF100 <= did <= 0xF1FF,
{
}

/// Decode a DID and its raw value into a [`DecodedDid`].
///
/// Attaches the ISO-standard [`standard_name`] (if any) and renders the bytes as text when they
/// are valid, non-empty, control-free UTF-8.
pub fn decode(did: u16, raw: &[u8]) -> (r: DecodedDid)
    ensures
        r.did == did,
        r.name == name_of(did),
        r.raw@ == raw@,
        crate::text::opt_view(r.text) == crate::text::printable_text_in(raw@),
{
    DecodedDid { did, name: standard_name(did), raw: copy_bytes(raw), text: printable_text(raw) }
}

/// The ISO-standard name for an identification DID, if known.
///
/// Covers the standardized 0xF1xx identification range (ISO 14229-1) plus the IP-configuration
/// DID 0x172A. `None` for DIDs whose meaning is ECU-specific.
pub fn standard_name(did: u16) -> (r: Option<&'static str>)
    ensures
        r == name_of(did),
{
    match did {
        0xF180 => Some("bootSoftwareIdentification"),
        0xF181 => Some("applicationSoftwareIdentification"),
        0xF182 => Some("applicationDataIdentification"),
        0xF187 => Some("vehicleManufacturerSparePartNumber"),
        0xF188 => Some("vehicleManufacturerECUSoftwareNumber"),
        0xF189 => Some("vehicleManufacturerECUSoftwareVersionNumber"),
        0xF18A => Some("systemSupplierIdentifier"),
        0xF18C => Some("ECUSerialNumber"),
        0xF190 => Some("VIN"),
        0xF191 => Some("vehicleManufacturerECUHardwareNumber"),
        0xF192 => Some("systemSupplierECUHardwareNumber"),
        0xF193 => Some("systemSupplierECUHardwareVersionNumber"),
        0xF194 => Some("systemSupplierECUSoftwareNumber"),
        0xF195 => Some("systemSupplierECUSoftwareVersionNumber"),
        0xF197 => Some("systemName"),
        0xF19E => Some("ASAMODXFileIdentifier"),
        0x172A => Some("IPConfiguration"),
        _ => None,
    }
}

/// The named identifiers are these, each under its standard name, and no others.
pub proof fn law_each_identifier_has_its_standard_name(did: u16)
    ensures
        name_of(0xF180) == Some("bootSoftwareIdentification"),
        name_of(0xF181) == Some("applicationSoftwareIdentification"),
        name_of(0xF182) == Some("applicationDataIdentification"),
        name_of(0xF187) == Some("vehicleManufacturerSparePartNumber"),
        name_of(0xF188) == Some("vehicleManufacturerECUSoftwareNumber"),
        name_of(0xF189) == Some("vehicleManufacturerECUSoftwareVersionNumber"),
        name_of(0xF18A) == Some("systemSupplierIdentifier"),
        name_of(0xF18C) == Some("ECUSerialNumber"),
        name_of(0xF190) == Some("VIN"),
        name_of(0xF191) == Some("vehicleManufacturerECUHardwareNumber"),
        name_of(0xF192) == Some("systemSupplierECUHardwareNumber"),
        name_of(0xF193) == Some("systemSupplierECUHardwareVersionNumber"),
        name_of(0xF194) == Some("systemSupplierECUSoftwareNumber"),
        name_of(0xF195) == Some("systemSupplierECUSoftwareVersionNumber"),
        name_of(0xF197) == Some("systemName"),
        name_of(0xF19E) == Some("ASAMODXFileIdentifier"),
        name_of(0x172A) == Some("IPConfiguration"),
        name_of(did) is Some <==> did == 0x172A || 0xF180 <= did <= 0xF182 || 0xF187 <= did
            <= 0xF18A || did == 0xF18C || 0xF190 <= did <= 0xF195 || did == 0xF197 || did
            == 0xF19E,
{
}

} // verus!
