//! Label resolution for an installer file: open the zip container,
//! guard against decompression bombs, pull the compiled manifest and
//! the resource table out, and resolve the application's display
//! name.
//!
//! The whole resolution is a function of the installer's bytes alone:
//! the contract of `label` pins its result to `label_spec`, so equal
//! bytes always resolve to equal labels.

use vstd::prelude::*;
use vstd::string::StrSliceExecFns;

use crate::manifest::{
    find_label_attr, parse_manifest_children, spec_label_attr, spec_parse_manifest,
};
use crate::restable::{
    TableV, opt_str_view, parse_resource_table, resolve_reference, spec_parse_table,
    spec_resolve_id,
};
use crate::strutil::{has_prefix, spec_parse_u32, parse_u32, str_has_prefix};

use std::io::Read;

verus! {

/// Archives advertising more decompressed bytes than this are never
/// decompressed.
pub const ARCHIVE_SIZE_LIMIT: u128 = 400 * 1024 * 1024;

/// A failure of the container itself, as opposed to a label that
/// merely cannot be resolved.
#[derive(PartialEq, Eq, Structural, Clone, Copy, Debug)]
pub enum DecodeError {
    BadArchive,
    CorruptEntry,
}

/// How reading one named entry can fail.
enum EntryFault {
    Missing,
    Corrupt,
}

/// Whether the bytes open as a zip archive.
pub uninterp spec fn zip_parses(bytes: Seq<u8>) -> bool;

/// The bytes an opened archive was opened over.
pub uninterp spec fn archive_data(a: zip::ZipArchive<std::io::Cursor<Vec<u8>>>) -> Seq<u8>;

/// The total decompressed size the archive's directory advertises,
/// where every entry advertises one.
pub uninterp spec fn advertised_size_of(bytes: Seq<u8>) -> Option<u128>;

/// Whether the archive's directory lists an entry of this name.
pub uninterp spec fn zip_has_entry(bytes: Seq<u8>, name: Seq<char>) -> bool;

/// The decompressed content of the named entry, where the entry is
/// listed and decompresses.
pub uninterp spec fn zip_entry_data(bytes: Seq<u8>, name: Seq<char>) -> Option<Seq<u8>>;

#[verifier::external_type_specification]
#[verifier::external_body]
#[verifier::reject_recursive_types(R)]
pub struct ExZipArchive<R>(zip::ZipArchive<R>);

#[verifier::external_type_specification]
#[verifier::external_body]
#[verifier::reject_recursive_types(T)]
pub struct ExCursor<T>(std::io::Cursor<T>);

/// Relies on zip::ZipArchive::new: whether bytes open as an archive
/// depends on the bytes alone, and the opened archive holds exactly
/// those bytes.
#[verifier::external_body]
fn open_archive(bytes: &[u8]) -> (r: Option<zip::ZipArchive<std::io::Cursor<Vec<u8>>>>)
    ensures
        r is Some <==> zip_parses(bytes@),
        r matches Some(a) ==> archive_data(a) == bytes@,
{
    zip::ZipArchive::new(std::io::Cursor::new(bytes.to_vec())).ok()
}

/// Relies on ZipArchive::decompressed_size: the advertised total of
/// the entries' uncompressed sizes, a function of the archive alone;
/// nothing where an entry does not advertise its size.
#[verifier::external_body]
fn advertised_size(a: &zip::ZipArchive<std::io::Cursor<Vec<u8>>>) -> (r: Option<u128>)
    ensures
        r == advertised_size_of(archive_data(*a)),
{
    a.decompressed_size()
}

/// Relies on ZipArchive::by_name and io::Read::read_to_end: the named
/// entry's decompressed content is a function of the archive's bytes
/// and the name; by_name reports a missing file exactly when the name
/// is not listed in the directory.
#[verifier::external_body]
fn entry_bytes(a: &mut zip::ZipArchive<std::io::Cursor<Vec<u8>>>, name: &str) -> (r: Result<
    Vec<u8>,
    EntryFault,
>)
    ensures
        archive_data(*final(a)) == archive_data(*old(a)),
        r matches Ok(v) ==> zip_has_entry(archive_data(*old(a)), name@) && zip_entry_data(
            archive_data(*old(a)),
            name@,
        ) == Some(v@),
        r is Err && (r matches Err(e) && e is Missing) <==> !zip_has_entry(
            archive_data(*old(a)),
            name@,
        ),
        r is Err && (r matches Err(e) && e is Corrupt) <==> zip_has_entry(
            archive_data(*old(a)),
            name@,
        ) && zip_entry_data(archive_data(*old(a)), name@) is None,
{
    match a.by_name(name) {
        Ok(mut f) => {
            let mut buf = vec![];
            match f.read_to_end(&mut buf) {
                Ok(_) => Ok(buf),
                Err(_) => Err(EntryFault::Corrupt),
            }
        },
        Err(zip::result::ZipError::FileNotFound) => Err(EntryFault::Missing),
        Err(_) => Err(EntryFault::Corrupt),
    }
}

/// What an attribute value resolves to against the table: a literal
/// is the label itself; an encoded reference is parsed and resolved;
/// a reference with an unreadable number resolves nothing.
pub open spec fn spec_label_from_attr(attr: Seq<char>, t: TableV) -> Option<Seq<char>> {
    if !has_prefix(attr, "ResourceValueType::Reference/"@) {
        Some(attr)
    } else {
        match spec_parse_u32(attr.skip("ResourceValueType::Reference/"@.len() as int)) {
            None => None,
            Some(id) => spec_resolve_id(t, id),
        }
    }
}

/// The label an installer's bytes resolve to. A broken container or
/// an entry that will not decompress is a decode error; everything
/// that merely leaves the label unknown — a missing entry, a manifest
/// or table that does not decode, no label attribute, a miss in the
/// table — is absence, for the caller to replace with a fallback; an
/// archive advertising more than the size limit yields the fallback
/// name at once.
pub open spec fn label_spec(bytes: Seq<u8>) -> Result<Option<Seq<char>>, DecodeError> {
    if !zip_parses(bytes) {
        Err(DecodeError::BadArchive)
    } else if advertised_size_of(bytes) matches Some(s) && s > ARCHIVE_SIZE_LIMIT {
        Ok(Some("No name"@))
    } else if !zip_has_entry(bytes, "AndroidManifest.xml"@) {
        Ok(None)
    } else if zip_entry_data(bytes, "AndroidManifest.xml"@) is None {
        Err(DecodeError::CorruptEntry)
    } else if !zip_has_entry(bytes, "resources.arsc"@) {
        Ok(None)
    } else if zip_entry_data(bytes, "resources.arsc"@) is None {
        Err(DecodeError::CorruptEntry)
    } else {
        let mbytes = zip_entry_data(bytes, "AndroidManifest.xml"@)->Some_0;
        let rbytes = zip_entry_data(bytes, "resources.arsc"@)->Some_0;
        match spec_parse_table(rbytes) {
            None => Ok(None),
            Some(t) => match spec_parse_manifest(mbytes) {
                None => Ok(None),
                Some(children) => match spec_label_attr(children, "android:label"@) {
                    None => Ok(None),
                    Some(attr) => Ok(spec_label_from_attr(attr, t)),
                },
            },
        }
    }
}

/// The value of a label result.
pub open spec fn label_result_view(r: Result<Option<String>, DecodeError>) -> Result<
    Option<Seq<char>>,
    DecodeError,
> {
    match r {
        Ok(o) => Ok(opt_str_view(o)),
        Err(e) => Err(e),
    }
}

/// Resolve the display name carried by an installer's bytes.
pub fn label(contents: &[u8]) -> (r: Result<Option<String>, DecodeError>)
    ensures
        label_result_view(r) == label_spec(contents@),
{
    let mut archive = match open_archive(contents) {
        Some(a) => a,
        None => {
            return Err(DecodeError::BadArchive);
        },
    };
    match advertised_size(&archive) {
        Some(sz) => {
            if sz > ARCHIVE_SIZE_LIMIT {
                return Ok(Some("No name".to_owned()));
            }
        },
        None => {},
    }
    let manifest_bytes = match entry_bytes(&mut archive, "AndroidManifest.xml") {
        Ok(v) => v,
        Err(EntryFault::Missing) => {
            return Ok(None);
        },
        Err(EntryFault::Corrupt) => {
            return Err(DecodeError::CorruptEntry);
        },
    };
    let resource_bytes = match entry_bytes(&mut archive, "resources.arsc") {
        Ok(v) => v,
        Err(EntryFault::Missing) => {
            return Ok(None);
        },
        Err(EntryFault::Corrupt) => {
            return Err(DecodeError::CorruptEntry);
        },
    };
    let table = match parse_resource_table(resource_bytes.as_slice()) {
        Some(t) => t,
        None => {
            return Ok(None);
        },
    };
    let children = match parse_manifest_children(manifest_bytes.as_slice()) {
        Some(c) => c,
        None => {
            return Ok(None);
        },
    };
    let attr = match find_label_attr(&children, "android:label") {
        Some(a) => a,
        None => {
            return Ok(None);
        },
    };
    if !str_has_prefix(attr.as_str(), "ResourceValueType::Reference/") {
        return Ok(Some(attr));
    }
    let plen = "ResourceValueType::Reference/".unicode_len();
    let alen = attr.as_str().unicode_len();
    let digits = attr.as_str().substring_char(plen, alen).to_owned();
    match parse_u32(digits.as_str()) {
        None => Ok(None),
        Some(id) => Ok(resolve_reference(&table, id)),
    }
}

/// Law: label resolution is pure. The resolved label is a function of
/// the installer's bytes alone, so decoding equal bytes twice yields
/// the identical label.
pub proof fn lemma_label_resolution_pure(b1: Seq<u8>, b2: Seq<u8>)
    requires
        b1 == b2,
    ensures
        label_spec(b1) == label_spec(b2),
{
}

/// Law: the decompression-bomb guard. An archive whose advertised
/// decompressed size exceeds the limit resolves to the fallback name,
/// and `label` returns before either entry is read.
pub proof fn lemma_size_guard(bytes: Seq<u8>)
    requires
        zip_parses(bytes),
        advertised_size_of(bytes) matches Some(s) && s > ARCHIVE_SIZE_LIMIT,
    ensures
        label_spec(bytes) == Ok::<Option<Seq<char>>, DecodeError>(Some("No name"@)),
{
}

} // verus!
