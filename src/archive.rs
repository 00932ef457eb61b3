//! Manages the zip component part of the epub doc.
//!
//! Provides the lookup of entries by name, with a percent-decoding fallback,
//! and their content as bytes or as a string. The container is read from
//! memory.
use vstd::prelude::*;

use zip::result::ZipError;

use crate::error::ArchiveError;
use crate::utils::{percent_decode_utf8, percent_decoded};

verus! {

#[verifier::external_type_specification]
#[verifier::external_body]
#[verifier::reject_recursive_types(R)]
pub struct ExZipArchive<R>(zip::ZipArchive<R>);

#[verifier::external_type_specification]
#[verifier::external_body]
#[verifier::reject_recursive_types(T)]
pub struct ExCursor<T>(std::io::Cursor<T>);

/// The entries of a zip archive: each entry's name and its uncompressed
/// bytes.
pub uninterp spec fn zip_contents(z: zip::ZipArchive<std::io::Cursor<Vec<u8>>>) -> Map<
    Seq<char>,
    Seq<u8>,
>;

/// The names of the entries of a zip archive that can be read to their end
/// without a password.
pub uninterp spec fn zip_readable(z: zip::ZipArchive<std::io::Cursor<Vec<u8>>>) -> Set<Seq<char>>;

/// What reading one entry by its exact name gave.
pub enum EntryRead {
    Found(Vec<u8>),
    NotFound(ArchiveError),
    Failed(ArchiveError),
}

/// Relies on `zip::ZipArchive::new`: reads the central directory of `reader`.
#[verifier::external_body]
fn open_zip(reader: std::io::Cursor<Vec<u8>>) -> (r: Result<
    zip::ZipArchive<std::io::Cursor<Vec<u8>>>,
    zip::result::ZipError,
>) {
    zip::ZipArchive::new(reader)
}

/// Relies on `zip::ZipArchive::by_name_decrypt` with an empty password, and
/// reading that entry to its end: `FileNotFound` exactly where no entry has
/// that name; an entry that needs a password gives `Ok(Err(InvalidPassword))`
/// or a read error; a read to the end gives the entry's bytes; the entries
/// stay as they are.
#[verifier::external_body]
fn read_entry(zip: &mut zip::ZipArchive<std::io::Cursor<Vec<u8>>>, name: &str) -> (r: EntryRead)
    ensures
        zip_contents(*final(zip)) == zip_contents(*old(zip)),
        zip_readable(*final(zip)) == zip_readable(*old(zip)),
        r is NotFound <==> !zip_contents(*old(zip)).contains_key(name@),
        r is Found <==> zip_contents(*old(zip)).contains_key(name@) && zip_readable(*old(zip)).contains(
            name@,
        ),
        r matches EntryRead::Found(b) ==> b@ == zip_contents(*old(zip))[name@],
        r matches EntryRead::NotFound(e) ==> e is Zip,
        r matches EntryRead::Failed(e) ==> e is Zip || e is IO,
{
    let mut file = match zip.by_name_decrypt(name, b"") {
        Ok(Ok(file)) => file,
        Ok(Err(_)) => return EntryRead::Failed(ArchiveError::Zip(ZipError::UnsupportedArchive(ZipError::PASSWORD_REQUIRED))),
        Err(ZipError::FileNotFound) => return EntryRead::NotFound(ArchiveError::Zip(ZipError::FileNotFound)),
        Err(e) => return EntryRead::Failed(ArchiveError::Zip(e)),
    };
    let mut entry = Vec::new();
    match std::io::Read::read_to_end(&mut file, &mut entry) {
        Ok(_) => EntryRead::Found(entry),
        Err(e) => EntryRead::Failed(ArchiveError::IO(e)),
    }
}

/// Relies on `String::from_utf8`: the text that `bytes` encode, where they are
/// valid UTF-8.
#[verifier::external_body]
fn string_from_utf8(bytes: Vec<u8>) -> (r: Result<String, std::str::Utf8Error>)
    ensures
        r is Ok <==> vstd::utf8::valid_utf8(bytes@),
        r matches Ok(s) ==> s@ == vstd::utf8::decode_utf8(bytes@),
{
    String::from_utf8(bytes).map_err(|e| e.utf8_error())
}

/// The text that `bytes` encode as UTF-8; `Utf8` where they are not valid
/// UTF-8.
pub fn text_of_bytes(bytes: Vec<u8>) -> (r: Result<String, ArchiveError>)
    ensures
        r is Ok <==> vstd::utf8::valid_utf8(bytes@),
        r matches Ok(s) ==> s@ == vstd::utf8::decode_utf8(bytes@),
        r matches Err(e) ==> e is Utf8,
{
    match string_from_utf8(bytes) {
        Ok(s) => Ok(s),
        Err(e) => Err(ArchiveError::Utf8(e)),
    }
}

/// The bytes that a lookup of `name` finds among the entries `m`: the entry
/// of exactly that name, else the entry named by `name` percent-decoded.
pub open spec fn entry_lookup(m: Map<Seq<char>, Seq<u8>>, name: Seq<char>) -> Option<Seq<u8>> {
    if m.contains_key(name) {
        Some(m[name])
    } else {
        match percent_decoded(name) {
            Some(d) => if m.contains_key(d) {
                Some(m[d])
            } else {
                None
            },
            None => None,
        }
    }
}

/// The name under which a lookup of `name` finds an entry among `m`: the
/// name itself, else `name` percent-decoded.
pub open spec fn entry_key(m: Map<Seq<char>, Seq<u8>>, name: Seq<char>) -> Option<Seq<char>> {
    if m.contains_key(name) {
        Some(name)
    } else {
        match percent_decoded(name) {
            Some(d) => if m.contains_key(d) {
                Some(d)
            } else {
                None
            },
            None => None,
        }
    }
}

/// Whether a lookup of `name` among the entries `m` finds an entry that can
/// be read, `rd` being the names of the readable entries.
pub open spec fn entry_readable(m: Map<Seq<char>, Seq<u8>>, rd: Set<Seq<char>>, name: Seq<char>) -> bool {
    entry_key(m, name) matches Some(k) && rd.contains(k)
}

/// Epub archive struct: the zip container of the document.
pub struct EpubArchive {
    zip: zip::ZipArchive<std::io::Cursor<Vec<u8>>>,
}

impl EpubArchive {
    /// The entries of the container, by name.
    pub closed spec fn entries(&self) -> Map<Seq<char>, Seq<u8>> {
        zip_contents(self.zip)
    }

    /// The names of the entries that can be read.
    pub closed spec fn readable(&self) -> Set<Seq<char>> {
        zip_readable(self.zip)
    }

    /// Opens the epub held in memory by `reader`; fails if the zip is broken.
    pub fn from_reader(reader: std::io::Cursor<Vec<u8>>) -> (r: Result<Self, ArchiveError>)
        ensures
            r matches Err(e) ==> e is Zip,
    {
        match open_zip(reader) {
            Ok(zip) => Ok(EpubArchive { zip }),
            Err(e) => Err(ArchiveError::Zip(e)),
        }
    }

    /// Returns the content of the entry `name`. Where no entry has exactly
    /// that name, the lookup is tried once more with `name` percent-decoded;
    /// `Utf8` where that decoding gives no valid UTF-8.
    pub fn get_entry(&mut self, name: &str) -> (r: Result<Vec<u8>, ArchiveError>)
        ensures
            final(self).entries() == old(self).entries(),
            final(self).readable() == old(self).readable(),
            r is Ok <==> entry_readable(old(self).entries(), old(self).readable(), name@),
            r matches Ok(b) ==> entry_lookup(old(self).entries(), name@) == Some(b@),
            !old(self).entries().contains_key(name@) && percent_decoded(name@) is None ==> r matches Err(
                ArchiveError::Utf8(_),
            ),
            (!old(self).entries().contains_key(name@) && (percent_decoded(name@) matches Some(d)
                && !old(self).entries().contains_key(d))) ==> (r matches Err(ArchiveError::Zip(_))),
            r matches Err(e) ==> e is Zip || e is IO || e is Utf8,
    {
        match read_entry(&mut self.zip, name) {
            EntryRead::Found(bytes) => Ok(bytes),
            EntryRead::Failed(e) => Err(e),
            EntryRead::NotFound(_) => match percent_decode_utf8(name) {
                Err(e) => Err(ArchiveError::Utf8(e)),
                Ok(decoded) => match read_entry(&mut self.zip, decoded.as_str()) {
                    EntryRead::Found(bytes) => Ok(bytes),
                    EntryRead::NotFound(e) => Err(e),
                    EntryRead::Failed(e) => Err(e),
                },
            },
        }
    }

    /// Returns the content of the entry `name` as a string; `Utf8` where it is
    /// not valid UTF-8.
    pub fn get_entry_as_str(&mut self, name: &str) -> (r: Result<String, ArchiveError>)
        ensures
            final(self).entries() == old(self).entries(),
            r matches Ok(s) ==> (entry_lookup(old(self).entries(), name@) matches Some(b)
                && vstd::utf8::valid_utf8(b) && s@ == vstd::utf8::decode_utf8(b)),
            entry_readable(old(self).entries(), old(self).readable(), name@) ==> (entry_lookup(
                old(self).entries(),
                name@,
            ) matches Some(b) && (vstd::utf8::valid_utf8(b) ==> r is Ok) && (!vstd::utf8::valid_utf8(b)
                ==> r matches Err(ArchiveError::Utf8(_)))),
            entry_lookup(old(self).entries(), name@) is None ==> r is Err,
            final(self).readable() == old(self).readable(),
            r matches Err(e) ==> e is Zip || e is IO || e is Utf8,
    {
        match self.get_entry(name) {
            Err(e) => Err(e),
            Ok(bytes) => text_of_bytes(bytes),
        }
    }

    /// Returns the content of the container file `META-INF/container.xml`.
    pub fn get_container_file(&mut self) -> (r: Result<Vec<u8>, ArchiveError>)
        ensures
            final(self).entries() == old(self).entries(),
            final(self).readable() == old(self).readable(),
            r is Ok <==> entry_readable(
                old(self).entries(),
                old(self).readable(),
                "META-INF/container.xml"@,
            ),
            r matches Ok(b) ==> entry_lookup(old(self).entries(), "META-INF/container.xml"@) == Some(b@),
    {
        self.get_entry("META-INF/container.xml")
    }
}

} // verus!
