//! The parts of an opened `.pptx` (a zip read into memory).
use vstd::prelude::*;

use crate::error::PptxError;
use crate::text::chars_eq;
use crate::text::chars_of;
use vstd::utf8::{decode_utf8, valid_utf8};

verus! {

/// One part of a package: its name inside the zip and its bytes.
#[derive(Debug, Clone)]
pub struct PackagePart {
    pub name: String,
    pub bytes: Vec<u8>,
}

/// An opened `.pptx`: every part it holds.
#[derive(Debug, Clone)]
pub struct Package {
    pub parts: Vec<PackagePart>,
}

/// The bytes of the first part named `name`, if any.
pub open spec fn part_bytes(parts: Seq<PackagePart>, name: Seq<char>) -> Option<Seq<u8>>
    decreases parts.len(),
{
    if parts.len() == 0 {
        None
    } else if parts[0].name@ == name {
        Some(parts[0].bytes@)
    } else {
        part_bytes(parts.drop_first(), name)
    }
}

/// The text of the first part named `name`, when it holds UTF-8.
pub open spec fn part_text(parts: Seq<PackagePart>, name: Seq<char>) -> Option<Seq<char>> {
    match part_bytes(parts, name) {
        Some(b) => if valid_utf8(b) {
            Some(decode_utf8(b))
        } else {
            None
        },
        None => None,
    }
}

/// The zip crate's error for a part the archive does not hold.
///
/// Trusted: builds `zip::result::ZipError::FileNotFound`; nothing is
/// stated of the value.
#[verifier::external_body]
fn file_not_found() -> zip::result::ZipError {
    zip::result::ZipError::FileNotFound
}

/// Decodes UTF-8 bytes.
///
/// Trusted: calls `String::from_utf8`, which std documents as succeeding
/// exactly on valid UTF-8 and then holding the decoded characters.
#[verifier::external_body]
fn string_from_utf8(bytes: Vec<u8>) -> (res: Option<String>)
    ensures
        res matches Some(s) ==> valid_utf8(bytes@) && s@ == decode_utf8(bytes@),
        res is None ==> !valid_utf8(bytes@),
{
    String::from_utf8(bytes).ok()
}

impl Package {
    /// The bytes of the part `name`.
    pub fn read_bytes(&self, name: &str) -> (res: Result<Vec<u8>, PptxError>)
        ensures
            match part_bytes(self.parts@, name@) {
                Some(b) => res matches Ok(v) && v@ == b,
                None => res matches Err(PptxError::Zip(_)),
            },
    {
        let wanted = chars_of(name);
        let mut i: usize = 0;
        assert(self.parts@.skip(0) =~= self.parts@);
        while i < self.parts.len()
            invariant
                i <= self.parts@.len(),
                wanted@ == name@,
                part_bytes(self.parts@, name@) == part_bytes(self.parts@.skip(i as int), name@),
            decreases self.parts.len() - i,
        {
            assert(self.parts@.skip(i as int).drop_first() =~= self.parts@.skip(i + 1));
            if chars_eq(&chars_of(self.parts[i].name.as_str()), &wanted) {
                let mut bytes: Vec<u8> = Vec::new();
                let src = &self.parts[i].bytes;
                let mut k: usize = 0;
                while k < src.len()
                    invariant
                        k <= src@.len(),
                        bytes@ == src@.take(k as int),
                    decreases src.len() - k,
                {
                    bytes.push(src[k]);
                    assert(src@.take(k + 1) =~= src@.take(k as int).push(src@[k as int]));
                    k += 1;
                }
                assert(src@.take(src@.len() as int) =~= src@);
                return Ok(bytes);
            }
            i += 1;
        }
        Err(PptxError::Zip(file_not_found()))
    }

    /// The text of the part `name`, which must be UTF-8.
    pub fn read_string(&self, name: &str) -> (res: Result<String, PptxError>)
        ensures
            part_bytes(self.parts@, name@) is None ==> res matches Err(PptxError::Zip(_)),
            part_bytes(self.parts@, name@) is Some ==> match part_text(self.parts@, name@) {
                Some(t) => res matches Ok(s) && s@ == t,
                None => res matches Err(PptxError::Xml(m)) && m@ == "part is not UTF-8 text: "@
                    + name@,
            },
    {
        let bytes = self.read_bytes(name)?;
        match string_from_utf8(bytes) {
            Some(s) => Ok(s),
            None => {
                let mut m = String::from_str("part is not UTF-8 text: ");
                m.append(name);
                Err(PptxError::Xml(m))
            },
        }
    }
}

} // verus!
