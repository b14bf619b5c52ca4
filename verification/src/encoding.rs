//! The text encodings a source may be declared to use.
//!
//! The byte-to-text decoding itself is done by the caller before the
//! parsers run; here only the encoding names are parsed.

use vstd::prelude::*;

use crate::dialect::name_eq;
use crate::text::eq_ignore_case;

verus! {

/// A supported source encoding.
#[derive(Debug, PartialEq, Eq, Clone, Copy, Structural)]
pub enum Encoding {
    ASCII,
    /// Also known as ISO-8859-1.
    Latin1,
    UTF8,
    UTF16BE,
    UTF16LE,
    UTF32BE,
    UTF32LE,
}

/// The name did not denote an encoding.
#[derive(Debug, PartialEq, Eq, Clone, Copy, Structural)]
pub struct IllegalEncoding {}

/// The encoding a configuration name denotes, ASCII
/// case-insensitively, with the usual aliases and Windows code page
/// names.
pub open spec fn spec_encoding_from(v: Seq<char>) -> Result<Encoding, IllegalEncoding> {
    if name_eq(v, "utf-8"@) || name_eq(v, "utf8"@) || name_eq(v, "windows-65001"@) {
        Ok(Encoding::UTF8)
    } else if name_eq(v, "ascii"@) || name_eq(v, "us-ascii"@) || name_eq(v, "windows-20127"@) {
        Ok(Encoding::ASCII)
    } else if name_eq(v, "latin1"@) || name_eq(v, "iso-8859-1"@) || name_eq(v, "iso8859-1"@)
        || name_eq(v, "iso8859_1"@) || name_eq(v, "windows-28591"@) || name_eq(v, "cp819"@) {
        Ok(Encoding::Latin1)
    } else if name_eq(v, "utf-16le"@) || name_eq(v, "utf16le"@) || name_eq(v, "windows-1200"@) {
        Ok(Encoding::UTF16LE)
    } else if name_eq(v, "utf-16be"@) || name_eq(v, "utf16be"@) || name_eq(v, "windows-1201"@) {
        Ok(Encoding::UTF16BE)
    } else if name_eq(v, "utf-32le"@) || name_eq(v, "utf32le"@) || name_eq(v, "windows-12000"@) {
        Ok(Encoding::UTF32LE)
    } else if name_eq(v, "utf-32be"@) || name_eq(v, "utf32be"@) || name_eq(v, "windows-12001"@) {
        Ok(Encoding::UTF32BE)
    } else {
        Err(IllegalEncoding {  })
    }
}

impl Encoding {
    /// Parses an encoding name.
    pub fn try_from(value: &str) -> (r: Result<Encoding, IllegalEncoding>)
        ensures
            r == spec_encoding_from(value@),
    {
        if eq_ignore_case(value, "utf-8") || eq_ignore_case(value, "utf8") || eq_ignore_case(
            value,
            "windows-65001",
        ) {
            Ok(Encoding::UTF8)
        } else if eq_ignore_case(value, "ascii") || eq_ignore_case(value, "us-ascii")
            || eq_ignore_case(value, "windows-20127") {
            Ok(Encoding::ASCII)
        } else if eq_ignore_case(value, "latin1") || eq_ignore_case(value, "iso-8859-1")
            || eq_ignore_case(value, "iso8859-1") || eq_ignore_case(value, "iso8859_1")
            || eq_ignore_case(value, "windows-28591") || eq_ignore_case(value, "cp819") {
            Ok(Encoding::Latin1)
        } else if eq_ignore_case(value, "utf-16le") || eq_ignore_case(value, "utf16le")
            || eq_ignore_case(value, "windows-1200") {
            Ok(Encoding::UTF16LE)
        } else if eq_ignore_case(value, "utf-16be") || eq_ignore_case(value, "utf16be")
            || eq_ignore_case(value, "windows-1201") {
            Ok(Encoding::UTF16BE)
        } else if eq_ignore_case(value, "utf-32le") || eq_ignore_case(value, "utf32le")
            || eq_ignore_case(value, "windows-12000") {
            Ok(Encoding::UTF32LE)
        } else if eq_ignore_case(value, "utf-32be") || eq_ignore_case(value, "utf32be")
            || eq_ignore_case(value, "windows-12001") {
            Ok(Encoding::UTF32BE)
        } else {
            Err(IllegalEncoding {  })
        }
    }
}

impl Default for Encoding {
    /// The default encoding.
    fn default() -> (r: Self)
        ensures
            r == Encoding::UTF8,
    {
        Encoding::UTF8
    }
}

} // verus!
