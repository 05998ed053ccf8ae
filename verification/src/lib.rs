//! Reader for a package manager's on-disk local record store.
//!
//! The store keeps one directory per installed package; each directory holds a
//! textual descriptor with the package's metadata and a compressed manifest
//! listing the files the package owns.  This crate provides the two parsers
//! and a lazily filled, name-keyed cache over a snapshot of such a store.

use vstd::prelude::*;

pub mod db;
pub mod desc;
pub mod files;
pub mod interface;
pub mod mtree;
pub mod text;

verus! {

/// Spec-level image of [`Error`]: string payloads as character sequences.
pub enum ErrorV {
    /// A package directory has no descriptor file (payload: directory name).
    MissingDesc(Seq<char>),
    /// A package directory has no manifest file (payload: directory name).
    MissingMtree(Seq<char>),
    /// A descriptor names an architecture outside the closed set (payload: the value).
    BadArchitecture(Seq<char>),
    /// A descriptor names a validation method outside the closed set (payload: the value).
    BadValidation(Seq<char>),
    /// A descriptor holds a label outside the recognized set
    /// (payloads: the label, and the package name parsed so far or a placeholder).
    UnknownSection(Seq<char>, Seq<char>),
    /// A descriptor never set the mandatory NAME field.
    MissingName,
    /// A descriptor never set the mandatory VERSION field.
    MissingVersion,
    /// A manifest byte stream did not decompress to text.
    Decode,
    /// A manifest key demanded an integer and got something else (payload: the value).
    BadInteger(Seq<char>),
    /// A manifest names a file type outside the closed set
    /// (payloads: the value, and the line it stands on).
    BadFileType(Seq<char>, Seq<char>),
    /// A manifest digest key has an unrecognized hash-algorithm prefix (payload: the prefix).
    BadHashKind(Seq<char>),
    /// A manifest key is outside the recognized set
    /// (payloads: the key, and the line it stands on).
    UnknownKey(Seq<char>, Seq<char>),
    /// No store directory yielded the requested package (payload: the name).
    NotFound(Seq<char>),
}

/// Everything that can go wrong while reading the store: missing source
/// files, format faults in either parser, the two mandatory descriptor
/// fields, a failed decompression, and a failed lookup.
#[derive(Debug, PartialEq, Eq)]
pub enum Error {
    MissingDesc(String),
    MissingMtree(String),
    BadArchitecture(String),
    BadValidation(String),
    UnknownSection(String, String),
    MissingName,
    MissingVersion,
    Decode,
    BadInteger(String),
    BadFileType(String, String),
    BadHashKind(String),
    UnknownKey(String, String),
    NotFound(String),
}

impl View for Error {
    type V = ErrorV;

    open spec fn view(&self) -> ErrorV {
        match self {
            Error::MissingDesc(d) => ErrorV::MissingDesc(d@),
            Error::MissingMtree(d) => ErrorV::MissingMtree(d@),
            Error::BadArchitecture(v) => ErrorV::BadArchitecture(v@),
            Error::BadValidation(v) => ErrorV::BadValidation(v@),
            Error::UnknownSection(s, p) => ErrorV::UnknownSection(s@, p@),
            Error::MissingName => ErrorV::MissingName,
            Error::MissingVersion => ErrorV::MissingVersion,
            Error::Decode => ErrorV::Decode,
            Error::BadInteger(v) => ErrorV::BadInteger(v@),
            Error::BadFileType(v, l) => ErrorV::BadFileType(v@, l@),
            Error::BadHashKind(v) => ErrorV::BadHashKind(v@),
            Error::UnknownKey(k, l) => ErrorV::UnknownKey(k@, l@),
            Error::NotFound(n) => ErrorV::NotFound(n@),
        }
    }
}

} // verus!
