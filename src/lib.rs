use vstd::prelude::*;

pub mod array;
pub mod coerce;
pub mod creation;
pub mod dict;
pub mod getters;
pub mod handle;
pub mod import;
pub mod laws;
pub mod setters;
pub mod utils;
pub mod value;

verus! {

/// The kind of a node's value.
#[allow(non_camel_case_types)]
#[derive(Clone, Copy, Debug, PartialEq, Eq, Structural)]
pub enum PlistType {
    PLIST_NONE,
    PLIST_BOOLEAN,
    PLIST_INT,
    PLIST_REAL,
    PLIST_STRING,
    PLIST_ARRAY,
    PLIST_DICT,
    PLIST_DATE,
    PLIST_DATA,
    PLIST_KEY,
    PLIST_UID,
    PLIST_NULL,
}

/// Result codes.
#[allow(non_camel_case_types)]
#[derive(Clone, Copy, Debug, PartialEq, Eq, Structural)]
pub enum PlistErr {
    PLIST_ERR_SUCCESS,
    PLIST_ERR_INVALID_ARG,
    PLIST_ERR_FORMAT,
    PLIST_ERR_PARSE,
    PLIST_ERR_NO_MEM,
    PLIST_ERR_IO,
    PLIST_ERR_UNKNOWN,
}

/// Serialization formats.
#[allow(non_camel_case_types)]
#[derive(Clone, Copy, Debug, PartialEq, Eq, Structural)]
pub enum PlistFormat {
    PLIST_FORMAT_NONE,
    PLIST_FORMAT_XML,
    PLIST_FORMAT_BINARY,
    PLIST_FORMAT_JSON,
    PLIST_FORMAT_OSTEP,
    PLIST_FORMAT_PRINT,
    PLIST_FORMAT_LIMD,
    PLIST_FORMAT_PLUTIL,
}

pub type PlistWriteOptions = u32;

pub const PLIST_OPT_NONE: PlistWriteOptions = 0;

pub const PLIST_OPT_COMPACT: PlistWriteOptions = 1;

pub const PLIST_OPT_PARTIAL_DATA: PlistWriteOptions = 2;

pub const PLIST_OPT_NO_NEWLINE: PlistWriteOptions = 4;

pub const PLIST_OPT_INDENT: PlistWriteOptions = 8;

} // verus!
