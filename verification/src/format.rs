//! The constants of the ADF format and the messages of its errors.

use vstd::prelude::*;
use crate::text::{decimal, decimal_list, push_decimal};
use crate::document::{AdfError, ErrorModel};

verus! {

/// The document versions that this library reads and writes.
pub const SUPPORTED_ADF_VERSIONS: [u32; 1] = [1];

/// The first four bytes of every binary document: `ADFB`.
pub const ADFB_MAGIC: [u8; 4] = [65, 68, 70, 66];

/// The tag that announces a name spelled out in full rather than tagged.
pub const CUSTOM_TAG: u8 = 0;

/// The versions of the format that this library reads and writes.
pub open spec fn supported_versions() -> Seq<u32> {
    seq![1u32]
}

/// Whether a version is one that this library reads and writes.
pub open spec fn is_supported_version(v: u32) -> bool {
    supported_versions().contains(v)
}

/// The four bytes that start the binary form: `ADFB`.
pub open spec fn magic() -> Seq<u8> {
    seq![65u8, 68u8, 70u8, 66u8]
}

/// The supported versions as a list: `1`.
pub open spec fn supported_versions_text() -> Seq<char> {
    decimal_list(supported_versions().map_values(|v: u32| v as nat))
}

/// A byte string as Rust's `{:?}` shows it: `[65, 68, 70, 66]`.
pub open spec fn debug_bytes(b: Seq<u8>) -> Seq<char> {
    "["@ + decimal_list(b.map_values(|x: u8| x as nat)) + "]"@
}

/// `unsupported ADF version <v> (supported: <list>)`.
pub open spec fn msg_unsupported_version(v: u32) -> Seq<char> {
    "unsupported ADF version "@ + decimal(v as nat) + " (supported: "@ + supported_versions_text()
        + ")"@
}

/// `cannot encode unsupported ADF version <v> (supported: <list>)`.
pub open spec fn msg_cannot_encode_version(v: u32) -> Seq<char> {
    "cannot encode unsupported ADF version "@ + decimal(v as nat) + " (supported: "@
        + supported_versions_text() + ")"@
}

/// A read whose end does not fit in a `usize`.
pub open spec fn msg_offset_overflow() -> Seq<char> {
    "ADFB offset overflow"@
}

/// `unexpected end of ADFB input at byte <at>, needed <n> more bytes`.
pub open spec fn msg_unexpected_end(at: nat, needed: nat) -> Seq<char> {
    "unexpected end of ADFB input at byte "@ + decimal(at) + ", needed "@ + decimal(needed)
        + " more bytes"@
}

/// `invalid ADFB magic <found>, expected [65, 68, 70, 66]`.
pub open spec fn msg_bad_magic(found: Seq<u8>) -> Seq<char> {
    "invalid ADFB magic "@ + debug_bytes(found) + ", expected "@ + debug_bytes(magic())
}

/// `unknown <what> tag <tag> at byte <at>`.
pub open spec fn msg_unknown_tag(what: Seq<char>, tag: u8, at: nat) -> Seq<char> {
    "unknown "@ + what + " tag "@ + decimal(tag as nat) + " at byte "@ + decimal(at)
}

/// `invalid <what> <value> at byte <at>`.
pub open spec fn msg_invalid_byte(what: Seq<char>, value: u8, at: nat) -> Seq<char> {
    "invalid "@ + what + " "@ + decimal(value as nat) + " at byte "@ + decimal(at)
}

/// `ADFB has <n> trailing bytes`.
pub open spec fn msg_trailing(n: nat) -> Seq<char> {
    "ADFB has "@ + decimal(n) + " trailing bytes"@
}

/// `<what> exceeds u32::MAX in ADFB encoding`.
pub open spec fn msg_too_long(what: Seq<char>) -> Seq<char> {
    what + " exceeds u32::MAX in ADFB encoding"@
}

/// Whether `v` is one of the supported versions.
pub fn version_is_supported(v: u32) -> (r: bool)
    ensures
        r == is_supported_version(v),
{
    let mut i: usize = 0;
    while i < SUPPORTED_ADF_VERSIONS.len()
        invariant
            SUPPORTED_ADF_VERSIONS@ == supported_versions(),
            i <= supported_versions().len(),
            forall|j: int| 0 <= j < i ==> supported_versions()[j] != v,
        decreases supported_versions().len() - i,
    {
        if SUPPORTED_ADF_VERSIONS[i] == v {
            assert(supported_versions()[i as int] == v);
            return true;
        }
        i = i + 1;
    }
    false
}

/// Appends the decimal numerals of `items`, separated by `", "`.
pub fn push_decimal_list(s: &mut String, items: &[u64])
    ensures
        final(s)@ == old(s)@ + decimal_list(items@.map_values(|x: u64| x as nat)),
{
    let ghost start = s@;
    let ghost all = items@.map_values(|x: u64| x as nat);
    let mut i: usize = 0;
    while i < items.len()
        invariant
            i <= items@.len(),
            all == items@.map_values(|x: u64| x as nat),
            s@ == start + decimal_list(all.take(i as int)),
        decreases items@.len() - i,
    {
        proof {
            assert(all.take(i + 1).drop_last() =~= all.take(i as int));
            assert(all.take(i + 1).last() == items@[i as int] as nat);
        }
        if i > 0 {
            s.push_str(", ");
        }
        push_decimal(s, items[i]);
        proof {
            if i == 0 {
                assert(all.take(1) =~= seq![all[0]]);
            }
        }
        i = i + 1;
    }
    assert(all.take(items@.len() as int) =~= all);
}

/// The supported versions as a list, as error messages show them.
pub fn supported_versions_string() -> (r: String)
    ensures
        r@ == supported_versions_text(),
{
    let mut s = String::new();
    let mut items: Vec<u64> = Vec::new();
    let mut i: usize = 0;
    while i < SUPPORTED_ADF_VERSIONS.len()
        invariant
            SUPPORTED_ADF_VERSIONS@ == supported_versions(),
            i <= supported_versions().len(),
            items@ == supported_versions().take(i as int).map_values(|v: u32| v as u64),
        decreases supported_versions().len() - i,
    {
        items.push(SUPPORTED_ADF_VERSIONS[i] as u64);
        proof {
            assert(supported_versions().take(i + 1).map_values(|v: u32| v as u64) =~= supported_versions().take(
                i as int,
            ).map_values(|v: u32| v as u64).push(SUPPORTED_ADF_VERSIONS@[i as int] as u64));
        }
        i = i + 1;
    }
    push_decimal_list(&mut s, items.as_slice());
    proof {
        assert(supported_versions().take(1) =~= supported_versions());
        assert(items@.map_values(|x: u64| x as nat) =~= supported_versions().map_values(
            |v: u32| v as nat,
        ));
    }
    s
}

/// Appends a byte string as Rust's `{:?}` shows it.
pub fn push_debug_bytes(s: &mut String, b: &[u8])
    ensures
        final(s)@ == old(s)@ + debug_bytes(b@),
{
    let mut items: Vec<u64> = Vec::new();
    let mut i: usize = 0;
    while i < b.len()
        invariant
            i <= b@.len(),
            items@ == b@.take(i as int).map_values(|x: u8| x as u64),
        decreases b@.len() - i,
    {
        items.push(b[i] as u64);
        proof {
            assert(b@.take(i + 1).map_values(|x: u8| x as u64) =~= b@.take(i as int).map_values(
                |x: u8| x as u64,
            ).push(b@[i as int] as u64));
        }
        i = i + 1;
    }
    s.push_str("[");
    push_decimal_list(s, items.as_slice());
    s.push_str("]");
    proof {
        assert(b@.take(b@.len() as int) =~= b@);
        assert(items@.map_values(|x: u64| x as nat) =~= b@.map_values(|x: u8| x as nat));
    }
}

/// The message for a version that this library does not read.
pub fn unsupported_version_message(v: u32) -> (r: String)
    ensures
        r@ == msg_unsupported_version(v),
{
    let mut s = String::new();
    s.push_str("unsupported ADF version ");
    push_decimal(&mut s, v as u64);
    s.push_str(" (supported: ");
    let list = supported_versions_string();
    s.push_str(list.as_str());
    s.push_str(")");
    s
}

/// The error for writing a document of a version that this library does not write.
pub fn cannot_encode_version_error(v: u32) -> (e: AdfError)
    ensures
        e@ == ErrorModel::Binary(msg_cannot_encode_version(v)),
{
    let mut s = String::new();
    s.push_str("cannot encode unsupported ADF version ");
    push_decimal(&mut s, v as u64);
    s.push_str(" (supported: ");
    let list = supported_versions_string();
    s.push_str(list.as_str());
    s.push_str(")");
    AdfError::Binary(s)
}

/// The error for a read whose end does not fit in a `usize`.
pub fn offset_overflow_error() -> (e: AdfError)
    ensures
        e@ == ErrorModel::Binary(msg_offset_overflow()),
{
    let mut s = String::new();
    s.push_str("ADFB offset overflow");
    AdfError::Binary(s)
}

/// The error for input that ends `needed` bytes short of a read at `at`.
pub fn unexpected_end_error(at: usize, needed: usize) -> (e: AdfError)
    ensures
        e@ == ErrorModel::Binary(msg_unexpected_end(at as nat, needed as nat)),
{
    let mut s = String::new();
    s.push_str("unexpected end of ADFB input at byte ");
    push_decimal(&mut s, at as u64);
    s.push_str(", needed ");
    push_decimal(&mut s, needed as u64);
    s.push_str(" more bytes");
    AdfError::Binary(s)
}

/// The error for a binary form that does not start with `ADFB`.
pub fn bad_magic_error(found: &[u8]) -> (e: AdfError)
    ensures
        e@ == ErrorModel::Binary(msg_bad_magic(found@)),
{
    let mut s = String::new();
    s.push_str("invalid ADFB magic ");
    push_debug_bytes(&mut s, found);
    s.push_str(", expected ");
    push_debug_bytes(&mut s, &ADFB_MAGIC);
    proof {
        assert(ADFB_MAGIC@ =~= magic());
    }
    AdfError::Binary(s)
}

/// The error for a tag byte that names nothing.
pub fn unknown_tag_error(what: &str, tag: u8, at: usize) -> (e: AdfError)
    ensures
        e@ == ErrorModel::Binary(msg_unknown_tag(what@, tag, at as nat)),
{
    let mut s = String::new();
    s.push_str("unknown ");
    s.push_str(what);
    s.push_str(" tag ");
    push_decimal(&mut s, tag as u64);
    s.push_str(" at byte ");
    push_decimal(&mut s, at as u64);
    AdfError::Binary(s)
}

/// The error for a byte that holds a value out of its range.
pub fn invalid_byte_error(what: &str, value: u8, at: usize) -> (e: AdfError)
    ensures
        e@ == ErrorModel::Binary(msg_invalid_byte(what@, value, at as nat)),
{
    let mut s = String::new();
    s.push_str("invalid ");
    s.push_str(what);
    s.push_str(" ");
    push_decimal(&mut s, value as u64);
    s.push_str(" at byte ");
    push_decimal(&mut s, at as u64);
    AdfError::Binary(s)
}

/// The error for bytes left over after the document.
pub fn trailing_error(n: usize) -> (e: AdfError)
    ensures
        e@ == ErrorModel::Binary(msg_trailing(n as nat)),
{
    let mut s = String::new();
    s.push_str("ADFB has ");
    push_decimal(&mut s, n as u64);
    s.push_str(" trailing bytes");
    AdfError::Binary(s)
}

/// The error for a count or length that does not fit in 32 bits.
pub fn too_long_error(what: &str) -> (e: AdfError)
    ensures
        e@ == ErrorModel::Binary(msg_too_long(what@)),
{
    let mut s = String::new();
    s.push_str(what);
    s.push_str(" exceeds u32::MAX in ADFB encoding");
    AdfError::Binary(s)
}

} // verus!
