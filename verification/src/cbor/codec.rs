//! The calls into `minicbor`. A decoder is made for each call, set to the position asked for, and
//! the position it stops at is handed back; an encoder appends to the vector it is given, and a
//! vector takes every write.

use vstd::prelude::*;

use crate::cbor::item::{
    bool_at, bool_item, bytes_at, bytes_item, count_at, float_width, head, item_end, text_at, text_item, uint_at,
};

verus! {

/// The text of the error that `minicbor::Decoder::u8` gives at position `pos` of `bytes`.
pub uninterp spec fn u8_fault(bytes: Seq<u8>, pos: int) -> Seq<char>;

/// The text of the error that `minicbor::Decoder::u16` gives at position `pos` of `bytes`.
pub uninterp spec fn u16_fault(bytes: Seq<u8>, pos: int) -> Seq<char>;

/// The text of the error that `minicbor::Decoder::u32` gives at position `pos` of `bytes`.
pub uninterp spec fn u32_fault(bytes: Seq<u8>, pos: int) -> Seq<char>;

/// The text of the error that `minicbor::Decoder::u64` gives at position `pos` of `bytes`.
pub uninterp spec fn u64_fault(bytes: Seq<u8>, pos: int) -> Seq<char>;

/// The text of the error that `minicbor::Decoder::bool` gives at position `pos` of `bytes`.
pub uninterp spec fn bool_fault(bytes: Seq<u8>, pos: int) -> Seq<char>;

/// The text of the error that `minicbor::Decoder::str` gives at position `pos` of `bytes`.
pub uninterp spec fn text_fault(bytes: Seq<u8>, pos: int) -> Seq<char>;

/// The text of the error that `minicbor::Decoder::bytes` gives at position `pos` of `bytes`.
pub uninterp spec fn bytes_fault(bytes: Seq<u8>, pos: int) -> Seq<char>;

/// The text of the error that `minicbor::Decoder::array` gives at position `pos` of `bytes`.
pub uninterp spec fn array_fault(bytes: Seq<u8>, pos: int) -> Seq<char>;

/// The text of the error that `minicbor::Decoder::map` gives at position `pos` of `bytes`.
pub uninterp spec fn map_fault(bytes: Seq<u8>, pos: int) -> Seq<char>;

/// Where `minicbor::Decoder::skip` stops when it starts at position `pos` of `bytes`, where there is no
/// complete item, or the text of the error that it gives.
pub uninterp spec fn other_skip(bytes: Seq<u8>, pos: int) -> Result<int, Seq<char>>;

/// Where passing over the item at `pos` leads: behind it, if it is a complete item.
#[verifier::opaque]
pub open spec fn skip_outcome(bytes: Seq<u8>, pos: int) -> Result<int, Seq<char>> {
    match item_end(bytes, pos) {
        Some(end) => Ok(end),
        None => other_skip(bytes, pos),
    }
}

/// The name that `minicbor::Decoder::datatype` gives (in its `Debug` form) to an item that is no
/// floating-point number, or the text of its error.
pub uninterp spec fn datatype_outcome(bytes: Seq<u8>, pos: int) -> Result<Seq<char>, Seq<char>>;

/// Calls `minicbor::Decoder::u8`: it reads an unsigned integer of any head width whose value is
/// at most `u8::MAX`, and fails on everything else.
#[verifier::external_body]
pub(crate) fn read_u8(bytes: &[u8], pos: usize) -> (r: Result<(u8, usize), String>)
    ensures
        match uint_at(bytes@, pos as int, u8::MAX as int) {
            Some((n, q)) => r == Ok::<(u8, usize), String>((n as u8, q as usize)),
            None => r matches Err(t) && t@ == u8_fault(bytes@, pos as int),
        },
{
    let mut decoder = minicbor::Decoder::new(bytes);
    decoder.set_position(pos);
    match decoder.u8() {
        Ok(v) => Ok((v, decoder.position())),
        Err(e) => Err(e.to_string()),
    }
}

/// Calls `minicbor::Decoder::u16`: it reads an unsigned integer of any head width whose value is
/// at most `u16::MAX`, and fails on everything else.
#[verifier::external_body]
pub(crate) fn read_u16(bytes: &[u8], pos: usize) -> (r: Result<(u16, usize), String>)
    ensures
        match uint_at(bytes@, pos as int, u16::MAX as int) {
            Some((n, q)) => r == Ok::<(u16, usize), String>((n as u16, q as usize)),
            None => r matches Err(t) && t@ == u16_fault(bytes@, pos as int),
        },
{
    let mut decoder = minicbor::Decoder::new(bytes);
    decoder.set_position(pos);
    match decoder.u16() {
        Ok(v) => Ok((v, decoder.position())),
        Err(e) => Err(e.to_string()),
    }
}

/// Calls `minicbor::Decoder::u32`: it reads an unsigned integer of any head width whose value is
/// at most `u32::MAX`, and fails on everything else.
#[verifier::external_body]
pub(crate) fn read_u32(bytes: &[u8], pos: usize) -> (r: Result<(u32, usize), String>)
    ensures
        match uint_at(bytes@, pos as int, u32::MAX as int) {
            Some((n, q)) => r == Ok::<(u32, usize), String>((n as u32, q as usize)),
            None => r matches Err(t) && t@ == u32_fault(bytes@, pos as int),
        },
{
    let mut decoder = minicbor::Decoder::new(bytes);
    decoder.set_position(pos);
    match decoder.u32() {
        Ok(v) => Ok((v, decoder.position())),
        Err(e) => Err(e.to_string()),
    }
}

/// Calls `minicbor::Decoder::u64`: it reads an unsigned integer of any head width whose value is
/// at most `u64::MAX`, and fails on everything else.
#[verifier::external_body]
pub(crate) fn read_u64(bytes: &[u8], pos: usize) -> (r: Result<(u64, usize), String>)
    ensures
        match uint_at(bytes@, pos as int, u64::MAX as int) {
            Some((n, q)) => r == Ok::<(u64, usize), String>((n as u64, q as usize)),
            None => r matches Err(t) && t@ == u64_fault(bytes@, pos as int),
        },
{
    let mut decoder = minicbor::Decoder::new(bytes);
    decoder.set_position(pos);
    match decoder.u64() {
        Ok(v) => Ok((v, decoder.position())),
        Err(e) => Err(e.to_string()),
    }
}

/// Calls `minicbor::Decoder::bool`: it reads one of the two truth values.
#[verifier::external_body]
pub(crate) fn read_bool(bytes: &[u8], pos: usize) -> (r: Result<(bool, usize), String>)
    ensures
        match bool_at(bytes@, pos as int) {
            Some((v, q)) => r == Ok::<(bool, usize), String>((v, q as usize)),
            None => r matches Err(t) && t@ == bool_fault(bytes@, pos as int),
        },
{
    let mut decoder = minicbor::Decoder::new(bytes);
    decoder.set_position(pos);
    match decoder.bool() {
        Ok(v) => Ok((v, decoder.position())),
        Err(e) => Err(e.to_string()),
    }
}

/// Calls `minicbor::Decoder::str`: it reads a text string of definite length, all of which must be
/// there and be UTF-8.
#[verifier::external_body]
pub(crate) fn read_text(bytes: &[u8], pos: usize) -> (r: Result<(String, usize), String>)
    ensures
        match text_at(bytes@, pos as int) {
            Some((s, q)) => r matches Ok((v, end)) && v@ == s && end == q,
            None => r matches Err(t) && t@ == text_fault(bytes@, pos as int),
        },
{
    let mut decoder = minicbor::Decoder::new(bytes);
    decoder.set_position(pos);
    match decoder.str() {
        Ok(v) => Ok((v.to_owned(), decoder.position())),
        Err(e) => Err(e.to_string()),
    }
}

/// Calls `minicbor::Decoder::bytes`: it reads a byte string of definite length, all of which must
/// be there.
#[verifier::external_body]
pub(crate) fn read_bytes(bytes: &[u8], pos: usize) -> (r: Result<(Vec<u8>, usize), String>)
    ensures
        match bytes_at(bytes@, pos as int) {
            Some((s, q)) => r matches Ok((v, end)) && v@ == s && end == q,
            None => r matches Err(t) && t@ == bytes_fault(bytes@, pos as int),
        },
{
    let mut decoder = minicbor::Decoder::new(bytes);
    decoder.set_position(pos);
    match decoder.bytes() {
        Ok(v) => Ok((v.to_vec(), decoder.position())),
        Err(e) => Err(e.to_string()),
    }
}

/// Calls `minicbor::Decoder::array`: it reads the head of an array and gives the count in it, `None` for
/// one of indefinite length.
#[verifier::external_body]
pub(crate) fn read_array(bytes: &[u8], pos: usize) -> (r: Result<(Option<u64>, usize), String>)
    ensures
        match count_at(bytes@, pos as int, 4) {
            Some((Some(n), q)) => r == Ok::<(Option<u64>, usize), String>(
                (Some(n as u64), q as usize),
            ),
            Some((None, q)) => r == Ok::<(Option<u64>, usize), String>((None, q as usize)),
            None => r matches Err(t) && t@ == array_fault(bytes@, pos as int),
        },
{
    let mut decoder = minicbor::Decoder::new(bytes);
    decoder.set_position(pos);
    match decoder.array() {
        Ok(v) => Ok((v, decoder.position())),
        Err(e) => Err(e.to_string()),
    }
}

/// Calls `minicbor::Decoder::map`: it reads the head of a map and gives the count in it, `None` for
/// one of indefinite length.
#[verifier::external_body]
pub(crate) fn read_map(bytes: &[u8], pos: usize) -> (r: Result<(Option<u64>, usize), String>)
    ensures
        match count_at(bytes@, pos as int, 5) {
            Some((Some(n), q)) => r == Ok::<(Option<u64>, usize), String>(
                (Some(n as u64), q as usize),
            ),
            Some((None, q)) => r == Ok::<(Option<u64>, usize), String>((None, q as usize)),
            None => r matches Err(t) && t@ == map_fault(bytes@, pos as int),
        },
{
    let mut decoder = minicbor::Decoder::new(bytes);
    decoder.set_position(pos);
    match decoder.map() {
        Ok(v) => Ok((v, decoder.position())),
        Err(e) => Err(e.to_string()),
    }
}

/// Calls `minicbor::Decoder::skip`: it passes over the item at `pos`, whatever it is, and stops behind
/// it; where a length is indefinite, it looks for the break that belongs to it. It takes at least one
/// byte and never goes beyond the end. What it does where there is no complete item is not spelled out
/// here.
#[verifier::external_body]
pub(crate) fn skip_item(bytes: &[u8], pos: usize) -> (r: Result<usize, String>)
    ensures
        match item_end(bytes@, pos as int) {
            Some(q) => r == Ok::<usize, String>(q as usize) && pos < q <= bytes@.len(),
            None => match other_skip(bytes@, pos as int) {
                Ok(q) => r == Ok::<usize, String>(q as usize) && pos < q <= bytes@.len(),
                Err(t) => r matches Err(e) && e@ == t,
            },
        },
{
    let mut decoder = minicbor::Decoder::new(bytes);
    decoder.set_position(pos);
    match decoder.skip() {
        Ok(()) => Ok(decoder.position()),
        Err(e) => Err(e.to_string()),
    }
}

/// What stands at a position, as far as a reader of floating-point numbers asks.
pub enum Datatype {
    Half,
    Single,
    Double,
    Other(String),
}

/// Calls `minicbor::Decoder::datatype`: it tells the type of the item at `pos` by its initial byte.
/// The names of the types that are not floating-point numbers are not spelled out here.
#[verifier::external_body]
pub(crate) fn read_datatype(bytes: &[u8], pos: usize) -> (r: Result<Datatype, String>)
    ensures
        float_width(bytes@, pos as int) == Some(2int) ==> r matches Ok(Datatype::Half),
        float_width(bytes@, pos as int) == Some(4int) ==> r matches Ok(Datatype::Single),
        float_width(bytes@, pos as int) == Some(8int) ==> r matches Ok(Datatype::Double),
        float_width(bytes@, pos as int) is None ==> (match datatype_outcome(
            bytes@,
            pos as int,
        ) {
            Ok(name) => r matches Ok(Datatype::Other(s)) && s@ == name,
            Err(t) => r matches Err(e) && e@ == t,
        }),
{
    let mut decoder = minicbor::Decoder::new(bytes);
    decoder.set_position(pos);
    match decoder.datatype() {
        Ok(minicbor::data::Type::F16) => Ok(Datatype::Half),
        Ok(minicbor::data::Type::F32) => Ok(Datatype::Single),
        Ok(minicbor::data::Type::F64) => Ok(Datatype::Double),
        Ok(other) => Ok(Datatype::Other(format!("{other:?}"))),
        Err(e) => Err(e.to_string()),
    }
}

/// Calls `minicbor::Encoder::u8`: it appends the integer under its shortest head.
#[verifier::external_body]
pub(crate) fn put_u8(out: &mut Vec<u8>, v: u8)
    ensures
        final(out)@ == old(out)@ + head(0, v as int),
{
    let _ = minicbor::Encoder::new(out).u8(v);
}

/// Calls `minicbor::Encoder::u16`: it appends the integer under its shortest head.
#[verifier::external_body]
pub(crate) fn put_u16(out: &mut Vec<u8>, v: u16)
    ensures
        final(out)@ == old(out)@ + head(0, v as int),
{
    let _ = minicbor::Encoder::new(out).u16(v);
}

/// Calls `minicbor::Encoder::u32`: it appends the integer under its shortest head.
#[verifier::external_body]
pub(crate) fn put_u32(out: &mut Vec<u8>, v: u32)
    ensures
        final(out)@ == old(out)@ + head(0, v as int),
{
    let _ = minicbor::Encoder::new(out).u32(v);
}

/// Calls `minicbor::Encoder::u64`: it appends the integer under its shortest head.
#[verifier::external_body]
pub(crate) fn put_u64(out: &mut Vec<u8>, v: u64)
    ensures
        final(out)@ == old(out)@ + head(0, v as int),
{
    let _ = minicbor::Encoder::new(out).u64(v);
}

/// Calls `minicbor::Encoder::bool`: it appends the one byte of the truth value.
#[verifier::external_body]
pub(crate) fn put_bool(out: &mut Vec<u8>, v: bool)
    ensures
        final(out)@ == old(out)@ + bool_item(v),
{
    let _ = minicbor::Encoder::new(out).bool(v);
}

/// Calls `minicbor::Encoder::str`: it appends the length in bytes under the shortest head, then the
/// UTF-8 bytes.
#[verifier::external_body]
pub(crate) fn put_text(out: &mut Vec<u8>, v: &str)
    ensures
        final(out)@ == old(out)@ + text_item(v@),
{
    let _ = minicbor::Encoder::new(out).str(v);
}

/// Calls `minicbor::Encoder::bytes`: it appends the length under the shortest head, then the bytes.
#[verifier::external_body]
pub(crate) fn put_bytes(out: &mut Vec<u8>, v: &[u8])
    ensures
        final(out)@ == old(out)@ + bytes_item(v@),
{
    let _ = minicbor::Encoder::new(out).bytes(v);
}

/// Calls `minicbor::Encoder::array`: it appends the head of an array of `len` elements.
#[verifier::external_body]
pub(crate) fn put_array(out: &mut Vec<u8>, len: u64)
    ensures
        final(out)@ == old(out)@ + head(4, len as int),
{
    let _ = minicbor::Encoder::new(out).array(len);
}

/// Calls `minicbor::Encoder::map`: it appends the head of a map of `len` entries.
#[verifier::external_body]
pub(crate) fn put_map(out: &mut Vec<u8>, len: u64)
    ensures
        final(out)@ == old(out)@ + head(5, len as int),
{
    let _ = minicbor::Encoder::new(out).map(len);
}

} // verus!
