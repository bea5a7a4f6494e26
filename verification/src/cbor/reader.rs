//! Reading records: one loop over the entries of a map, whatever the record.

use vstd::prelude::*;

use crate::cbor::codec::{
    read_array, read_bool, read_bytes, read_map, read_text, read_u16, read_u32, read_u64, read_u8,
    skip_item, skip_outcome,
};
use crate::cbor::error::{Error, ErrorView};
use crate::cbor::float::read_double;
use crate::cbor::item::{argument_bounds, count_at, head_at_bounds};
use crate::cbor::key::Key;
use crate::cbor::schema::{
    doubles_from, fields_from, indefinite_text, kind_of, list_at, merge, octets_from, record_at,
    refusal, value_at, words_from, Fields, Kind, Schema, Value,
};
use crate::double::Double;

verus! {

/// The part of a record that has been read so far.
pub trait Parts: Sized {
    /// Which record it is.
    spec fn schema() -> Schema;

    /// The fields read so far.
    spec fn fields(self) -> Fields;

    /// Nothing read yet.
    fn none() -> (r: Self)
        ensures
            r.fields() == Map::<Key, Value>::empty(),
    ;

    /// Reads the value of `key`, which stands at `pos`, and returns the position behind it.
    fn take(&mut self, key: Key, bytes: &[u8], pos: usize) -> (r: Result<usize, Error>)
        ensures
            match value_at(kind_of(Self::schema(), key), bytes@, pos as int) {
                Ok((v, q)) => {
                    &&& r matches Ok(end) && end == q
                    &&& final(self).fields() == merge(Self::schema(), old(self).fields(), key, v)
                },
                Err(e) => r matches Err(x) && x@ == e,
            },
    ;
}

// ---------------------------------------------------------------------------------------------
// Single values
// ---------------------------------------------------------------------------------------------
pub(crate) fn take_text(bytes: &[u8], pos: usize) -> (r: Result<(String, usize), Error>)
    ensures
        match value_at(Kind::Text, bytes@, pos as int) {
            Ok((v, q)) => r matches Ok((x, end)) && v == Value::Text(x@) && end == q,
            Err(e) => r matches Err(x) && x@ == e,
        },
{
    match read_text(bytes, pos) {
        Ok(found) => Ok(found),
        Err(t) => Err(Error::Decode(t)),
    }
}

pub(crate) fn take_u8(bytes: &[u8], pos: usize) -> (r: Result<(u8, usize), Error>)
    ensures
        match value_at(Kind::U8, bytes@, pos as int) {
            Ok((v, q)) => r matches Ok((x, end)) && v == Value::Uint(x as int) && end == q,
            Err(e) => r matches Err(x) && x@ == e,
        },
{
    proof {
        head_at_bounds(bytes@, pos as int, 0);
        assert(bytes@.len() == bytes.len());
    }
    match read_u8(bytes, pos) {
        Ok(found) => Ok(found),
        Err(t) => Err(Error::Decode(t)),
    }
}

pub(crate) fn take_u16(bytes: &[u8], pos: usize) -> (r: Result<(u16, usize), Error>)
    ensures
        match value_at(Kind::U16, bytes@, pos as int) {
            Ok((v, q)) => r matches Ok((x, end)) && v == Value::Uint(x as int) && end == q,
            Err(e) => r matches Err(x) && x@ == e,
        },
{
    proof {
        head_at_bounds(bytes@, pos as int, 0);
        assert(bytes@.len() == bytes.len());
    }
    match read_u16(bytes, pos) {
        Ok(found) => Ok(found),
        Err(t) => Err(Error::Decode(t)),
    }
}

pub(crate) fn take_u32(bytes: &[u8], pos: usize) -> (r: Result<(u32, usize), Error>)
    ensures
        match value_at(Kind::U32, bytes@, pos as int) {
            Ok((v, q)) => r matches Ok((x, end)) && v == Value::Uint(x as int) && end == q,
            Err(e) => r matches Err(x) && x@ == e,
        },
{
    proof {
        head_at_bounds(bytes@, pos as int, 0);
        assert(bytes@.len() == bytes.len());
    }
    match read_u32(bytes, pos) {
        Ok(found) => Ok(found),
        Err(t) => Err(Error::Decode(t)),
    }
}

pub(crate) fn take_u64(bytes: &[u8], pos: usize) -> (r: Result<(u64, usize), Error>)
    ensures
        match value_at(Kind::U64, bytes@, pos as int) {
            Ok((v, q)) => r matches Ok((x, end)) && v == Value::Uint(x as int) && end == q,
            Err(e) => r matches Err(x) && x@ == e,
        },
{
    proof {
        head_at_bounds(bytes@, pos as int, 0);
        assert(bytes@.len() == bytes.len());
    }
    match read_u64(bytes, pos) {
        Ok(found) => Ok(found),
        Err(t) => Err(Error::Decode(t)),
    }
}

pub(crate) fn take_bool(bytes: &[u8], pos: usize) -> (r: Result<(bool, usize), Error>)
    ensures
        match value_at(Kind::Bool, bytes@, pos as int) {
            Ok((v, q)) => r matches Ok((x, end)) && v == Value::Bool(x) && end == q,
            Err(e) => r matches Err(x) && x@ == e,
        },
{
    assert(bytes@.len() == bytes.len());
    match read_bool(bytes, pos) {
        Ok(found) => Ok(found),
        Err(t) => Err(Error::Decode(t)),
    }
}

pub(crate) fn take_bytes(bytes: &[u8], pos: usize) -> (r: Result<(Vec<u8>, usize), Error>)
    ensures
        match value_at(Kind::Bytes, bytes@, pos as int) {
            Ok((v, q)) => r matches Ok((x, end)) && v == Value::Bytes(x@) && end == q,
            Err(e) => r matches Err(x) && x@ == e,
        },
{
    match read_bytes(bytes, pos) {
        Ok(found) => Ok(found),
        Err(t) => Err(Error::Decode(t)),
    }
}

pub(crate) fn take_double(bytes: &[u8], pos: usize) -> (r: Result<(Double, usize), Error>)
    ensures
        match value_at(Kind::Double, bytes@, pos as int) {
            Ok((v, q)) => r matches Ok((x, end)) && v == Value::Double(x) && end == q,
            Err(e) => r matches Err(x) && x@ == e,
        },
{
    assert(bytes@.len() == bytes.len());
    match read_double(bytes, pos) {
        Ok(found) => Ok(found),
        Err(t) => Err(Error::Decode(t)),
    }
}

/// Passes over a value that the record does not know.
pub(crate) fn take_unknown(bytes: &[u8], pos: usize) -> (r: Result<usize, Error>)
    ensures
        match value_at(Kind::Unknown, bytes@, pos as int) {
            Ok((v, q)) => r matches Ok(end) && end == q && v is Skipped,
            Err(e) => r matches Err(x) && x@ == e,
        },
{
    reveal(skip_outcome);
    assert(bytes@.len() == bytes.len());
    match skip_item(bytes, pos) {
        Ok(end) => Ok(end),
        Err(t) => Err(Error::Decode(t)),
    }
}

// ---------------------------------------------------------------------------------------------
// Lists
// ---------------------------------------------------------------------------------------------
/// The count of the list at `pos` and where its first element stands.
fn open_list(bytes: &[u8], pos: usize, complaint: &'static str) -> (r: Result<(u64, usize), Error>)
    ensures
        match list_at(bytes@, pos as int, complaint@) {
            Ok((n, q)) => r matches Ok((count, at)) && count == n && at == q,
            Err(e) => r matches Err(x) && x@ == e,
        },
{
    proof {
        assert(bytes@.len() == bytes.len());
        if pos < bytes@.len() {
            argument_bounds(bytes@, pos as int);
        }
    }
    match read_array(bytes, pos) {
        Ok((Some(count), at)) => Ok((count, at)),
        Ok((None, _)) => Err(Error::Decode(complaint.to_owned())),
        Err(t) => Err(Error::Decode(t)),
    }
}

pub(crate) fn take_words(bytes: &[u8], pos: usize) -> (r: Result<(Vec<u16>, usize), Error>)
    ensures
        match value_at(Kind::Words, bytes@, pos as int) {
            Ok((v, q)) => r matches Ok((x, end)) && v == Value::Words(x@) && end == q,
            Err(e) => r matches Err(x) && x@ == e,
        },
{
    let (count, start) = match open_list(bytes, pos, "sync_word expected array") {
        Ok(found) => found,
        Err(e) => {
            return Err(e);
        },
    };
    let mut list: Vec<u16> = Vec::new();
    let mut at: usize = start;
    let mut i: u64 = 0;
    while i < count
        invariant
            i <= count,
            list_at(bytes@, pos as int, "sync_word expected array"@) == Ok::<(int, int), ErrorView>(
                (count as int, start as int),
            ),
            words_from(bytes@, start as int, count as int, Seq::empty()) == words_from(
                bytes@,
                at as int,
                count - i,
                list@,
            ),
        decreases count - i,
    {
        match take_u16(bytes, at) {
            Ok((v, end)) => {
                list.push(v);
                at = end;
            },
            Err(e) => {
                return Err(e);
            },
        }
        i = i + 1;
    }
    Ok((list, at))
}

pub(crate) fn take_octets(bytes: &[u8], pos: usize) -> (r: Result<(Vec<u8>, usize), Error>)
    ensures
        match value_at(Kind::Octets, bytes@, pos as int) {
            Ok((v, q)) => r matches Ok((x, end)) && v == Value::Octets(x@) && end == q,
            Err(e) => r matches Err(x) && x@ == e,
        },
{
    let (count, start) = match open_list(bytes, pos, "antennas expected array") {
        Ok(found) => found,
        Err(e) => {
            return Err(e);
        },
    };
    let mut list: Vec<u8> = Vec::new();
    let mut at: usize = start;
    let mut i: u64 = 0;
    while i < count
        invariant
            i <= count,
            list_at(bytes@, pos as int, "antennas expected array"@) == Ok::<(int, int), ErrorView>(
                (count as int, start as int),
            ),
            octets_from(bytes@, start as int, count as int, Seq::empty()) == octets_from(
                bytes@,
                at as int,
                count - i,
                list@,
            ),
        decreases count - i,
    {
        match take_u8(bytes, at) {
            Ok((v, end)) => {
                list.push(v);
                at = end;
            },
            Err(e) => {
                return Err(e);
            },
        }
        i = i + 1;
    }
    Ok((list, at))
}

pub(crate) fn take_doubles(bytes: &[u8], pos: usize) -> (r: Result<(Vec<Double>, usize), Error>)
    ensures
        match value_at(Kind::Doubles, bytes@, pos as int) {
            Ok((v, q)) => r matches Ok((x, end)) && v == Value::Doubles(x@) && end == q,
            Err(e) => r matches Err(x) && x@ == e,
        },
{
    let (count, start) = match open_list(bytes, pos, "snr_db_per_ant expected array") {
        Ok(found) => found,
        Err(e) => {
            return Err(e);
        },
    };
    let mut list: Vec<Double> = Vec::new();
    let mut at: usize = start;
    let mut i: u64 = 0;
    while i < count
        invariant
            i <= count,
            list_at(bytes@, pos as int, "snr_db_per_ant expected array"@) == Ok::<(int, int), ErrorView>(
                (count as int, start as int),
            ),
            doubles_from(bytes@, start as int, count as int, Seq::empty()) == doubles_from(
                bytes@,
                at as int,
                count - i,
                list@,
            ),
        decreases count - i,
    {
        match take_double(bytes, at) {
            Ok((v, end)) => {
                list.push(v);
                at = end;
            },
            Err(e) => {
                return Err(e);
            },
        }
        i = i + 1;
    }
    Ok((list, at))
}

// ---------------------------------------------------------------------------------------------
// Records
// ---------------------------------------------------------------------------------------------
/// Reads the entries of the map at `pos`. A map of indefinite length is refused with `complaint`.
pub(crate) fn read_parts<P: Parts>(bytes: &[u8], pos: usize, complaint: &'static str) -> (r: Result<
    (P, usize),
    Error,
>)
    requires
        complaint@ == indefinite_text(P::schema()),
    ensures
        match r {
            Ok((parts, end)) => match refusal(P::schema(), parts.fields()) {
                None => record_at(P::schema(), bytes@, pos as int) == Ok::<
                    (Fields, int),
                    ErrorView,
                >((parts.fields(), end as int)),
                Some(e) => record_at(P::schema(), bytes@, pos as int) == Err::<
                    (Fields, int),
                    ErrorView,
                >(e),
            },
            Err(x) => record_at(P::schema(), bytes@, pos as int) == Err::<
                (Fields, int),
                ErrorView,
            >(x@),
        },
{
    proof {
        assert(bytes@.len() == bytes.len());
        if pos < bytes@.len() {
            argument_bounds(bytes@, pos as int);
        }
    }
    let (count, start) = match read_map(bytes, pos) {
        Ok((Some(count), start)) => (count, start),
        Ok((None, _)) => {
            return Err(Error::Decode(complaint.to_owned()));
        },
        Err(t) => {
            return Err(Error::Decode(t));
        },
    };
    let mut parts = P::none();
    let mut at: usize = start;
    let mut i: u64 = 0;
    while i < count
        invariant
            i <= count,
            count_at(bytes@, pos as int, 5) == Some(
                (Some(count as int), start as int),
            ),
            fields_from(P::schema(), bytes@, start as int, count as int, Map::empty())
                == fields_from(P::schema(), bytes@, at as int, count - i, parts.fields()),
        decreases count - i,
    {
        let (name, value_pos) = match take_text(bytes, at) {
            Ok(found) => found,
            Err(e) => {
                return Err(e);
            },
        };
        let key = Key::of(name.as_str());
        match parts.take(key, bytes, value_pos) {
            Ok(end) => {
                at = end;
            },
            Err(e) => {
                return Err(e);
            },
        }
        i = i + 1;
    }
    Ok((parts, at))
}

} // verus!
