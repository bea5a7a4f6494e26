//! Floating-point items. Numbers are written in double precision; the narrower precisions are
//! accepted on the way in.

use vstd::prelude::*;

use crate::cbor::codec::{datatype_outcome, read_datatype, Datatype};
use crate::cbor::item::{
    be_bytes, be_bytes_len, be_round_trip, be_span_values, be_value, be_value_bound, float_width,
    stands_at,
};
use crate::double::{widen_half, widen_single, widened_bits, Double, Narrow};

verus! {

/// The number with the bit pattern `raw` in the precision that takes `width` bytes.
pub open spec fn double_of(width: int, raw: int) -> Double {
    if width == 2 {
        Double { bits: widened_bits(Narrow::Half, raw) as u64 }
    } else if width == 4 {
        Double { bits: widened_bits(Narrow::Single, raw) as u64 }
    } else {
        Double { bits: raw as u64 }
    }
}

/// The floating-point number at `p` and the position behind it, or why there is none.
pub open spec fn double_at(b: Seq<u8>, p: int) -> Result<(Double, int), Seq<char>> {
    match float_width(b, p) {
        Some(width) => if p + 1 + width <= b.len() {
            Ok(
                (
                    double_of(width, be_value(b.subrange(p + 1, p + 1 + width)) as int),
                    p + 1 + width,
                ),
            )
        } else {
            Err("end of input bytes"@)
        },
        None => match datatype_outcome(b, p) {
            Ok(name) => Err("expected float, got "@ + name),
            Err(t) => Err(t),
        },
    }
}

/// The double-precision item of `v`.
pub open spec fn double_item(v: Double) -> Seq<u8> {
    seq![0xfbu8] + be_bytes(v.bits as nat, 8)
}

pub proof fn double_reads_back(v: Double, b: Seq<u8>, p: int)
    requires
        stands_at(double_item(v), b, p),
    ensures
        double_at(b, p) == Ok::<(Double, int), Seq<char>>((v, p + double_item(v).len())),
        double_item(v).len() == 9,
{
    be_span_values();
    be_round_trip(v.bits as nat, 8);
    let item = double_item(v);
    let whole = b.subrange(p, p + item.len());
    assert(b[p] == whole[0]);
    assert(b.subrange(p + 1, p + 9) =~= be_bytes(v.bits as nat, 8)) by {
        assert forall|i: int| 0 <= i < 8 implies #[trigger] b.subrange(p + 1, p + 9)[i] == be_bytes(
            v.bits as nat,
            8,
        )[i] by {
            assert(whole[i + 1] == item[i + 1]);
        }
    }
}

/// Appends the `width` low bytes of `n`, most significant first.
fn put_be(out: &mut Vec<u8>, n: u64, width: u8)
    ensures
        final(out)@ == old(out)@ + be_bytes(n as nat, width as nat),
    decreases width,
{
    if width > 0 {
        put_be(out, n / 256, width - 1);
        out.push((n % 256) as u8);
    }
}

/// The number that the `width` bytes from `from` on spell.
fn read_be(bytes: &[u8], from: usize, width: usize) -> (r: u64)
    requires
        width <= 8,
        from + width <= bytes@.len(),
    ensures
        r == be_value(bytes@.subrange(from as int, from + width)),
        width == 2 ==> r < 0x1_0000,
        width == 4 ==> r < 0x1_0000_0000,
{
    let mut value: u64 = 0;
    let mut i: usize = 0;
    proof {
        be_span_values();
        be_value_bound(bytes@.subrange(from as int, from + width));
    }
    while i < width
        invariant
            i <= width <= 8,
            from + width <= bytes.len(),
            value == be_value(bytes@.subrange(from as int, from + i)),
        decreases width - i,
    {
        proof {
            let next = bytes@.subrange(from as int, from + i + 1);
            assert(next.drop_last() =~= bytes@.subrange(from as int, from + i));
            be_value_bound(next);
            be_span_values();
            reveal_with_fuel(crate::cbor::item::be_span, 9);
        }
        value = value * 256 + bytes[from + i] as u64;
        i = i + 1;
    }
    value
}

/// Appends a number in double precision.
pub fn put_double(out: &mut Vec<u8>, v: Double)
    ensures
        final(out)@ == old(out)@ + double_item(v),
{
    out.push(0xfb);
    put_be(out, v.bits, 8);
    proof {
        be_bytes_len(v.bits as nat, 8);
    }
    assert(out@ =~= old(out)@ + double_item(v));
}

/// Reads a floating-point number of any of the three precisions.
pub fn read_double(bytes: &[u8], pos: usize) -> (r: Result<(Double, usize), String>)
    ensures
        match double_at(bytes@, pos as int) {
            Ok((v, q)) => r == Ok::<(Double, usize), String>((v, q as usize)) && pos < q
                <= bytes@.len(),
            Err(t) => r matches Err(e) && e@ == t,
        },
{
    let width: usize = match read_datatype(bytes, pos) {
        Err(e) => {
            return Err(e);
        },
        Ok(Datatype::Other(name)) => {
            return Err("expected float, got ".to_owned().concat(name.as_str()));
        },
        Ok(Datatype::Half) => 2,
        Ok(Datatype::Single) => 4,
        Ok(Datatype::Double) => 8,
    };
    if bytes.len() - pos - 1 < width {
        return Err("end of input bytes".to_owned());
    }
    let raw: u64 = read_be(bytes, pos + 1, width);
    let value = if width == 2 {
        widen_half(raw as u16)
    } else if width == 4 {
        widen_single(raw as u32)
    } else {
        Double { bits: raw }
    };
    Ok((value, pos + 1 + width))
}

/// A floating-point item says by its first byte how many bytes follow, and these are the pattern of the
/// number in that precision: half, single or double.
pub proof fn floats_by_first_byte(b: Seq<u8>, p: int)
    requires
        0 <= p < b.len(),
    ensures
        b[p] == 0xf9 && p + 3 <= b.len() ==> (double_at(b, p) matches Ok((v, q)) && q == p + 3 && v.bits
            == widened_bits(Narrow::Half, be_value(b.subrange(p + 1, p + 3)) as int) as u64),
        b[p] == 0xfa && p + 5 <= b.len() ==> (double_at(b, p) matches Ok((v, q)) && q == p + 5 && v.bits
            == widened_bits(Narrow::Single, be_value(b.subrange(p + 1, p + 5)) as int) as u64),
        b[p] == 0xfb && p + 9 <= b.len() ==> (double_at(b, p) matches Ok((v, q)) && q == p + 9 && v.bits
            == be_value(b.subrange(p + 1, p + 9))),
        double_at(b, p) is Ok ==> b[p] == 0xf9 || b[p] == 0xfa || b[p] == 0xfb,
{
    be_span_values();
    if p + 9 <= b.len() {
        be_value_bound(b.subrange(p + 1, p + 9));
    }
}

} // verus!
