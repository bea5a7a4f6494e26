//! CBOR data items as byte sequences: what an item of each kind looks like, and what stands at a
//! position of a sequence.

use vstd::prelude::*;
use vstd::utf8::{decode_utf8, encode_utf8, valid_utf8};

verus! {

// ---------------------------------------------------------------------------------------------
// Big-endian numbers
// ---------------------------------------------------------------------------------------------
/// The number that a byte sequence spells, most significant byte first.
pub open spec fn be_value(s: Seq<u8>) -> nat
    decreases s.len(),
{
    if s.len() == 0 {
        0
    } else {
        be_value(s.drop_last()) * 256 + s.last() as nat
    }
}

/// The `width` low bytes of `n`, most significant byte first.
pub open spec fn be_bytes(n: nat, width: nat) -> Seq<u8>
    decreases width,
{
    if width == 0 {
        Seq::empty()
    } else {
        be_bytes(n / 256, (width - 1) as nat).push((n % 256) as u8)
    }
}

/// How many numbers `width` bytes can spell.
pub open spec fn be_span(width: nat) -> nat
    decreases width,
{
    if width == 0 {
        1
    } else {
        be_span((width - 1) as nat) * 256
    }
}

/// Writing a number that fits and reading it back gives the number.
pub proof fn be_round_trip(n: nat, width: nat)
    requires
        n < be_span(width),
    ensures
        be_bytes(n, width).len() == width,
        be_value(be_bytes(n, width)) == n,
    decreases width,
{
    if width > 0 {
        be_round_trip(n / 256, (width - 1) as nat);
        let s = be_bytes(n, width);
        assert(s.drop_last() =~= be_bytes(n / 256, (width - 1) as nat));
    }
}

pub proof fn be_bytes_len(n: nat, width: nat)
    ensures
        be_bytes(n, width).len() == width,
    decreases width,
{
    if width > 0 {
        be_bytes_len(n / 256, (width - 1) as nat);
    }
}

/// A byte sequence never spells more than its width allows.
pub proof fn be_value_bound(s: Seq<u8>)
    ensures
        be_value(s) < be_span(s.len()),
    decreases s.len(),
{
    if s.len() > 0 {
        be_value_bound(s.drop_last());
    }
}

pub proof fn be_span_values()
    ensures
        be_span(1) == 0x100,
        be_span(2) == 0x1_0000,
        be_span(4) == 0x1_0000_0000,
        be_span(8) == 0x1_0000_0000_0000_0000,
{
    reveal_with_fuel(be_span, 9);
}

// ---------------------------------------------------------------------------------------------
// Heads: a major type and an argument
// ---------------------------------------------------------------------------------------------
/// The shortest head with major type `major` and argument `n`.
pub open spec fn head(major: int, n: int) -> Seq<u8> {
    if n < 24 {
        seq![(32 * major + n) as u8]
    } else if n < 0x100 {
        seq![(32 * major + 24) as u8] + be_bytes(n as nat, 1)
    } else if n < 0x1_0000 {
        seq![(32 * major + 25) as u8] + be_bytes(n as nat, 2)
    } else if n < 0x1_0000_0000 {
        seq![(32 * major + 26) as u8] + be_bytes(n as nat, 4)
    } else {
        seq![(32 * major + 27) as u8] + be_bytes(n as nat, 8)
    }
}

/// How many bytes follow the initial byte when its low five bits are `info`.
pub open spec fn argument_width(info: int) -> int {
    if info < 24 {
        0
    } else if info == 24 {
        1
    } else if info == 25 {
        2
    } else if info == 26 {
        4
    } else {
        8
    }
}

/// The argument of the head at `p` and the position behind the head, whatever its major type.
/// A head of indefinite length has no argument.
pub open spec fn argument(b: Seq<u8>, p: int) -> Option<(int, int)> {
    let info = b[p] as int % 32;
    let end = p + 1 + argument_width(info);
    if info < 24 {
        Some((info, end))
    } else if info < 28 && end <= b.len() {
        Some((be_value(b.subrange(p + 1, end)) as int, end))
    } else {
        None
    }
}

/// The argument of the head at `p`, if there is a head of major type `major` there.
pub open spec fn head_at(b: Seq<u8>, p: int, major: int) -> Option<(int, int)> {
    if 0 <= p < b.len() && b[p] as int / 32 == major {
        argument(b, p)
    } else {
        None
    }
}

/// `piece` stands at position `p` of `b`.
pub open spec fn stands_at(piece: Seq<u8>, b: Seq<u8>, p: int) -> bool {
    0 <= p && p + piece.len() <= b.len() && b.subrange(p, p + piece.len()) == piece
}

pub proof fn argument_bounds(b: Seq<u8>, p: int)
    requires
        0 <= p < b.len(),
    ensures
        argument(b, p) matches Some((n, q)) ==> 0 <= n <= u64::MAX && p < q <= b.len(),
{
    let info = b[p] as int % 32;
    let end = p + 1 + argument_width(info);
    be_span_values();
    if 24 <= info < 28 && end <= b.len() {
        be_value_bound(b.subrange(p + 1, end));
    }
}

pub proof fn head_at_bounds(b: Seq<u8>, p: int, major: int)
    ensures
        head_at(b, p, major) matches Some((n, q)) ==> 0 <= n <= u64::MAX && p < q <= b.len(),
{
    if 0 <= p < b.len() {
        argument_bounds(b, p);
    }
}

/// A head reads back as the argument it was written with.
pub proof fn head_reads_back(major: int, n: int, b: Seq<u8>, p: int)
    requires
        0 <= major < 8,
        0 <= n <= u64::MAX,
        stands_at(head(major, n), b, p),
    ensures
        head_at(b, p, major) == Some((n, p + head(major, n).len())),
        argument(b, p) == Some((n, p + head(major, n).len())),
        b[p] as int % 32 < 28,
        1 <= head(major, n).len(),
{
    be_span_values();
    let h = head(major, n);
    if n >= 24 {
        let width: nat = if n < 0x100 {
            1
        } else if n < 0x1_0000 {
            2
        } else if n < 0x1_0000_0000 {
            4
        } else {
            8
        };
        be_round_trip(n as nat, width);
        assert(h.len() == 1 + width);
        assert(b[p] == b.subrange(p, p + h.len())[0]);
        assert(b.subrange(p + 1, p + 1 + width) =~= be_bytes(n as nat, width)) by {
            assert forall|i: int| 0 <= i < width implies #[trigger] b.subrange(p + 1, p + 1 + width)[i]
                == be_bytes(n as nat, width)[i] by {
                assert(b.subrange(p, p + h.len())[i + 1] == h[i + 1]);
            }
        }
    } else {
        assert(b[p] == b.subrange(p, p + h.len())[0]);
    }
}

// ---------------------------------------------------------------------------------------------
// Items
// ---------------------------------------------------------------------------------------------
/// The unsigned integer at `p`, if there is one there that is at most `max`.
pub open spec fn uint_at(b: Seq<u8>, p: int, max: int) -> Option<(int, int)> {
    match head_at(b, p, 0) {
        Some((n, q)) => if n <= max {
            Some((n, q))
        } else {
            None
        },
        None => None,
    }
}

/// The byte string of definite length at `p`.
pub open spec fn bytes_at(b: Seq<u8>, p: int) -> Option<(Seq<u8>, int)> {
    match head_at(b, p, 2) {
        Some((n, q)) => if q + n <= b.len() {
            Some((b.subrange(q, q + n), q + n))
        } else {
            None
        },
        None => None,
    }
}

/// The text string of definite length at `p`: well-formed UTF-8, taken as characters.
pub open spec fn text_at(b: Seq<u8>, p: int) -> Option<(Seq<char>, int)> {
    match head_at(b, p, 3) {
        Some((n, q)) => if q + n <= b.len() && valid_utf8(b.subrange(q, q + n)) {
            Some((decode_utf8(b.subrange(q, q + n)), q + n))
        } else {
            None
        },
        None => None,
    }
}

/// The element count of the array (`major` 4) or map (`major` 5) that starts at `p`, and where its
/// first element stands. The count of a collection of indefinite length is `None`.
pub open spec fn count_at(b: Seq<u8>, p: int, major: int) -> Option<(Option<int>, int)> {
    if 0 <= p < b.len() && b[p] as int / 32 == major {
        if b[p] as int % 32 == 31 {
            Some((None, p + 1))
        } else {
            match argument(b, p) {
                Some((n, q)) => Some((Some(n), q)),
                None => None,
            }
        }
    } else {
        None
    }
}

/// The truth value at `p`.
pub open spec fn bool_at(b: Seq<u8>, p: int) -> Option<(bool, int)> {
    if 0 <= p < b.len() && (b[p] == 0xf4 || b[p] == 0xf5) {
        Some((b[p] == 0xf5, p + 1))
    } else {
        None
    }
}

/// The number of bytes behind the initial byte of the floating-point number at `p`, by the three
/// precisions.
pub open spec fn float_width(b: Seq<u8>, p: int) -> Option<int> {
    if 0 <= p < b.len() && b[p] == 0xf9 {
        Some(2)
    } else if 0 <= p < b.len() && b[p] == 0xfa {
        Some(4)
    } else if 0 <= p < b.len() && b[p] == 0xfb {
        Some(8)
    } else {
        None
    }
}

/// The position behind the string of definite length at `p`: of bytes (`major` 2) or of text
/// (`major` 3).
pub open spec fn chunk_end(b: Seq<u8>, p: int, major: int) -> Option<int> {
    if major == 2 {
        match bytes_at(b, p) {
            Some((_, end)) => Some(end),
            None => None,
        }
    } else {
        match text_at(b, p) {
            Some((_, end)) => Some(end),
            None => None,
        }
    }
}

/// The position behind the break that ends a row of strings, the first of which stands at `p`.
pub open spec fn chunks_end(b: Seq<u8>, p: int, major: int) -> Option<int>
    decreases b.len() - p,
{
    if 0 <= p < b.len() && b[p] == 0xff {
        Some(p + 1)
    } else {
        match chunk_end(b, p, major) {
            Some(q) => if p < q <= b.len() {
                chunks_end(b, q, major)
            } else {
                None
            },
            None => None,
        }
    }
}

/// The position behind the item at `p`, whatever it is: a head, and behind it what the head counts,
/// or, where the length is indefinite, what stands before the break. There is none where the item is
/// cut off or is not CBOR.
pub open spec fn item_end(b: Seq<u8>, p: int) -> Option<int>
    decreases b.len() - p, 0int,
{
    if 0 <= p < b.len() {
        let major = b[p] as int / 32;
        if b[p] as int % 32 == 31 {
            if major == 2 || major == 3 {
                chunks_end(b, p + 1, major)
            } else if major == 4 || major == 5 {
                row_end(b, p + 1)
            } else {
                None
            }
        } else {
            match argument(b, p) {
                None => None,
                Some((n, q)) => if major == 2 || major == 3 {
                    chunk_end(b, p, major)
                } else if major == 4 {
                    items_end(b, q, n)
                } else if major == 5 {
                    items_end(b, q, 2 * n)
                } else if major == 6 {
                    item_end(b, q)
                } else {
                    Some(q)
                },
            }
        }
    } else {
        None
    }
}

/// The position behind `n` items, the first of which stands at `p`.
pub open spec fn items_end(b: Seq<u8>, p: int, n: int) -> Option<int>
    decreases b.len() - p, 1int,
{
    if n <= 0 {
        Some(p)
    } else {
        match item_end(b, p) {
            Some(q) => if p < q <= b.len() {
                items_end(b, q, n - 1)
            } else {
                None
            },
            None => None,
        }
    }
}

/// The position behind the break that ends a row of items, the first of which stands at `p`.
pub open spec fn row_end(b: Seq<u8>, p: int) -> Option<int>
    decreases b.len() - p, 1int,
{
    if 0 <= p < b.len() && b[p] == 0xff {
        Some(p + 1)
    } else {
        match item_end(b, p) {
            Some(q) => if p < q <= b.len() {
                row_end(b, q)
            } else {
                None
            },
            None => None,
        }
    }
}

/// The text string item of `s`.
pub open spec fn text_item(s: Seq<char>) -> Seq<u8> {
    head(3, encode_utf8(s).len() as int) + encode_utf8(s)
}

/// The byte string item of `s`.
pub open spec fn bytes_item(s: Seq<u8>) -> Seq<u8> {
    head(2, s.len() as int) + s
}

/// The item of a truth value.
pub open spec fn bool_item(v: bool) -> Seq<u8> {
    seq![if v { 0xf5u8 } else { 0xf4u8 }]
}

/// A piece that stands at `p` is made of pieces that stand one behind the other.
pub proof fn stands_at_parts(x: Seq<u8>, y: Seq<u8>, b: Seq<u8>, p: int)
    requires
        stands_at(x + y, b, p),
    ensures
        stands_at(x, b, p),
        stands_at(y, b, p + x.len()),
        p + (x + y).len() == p + x.len() + y.len(),
{
    let whole = b.subrange(p, p + (x + y).len());
    assert(b.subrange(p, p + x.len()) =~= x) by {
        assert forall|i: int| 0 <= i < x.len() implies #[trigger] b.subrange(
            p,
            p + x.len(),
        )[i] == x[i] by {
            assert(whole[i] == (x + y)[i]);
        }
    }
    assert(b.subrange(p + x.len(), p + x.len() + y.len()) =~= y) by {
        assert forall|i: int| 0 <= i < y.len() implies #[trigger] b.subrange(
            p + x.len(),
            p + x.len() + y.len(),
        )[i] == y[i] by {
            assert(whole[i + x.len()] == (x + y)[i + x.len()]);
        }
    }
}

pub proof fn uint_reads_back(n: int, max: int, b: Seq<u8>, p: int)
    requires
        0 <= n <= max <= u64::MAX,
        stands_at(head(0, n), b, p),
    ensures
        uint_at(b, p, max) == Some((n, p + head(0, n).len())),
{
    head_reads_back(0, n, b, p);
}

pub proof fn text_reads_back(s: Seq<char>, b: Seq<u8>, p: int)
    requires
        encode_utf8(s).len() <= u64::MAX,
        stands_at(text_item(s), b, p),
    ensures
        text_at(b, p) == Some((s, p + text_item(s).len())),
{
    let h = head(3, encode_utf8(s).len() as int);
    stands_at_parts(h, encode_utf8(s), b, p);
    head_reads_back(3, encode_utf8(s).len() as int, b, p);
    vstd::utf8::encode_utf8_valid_utf8(s);
    vstd::utf8::encode_utf8_decode_utf8(s);
}

pub proof fn bytes_read_back(s: Seq<u8>, b: Seq<u8>, p: int)
    requires
        s.len() <= u64::MAX,
        stands_at(bytes_item(s), b, p),
    ensures
        bytes_at(b, p) == Some((s, p + bytes_item(s).len())),
{
    stands_at_parts(head(2, s.len() as int), s, b, p);
    head_reads_back(2, s.len() as int, b, p);
}

pub proof fn bool_reads_back(v: bool, b: Seq<u8>, p: int)
    requires
        stands_at(bool_item(v), b, p),
    ensures
        bool_at(b, p) == Some((v, p + bool_item(v).len())),
{
    assert(b[p] == b.subrange(p, p + bool_item(v).len())[0]);
}

pub proof fn count_reads_back(major: int, n: int, b: Seq<u8>, p: int)
    requires
        0 <= major < 8,
        0 <= n <= u64::MAX,
        stands_at(head(major, n), b, p),
    ensures
        count_at(b, p, major) == Some((Some(n), p + head(major, n).len())),
{
    head_reads_back(major, n, b, p);
}

} // verus!
