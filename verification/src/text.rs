//! Comparing and joining text.

use vstd::prelude::*;
use vstd::utf8::{encode_utf8, encode_utf8_decode_utf8};

verus! {

/// Whether two texts are the same.
pub fn same_text(a: &str, b: &str) -> (r: bool)
    ensures
        r == (a@ == b@),
{
    proof {
        encode_utf8_decode_utf8(a@);
        encode_utf8_decode_utf8(b@);
    }
    let x = a.as_bytes();
    let y = b.as_bytes();
    if x.len() != y.len() {
        return false;
    }
    let mut i: usize = 0;
    while i < x.len()
        invariant
            i <= x.len(),
            x@.len() == y@.len(),
            x@ == encode_utf8(a@),
            y@ == encode_utf8(b@),
            forall|j: int| 0 <= j < i ==> x@[j] == y@[j],
        decreases x.len() - i,
    {
        if x[i] != y[i] {
            assert(x@[i as int] != y@[i as int]);
            return false;
        }
        i = i + 1;
    }
    assert(x@ =~= y@);
    true
}

/// A decimal digit.
pub open spec fn digit(d: nat) -> char {
    (48 + d) as char
}

/// A number in decimal notation.
pub open spec fn decimal_text(n: nat) -> Seq<char>
    decreases n,
{
    if n < 10 {
        seq![digit(n)]
    } else {
        decimal_text(n / 10).push(digit(n % 10))
    }
}

fn digit_text(d: u64) -> (r: &'static str)
    requires
        d < 10,
    ensures
        r@ == seq![digit(d as nat)],
{
    proof {
        reveal_strlit("0");
        reveal_strlit("1");
        reveal_strlit("2");
        reveal_strlit("3");
        reveal_strlit("4");
        reveal_strlit("5");
        reveal_strlit("6");
        reveal_strlit("7");
        reveal_strlit("8");
        reveal_strlit("9");
    }
    let r = match d {
        0 => "0",
        1 => "1",
        2 => "2",
        3 => "3",
        4 => "4",
        5 => "5",
        6 => "6",
        7 => "7",
        8 => "8",
        _ => "9",
    };
    assert(r@ =~= seq![digit(d as nat)]);
    r
}

/// Writes a number in decimal notation.
pub fn decimal(n: u64) -> (r: String)
    ensures
        r@ == decimal_text(n as nat),
    decreases n,
{
    if n < 10 {
        digit_text(n).to_owned()
    } else {
        let r = decimal(n / 10).concat(digit_text(n % 10));
        assert(r@ =~= decimal_text(n as nat));
        r
    }
}

/// The number that decimal digits spell.
pub open spec fn decimal_value(s: Seq<char>) -> nat
    decreases s.len(),
{
    if s.len() == 0 {
        0
    } else {
        decimal_value(s.drop_last()) * 10 + (s.last() as nat - 48) as nat
    }
}

/// Decimal notation is made of digits, and no zero stands before it.
pub proof fn decimal_is_plain(n: nat)
    ensures
        decimal_text(n).len() > 0,
        forall|i: int| 0 <= i < decimal_text(n).len() ==> '0' <= #[trigger] decimal_text(n)[i] <= '9',
        n > 0 ==> decimal_text(n)[0] != '0',
        n == 0 ==> decimal_text(n) == seq!['0'],
    decreases n,
{
    if n >= 10 {
        decimal_is_plain(n / 10);
    }
}

/// Decimal notation tells the number.
pub proof fn decimal_round_trip(n: nat)
    ensures
        decimal_value(decimal_text(n)) == n,
    decreases n,
{
    if n < 10 {
        assert(decimal_text(n).drop_last() =~= Seq::empty());
        assert(decimal_value(decimal_text(n).drop_last()) == 0);
    } else {
        decimal_round_trip(n / 10);
        assert(decimal_text(n).drop_last() =~= decimal_text(n / 10));
    }
}

// ---------------------------------------------------------------------------------------------
// Values by name
// ---------------------------------------------------------------------------------------------
/// The first position at which `name` occurs.
pub open spec fn position_of<T>(entries: Seq<(String, T)>, name: Seq<char>) -> Option<int>
    decreases entries.len(),
{
    if entries.len() == 0 {
        None
    } else {
        match position_of(entries.drop_last(), name) {
            Some(i) => Some(i),
            None => if entries.last().0@ == name {
                Some(entries.len() - 1)
            } else {
                None
            },
        }
    }
}

/// Where a name was found among the first entries, it is found among all of them.
proof fn position_stays<T>(entries: Seq<(String, T)>, n: int, name: Seq<char>)
    requires
        0 <= n <= entries.len(),
        position_of(entries.take(n), name) is Some,
    ensures
        position_of(entries, name) == position_of(entries.take(n), name),
    decreases entries.len(),
{
    if n == entries.len() {
        assert(entries.take(n) =~= entries);
    } else {
        assert(entries.drop_last().take(n) =~= entries.take(n));
        position_stays(entries.drop_last(), n, name);
    }
}

/// The first position at which `name` occurs.
pub fn find_name<T>(entries: &Vec<(String, T)>, name: &str) -> (r: Option<usize>)
    ensures
        match r {
            Some(i) => i < entries@.len() && position_of(entries@, name@) == Some(i as int),
            None => position_of(entries@, name@) is None,
        },
{
    let mut i: usize = 0;
    assert(entries@.take(0).len() == 0);
    while i < entries.len()
        invariant
            i <= entries.len(),
            position_of(entries@.take(i as int), name@) is None,
        decreases entries.len() - i,
    {
        assert(entries@.take(i + 1).drop_last() =~= entries@.take(i as int));
        if same_text(entries[i].0.as_str(), name) {
            proof {
                position_stays(entries@, i + 1, name@);
            }
            return Some(i);
        }
        i = i + 1;
    }
    assert(entries@.take(i as int) =~= entries@);
    None
}

/// No name occurs twice.
pub open spec fn distinct_names<T>(entries: Seq<(String, T)>) -> bool {
    forall|j: int, k: int|
        0 <= j < k < entries.len() ==> (#[trigger] entries[j]).0@ != (#[trigger] entries[k]).0@
}

/// Where no name occurs twice, a name is found wherever it stands: the order does not matter.
pub proof fn names_have_no_order<T>(entries: Seq<(String, T)>, name: Seq<char>, i: int)
    requires
        distinct_names(entries),
        0 <= i < entries.len(),
        entries[i].0@ == name,
    ensures
        position_of(entries, name) == Some(i),
    decreases entries.len(),
{
    let front = entries.drop_last();
    assert forall|j: int, k: int| 0 <= j < k < front.len() implies (#[trigger] front[j]).0@ != (
    #[trigger] front[k]).0@ by {
        assert(front[j] == entries[j] && front[k] == entries[k]);
    }
    if i == front.len() {
        assert forall|j: int| 0 <= j < front.len() implies (#[trigger] front[j]).0@ != name by {
            assert(front[j] == entries[j]);
            assert(entries[j].0@ != entries[i].0@);
        }
        absent_name(front, name);
    } else {
        assert(front[i] == entries[i]);
        names_have_no_order(front, name, i);
    }
}

proof fn absent_name<T>(entries: Seq<(String, T)>, name: Seq<char>)
    requires
        forall|j: int| 0 <= j < entries.len() ==> (#[trigger] entries[j]).0@ != name,
    ensures
        position_of(entries, name) is None,
    decreases entries.len(),
{
    if entries.len() > 0 {
        let front = entries.drop_last();
        assert forall|j: int| 0 <= j < front.len() implies (#[trigger] front[j]).0@ != name by {
            assert(front[j] == entries[j]);
        }
        absent_name(front, name);
        assert(entries.last() == entries[entries.len() - 1]);
    }
}

/// The value of `name`, if it has one.
pub open spec fn value_named<T>(entries: Seq<(String, T)>, name: Seq<char>) -> Option<T> {
    match position_of(entries, name) {
        Some(i) => Some(entries[i].1),
        None => None,
    }
}

/// A name that was found stands where it was found.
proof fn position_holds<T>(entries: Seq<(String, T)>, name: Seq<char>)
    ensures
        match position_of(entries, name) {
            Some(i) => 0 <= i < entries.len() && entries[i].0@ == name,
            None => forall|i: int| 0 <= i < entries.len() ==> (#[trigger] entries[i]).0@ != name,
        },
    decreases entries.len(),
{
    if entries.len() > 0 {
        let front = entries.drop_last();
        position_holds(front, name);
        assert forall|i: int|
            position_of(entries, name) is None && 0 <= i < entries.len() implies (
        #[trigger] entries[i]).0@ != name by {
            if i < front.len() {
                assert(front[i] == entries[i]);
            }
        }
    }
}

/// Where a name is found depends on the names alone.
proof fn position_of_names<T>(a: Seq<(String, T)>, b: Seq<(String, T)>, name: Seq<char>)
    requires
        a.len() == b.len(),
        forall|i: int| #![trigger a[i]] #![trigger b[i]] 0 <= i < a.len() ==> a[i].0@ == b[i].0@,
    ensures
        position_of(a, name) == position_of(b, name),
    decreases a.len(),
{
    if a.len() > 0 {
        let x = a.drop_last();
        let y = b.drop_last();
        assert forall|i: int|
            #![trigger x[i]]
            #![trigger y[i]]
            0 <= i < x.len() implies x[i].0@ == y[i].0@ by {
            assert(x[i] == a[i] && y[i] == b[i]);
        }
        position_of_names(x, y, name);
        assert(a.last() == a[a.len() - 1] && b.last() == b[b.len() - 1]);
    }
}

/// Gives `name` a value: the value that it had, if any, is replaced.
pub fn put_name<T>(entries: &mut Vec<(String, T)>, name: String, value: T)
    ensures
        distinct_names(old(entries)@) ==> distinct_names(final(entries)@),
        forall|n: Seq<char>| #[trigger]
            value_named(final(entries)@, n) == (if n == name@ {
                Some(value)
            } else {
                value_named(old(entries)@, n)
            }),
{
    let ghost before = entries@;
    let found = find_name(entries, name.as_str());
    proof {
        position_holds(before, name@);
    }
    match found {
        Some(i) => {
            entries.set(i, (name, value));
            proof {
                let now = entries@;
                assert forall|k: int|
                    #![trigger before[k]]
                    #![trigger now[k]]
                    0 <= k < before.len() implies before[k].0@ == now[k].0@ by {}
                assert forall|n: Seq<char>| #[trigger] value_named(now, n) == (if n == name@ {
                    Some(value)
                } else {
                    value_named(before, n)
                }) by {
                    position_of_names(before, now, n);
                    position_holds(before, n);
                }
            }
        },
        None => {
            entries.push((name, value));
            proof {
                let now = entries@;
                assert(now.drop_last() =~= before);
                assert forall|n: Seq<char>| #[trigger] value_named(now, n) == (if n == name@ {
                    Some(value)
                } else {
                    value_named(before, n)
                }) by {
                    position_holds(before, n);
                }
            }
        },
    }
}

// ---------------------------------------------------------------------------------------------
// Text that may be absent
// ---------------------------------------------------------------------------------------------
/// The characters of a text that may be absent.
pub open spec fn text_view(o: Option<String>) -> Option<Seq<char>> {
    match o {
        Some(s) => Some(s@),
        None => None,
    }
}

/// A copy of a text that may be absent.
pub fn copy_text(o: &Option<String>) -> (r: Option<String>)
    ensures
        text_view(r) == text_view(*o),
{
    match o {
        Some(s) => Some(s.clone()),
        None => None,
    }
}

} // verus!
