//! The text form of a bomb's position in saved games: "x,y", the column and the row in
//! decimal.
use vstd::prelude::*;

use crate::game::position_key;
use crate::rules::{bomb_key, key_x, key_y, lemma_key_encode};

verus! {

/// An ASCII decimal digit.
pub open spec fn is_digit(c: u8) -> bool {
    48 <= c <= 57
}

/// The number that a run of decimal digits writes.
pub open spec fn decimal_value(s: Seq<u8>) -> nat
    decreases s.len(),
{
    if s.len() == 0 {
        0
    } else {
        decimal_value(s.drop_last()) * 10 + (s.last() - 48) as nat
    }
}

/// A number written in decimal the usual way: at least one digit, only digits, and no
/// leading zero unless the number is zero itself.
pub open spec fn is_decimal(s: Seq<u8>) -> bool {
    &&& s.len() >= 1
    &&& forall|i: int| 0 <= i < s.len() ==> is_digit(#[trigger] s[i])
    &&& (s.len() == 1 || s[0] != 48)
}

/// The decimal digits of `n`.
pub open spec fn decimal_digits(n: nat) -> Seq<u8>
    decreases n,
{
    if n < 10 {
        seq![(48 + n) as u8]
    } else {
        decimal_digits(n / 10).push((48 + n % 10) as u8)
    }
}

/// The text "x,y" of the position (x, y).
pub open spec fn position_text_of(x: nat, y: nat) -> Seq<u8> {
    decimal_digits(x) + seq![44u8] + decimal_digits(y)
}

/// The comma at `i` splits `t` into two decimal numbers.
pub open spec fn splits_at(t: Seq<u8>, i: int) -> bool {
    &&& 0 <= i < t.len()
    &&& t[i] == 44
    &&& is_decimal(t.take(i))
    &&& is_decimal(t.skip(i + 1))
}

/// The position that a text "x,y" names: two decimal numbers around a comma. Any other
/// text names none.
pub open spec fn position_of_text(t: Seq<u8>) -> Option<(nat, nat)> {
    if exists|i: int| splits_at(t, i) {
        let i = choose|i: int| splits_at(t, i);
        Some((decimal_value(t.take(i)), decimal_value(t.skip(i + 1))))
    } else {
        None
    }
}

/// The decimal digits of `n` write `n` the usual way.
pub proof fn lemma_decimal_digits(n: nat)
    ensures
        is_decimal(decimal_digits(n)),
        decimal_value(decimal_digits(n)) == n,
        n >= 1 ==> decimal_digits(n)[0] != 48,
    decreases n,
{
    let d = decimal_digits(n);
    if n < 10 {
        assert(d.drop_last() =~= Seq::<u8>::empty());
        assert(d.last() == 48 + n);
        assert(decimal_value(d.drop_last()) == 0);
    } else {
        lemma_decimal_digits(n / 10);
        let p = decimal_digits(n / 10);
        assert(d.drop_last() =~= p);
        assert(d.last() == 48 + n % 10);
        assert((n / 10) * 10 + n % 10 == n);
        assert(decimal_value(d) == decimal_value(d.drop_last()) * 10 + (d.last() - 48) as nat);
        assert(decimal_value(d.drop_last()) == n / 10);
        assert(d[0] == p[0]);
        assert forall|i: int| 0 <= i < d.len() implies is_digit(#[trigger] d[i]) by {
            if i < p.len() {
                assert(d[i] == p[i]);
            }
        }
    }
}

/// A number written in decimal reads no less than any of its prefixes.
proof fn lemma_decimal_prefix(s: Seq<u8>, k: int)
    requires
        0 <= k <= s.len(),
        forall|i: int| 0 <= i < s.len() ==> is_digit(#[trigger] s[i]),
    ensures
        decimal_value(s.take(k)) <= decimal_value(s),
    decreases s.len(),
{
    if k < s.len() {
        let p = s.drop_last();
        assert forall|i: int| 0 <= i < p.len() implies is_digit(#[trigger] p[i]) by {
            assert(p[i] == s[i]);
        }
        lemma_decimal_prefix(p, k);
        assert(p.take(k) =~= s.take(k));
        assert(is_digit(s[s.len() - 1]));
    } else {
        assert(s.take(k) =~= s);
    }
}

/// Reading the text of a position gives back the position.
pub proof fn lemma_position_text_round_trip(x: nat, y: nat)
    ensures
        position_of_text(position_text_of(x, y)) == Some((x, y)),
{
    let dx = decimal_digits(x);
    let dy = decimal_digits(y);
    let t = position_text_of(x, y);
    lemma_decimal_digits(x);
    lemma_decimal_digits(y);
    let c = dx.len() as int;
    assert(t.take(c) =~= dx);
    assert(t.skip(c + 1) =~= dy);
    assert(t[c] == 44);
    assert(splits_at(t, c));
    assert forall|i: int| splits_at(t, i) implies i == c by {
        if i < c {
            assert(t[i] == dx[i]);
            assert(is_digit(dx[i]));
        } else if i > c {
            assert(t.take(i)[c] == 44);
            assert(is_digit(t.take(i)[c]));
        }
    }
}

/// Reading the text of a key gives back the key, for every key of a position that a
/// `usize` can index.
pub proof fn lemma_key_text_round_trip(k: u128)
    requires
        key_x(k) <= usize::MAX,
        key_y(k) <= usize::MAX,
    ensures
        position_of_text(position_text_of(key_x(k) as nat, key_y(k) as nat)) == Some(
            (key_x(k) as nat, key_y(k) as nat),
        ),
        bomb_key(key_x(k), key_y(k)) == k,
{
    lemma_position_text_round_trip(key_x(k) as nat, key_y(k) as nat);
    lemma_key_encode(k);
}

/// The decimal digits of `n`.
pub fn decimal(n: u64) -> (d: Vec<u8>)
    ensures
        d@ == decimal_digits(n as nat),
    decreases n,
{
    if n < 10 {
        let mut d: Vec<u8> = Vec::new();
        d.push((48 + n) as u8);
        proof {
            assert(d@ =~= decimal_digits(n as nat));
        }
        d
    } else {
        let mut d = decimal(n / 10);
        d.push((48 + n % 10) as u8);
        d
    }
}


/// The text "x,y" of the position that key `k` stands for.
pub fn position_text(k: u128) -> (t: Vec<u8>)
    ensures
        t@ == position_text_of(key_x(k) as nat, key_y(k) as nat),
{
    let x = (k / 0x1_0000_0000_0000_0000u128) as u64;
    let y = (k % 0x1_0000_0000_0000_0000u128) as u64;
    let mut t = decimal(x);
    t.push(44);
    let mut d = decimal(y);
    t.append(&mut d);
    t
}

/// Reads `t[lo..hi]` as a number written in decimal: `None` when it is not one, or when
/// the number does not fit in a `u64`.
fn parse_decimal(t: &Vec<u8>, lo: usize, hi: usize) -> (r: Option<u64>)
    requires
        lo <= hi <= t@.len(),
    ensures
        r matches Some(v) ==> is_decimal(t@.subrange(lo as int, hi as int)) && v == decimal_value(
            t@.subrange(lo as int, hi as int),
        ),
        r is None ==> !(is_decimal(t@.subrange(lo as int, hi as int)) && decimal_value(
            t@.subrange(lo as int, hi as int),
        ) <= u64::MAX),
{
    let ghost sub = t@.subrange(lo as int, hi as int);
    if lo == hi {
        return None;
    }
    if hi - lo > 1 && t[lo] == 48 {
        assert(sub[0] == 48);
        return None;
    }
    let mut v: u64 = 0;
    let mut i: usize = lo;
    while i < hi
        invariant
            lo <= i <= hi <= t@.len(),
            lo < hi,
            sub == t@.subrange(lo as int, hi as int),
            hi - lo > 1 ==> t@[lo as int] != 48,
            forall|j: int| lo <= j < i ==> is_digit(#[trigger] t@[j]),
            v == decimal_value(t@.subrange(lo as int, i as int)),
        decreases hi - i,
    {
        let c = t[i];
        if c < 48 || c > 57 {
            assert(!is_digit(sub[i - lo]));
            return None;
        }
        let d = (c - 48) as u64;
        let ghost next = t@.subrange(lo as int, i + 1);
        assert(next.drop_last() =~= t@.subrange(lo as int, i as int));
        assert(decimal_value(next) == v * 10 + d);
        if v > (u64::MAX - d) / 10 {
            proof {
                if forall|j: int| 0 <= j < sub.len() ==> is_digit(#[trigger] sub[j]) {
                    lemma_decimal_prefix(sub, i + 1 - lo);
                    assert(sub.take(i + 1 - lo) =~= next);
                }
            }
            return None;
        }
        v = v * 10 + d;
        i += 1;
    }
    proof {
        assert(t@.subrange(lo as int, i as int) =~= sub);
        assert forall|j: int| 0 <= j < sub.len() implies is_digit(#[trigger] sub[j]) by {
            assert(sub[j] == t@[lo + j]);
        }
    }
    Some(v)
}

/// The key of the position that the text `t` names ("x,y", two numbers written in decimal
/// around a comma), when it names one on a board that a `usize` can index.
pub fn parse_position(t: &Vec<u8>) -> (r: Option<u128>)
    ensures
        r == match position_of_text(t@) {
            Some((x, y)) => if x <= usize::MAX && y <= usize::MAX {
                Some(bomb_key(x as int, y as int))
            } else {
                None
            },
            None => None,
        },
{
    let mut c: usize = 0;
    while c < t.len() && t[c] != 44
        invariant
            c <= t@.len(),
            forall|j: int| 0 <= j < c ==> #[trigger] t@[j] != 44,
        decreases t@.len() - c,
    {
        c += 1;
    }
    if c == t.len() {
        assert(!exists|i: int| splits_at(t@, i));
        return None;
    }
    proof {
        assert forall|i: int| splits_at(t@, i) implies i == c by {
            if i < c {
            } else if i > c {
                assert(t@.take(i)[c as int] == 44);
                assert(is_digit(t@.take(i)[c as int]));
            }
        }
        assert(t@.take(c as int) =~= t@.subrange(0, c as int));
        assert(t@.skip(c + 1) =~= t@.subrange(c + 1, t@.len() as int));
    }
    let left = parse_decimal(t, 0, c);
    let right = parse_decimal(t, c + 1, t.len());
    match (left, right) {
        (Some(x), Some(y)) => {
            assert(splits_at(t@, c as int));
            if (x as u128) <= (usize::MAX as u128) && (y as u128) <= (usize::MAX as u128) {
                Some(position_key(x as usize, y as usize))
            } else {
                None
            }
        },
        _ => {
            proof {
                if splits_at(t@, c as int) {
                    assert(usize::MAX <= u64::MAX);
                }
            }
            None
        },
    }
}

} // verus!
