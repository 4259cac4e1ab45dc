//! The shards of a directory, in the order of the instants that their names give.

use vstd::prelude::*;
use vstd::seq_lib::{group_to_multiset_ensures, to_multiset_build, to_multiset_len};

verus! {

/// A shard of the recording.
///
/// `nanos` is the instant that the file name gives, in nanoseconds since the
/// epoch; `entry` is the index of the file name in the listing it came from.
#[derive(Clone, Copy, Debug, PartialEq, Eq, Structural)]
pub struct Shard {
    pub nanos: i64,
    pub entry: usize,
}

/// Why a directory gives no catalog.
#[derive(Clone, Copy, Debug, PartialEq, Eq, Structural)]
pub enum CatalogError {
    /// No file name of the listing is that of a shard.
    Empty,
}

/// Whether `c` is a decimal digit.
pub open spec fn spec_is_digit(c: char) -> bool {
    '0' <= c <= '9'
}

/// Whether `digits` is one decimal digit or more.
pub open spec fn spec_is_number(digits: Seq<char>) -> bool {
    digits.len() > 0 && forall|i: int| 0 <= i < digits.len() ==> spec_is_digit(#[trigger] digits[i])
}

/// The number that a run of decimal digits writes.
pub open spec fn spec_digits_value(digits: Seq<char>) -> int
    decreases digits.len(),
{
    if digits.len() == 0 {
        0
    } else {
        spec_digits_value(digits.drop_last()) * 10 + (digits.last() as int - '0' as int)
    }
}

/// The integer that `text` writes: an optional sign, then one decimal digit or
/// more, and a value that a signed 64-bit integer holds.
pub open spec fn spec_parse_nanos(text: Seq<char>) -> Option<i64> {
    let signed = text.len() > 0 && (text[0] == '-' || text[0] == '+');
    let digits = if signed {
        text.subrange(1, text.len() as int)
    } else {
        text
    };
    let value = if text.len() > 0 && text[0] == '-' {
        -spec_digits_value(digits)
    } else {
        spec_digits_value(digits)
    };
    if spec_is_number(digits) && i64::MIN <= value <= i64::MAX {
        Some(value as i64)
    } else {
        None
    }
}

/// The instant that a file name gives: the name is an integer and the
/// extension `.wav`; any other name is not that of a shard.
pub open spec fn spec_shard_nanos(name: Seq<char>) -> Option<i64> {
    let stem = name.len() - 4;
    if stem >= 0 && name[stem] == '.' && name[stem + 1] == 'w' && name[stem + 2] == 'a' && name[stem
        + 3] == 'v' {
        spec_parse_nanos(name.subrange(0, stem))
    } else {
        None
    }
}

/// The shards among the first `upto` names of a listing, in the order of the listing.
pub open spec fn spec_entries(names: Seq<Seq<char>>, upto: int) -> Seq<Shard>
    decreases upto,
{
    if upto <= 0 || upto > names.len() {
        Seq::empty()
    } else {
        match spec_shard_nanos(names[upto - 1]) {
            Some(nanos) => spec_entries(names, upto - 1).push(
                Shard { nanos, entry: (upto - 1) as usize },
            ),
            None => spec_entries(names, upto - 1),
        }
    }
}

/// Whether `a` comes before `b`: by the instant, and between two shards of one
/// instant by the place in the listing.
pub open spec fn spec_before(a: Shard, b: Shard) -> bool {
    a.nanos < b.nanos || (a.nanos == b.nanos && a.entry < b.entry)
}

/// Whether each shard comes before all that follow it.
pub open spec fn spec_in_order(shards: Seq<Shard>) -> bool {
    forall|i: int, j: int| 0 <= i < j < shards.len() ==> spec_before(shards[i], shards[j])
}

/// The names of a listing as sequences of characters.
pub open spec fn spec_names(names: Seq<String>) -> Seq<Seq<char>> {
    Seq::new(names.len(), |i: int| names[i]@)
}

/// A longer run of digits writes no smaller number.
proof fn lemma_digits_grow(digits: Seq<char>, k: int)
    requires
        0 <= k <= digits.len(),
        forall|i: int| 0 <= i < digits.len() ==> spec_is_digit(#[trigger] digits[i]),
    ensures
        0 <= spec_digits_value(digits.take(k)) <= spec_digits_value(digits),
    decreases digits.len(),
{
    if digits.len() > 0 {
        if k == digits.len() {
            assert(digits.take(k) == digits);
            lemma_digits_grow(digits.drop_last(), k - 1);
        } else {
            assert(digits.take(k) == digits.drop_last().take(k));
            lemma_digits_grow(digits.drop_last(), k);
        }
    }
}

/// Reads the integer that `text` writes from the character `from` on, with the
/// sign already read.
fn parse_digits(text: &str, from: usize, len: usize, negative: bool) -> (nanos: Option<i64>)
    requires
        from <= len == text@.len(),
    ensures
        ({
            let digits = text@.subrange(from as int, len as int);
            let value = if negative {
                -spec_digits_value(digits)
            } else {
                spec_digits_value(digits)
            };
            nanos == if spec_is_number(digits) && i64::MIN <= value <= i64::MAX {
                Some(value as i64)
            } else {
                None
            }
        }),
{
    let ghost digits = text@.subrange(from as int, len as int);
    if from == len {
        return None;
    }
    let limit: u128 = 0x8000_0000_0000_0000;
    let mut value: u128 = 0;
    let mut at: usize = from;
    while at < len
        invariant
            from <= at <= len == text@.len(),
            digits == text@.subrange(from as int, len as int),
            limit == 0x8000_0000_0000_0000,
            value <= limit,
            value == spec_digits_value(digits.take(at - from)),
            forall|i: int| 0 <= i < at - from ==> spec_is_digit(#[trigger] digits[i]),
        decreases len - at,
    {
        let c = text.get_char(at);
        if c < '0' || c > '9' {
            assert(!spec_is_digit(digits[at - from]));
            return None;
        }
        let digit: u128 = (c as u32 - '0' as u32) as u128;
        proof {
            assert(digits.take(at - from + 1).drop_last() == digits.take(at - from));
        }
        value = value * 10 + digit;
        if value > limit {
            proof {
                if spec_is_number(digits) {
                    lemma_digits_grow(digits, at - from + 1);
                }
            }
            return None;
        }
        at = at + 1;
    }
    assert(digits.take(at - from) == digits);
    if negative {
        if value == limit {
            Some(i64::MIN)
        } else {
            Some(-(value as i64))
        }
    } else if value == limit {
        None
    } else {
        Some(value as i64)
    }
}

/// Reads the integer that `text` writes.
pub fn parse_nanos(text: &str) -> (nanos: Option<i64>)
    ensures
        nanos == spec_parse_nanos(text@),
{
    let len = text.unicode_len();
    if len == 0 {
        return None;
    }
    let first = text.get_char(0);
    if first == '-' {
        parse_digits(text, 1, len, true)
    } else if first == '+' {
        parse_digits(text, 1, len, false)
    } else {
        assert(text@.subrange(0, len as int) == text@);
        parse_digits(text, 0, len, false)
    }
}

/// Reads the instant that a file name gives.
pub fn shard_nanos(name: &str) -> (nanos: Option<i64>)
    ensures
        nanos == spec_shard_nanos(name@),
{
    let len = name.unicode_len();
    if len < 4 {
        return None;
    }
    let stem = len - 4;
    if name.get_char(stem) != '.' || name.get_char(stem + 1) != 'w' || name.get_char(stem + 2)
        != 'a' || name.get_char(stem + 3) != 'v' {
        return None;
    }
    parse_nanos(name.substring_char(0, stem))
}

/// Whether `a` comes before `b`.
fn before(a: &Shard, b: &Shard) -> (first: bool)
    ensures
        first == spec_before(*a, *b),
{
    a.nanos < b.nanos || (a.nanos == b.nanos && a.entry < b.entry)
}

/// Puts one more shard at its place among shards that are in order.
fn insert_in_order(shards: &mut Vec<Shard>, shard: Shard)
    requires
        spec_in_order(old(shards)@),
        forall|k: int| 0 <= k < old(shards)@.len() ==> old(shards)@[k].entry != shard.entry,
    ensures
        spec_in_order(final(shards)@),
        final(shards)@.to_multiset() == old(shards)@.to_multiset().insert(shard),
        forall|k: int|
            0 <= k < final(shards)@.len() ==> final(shards)@[k] == shard || old(
                shards,
            )@.contains(#[trigger] final(shards)@[k]),
{
    broadcast use group_to_multiset_ensures;

    let mut at: usize = shards.len();
    while at > 0 && before(&shard, &shards[at - 1])
        invariant
            at <= shards@.len(),
            shards@ == old(shards)@,
            forall|j: int| at <= j < shards@.len() ==> spec_before(shard, #[trigger] shards@[j]),
        decreases at,
    {
        at = at - 1;
    }
    shards.insert(at, shard);
    proof {
        let before = old(shards)@;
        let after = shards@;
        assert forall|i: int, j: int| 0 <= i < j < after.len() implies spec_before(
            after[i],
            after[j],
        ) by {
            if j == at && i < at - 1 {
                assert(spec_before(before[i], before[at - 1]));
            }
        }
    }
}

/// Lists the shards of a directory.
///
/// `names` are the file names of the directory, in any order. A name that is
/// not that of a shard is passed over. The shards come in the order of their
/// instants, as numbers; two names that give one instant keep the order of the
/// listing. A directory without a shard gives `CatalogError::Empty`.
pub fn list(names: &Vec<String>) -> (listing: Result<Vec<Shard>, CatalogError>)
    ensures
        match listing {
            Ok(shards) => {
                &&& shards@.len() > 0
                &&& spec_in_order(shards@)
                &&& shards@.to_multiset() == spec_entries(
                    spec_names(names@),
                    names@.len() as int,
                ).to_multiset()
            },
            Err(e) => e == CatalogError::Empty && spec_entries(
                spec_names(names@),
                names@.len() as int,
            ).len() == 0,
        },
{
    broadcast use group_to_multiset_ensures;

    let mut shards: Vec<Shard> = Vec::new();
    let mut at: usize = 0;
    while at < names.len()
        invariant
            at <= names@.len(),
            spec_in_order(shards@),
            shards@.to_multiset() == spec_entries(spec_names(names@), at as int).to_multiset(),
            forall|k: int| 0 <= k < shards@.len() ==> (#[trigger] shards@[k]).entry < at,
        decreases names@.len() - at,
    {
        let ghost known = spec_entries(spec_names(names@), at as int);
        assert(spec_entries(spec_names(names@), at + 1) == match spec_shard_nanos(
            names@[at as int]@,
        ) {
            Some(nanos) => known.push(Shard { nanos, entry: at }),
            None => known,
        });
        if let Some(nanos) = shard_nanos(names[at].as_str()) {
            insert_in_order(&mut shards, Shard { nanos, entry: at });
            proof {
                to_multiset_build(known, Shard { nanos, entry: at });
            }
        }
        at = at + 1;
    }
    proof {
        to_multiset_len(shards@);
        to_multiset_len(spec_entries(spec_names(names@), names@.len() as int));
    }
    if shards.len() == 0 {
        Err(CatalogError::Empty)
    } else {
        Ok(shards)
    }
}

/// Finds the first shard of the instant `nanos` at or after the index `from`.
pub fn position_from(shards: &Vec<Shard>, from: usize, nanos: i64) -> (found: Option<usize>)
    ensures
        match found {
            Some(at) => {
                &&& from <= at < shards@.len()
                &&& shards@[at as int].nanos == nanos
                &&& forall|j: int| from <= j < at ==> (#[trigger] shards@[j]).nanos != nanos
            },
            None => forall|j: int|
                from <= j < shards@.len() ==> (#[trigger] shards@[j]).nanos != nanos,
        },
{
    let mut at: usize = from;
    while at < shards.len()
        invariant
            from <= at,
            forall|j: int| from <= j < at && j < shards@.len() ==> (#[trigger] shards@[j]).nanos
                != nanos,
        decreases shards@.len() - at,
    {
        if shards[at].nanos == nanos {
            return Some(at);
        }
        at = at + 1;
    }
    None
}

/// Finds the first shard of the instant `nanos`.
pub fn position(shards: &Vec<Shard>, nanos: i64) -> (found: Option<usize>)
    ensures
        match found {
            Some(at) => {
                &&& at < shards@.len()
                &&& shards@[at as int].nanos == nanos
                &&& forall|j: int| 0 <= j < at ==> (#[trigger] shards@[j]).nanos != nanos
            },
            None => forall|j: int| 0 <= j < shards@.len() ==> (#[trigger] shards@[j]).nanos != nanos,
        },
{
    position_from(shards, 0, nanos)
}

/// The order of a listing is one: two sequences that hold the same shards,
/// both in order, are the same sequence.
pub proof fn law_order_is_unique(first: Seq<Shard>, second: Seq<Shard>)
    requires
        spec_in_order(first),
        spec_in_order(second),
        first.to_multiset() == second.to_multiset(),
    ensures
        first == second,
    decreases first.len(),
{
    broadcast use group_to_multiset_ensures;

    to_multiset_len(first);
    to_multiset_len(second);
    if first.len() > 0 {
        let a = first.last();
        let b = second.last();
        first.to_multiset_ensures();
        second.to_multiset_ensures();
        assert(first.contains(a));
        assert(second.contains(b));
        assert(first.to_multiset().count(a) > 0);
        assert(second.to_multiset().count(b) > 0);
        assert(second.contains(a));
        assert(first.contains(b));
        let i = choose|i: int| 0 <= i < second.len() && second[i] == a;
        let j = choose|j: int| 0 <= j < first.len() && first[j] == b;
        assert(a == b) by {
            if i < second.len() - 1 {
                assert(spec_before(second[i], second[second.len() - 1]));
            }
            if j < first.len() - 1 {
                assert(spec_before(first[j], first[first.len() - 1]));
            }
        }
        assert(first.drop_last() == first.remove(first.len() - 1));
        assert(second.drop_last() == second.remove(second.len() - 1));
        law_order_is_unique(first.drop_last(), second.drop_last());
        assert(first == first.drop_last().push(a));
        assert(second == second.drop_last().push(b));
    } else {
        assert(first == second);
    }
}

} // verus!
