//! Object names in the backing store: each object is kept under the decimal
//! form of its key, and a fresh store hands out keys above every name that
//! reads as a number.
use vstd::prelude::*;
use vstd::string::StringSliceAdditionalSpecFns;

verus! {

/// The ASCII code of `0`.
pub const ASCII_ZERO: u8 = 48;

/// The ASCII code of `9`.
pub const ASCII_NINE: u8 = 57;

/// The ASCII code of `+`.
pub const ASCII_PLUS: u8 = 43;

/// `b` is an ASCII decimal digit.
pub open spec fn is_digit(b: u8) -> bool {
    ASCII_ZERO <= b <= ASCII_NINE
}

/// The value of a digit byte (zero for any other byte).
pub open spec fn digit_value(b: u8) -> nat {
    if is_digit(b) { (b - ASCII_ZERO) as nat } else { 0 }
}

/// The number that a sequence of decimal digits denotes, most significant first.
pub open spec fn decimal_value(d: Seq<u8>) -> nat
    decreases d.len(),
{
    if d.len() == 0 {
        0
    } else {
        decimal_value(d.drop_last()) * 10 + digit_value(d.last())
    }
}

/// The digits of a number's text: one leading `+` is dropped when digits follow it.
pub open spec fn digits_of(b: Seq<u8>) -> Seq<u8> {
    if b.len() > 1 && b[0] == ASCII_PLUS { b.drop_first() } else { b }
}

/// What reading the bytes `b` as an unsigned 64-bit decimal number gives: the
/// number when `b` is an optional `+` and then one or more digits whose value
/// fits in 64 bits, and nothing otherwise.
pub open spec fn parse_decimal_u64(b: Seq<u8>) -> Option<u64> {
    let d = digits_of(b);
    if d.len() > 0 && (forall|k: int| 0 <= k < d.len() ==> is_digit(#[trigger] d[k]))
        && decimal_value(d) <= u64::MAX {
        Some(decimal_value(d) as u64)
    } else {
        None
    }
}

/// The UTF-8 bytes of each name.
pub open spec fn name_bytes(names: Seq<String>) -> Seq<Seq<u8>> {
    names.map_values(|s: String| vstd::utf8::encode_utf8(s@))
}

/// The largest number among the names that read as numbers, or zero.
pub open spec fn max_parsed(names: Seq<Seq<u8>>) -> nat
    decreases names.len(),
{
    if names.len() == 0 {
        0
    } else {
        let m = max_parsed(names.drop_last());
        match parse_decimal_u64(names.last()) {
            Some(v) => if v > m { v as nat } else { m },
            None => m,
        }
    }
}

proof fn lemma_decimal_value_prefix(d: Seq<u8>, i: int, j: int)
    requires
        0 <= i <= j <= d.len(),
    ensures
        decimal_value(d.take(i)) <= decimal_value(d.take(j)),
    decreases j - i,
{
    if i < j {
        lemma_decimal_value_prefix(d, i, j - 1);
        assert(d.take(j).drop_last() =~= d.take(j - 1));
    }
}

/// Reads a name as an unsigned 64-bit decimal number, as `str::parse::<u64>`
/// does: an optional `+`, then one or more digits whose value fits in 64 bits.
pub fn parse_object_name(name: &str) -> (r: Option<u64>)
    ensures
        r == parse_decimal_u64(name.spec_bytes()),
{
    let b = name.as_bytes();
    let ghost d = digits_of(b@);
    let n = b.len();
    let start: usize = if n > 1 && b[0] == ASCII_PLUS { 1 } else { 0 };
    assert(d =~= b@.skip(start as int));
    if start == n {
        return None;
    }
    let mut acc: u64 = 0;
    let mut i: usize = start;
    while i < n
        invariant
            start <= i <= n,
            n == b@.len(),
            b@ == name.spec_bytes(),
            d == digits_of(b@),
            d == b@.skip(start as int),
            acc == decimal_value(d.take(i - start)),
            forall|k: int| 0 <= k < i - start ==> is_digit(#[trigger] d[k]),
        decreases n - i,
    {
        let c = b[i];
        if c < ASCII_ZERO || c > ASCII_NINE {
            assert(!is_digit(d[i - start]));
            return None;
        }
        proof {
            assert(d.take(i - start + 1).drop_last() =~= d.take(i - start));
        }
        let next = match acc.checked_mul(10) {
            Some(t) => t.checked_add((c - ASCII_ZERO) as u64),
            None => None,
        };
        match next {
            Some(v) => {
                acc = v;
            },
            None => {
                proof {
                    lemma_decimal_value_prefix(d, i - start + 1, d.len() as int);
                    assert(d.take(d.len() as int) =~= d);
                }
                return None;
            },
        }
        i = i + 1;
    }
    assert(d.take(d.len() as int) =~= d);
    Some(acc)
}

/// The largest number among the names that read as unsigned 64-bit decimal
/// numbers, or zero when none does.
pub fn max_object_id(names: &Vec<String>) -> (r: u64)
    ensures
        r == max_parsed(name_bytes(names@)),
{
    let ghost all = name_bytes(names@);
    let mut m: u64 = 0;
    let mut i: usize = 0;
    assert(all.take(0) =~= Seq::<Seq<u8>>::empty());
    while i < names.len()
        invariant
            all == name_bytes(names@),
            i <= names@.len(),
            m == max_parsed(all.take(i as int)),
        decreases names.len() - i,
    {
        let p = parse_object_name(names[i].as_str());
        proof {
            assert(all.take(i as int + 1).drop_last() =~= all.take(i as int));
        }
        match p {
            Some(v) => {
                if v > m {
                    m = v;
                }
            },
            None => {},
        }
        i = i + 1;
    }
    assert(all.take(i as int) =~= all);
    m
}

/// Every name that reads as a number reads as at most `max_parsed` of the names.
pub proof fn lemma_max_parsed_bounds(names: Seq<Seq<u8>>, i: int)
    requires
        0 <= i < names.len(),
        parse_decimal_u64(names[i]) is Some,
    ensures
        parse_decimal_u64(names[i])->0 <= max_parsed(names),
    decreases names.len(),
{
    if i < names.len() - 1 {
        lemma_max_parsed_bounds(names.drop_last(), i);
    }
}

} // verus!
