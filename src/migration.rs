use vstd::prelude::*;
use vstd::string::{StrSliceExecFns, StringExecFns};
use crate::text::{decimal, digit_char, split_chars, split_on};

verus! {

/// Why a legacy `"{timestamp}-{suffix}"` identifier could not be read.
pub enum IdError {
    /// The identifier does not have exactly one hyphen.
    InvalidFormat { id: String },
    /// The part before the hyphen is not an unsigned integer.
    InvalidTimestamp { part: String },
    /// The part before the hyphen is an integer larger than `u32::MAX`.
    ExceedsMaximum { part: String },
}

pub open spec fn is_digit(c: char) -> bool {
    '0' <= c && c <= '9'
}

/// The digits of an unsigned integer literal: an optional leading `+` is dropped.
pub open spec fn unsigned_digits(s: Seq<char>) -> Seq<char> {
    if s.len() > 0 && s[0] == '+' {
        s.drop_first()
    } else {
        s
    }
}

/// Whether `s` is an unsigned decimal integer: an optional `+`, then one or more digits.
pub open spec fn is_unsigned_integer(s: Seq<char>) -> bool {
    let d = unsigned_digits(s);
    d.len() > 0 && forall|i: int| 0 <= i < d.len() ==> is_digit(#[trigger] d[i])
}

pub open spec fn digit_value(c: char) -> nat {
    ((c as int) - ('0' as int)) as nat
}

/// The value of a string of decimal digits.
pub open spec fn decimal_value(d: Seq<char>) -> nat
    decreases d.len(),
{
    if d.len() == 0 {
        0
    } else {
        decimal_value(d.drop_last()) * 10 + digit_value(d.last())
    }
}

pub open spec fn invalid_format_message(id: Seq<char>) -> Seq<char> {
    "Invalid ID format: expected 'timestamp-suffix', got '"@ + id + "'"@
}

pub open spec fn invalid_timestamp_message(part: Seq<char>) -> Seq<char> {
    "Invalid timestamp: '"@ + part + "' is not a valid number"@
}

/// The digits without leading zeros.
pub open spec fn without_leading_zeros(d: Seq<char>) -> Seq<char>
    decreases d.len(),
{
    if d.len() > 0 && d[0] == '0' {
        without_leading_zeros(d.drop_first())
    } else {
        d
    }
}

proof fn lemma_leading_zero_value(e: Seq<char>)
    ensures
        decimal_value(seq!['0'] + e) == decimal_value(e),
    decreases e.len(),
{
    let s = seq!['0'] + e;
    assert(decimal_value(s) == decimal_value(s.drop_last()) * 10 + digit_value(s.last()));
    if e.len() > 0 {
        assert(decimal_value(e) == decimal_value(e.drop_last()) * 10 + digit_value(e.last()));
        assert((seq!['0'] + e).drop_last() =~= seq!['0'] + e.drop_last());
        assert((seq!['0'] + e).last() == e.last());
        lemma_leading_zero_value(e.drop_last());
    } else {
        assert((seq!['0'] + e).drop_last() =~= Seq::<char>::empty());
        assert((seq!['0'] + e).last() == '0');
        assert(digit_value('0') == 0);
        assert(decimal_value(s.drop_last()) == 0);
    }
}

proof fn lemma_digit_round_trip(c: char)
    requires
        is_digit(c),
    ensures
        digit_char(digit_value(c)) == c,
{
}

/// A digit string that does not start with `0` is the decimal representation of its value.
proof fn lemma_significant_digits(d: Seq<char>)
    requires
        d.len() > 0,
        d[0] != '0',
        forall|i: int| 0 <= i < d.len() ==> is_digit(#[trigger] d[i]),
    ensures
        decimal(decimal_value(d)) == d,
        decimal_value(d) >= 1,
    decreases d.len(),
{
    lemma_digit_round_trip(d.last());
    let p = d.drop_last();
    if p.len() == 0 {
        assert(decimal_value(p) == 0);
        assert(d =~= seq![d.last()]);
    } else {
        assert(p[0] == d[0]);
        lemma_significant_digits(p);
        let v = decimal_value(d);
        let q = decimal_value(p);
        let k = digit_value(d.last());
        assert(v == q * 10 + k);
        assert(k < 10);
        assert(v / 10 == q && v % 10 == k);
        assert(decimal(v) == decimal(q).push(digit_char(k)));
        assert(d =~= p.push(d.last()));
    }
}

/// The digits printed for a number too large for a timestamp are its value in decimal.
pub proof fn lemma_printed_digits_are_the_value(d: Seq<char>)
    requires
        forall|i: int| 0 <= i < d.len() ==> is_digit(#[trigger] d[i]),
        decimal_value(d) > 0,
    ensures
        without_leading_zeros(d) == decimal(decimal_value(d)),
    decreases d.len(),
{
    if d.len() > 0 && d[0] == '0' {
        let e = d.drop_first();
        assert(d =~= seq!['0'] + e);
        lemma_leading_zero_value(e);
        lemma_printed_digits_are_the_value(e);
    } else if d.len() > 0 {
        lemma_significant_digits(d);
    }
}

pub open spec fn exceeds_message(part: Seq<char>) -> Seq<char> {
    "Timestamp "@ + part + " exceeds u32::MAX (4294967295)"@
}

impl IdError {
    pub open spec fn message_spec(&self) -> Seq<char> {
        match self {
            IdError::InvalidFormat { id } => invalid_format_message(id@),
            IdError::InvalidTimestamp { part } => invalid_timestamp_message(part@),
            IdError::ExceedsMaximum { part } => exceeds_message(
                without_leading_zeros(unsigned_digits(part@)),
            ),
        }
    }

    /// A human-readable description of the error.
    pub fn message(&self) -> (r: String)
        ensures
            r@ == self.message_spec(),
    {
        match self {
            IdError::InvalidFormat { id } => {
                let s = String::from_str("Invalid ID format: expected 'timestamp-suffix', got '");
                let s = s.concat(id.as_str());
                s.concat("'")
            },
            IdError::InvalidTimestamp { part } => {
                let s = String::from_str("Invalid timestamp: '");
                let s = s.concat(part.as_str());
                s.concat("' is not a valid number")
            },
            IdError::ExceedsMaximum { part } => {
                let digits = significant_part(digits_part(part.as_str()).as_str());
                let s = String::from_str("Timestamp ");
                let s = s.concat(digits.as_str());
                s.concat(" exceeds u32::MAX (4294967295)")
            },
        }
    }
}

/// `s` without leading zeros.
fn significant_part(s: &str) -> (r: String)
    ensures
        r@ == without_leading_zeros(s@),
{
    let n = s.unicode_len();
    let mut i: usize = 0;
    assert(s@.subrange(0, n as int) =~= s@);
    while i < n && s.get_char(i) == '0'
        invariant
            n == s@.len(),
            i <= n,
            without_leading_zeros(s@) == without_leading_zeros(s@.subrange(i as int, n as int)),
        decreases n - i,
    {
        assert(s@.subrange(i as int, n as int).drop_first() =~= s@.subrange(i as int + 1, n as int));
        i = i + 1;
    }
    String::from_str(s.substring_char(i, n))
}

/// `s` without a leading `+`.
fn digits_part(s: &str) -> (r: String)
    ensures
        r@ == unsigned_digits(s@),
{
    let n = s.unicode_len();
    if n > 0 && s.get_char(0) == '+' {
        String::from_str(s.substring_char(1, n))
    } else {
        String::from_str(s)
    }
}

/// Reads the timestamp of a legacy identifier `"{timestamp}-{suffix}"`.
pub fn parse_string_id(id: &str) -> (r: Result<u32, IdError>)
    ensures
        ({
            let parts = split_on(id@, '-');
            match r {
                Ok(v) => parts.len() == 2 && is_unsigned_integer(parts[0]) && decimal_value(
                    unsigned_digits(parts[0]),
                ) == v,
                Err(IdError::InvalidFormat { id: x }) => parts.len() != 2 && x@ == id@,
                Err(IdError::InvalidTimestamp { part }) => parts.len() == 2
                    && !is_unsigned_integer(parts[0]) && part@ == parts[0],
                Err(IdError::ExceedsMaximum { part }) => parts.len() == 2 && is_unsigned_integer(
                    parts[0],
                ) && decimal_value(unsigned_digits(parts[0])) > u32::MAX && part@ == parts[0],
            }
        }),
{
    let parts = split_chars(id, '-');
    if parts.len() != 2 {
        return Err(IdError::InvalidFormat { id: String::from_str(id) });
    }
    let first = &parts[0];
    let digits = digits_part(first.as_str());
    let n = digits.as_str().unicode_len();
    if n == 0 {
        return Err(IdError::InvalidTimestamp { part: first.clone() });
    }
    let mut value: u64 = 0;
    let mut too_big = false;
    let mut i: usize = 0;
    while i < n
        invariant
            n == digits@.len(),
            parts.deep_view() == split_on(id@, '-'),
            parts.deep_view().len() == 2,
            first@ == parts.deep_view()[0],
            digits@ == unsigned_digits(parts.deep_view()[0]),
            i <= n,
            forall|j: int| 0 <= j < i ==> is_digit(#[trigger] digits@[j]),
            !too_big ==> value == decimal_value(digits@.subrange(0, i as int)) && value <= u32::MAX,
            too_big ==> decimal_value(digits@.subrange(0, i as int)) > u32::MAX,
        decreases n - i,
    {
        let c = digits.as_str().get_char(i);
        if !('0' <= c && c <= '9') {
            assert(!is_digit(digits@[i as int]));
            return Err(IdError::InvalidTimestamp { part: first.clone() });
        }
        proof {
            let p = digits@.subrange(0, i as int + 1);
            assert(p.drop_last() =~= digits@.subrange(0, i as int));
        }
        if !too_big {
            value = value * 10 + (c as u64 - '0' as u64);
            if value > 4294967295 {
                too_big = true;
            }
        }
        i = i + 1;
    }
    proof {
        assert(digits@.subrange(0, n as int) =~= digits@);
    }
    if too_big {
        Err(IdError::ExceedsMaximum { part: first.clone() })
    } else {
        Ok(value as u32)
    }
}

} // verus!
