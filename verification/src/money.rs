use vstd::prelude::*;
use vstd::string::StrSliceExecFns;

use crate::digits::is_digit;
use crate::timestamp::Timestamp;

verus! {

#[verifier::external_type_specification]
#[verifier::external_body]
pub struct ExCurrency(rusty_money::iso::Currency);

/// An amount of money in one of the registry's currencies, as the
/// monetary parser produced it; opaque to the verifier. The only way
/// to make one is `money_from_str`, so two equal values stand for the
/// same parsed amount in the same currency.
#[verifier::external_body]
#[derive(Debug, PartialEq)]
pub struct MoneyVal {
    inner: rusty_money::Money<'static, rusty_money::iso::Currency>,
}

/// One hourly price point: an absolute UTC timestamp and a monetary
/// amount carrying the document's currency.
pub struct Price {
    pub start_time: Timestamp,
    pub amount: MoneyVal,
}

/// Whether the ISO-4217 alphabetic code is in the currency registry.
pub uninterp spec fn iso_known(code: Seq<char>) -> bool;

/// Whether the monetary parser accepts the amount string under the
/// conventions of the currency named by the code.
pub uninterp spec fn money_parses(amount: Seq<char>, code: Seq<char>) -> bool;

/// Relies on rusty_money::iso::find: a fixed table lookup that returns
/// the currency data exactly for the ISO-4217 alphabetic codes it knows.
#[verifier::external_body]
pub fn iso_find(code: &str) -> (r: Option<&'static rusty_money::iso::Currency>)
    ensures
        r is Some <==> iso_known(code@),
{
    rusty_money::iso::find(code)
}

/// The unsigned part of an amount string: the leading minus sign, if
/// any, removed.
pub open spec fn unsigned_part(s: Seq<char>) -> Seq<char> {
    if s.len() > 0 && s[0] == '-' {
        s.drop_first()
    } else {
        s
    }
}

/// The unsigned part is one to eighteen digits, a comma at `k`, and one
/// to nine fractional digits.
pub open spec fn comma_shape(t: Seq<char>, k: int) -> bool {
    &&& 0 < k < t.len()
    &&& t[k] == ','
    &&& k <= 18
    &&& 1 <= t.len() - k - 1 <= 9
    &&& forall|i: int| 0 <= i < k ==> is_digit(#[trigger] t[i])
    &&& forall|i: int| k < i < t.len() ==> is_digit(#[trigger] t[i])
}

/// The amount shapes handed to the monetary parser: an optional minus
/// sign, one to eighteen integer digits, and optionally a comma
/// followed by one to nine fractional digits.
pub open spec fn money_shape(s: Seq<char>) -> bool {
    let t = unsigned_part(s);
    ||| (1 <= t.len() <= 18 && forall|i: int| 0 <= i < t.len() ==> is_digit(#[trigger] t[i]))
    ||| (exists|k: int| comma_shape(t, k))
}

/// Relies on rusty_money::Money::from_str, which reads a decimal amount
/// string under the separator conventions of the given currency's
/// locale, and on rusty_money::iso::find, which supplies the currency
/// for the code; together a deterministic function of the two strings.
/// The shape precondition keeps out the strings on which from_str would
/// reach its internal unwrap of a failed decimal conversion.
#[verifier::external_body]
pub fn money_from_str(amount: &str, code: &str) -> (r: Option<MoneyVal>)
    requires
        money_shape(amount@),
    ensures
        (r is Some) == (iso_known(code@) && money_parses(amount@, code@)),
{
    let currency = rusty_money::iso::find(code)?;
    match rusty_money::Money::from_str(amount, currency) {
        Ok(m) => Some(MoneyVal { inner: m }),
        Err(_) => None,
    }
}

/// Relies on std's String::push appending a single character.
#[verifier::external_body]
fn push_char(s: &mut String, c: char)
    ensures
        final(s)@ == old(s)@.push(c),
{
    s.push(c)
}

/// Every period replaced by a comma: the provider writes decimals with
/// a period, the monetary parser expects the document currency's
/// minor-unit separator.
pub open spec fn spec_normalize(s: Seq<char>) -> Seq<char> {
    s.map_values(
        |c: char|
            if c == '.' {
                ','
            } else {
                c
            },
    )
}

/// Rewrites the provider's decimal separator for the monetary parser.
pub fn normalize_separator(s: &str) -> (r: String)
    ensures
        r@ == spec_normalize(s@),
{
    let n = s.unicode_len();
    let mut out = String::new();
    let mut i: usize = 0;
    while i < n
        invariant
            n == s@.len(),
            i <= n,
            out@ == spec_normalize(s@.subrange(0, i as int)),
        decreases n - i,
    {
        let c = s.get_char(i);
        if c == '.' {
            push_char(&mut out, ',');
        } else {
            push_char(&mut out, c);
        }
        proof {
            assert(spec_normalize(s@.subrange(0, i + 1)) =~= spec_normalize(
                s@.subrange(0, i as int),
            ).push(
                if s@[i as int] == '.' {
                    ','
                } else {
                    s@[i as int]
                },
            ));
        }
        i += 1;
    }
    proof {
        assert(s@.subrange(0, n as int) =~= s@);
    }
    out
}

/// Whether the string has one of the shapes `money_shape` describes;
/// a linear scan for the sign, the comma and the digits.
pub fn check_money_shape(s: &str) -> (r: bool)
    ensures
        r == money_shape(s@),
{
    let n = s.unicode_len();
    let start: usize = if n > 0 && s.get_char(0) == '-' {
        1
    } else {
        0
    };
    let ghost t: Seq<char> = unsigned_part(s@);
    proof {
        assert(t.len() == n - start);
        assert(forall|i: int| 0 <= i < t.len() ==> t[i] == s@[i + start]);
    }
    if n == start {
        proof {
            if exists|k: int| comma_shape(t, k) {
                let k = choose|k: int| comma_shape(t, k);
            }
        }
        return false;
    }
    let mut comma: Option<usize> = None;
    let mut i: usize = start;
    while i < n
        invariant
            n == s@.len(),
            start <= i <= n,
            start <= 1,
            t == unsigned_part(s@),
            t.len() == n - start,
            forall|j: int| 0 <= j < t.len() ==> t[j] == s@[j + start],
            match comma {
                Some(k) => {
                    &&& start <= k < i
                    &&& t[k - start] == ','
                    &&& forall|j: int| 0 <= j < i - start && j != k - start ==> is_digit(
                        #[trigger] t[j],
                    )
                },
                None => forall|j: int| 0 <= j < i - start ==> is_digit(#[trigger] t[j]),
            },
        decreases n - i,
    {
        let c = s.get_char(i);
        if c == ',' {
            if comma.is_some() {
                proof {
                    let k1 = (comma.unwrap() - start) as int;
                    let k2 = (i - start) as int;
                    if money_shape(s@) {
                        if exists|k: int| comma_shape(t, k) {
                            let k = choose|k: int| comma_shape(t, k);
                            if k != k1 {
                                assert(is_digit(t[k1]));
                            } else {
                                assert(is_digit(t[k2]));
                            }
                        } else {
                            assert(is_digit(t[k1]));
                        }
                    }
                }
                return false;
            }
            comma = Some(i);
        } else if !(c >= '0' && c <= '9') {
            proof {
                let j = (i - start) as int;
                if money_shape(s@) {
                    if exists|k: int| comma_shape(t, k) {
                        let k = choose|k: int| comma_shape(t, k);
                        assert(j != k);
                        assert(is_digit(t[j]));
                    } else {
                        assert(is_digit(t[j]));
                    }
                }
            }
            return false;
        }
        i += 1;
    }
    match comma {
        None => {
            let ok = n - start <= 18;
            proof {
                if ok {
                    assert(money_shape(s@));
                } else {
                    if exists|k: int| comma_shape(t, k) {
                        let k = choose|k: int| comma_shape(t, k);
                        assert(is_digit(t[k]));
                    }
                }
            }
            ok
        },
        Some(k) => {
            let intlen = k - start;
            let fraclen = n - k - 1;
            let ok = intlen >= 1 && intlen <= 18 && fraclen >= 1 && fraclen <= 9;
            proof {
                let ki = (k - start) as int;
                if ok {
                    assert(comma_shape(t, ki));
                } else {
                    if money_shape(s@) {
                        assert(t[ki] == ',');
                        if exists|kx: int| comma_shape(t, kx) {
                            let kx = choose|kx: int| comma_shape(t, kx);
                            assert(kx == ki) by {
                                if kx != ki {
                                    assert(is_digit(t[ki]));
                                }
                            }
                            assert(false);
                        } else {
                            assert(is_digit(t[ki]));
                        }
                    }
                }
            }
            ok
        },
    }
}

} // verus!
