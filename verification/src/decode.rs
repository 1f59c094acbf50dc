use vstd::prelude::*;
use vstd::string::StrSliceExecFns;

use crate::digits::spec_parse_u32;
use crate::digits::parse_u32;
use crate::errors::GetPriceError;
use crate::money::{
    Price, check_money_shape, iso_find, iso_known, money_from_str, money_parses, money_shape,
    normalize_separator, spec_normalize,
};
use crate::scan::{element, find_from, lemma_find_bounds, spec_element, spec_find};
use crate::timestamp::{Timestamp, add_hours, parse_timestamp, spec_parse_timestamp};
use crate::scan::str_eq;

verus! {

/// The contents of the `Point` elements of `s`, in order of occurrence,
/// scanning from `from`; `None` when an opening tag has no closing tag
/// after it.
pub open spec fn spec_points(s: Seq<char>, from: int) -> Option<Seq<Seq<char>>>
    decreases s.len() - from,
{
    let open = "<Point>"@;
    let close = "</Point>"@;
    match spec_find(s, open, from) {
        None => Some(Seq::empty()),
        Some(i) => match spec_find(s, close, i + open.len()) {
            None => None,
            Some(j) => {
                if from <= i && i + open.len() <= j && from < j + close.len() <= s.len() {
                    match spec_points(s, j + close.len()) {
                        None => None,
                        Some(rest) => Some(
                            Seq::empty().push(s.subrange(i + open.len(), j)) + rest,
                        ),
                    }
                } else {
                    None
                }
            },
        },
    }
}

/// The position and price string of one `Point` element's content, or
/// the name of the part that is missing or non-numeric.
pub open spec fn spec_point_fields(content: Seq<char>) -> Result<(u32, Seq<char>), Seq<char>> {
    match spec_element(content, "<position>"@, "</position>"@) {
        None => Err("position"@),
        Some(ps) => match spec_parse_u32(ps) {
            None => Err("position"@),
            Some(v) => match spec_element(content, "<price.amount>"@, "</price.amount>"@) {
                None => Err("price.amount"@),
                Some(pr) => Ok((v, pr)),
            },
        },
    }
}

/// The price strings of the points from index `i` on, demanding that
/// the point at index `i` carries position `i + 1`: positions must be
/// exactly 1 up to the number of points, in order and without gaps.
pub open spec fn spec_prices_from(pts: Seq<Seq<char>>, i: int) -> Result<Seq<Seq<char>>, Seq<char>>
    decreases pts.len() - i,
{
    if i >= pts.len() {
        Ok(Seq::empty())
    } else {
        match spec_point_fields(pts[i]) {
            Err(d) => Err(d),
            Ok((pos, price)) => {
                if pos as int != i + 1 {
                    Err("position"@)
                } else {
                    match spec_prices_from(pts, i + 1) {
                        Err(d) => Err(d),
                        Ok(rest) => Ok(Seq::empty().push(price) + rest),
                    }
                }
            },
        }
    }
}

/// The first price string from index `i` on that the monetary parser
/// turns down for the document currency, after separator
/// normalization; `None` when every price is accepted.
pub open spec fn spec_bad_price(prices: Seq<Seq<char>>, code: Seq<char>, i: int) -> Option<
    Seq<char>,
>
    decreases prices.len() - i,
{
    if i >= prices.len() {
        None
    } else {
        let p = spec_normalize(prices[i]);
        if !money_shape(p) || !money_parses(p, code) {
            Some(prices[i])
        } else {
            spec_bad_price(prices, code, i + 1)
        }
    }
}

/// What decoding a document body comes to, step by step: the document
/// shape, the point positions, the currency, the resolution and the
/// price strings, in that order.
pub enum DecodeOutcome {
    /// The body does not match the expected document shape; `detail`
    /// names the missing or ill-formed part.
    Malformed { detail: Seq<char> },
    /// The declared currency code is not in the registry.
    BadCurrency { code: Seq<char> },
    /// The declared resolution is not the hourly code.
    BadResolution { code: Seq<char> },
    /// A price string was turned down by the monetary parser.
    BadPrice { price: Seq<char> },
    /// A valid document: its start timestamp, currency code and price
    /// strings in point order.
    Priced { start: Timestamp, currency: Seq<char>, prices: Seq<Seq<char>> },
}

/// The decoding pipeline as a function of the body text alone.
pub open spec fn decode_model(body: Seq<char>) -> DecodeOutcome {
    match spec_element(body, "<TimeSeries>"@, "</TimeSeries>"@) {
        None => DecodeOutcome::Malformed { detail: "TimeSeries"@ },
        Some(ts) => match spec_element(ts, "<currency_Unit.name>"@, "</currency_Unit.name>"@) {
            None => DecodeOutcome::Malformed { detail: "currency_Unit.name"@ },
            Some(cur) => match spec_element(ts, "<Period>"@, "</Period>"@) {
                None => DecodeOutcome::Malformed { detail: "Period"@ },
                Some(period) => match spec_element(period, "<timeInterval>"@, "</timeInterval>"@) {
                    None => DecodeOutcome::Malformed { detail: "timeInterval"@ },
                    Some(iv) => match spec_element(iv, "<start>"@, "</start>"@) {
                        None => DecodeOutcome::Malformed { detail: "start"@ },
                        Some(st) => match spec_parse_timestamp(st) {
                            None => DecodeOutcome::Malformed { detail: "start"@ },
                            Some(start) => match spec_element(
                                period,
                                "<resolution>"@,
                                "</resolution>"@,
                            ) {
                                None => DecodeOutcome::Malformed { detail: "resolution"@ },
                                Some(res) => match spec_points(period, 0) {
                                    None => DecodeOutcome::Malformed { detail: "Point"@ },
                                    Some(pts) => match spec_prices_from(pts, 0) {
                                        Err(d) => DecodeOutcome::Malformed { detail: d },
                                        Ok(prices) => {
                                            if !iso_known(cur) {
                                                DecodeOutcome::BadCurrency { code: cur }
                                            } else if res != "PT60M"@ {
                                                DecodeOutcome::BadResolution { code: res }
                                            } else {
                                                match spec_bad_price(prices, cur, 0) {
                                                    Some(p) => DecodeOutcome::BadPrice { price: p },
                                                    None => DecodeOutcome::Priced {
                                                        start,
                                                        currency: cur,
                                                        prices,
                                                    },
                                                }
                                            }
                                        },
                                    },
                                },
                            },
                        },
                    },
                },
            },
        },
    }
}

/// Collects the contents of the `Point` elements of `s`, in order.
#[verifier::loop_isolation(false)]
fn collect_points<'a>(s: &'a str) -> (r: Option<Vec<&'a str>>)
    ensures
        match r {
            Some(v) => {
                &&& spec_points(s@, 0) is Some
                &&& v@.map_values(|p: &'a str| p@) == spec_points(s@, 0).unwrap()
            },
            None => spec_points(s@, 0) is None,
        },
{
    proof {
        reveal_strlit("<Point>");
        reveal_strlit("</Point>");
    }
    let slen = s.unicode_len();
    let olen = "<Point>".unicode_len();
    let clen = "</Point>".unicode_len();
    let mut acc: Vec<&'a str> = Vec::new();
    let mut cur: usize = 0;
    proof {
        assert(acc@.map_values(|p: &'a str| p@) =~= Seq::<Seq<char>>::empty());
        if spec_points(s@, 0) is Some {
            assert(Seq::<Seq<char>>::empty() + spec_points(s@, 0).unwrap() =~= spec_points(
                s@,
                0,
            ).unwrap());
        }
    }
    loop
        invariant
            slen == s@.len(),
            olen == 7,
            clen == 8,
            cur <= slen,
            (match spec_points(s@, cur as int) {
                None => spec_points(s@, 0) is None,
                Some(rest) => {
                    &&& spec_points(s@, 0) is Some
                    &&& spec_points(s@, 0).unwrap() == acc@.map_values(|p: &'a str| p@) + rest
                },
            }),
        decreases slen - cur,
    {
        let ghost acc0: Seq<Seq<char>> = acc@.map_values(|p: &'a str| p@);
        let i = match find_from(s, "<Point>", cur) {
            None => {
                proof {
                    assert(acc0 + Seq::<Seq<char>>::empty() =~= acc0);
                }
                return Some(acc);
            },
            Some(i) => i,
        };
        proof {
            lemma_find_bounds(s@, "<Point>"@, cur as int, i as int);
        }
        let j = match find_from(s, "</Point>", i + olen) {
            None => {
                return None;
            },
            Some(j) => j,
        };
        proof {
            lemma_find_bounds(s@, "</Point>"@, i + olen, j as int);
        }
        let content = s.substring_char(i + olen, j);
        acc.push(content);
        proof {
            assert(acc@.map_values(|p: &'a str| p@) =~= acc0.push(content@));
        }
        let next = j + clen;
        proof {
            if spec_points(s@, next as int) is Some {
                let rest2 = spec_points(s@, next as int).unwrap();
                assert(spec_points(s@, cur as int) == Some(
                    Seq::empty().push(content@) + rest2,
                ));
                assert(acc0 + (Seq::empty().push(content@) + rest2) =~= acc0.push(content@)
                    + rest2);
            }
        }
        cur = next;
    }
}

/// Decodes the provider's day-ahead price document into the ordered
/// hourly price points it declares.
///
/// The returned points carry consecutive hourly timestamps: the point
/// at index `i` is stamped exactly `i` hours after the document's
/// declared start. Every failure is reported as the taxonomy variant
/// that `decode_model` assigns to the body, with the originating
/// detail. The monetary amounts themselves come from the monetary
/// parser, one per accepted price string, in point order.
#[verifier::loop_isolation(false)]
pub fn decode(body: &str) -> (r: Result<Vec<Price>, GetPriceError>)
    ensures
        match decode_model(body@) {
            DecodeOutcome::Malformed { detail } => {
                &&& r matches Err(GetPriceError::MalformedDocument(d)) && d@ == detail
            },
            DecodeOutcome::BadCurrency { code } => {
                &&& r matches Err(GetPriceError::UnknownCurrency(c)) && c@ == code
            },
            DecodeOutcome::BadResolution { code } => {
                &&& r matches Err(GetPriceError::UnsupportedResolution(c)) && c@ == code
            },
            DecodeOutcome::BadPrice { price } => {
                &&& r matches Err(GetPriceError::InvalidMonetaryFormat(p)) && p@ == price
            },
            DecodeOutcome::Priced { start, currency, prices } => {
                &&& r matches Ok(v) && v@.len() == prices.len() && (forall|i: int|
                    0 <= i < prices.len() ==> (#[trigger] v@[i]).start_time.wf()
                        && v@[i].start_time.total_minutes() == start.total_minutes() + 60 * i)
            },
        },
{
    let ts = match element(body, "<TimeSeries>", "</TimeSeries>") {
        Some(x) => x,
        None => {
            return Err(GetPriceError::MalformedDocument("TimeSeries".to_owned()));
        },
    };
    let cur = match element(ts, "<currency_Unit.name>", "</currency_Unit.name>") {
        Some(x) => x,
        None => {
            return Err(GetPriceError::MalformedDocument("currency_Unit.name".to_owned()));
        },
    };
    let period = match element(ts, "<Period>", "</Period>") {
        Some(x) => x,
        None => {
            return Err(GetPriceError::MalformedDocument("Period".to_owned()));
        },
    };
    let iv = match element(period, "<timeInterval>", "</timeInterval>") {
        Some(x) => x,
        None => {
            return Err(GetPriceError::MalformedDocument("timeInterval".to_owned()));
        },
    };
    let st = match element(iv, "<start>", "</start>") {
        Some(x) => x,
        None => {
            return Err(GetPriceError::MalformedDocument("start".to_owned()));
        },
    };
    let start = match parse_timestamp(st) {
        Some(x) => x,
        None => {
            return Err(GetPriceError::MalformedDocument("start".to_owned()));
        },
    };
    let res = match element(period, "<resolution>", "</resolution>") {
        Some(x) => x,
        None => {
            return Err(GetPriceError::MalformedDocument("resolution".to_owned()));
        },
    };
    let pts = match collect_points(period) {
        Some(x) => x,
        None => {
            return Err(GetPriceError::MalformedDocument("Point".to_owned()));
        },
    };
    let ghost ptsv: Seq<Seq<char>> = pts@.map_values(|p: &str| p@);

    // Walk the points: extract each position and price string, and
    // demand positions 1 up to the point count, in order.
    let mut prices: Vec<&str> = Vec::new();
    let mut i: usize = 0;
    proof {
        assert(prices@.map_values(|p: &str| p@) =~= Seq::<Seq<char>>::empty());
        if spec_prices_from(ptsv, 0) is Ok {
            assert(Seq::<Seq<char>>::empty() + spec_prices_from(ptsv, 0)->Ok_0
                =~= spec_prices_from(ptsv, 0)->Ok_0);
        }
    }
    while i < pts.len()
        invariant
            ptsv == pts@.map_values(|p: &str| p@),
            prices@.len() == i,
            i <= pts@.len(),
            i <= u32::MAX,
            (match spec_prices_from(ptsv, i as int) {
                Err(d) => spec_prices_from(ptsv, 0) == Err::<Seq<Seq<char>>, _>(d),
                Ok(rest) => spec_prices_from(ptsv, 0) == Ok::<_, Seq<char>>(
                    prices@.map_values(|p: &str| p@) + rest,
                ),
            }),
        decreases pts@.len() - i,
    {
        let ghost acc0: Seq<Seq<char>> = prices@.map_values(|p: &str| p@);
        let content: &str = pts[i];
        proof {
            assert(content@ == ptsv[i as int]);
        }
        let ps = match element(content, "<position>", "</position>") {
            Some(x) => x,
            None => {
                return Err(GetPriceError::MalformedDocument("position".to_owned()));
            },
        };
        let pos = match parse_u32(ps) {
            Some(x) => x,
            None => {
                return Err(GetPriceError::MalformedDocument("position".to_owned()));
            },
        };
        let pr = match element(content, "<price.amount>", "</price.amount>") {
            Some(x) => x,
            None => {
                return Err(GetPriceError::MalformedDocument("price.amount".to_owned()));
            },
        };
        if pos as usize != i + 1 {
            return Err(GetPriceError::MalformedDocument("position".to_owned()));
        }
        prices.push(pr);
        proof {
            assert(prices@.map_values(|p: &str| p@) =~= acc0.push(pr@));
            if spec_prices_from(ptsv, i + 1) is Ok {
                let rest2 = spec_prices_from(ptsv, i + 1)->Ok_0;
                assert(spec_prices_from(ptsv, i as int) == Ok::<_, Seq<char>>(
                    Seq::empty().push(pr@) + rest2,
                ));
                assert(acc0 + (Seq::empty().push(pr@) + rest2) =~= acc0.push(pr@) + rest2);
            }
        }
        i += 1;
    }
    let ghost pricesv: Seq<Seq<char>> = prices@.map_values(|p: &str| p@);
    proof {
        assert(pricesv + Seq::<Seq<char>>::empty() =~= pricesv);
        assert(spec_prices_from(ptsv, 0) == Ok::<_, Seq<char>>(pricesv));
    }

    if iso_find(cur).is_none() {
        return Err(GetPriceError::UnknownCurrency(cur.to_owned()));
    }
    if !str_eq(res, "PT60M") {
        return Err(GetPriceError::UnsupportedResolution(res.to_owned()));
    }

    // Parse each price string as money and stamp the point's hour.
    let mut out: Vec<Price> = Vec::new();
    let mut k: usize = 0;
    while k < prices.len()
        invariant
            pricesv == prices@.map_values(|p: &str| p@),
            prices@.len() <= u32::MAX,
            out@.len() == k,
            k <= prices@.len(),
            start.wf(),
            start.year <= 9999,
            iso_known(cur@),
            spec_bad_price(pricesv, cur@, k as int) == spec_bad_price(pricesv, cur@, 0),
            forall|j: int|
                0 <= j < k ==> (#[trigger] out@[j]).start_time.wf()
                    && out@[j].start_time.total_minutes() == start.total_minutes() + 60 * j,
        decreases prices@.len() - k,
    {
        let p: &str = prices[k];
        proof {
            assert(p@ == pricesv[k as int]);
        }
        let norm = normalize_separator(p);
        if !check_money_shape(norm.as_str()) {
            return Err(GetPriceError::InvalidMonetaryFormat(p.to_owned()));
        }
        let amount = match money_from_str(norm.as_str(), cur) {
            Some(m) => m,
            None => {
                return Err(GetPriceError::InvalidMonetaryFormat(p.to_owned()));
            },
        };
        let stamp = add_hours(&start, k as u32);
        out.push(Price { start_time: stamp, amount });
        k += 1;
    }
    Ok(out)
}

} // verus!
