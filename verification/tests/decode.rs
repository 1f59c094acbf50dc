use entsoe::{decode, Entsoe, GetPriceError, Timestamp};
use entsoe::money::money_from_str;

fn doc(currency: &str, resolution: &str, start: &str, points: &str) -> String {
    format!(
        "<Publication_MarketDocument>\
         <mRID>X</mRID>\
         <TimeSeries>\
         <currency_Unit.name>{currency}</currency_Unit.name>\
         <Period>\
         <timeInterval><start>{start}</start><end>ignored</end></timeInterval>\
         <resolution>{resolution}</resolution>\
         {points}\
         </Period>\
         </TimeSeries>\
         </Publication_MarketDocument>"
    )
}

fn point(position: &str, price: &str) -> String {
    format!("<Point><position>{position}</position><price.amount>{price}</price.amount></Point>")
}

#[test]
fn resolver_known_areas() {
    assert_eq!(Entsoe::get_domain("SE1").unwrap(), "10Y1001A1001A44P");
    assert_eq!(Entsoe::get_domain("SE2").unwrap(), "10Y1001A1001A45N");
    assert_eq!(Entsoe::get_domain("SE3").unwrap(), "10Y1001A1001A46L");
    assert_eq!(Entsoe::get_domain("SE4").unwrap(), "10Y1001A1001A47J");
}

#[test]
fn resolver_rejects_unknown() {
    for area in ["SE5", "se1", "", "NO1", "SE11"] {
        let r = Entsoe::get_domain(area);
        assert!(matches!(r, Err(GetPriceError::InvalidArea(a)) if a == area));
    }
}

#[test]
fn security_token_kept() {
    let client = Entsoe::new("some-token-value");
    assert_eq!(client.security_token(), "some-token-value");
}

#[test]
fn round_trip_three_hours_across_year_end() {
    let points = [point("1", "1.00"), point("2", "2.00"), point("3", "3.00")].concat();
    let body = doc("EUR", "PT60M", "2022-12-31T22:00Z", &points);
    let prices = decode(&body).unwrap();
    assert_eq!(prices.len(), 3);
    assert_eq!(
        prices[0].start_time,
        Timestamp { year: 2022, month: 12, day: 31, hour: 22, minute: 0 }
    );
    assert_eq!(
        prices[1].start_time,
        Timestamp { year: 2022, month: 12, day: 31, hour: 23, minute: 0 }
    );
    assert_eq!(
        prices[2].start_time,
        Timestamp { year: 2023, month: 1, day: 1, hour: 0, minute: 0 }
    );
}

#[test]
fn decimal_normalization() {
    let points = [point("1", "12.34"), point("2", "5")].concat();
    let body = doc("EUR", "PT60M", "2022-11-09T23:00Z", &points);
    let prices = decode(&body).unwrap();
    assert_eq!(prices[0].amount, money_from_str("12,34", "EUR").unwrap());
    assert_eq!(prices[1].amount, money_from_str("5", "EUR").unwrap());
    assert_eq!(prices[1].amount, money_from_str("5,00", "EUR").unwrap());
}

#[test]
fn unsupported_resolution() {
    let body = doc("EUR", "PT15M", "2022-11-09T23:00Z", &point("1", "10.00"));
    let r = decode(&body);
    assert!(matches!(r, Err(GetPriceError::UnsupportedResolution(c)) if c == "PT15M"));
}

#[test]
fn unknown_currency() {
    let body = doc("XYZ", "PT60M", "2022-11-09T23:00Z", &point("1", "10.00"));
    let r = decode(&body);
    assert!(matches!(r, Err(GetPriceError::UnknownCurrency(c)) if c == "XYZ"));
}

#[test]
fn missing_time_series() {
    let body = "<Publication_MarketDocument></Publication_MarketDocument>";
    let r = decode(body);
    assert!(matches!(r, Err(GetPriceError::MalformedDocument(d)) if d == "TimeSeries"));
}

#[test]
fn missing_period() {
    let body = "<TimeSeries><currency_Unit.name>EUR</currency_Unit.name></TimeSeries>";
    let r = decode(body);
    assert!(matches!(r, Err(GetPriceError::MalformedDocument(d)) if d == "Period"));
}

#[test]
fn non_numeric_position() {
    let body = doc("EUR", "PT60M", "2022-11-09T23:00Z", &point("one", "10.00"));
    let r = decode(&body);
    assert!(matches!(r, Err(GetPriceError::MalformedDocument(d)) if d == "position"));
}

#[test]
fn unparseable_timestamp() {
    let body = doc("EUR", "PT60M", "2022-11-09 23:00", &point("1", "10.00"));
    let r = decode(&body);
    assert!(matches!(r, Err(GetPriceError::MalformedDocument(d)) if d == "start"));
}

#[test]
fn timestamp_with_out_of_range_fields() {
    let body = doc("EUR", "PT60M", "2022-13-09T23:00Z", &point("1", "10.00"));
    let r = decode(&body);
    assert!(matches!(r, Err(GetPriceError::MalformedDocument(d)) if d == "start"));
}

#[test]
fn position_gap_rejected() {
    let points = [point("1", "1.00"), point("3", "3.00")].concat();
    let body = doc("EUR", "PT60M", "2022-11-09T23:00Z", &points);
    let r = decode(&body);
    assert!(matches!(r, Err(GetPriceError::MalformedDocument(d)) if d == "position"));
}

#[test]
fn duplicate_position_rejected() {
    let points = [point("1", "1.00"), point("1", "1.50")].concat();
    let body = doc("EUR", "PT60M", "2022-11-09T23:00Z", &points);
    let r = decode(&body);
    assert!(matches!(r, Err(GetPriceError::MalformedDocument(d)) if d == "position"));
}

#[test]
fn invalid_money_format() {
    let body = doc("EUR", "PT60M", "2022-11-09T23:00Z", &point("1", "10.0.0"));
    let r = decode(&body);
    assert!(matches!(r, Err(GetPriceError::InvalidMonetaryFormat(p)) if p == "10.0.0"));
}

#[test]
fn empty_price_rejected() {
    let body = doc("EUR", "PT60M", "2022-11-09T23:00Z", &point("1", ""));
    let r = decode(&body);
    assert!(matches!(r, Err(GetPriceError::InvalidMonetaryFormat(p)) if p == ""));
}

#[test]
fn empty_point_list_is_valid() {
    let body = doc("EUR", "PT60M", "2022-11-09T23:00Z", "");
    let prices = decode(&body).unwrap();
    assert_eq!(prices.len(), 0);
}

#[test]
fn negative_price_accepted() {
    let body = doc("EUR", "PT60M", "2022-11-09T23:00Z", &point("1", "-5.25"));
    let prices = decode(&body).unwrap();
    assert_eq!(prices[0].amount, money_from_str("-5,25", "EUR").unwrap());
}

#[test]
fn leap_day_crossed_in_leap_year() {
    let points = [point("1", "1.00"), point("2", "2.00")].concat();
    let body = doc("EUR", "PT60M", "2020-02-28T23:00Z", &points);
    let prices = decode(&body).unwrap();
    assert_eq!(
        prices[1].start_time,
        Timestamp { year: 2020, month: 2, day: 29, hour: 0, minute: 0 }
    );
}

#[test]
fn no_leap_day_in_common_year() {
    let points = [point("1", "1.00"), point("2", "2.00")].concat();
    let body = doc("EUR", "PT60M", "2021-02-28T23:00Z", &points);
    let prices = decode(&body).unwrap();
    assert_eq!(
        prices[1].start_time,
        Timestamp { year: 2021, month: 3, day: 1, hour: 0, minute: 0 }
    );
}

#[test]
fn no_leap_day_in_century_year() {
    let points = [point("1", "1.00"), point("2", "2.00")].concat();
    let body = doc("EUR", "PT60M", "1900-02-28T23:00Z", &points);
    let prices = decode(&body).unwrap();
    assert_eq!(
        prices[1].start_time,
        Timestamp { year: 1900, month: 3, day: 1, hour: 0, minute: 0 }
    );
}

#[test]
fn leap_day_in_four_hundred_year() {
    let points = [point("1", "1.00"), point("2", "2.00")].concat();
    let body = doc("EUR", "PT60M", "2000-02-28T23:00Z", &points);
    let prices = decode(&body).unwrap();
    assert_eq!(
        prices[1].start_time,
        Timestamp { year: 2000, month: 2, day: 29, hour: 0, minute: 0 }
    );
}

#[test]
fn end_to_end_full_day() {
    let mut points = String::new();
    for i in 0..24u32 {
        points.push_str(&point(&format!("{}", i + 1), &format!("{}.00", i + 10)));
    }
    let body = doc("EUR", "PT60M", "2022-11-09T23:00Z", &points);
    let prices = decode(&body).unwrap();
    assert_eq!(prices.len(), 24);
    assert_eq!(
        prices[0].start_time,
        Timestamp { year: 2022, month: 11, day: 9, hour: 23, minute: 0 }
    );
    assert_eq!(prices[0].amount, money_from_str("10,00", "EUR").unwrap());
    assert_eq!(
        prices[23].start_time,
        Timestamp { year: 2022, month: 11, day: 10, hour: 22, minute: 0 }
    );
    assert_eq!(prices[23].amount, money_from_str("33,00", "EUR").unwrap());
}
