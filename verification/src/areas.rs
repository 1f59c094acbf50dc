use vstd::prelude::*;

use crate::errors::GetPriceError;
use crate::scan::str_eq;

verus! {

/// Client handle for the market-data provider; holds the security token
/// that the transport layer appends to each request.
pub struct Entsoe {
    security_token: String,
}

impl View for Entsoe {
    type V = Seq<char>;

    closed spec fn view(&self) -> Seq<char> {
        self.security_token@
    }
}

/// The fixed area table: the provider's domain identifier for each
/// supported bidding-area code, or `None` for any other string.
pub open spec fn spec_domain(area: Seq<char>) -> Option<Seq<char>> {
    if area == "SE1"@ {
        Some("10Y1001A1001A44P"@)
    } else if area == "SE2"@ {
        Some("10Y1001A1001A45N"@)
    } else if area == "SE3"@ {
        Some("10Y1001A1001A46L"@)
    } else if area == "SE4"@ {
        Some("10Y1001A1001A47J"@)
    } else {
        None
    }
}

impl Entsoe {
    pub fn new(security_token: &str) -> (r: Self)
        ensures
            r@ == security_token@,
    {
        Entsoe { security_token: security_token.to_owned() }
    }

    /// The security token this handle was constructed with.
    pub fn security_token(&self) -> (r: &str)
        ensures
            r@ == self@,
    {
        self.security_token.as_str()
    }

    /// Resolves an area code to the provider's domain identifier by an
    /// exact, case-sensitive lookup in the fixed area table.
    pub fn get_domain(area: &str) -> (r: Result<&'static str, GetPriceError>)
        ensures
            match r {
                Ok(d) => spec_domain(area@) == Some(d@),
                Err(e) => {
                    &&& spec_domain(area@) is None
                    &&& e matches GetPriceError::InvalidArea(a) && a@ == area@
                },
            },
    {
        if str_eq(area, "SE1") {
            Ok("10Y1001A1001A44P")
        } else if str_eq(area, "SE2") {
            Ok("10Y1001A1001A45N")
        } else if str_eq(area, "SE3") {
            Ok("10Y1001A1001A46L")
        } else if str_eq(area, "SE4") {
            Ok("10Y1001A1001A47J")
        } else {
            Err(GetPriceError::InvalidArea(area.to_owned()))
        }
    }
}

} // verus!
