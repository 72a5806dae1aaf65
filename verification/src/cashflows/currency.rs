use vstd::prelude::*;

verus! {

/// The currencies an amount can be denominated in.
#[derive(Clone, Copy, Debug, PartialEq, Eq, Structural)]
pub enum Currency {
    AUD,
    CAD,
    CHF,
    CNH,
    CZK,
    DKK,
    EUR,
    HKD,
    HUF,
    JPY,
    MXN,
    NOK,
    NZD,
    PLN,
    SEK,
    SGD,
    USD,
    ZAR,
}

impl Currency {
    /// The three-letter code of the currency.
    pub open spec fn spec_code(self) -> Seq<char> {
        match self {
            Currency::AUD => "AUD"@,
            Currency::CAD => "CAD"@,
            Currency::CHF => "CHF"@,
            Currency::CNH => "CNH"@,
            Currency::CZK => "CZK"@,
            Currency::DKK => "DKK"@,
            Currency::EUR => "EUR"@,
            Currency::HKD => "HKD"@,
            Currency::HUF => "HUF"@,
            Currency::JPY => "JPY"@,
            Currency::MXN => "MXN"@,
            Currency::NOK => "NOK"@,
            Currency::NZD => "NZD"@,
            Currency::PLN => "PLN"@,
            Currency::SEK => "SEK"@,
            Currency::SGD => "SGD"@,
            Currency::USD => "USD"@,
            Currency::ZAR => "ZAR"@,
        }
    }

    /// The three-letter code of the currency, as it is displayed.
    pub fn code(&self) -> (r: &'static str)
        ensures
            r@ == self.spec_code(),
    {
        match self {
            Currency::AUD => "AUD",
            Currency::CAD => "CAD",
            Currency::CHF => "CHF",
            Currency::CNH => "CNH",
            Currency::CZK => "CZK",
            Currency::DKK => "DKK",
            Currency::EUR => "EUR",
            Currency::HKD => "HKD",
            Currency::HUF => "HUF",
            Currency::JPY => "JPY",
            Currency::MXN => "MXN",
            Currency::NOK => "NOK",
            Currency::NZD => "NZD",
            Currency::PLN => "PLN",
            Currency::SEK => "SEK",
            Currency::SGD => "SGD",
            Currency::USD => "USD",
            Currency::ZAR => "ZAR",
        }
    }
}

} // verus!
