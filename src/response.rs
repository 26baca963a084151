use vstd::prelude::*;

verus! {

/// Why a symbol's price is or is not present in the output.
#[derive(Debug, Clone, Copy, PartialEq, Eq, Structural)]
pub enum ResponseCode {
    Success,
    SymbolNotSupported,
    NotEnoughSources,
    ConversionError,
    /// Reserved fallback for an internal inconsistency.
    Unknown,
}

impl ResponseCode {
    /// The byte that stands for the code in the output.
    pub open spec fn spec_code(self) -> u8 {
        match self {
            ResponseCode::Success => 0,
            ResponseCode::SymbolNotSupported => 1,
            ResponseCode::NotEnoughSources => 2,
            ResponseCode::ConversionError => 3,
            ResponseCode::Unknown => 127,
        }
    }

    #[verifier::when_used_as_spec(spec_code)]
    pub fn code(self) -> (r: u8)
        ensures
            r == self.spec_code(),
    {
        match self {
            ResponseCode::Success => 0,
            ResponseCode::SymbolNotSupported => 1,
            ResponseCode::NotEnoughSources => 2,
            ResponseCode::ConversionError => 3,
            ResponseCode::Unknown => 127,
        }
    }
}

/// One entry of the output: the symbol, its response code as a byte, and
/// its rate scaled by 10^9 (zero when there is none).
#[derive(Debug)]
pub struct Response {
    pub symbol: String,
    pub response_code: u8,
    pub rate: u64,
}

impl Response {
    pub fn new(symbol: String, response_code: ResponseCode, rate: u64) -> (r: Response)
        ensures
            r.symbol == symbol,
            r.response_code == response_code.spec_code(),
            r.rate == rate,
    {
        Response { symbol, response_code: response_code.code(), rate }
    }
}

impl PartialEq for Response {
    fn eq(&self, o: &Response) -> (r: bool)
        ensures
            r == (self.symbol@ == o.symbol@ && self.response_code == o.response_code && self.rate
                == o.rate),
    {
        self.symbol == o.symbol && self.response_code == o.response_code && self.rate == o.rate
    }
}

impl vstd::std_specs::cmp::PartialEqSpecImpl for Response {
    open spec fn obeys_eq_spec() -> bool {
        true
    }

    open spec fn eq_spec(&self, o: &Response) -> bool {
        self.symbol@ == o.symbol@ && self.response_code == o.response_code && self.rate == o.rate
    }
}

/// The final output: one response per requested symbol, in request order.
#[derive(Debug)]
pub struct Output {
    pub responses: Vec<Response>,
}

} // verus!
