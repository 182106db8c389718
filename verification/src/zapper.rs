use vstd::prelude::*;
use vstd::string::StringExecFns;

verus! {

/// An error reported by the Lightning payment channel when an outbound
/// zap payment fails.
#[derive(PartialEq, Eq, Debug)]
pub struct LndPaymentError(pub String);

impl Clone for LndPaymentError {
    fn clone(&self) -> (r: Self)
        ensures
            r == *self,
    {
        LndPaymentError(self.0.clone())
    }
}

impl LndPaymentError {
    /// The error text, prefixed as the payment channel reports it.
    pub fn message(&self) -> (r: String)
        ensures
            r@ == "lnd payment error: "@ + self.0@,
    {
        let mut r: String = "lnd payment error: ".to_owned();
        r.append(self.0.as_str());
        r
    }
}

} // verus!
