use embassy_usb::driver::EndpointError;
use vstd::prelude::*;

verus! {

#[verifier::external_type_specification]
#[verifier::external_body]
pub struct ExEndpointError(EndpointError);

/// An endpoint error of a USB byte link.
pub struct EndpointErrorWrap(pub EndpointError);

/// The receiving half of a USB CDC-ACM byte link.
pub struct RxWrap<R>(pub R);

/// The sending half of a USB CDC-ACM byte link.
pub struct TxWrap<S>(pub S);

/// Wraps the two halves of a split USB CDC-ACM class, sender first, as the
/// sending and receiving halves of a byte link.
pub fn wrap<S, R>(halves: (S, R)) -> (r: (TxWrap<S>, RxWrap<R>))
    ensures
        r.0.0 == halves.0,
        r.1.0 == halves.1,
{
    let (tx, rx) = halves;
    (TxWrap(tx), RxWrap(rx))
}

} // verus!
