//! What a subscriber sends to be admitted.

use vstd::prelude::*;

verus! {

/// A request for admission to the channel.
#[derive(Debug)]
pub struct SubscriptionRequest {
    /// Link of the subscriber's handshake message.
    pub msgid: String,
    /// The subscriber's public key, written in hexadecimal.
    pub pk: String,
}

} // verus!
