//! Why a notarization or a verification came to nothing.
use vstd::prelude::*;

verus! {

/// Why a notarization or a verification came to nothing.
#[derive(Debug)]
pub enum TlsnError {
    /// A peer could not be reached, or the connection to it failed.
    ConnectionFailed(String),
    /// The proof could not be made, or does not hold.
    ProofFailed(String),
}

/// An error, over the characters of its message.
#[verifier::ext_equal]
pub enum ErrorText {
    ConnectionFailed(Seq<char>),
    ProofFailed(Seq<char>),
}

impl View for TlsnError {
    type V = ErrorText;

    open spec fn view(&self) -> ErrorText {
        match self {
            TlsnError::ConnectionFailed(message) => ErrorText::ConnectionFailed(message@),
            TlsnError::ProofFailed(message) => ErrorText::ProofFailed(message@),
        }
    }
}

/// A configuration was refused.
pub fn cfg_err(e: &str) -> (r: TlsnError)
    ensures
        r@ == ErrorText::ProofFailed("config: "@ + e@),
{
    let mut message = "config: ".to_string();
    message.append(e);
    TlsnError::ProofFailed(message)
}

/// A connection failed.
pub fn conn_err(e: &str) -> (r: TlsnError)
    ensures
        r@ == ErrorText::ConnectionFailed(e@),
{
    TlsnError::ConnectionFailed(e.to_string())
}

/// A proof failed.
pub fn proof_err(e: &str) -> (r: TlsnError)
    ensures
        r@ == ErrorText::ProofFailed(e@),
{
    TlsnError::ProofFailed(e.to_string())
}

/// An error says its message under its own kind.
pub proof fn law_errors_say_their_message(e: String)
    ensures
        TlsnError::ConnectionFailed(e)@ == ErrorText::ConnectionFailed(e@),
        TlsnError::ProofFailed(e)@ == ErrorText::ProofFailed(e@),
{
}

} // verus!
