//! The error type of the voice library.

use vstd::prelude::*;
use vstd::string::*;

verus! {

/// `std::io::Error`, carried through unopened.
#[verifier::external_type_specification]
#[verifier::external_body]
pub struct ExIoError(std::io::Error);

#[derive(Debug)]
pub enum VoiceError {
    Codec(String),
    Protocol(String),
    Io(std::io::Error),
}

/// Formats a `std::io::Error` with its `Display`. Nothing is claimed of the text.
#[verifier::external_body]
fn io_error_text(e: &std::io::Error) -> (r: String) {
    format!("{e}")
}

impl VoiceError {
    /// The text shown to people: the kind of failure, then its detail.
    pub fn message(&self) -> (r: String)
        ensures
            match *self {
                VoiceError::Codec(detail) => r@ == "opus codec error: "@ + detail@,
                VoiceError::Protocol(detail) => r@ == "protocol error: "@ + detail@,
                VoiceError::Io(_) => exists|detail: Seq<char>|
                    r@ == "I/O error: "@ + detail,
            },
    {
        match self {
            VoiceError::Codec(detail) => "opus codec error: ".to_owned().concat(detail.as_str()),
            VoiceError::Protocol(detail) => "protocol error: ".to_owned().concat(detail.as_str()),
            VoiceError::Io(e) => {
                let text = io_error_text(e);
                "I/O error: ".to_owned().concat(text.as_str())
            },
        }
    }
}

/// The text names the kind of failure and gives its detail.
pub proof fn lemma_message_gives_the_detail(e: &VoiceError, r: String)
    requires
        call_ensures(VoiceError::message, (e,), r),
    ensures
        e is Codec ==> r@ == "opus codec error: "@ + e->Codec_0@,
        e is Protocol ==> r@ == "protocol error: "@ + e->Protocol_0@,
        e is Io ==> r@.len() >= "I/O error: "@.len() && r@.take("I/O error: "@.len() as int)
            == "I/O error: "@,
{
    if e is Io {
        let kind = "I/O error: "@;
        let detail = choose|detail: Seq<char>| r@ == kind + detail;
        assert((kind + detail).take(kind.len() as int) =~= kind);
    }
}

} // verus!
