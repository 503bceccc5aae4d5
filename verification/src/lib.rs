//! Header-component encoding for mail headers.
//!
//! Structured header values (timestamps, `Received:` trace tokens made of
//! words, addresses and domains) are rendered into a stream of output tokens:
//! literal text and fold markers. A downstream line wrapper may break lines at
//! fold markers, never inside a text token. Every encoding decision is taken
//! against a [`MailType`]: the ASCII-only dialect or the internationalized
//! one, which admits non-ASCII text directly.

use vstd::prelude::*;

pub mod codec;
pub mod components;
pub mod error;
pub mod header_components;
pub mod word;

pub use codec::{EncodeHandle, OutputToken, TokenView};
pub use components::date_time::DateTime;
pub use components::received_token::{Domain, Email, ReceivedToken};
pub use error::EncodeError;
pub use word::{do_encode_word, Word};

verus! {

/// The dialect a header is encoded for.
///
/// `Ascii` allows only ASCII characters on the wire; anything else must be
/// carried by a transport encoding where the grammar permits one.
/// `Internationalized` admits non-ASCII characters directly.
#[derive(Debug, Clone, Copy, PartialEq, Eq, Structural, Hash)]
pub enum MailType {
    Ascii,
    Internationalized,
}

/// Whether a single character may be written literally under `mt`.
pub open spec fn char_legal(c: char, mt: MailType) -> bool {
    (c as u32) < 128 || mt is Internationalized
}

/// Whether every character of `s` may be written literally under `mt`.
pub open spec fn text_legal(s: Seq<char>, mt: MailType) -> bool {
    forall|i: int| 0 <= i < s.len() ==> char_legal(#[trigger] s[i], mt)
}

} // verus!
