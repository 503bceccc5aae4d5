//! The output sink: an append-only, rollback-capable stream of tokens.
//!
//! Component encoders append literal text and fold markers through an
//! [`EncodeHandle`]. A fold marker names a place where the downstream line
//! wrapper may break the line; text tokens are never broken internally.
//! A savepoint taken with [`EncodeHandle::begin_transaction`] can be rolled
//! back, erasing every token appended since, so a failed multi-token write
//! leaves the stream exactly as it was.

use vstd::prelude::*;

use crate::error::EncodeError;
use crate::{char_legal, text_legal, MailType};

verus! {

/// One element of the output stream: literal text, or a candidate fold point.
#[derive(Debug, Clone, PartialEq, Eq)]
pub enum OutputToken {
    Text(String),
    MarkFold,
}

/// The mathematical shape of an output token.
pub enum TokenView {
    Text(Seq<char>),
    MarkFold,
}

impl View for OutputToken {
    type V = TokenView;

    open spec fn view(&self) -> TokenView {
        match self {
            OutputToken::Text(s) => TokenView::Text(s@),
            OutputToken::MarkFold => TokenView::MarkFold,
        }
    }
}

/// Relies on `soft_ascii_string::SoftAsciiStr::from_str`, which returns `Ok`
/// exactly when every character of the string is ASCII.
#[verifier::external_body]
fn str_is_ascii(s: &str) -> (r: bool)
    ensures
        r == text_legal(s@, MailType::Ascii),
{
    soft_ascii_string::SoftAsciiStr::from_str(s).is_ok()
}

/// Relies on `soft_ascii_string::SoftAsciiChar::from_char`, which returns `Ok`
/// exactly when the character is ASCII.
#[verifier::external_body]
fn char_is_ascii(c: char) -> (r: bool)
    ensures
        r == char_legal(c, MailType::Ascii),
{
    soft_ascii_string::SoftAsciiChar::from_char(c).is_ok()
}

/// Relies on `String::push`, which appends one character to the string.
/// vstd specifies no `String::push`, so it is stated here.
#[verifier::external_body]
pub(crate) fn push_char(s: &mut String, c: char)
    ensures
        final(s)@ == old(s)@.push(c),
{
    s.push(c);
}

/// The append-only token stream one header is encoded into.
///
/// `committed()` marks the boundary of the last finished header part:
/// [`EncodeHandle::undo_header`] erases everything after it, and
/// [`EncodeHandle::finish_header`] moves it to the end of the stream.
pub struct EncodeHandle {
    mail_type: MailType,
    tokens: Vec<OutputToken>,
    header_start: usize,
}

impl View for EncodeHandle {
    type V = Seq<TokenView>;

    closed spec fn view(&self) -> Seq<TokenView> {
        Seq::new(self.tokens@.len(), |i: int| self.tokens@[i]@)
    }
}

impl EncodeHandle {
    /// The dialect every write is checked against.
    pub closed spec fn mail_type_spec(&self) -> MailType {
        self.mail_type
    }

    /// How many tokens belong to already finished header parts.
    pub closed spec fn committed(&self) -> nat {
        self.header_start as nat
    }

    pub open spec fn wf(&self) -> bool {
        self.committed() <= self@.len()
    }

    /// A fresh, empty stream for one header.
    pub fn new(mail_type: MailType) -> (r: Self)
        ensures
            r@ =~= Seq::<TokenView>::empty(),
            r.mail_type_spec() == mail_type,
            r.committed() == 0,
            r.wf(),
    {
        EncodeHandle { mail_type, tokens: Vec::new(), header_start: 0 }
    }

    pub fn mail_type(&self) -> (r: MailType)
        ensures
            r == self.mail_type_spec(),
    {
        self.mail_type
    }

    pub fn len(&self) -> (r: usize)
        ensures
            r == self@.len(),
    {
        self.tokens.len()
    }

    /// Appends one literal text token, after checking every character against
    /// the dialect: the sink is the last gate against illegal output.
    pub fn write_literal(&mut self, text: &str) -> (r: Result<(), EncodeError>)
        ensures
            final(self).mail_type_spec() == old(self).mail_type_spec(),
            final(self).committed() == old(self).committed(),
            old(self).wf() ==> final(self).wf(),
            r is Ok <==> text_legal(text@, old(self).mail_type_spec()),
            r is Ok ==> final(self)@ =~= old(self)@.push(TokenView::Text(text@)),
            r is Err ==> final(self)@ == old(self)@ && r == Err::<(), EncodeError>(
                EncodeError::IllegalCharacter,
            ),
    {
        let legal = match self.mail_type {
            MailType::Internationalized => true,
            MailType::Ascii => str_is_ascii(text),
        };
        if legal {
            let token = OutputToken::Text(text.to_owned());
            self.tokens.push(token);
            proof {
                assert(self@ =~= old(self)@.push(TokenView::Text(text@)));
            }
            Ok(())
        } else {
            Err(EncodeError::IllegalCharacter)
        }
    }

    /// Appends one literal text token holding a single character.
    pub fn write_char(&mut self, c: char) -> (r: Result<(), EncodeError>)
        ensures
            final(self).mail_type_spec() == old(self).mail_type_spec(),
            final(self).committed() == old(self).committed(),
            old(self).wf() ==> final(self).wf(),
            r is Ok <==> char_legal(c, old(self).mail_type_spec()),
            r is Ok ==> final(self)@ =~= old(self)@.push(TokenView::Text(seq![c])),
            r is Err ==> final(self)@ == old(self)@ && r == Err::<(), EncodeError>(
                EncodeError::IllegalCharacter,
            ),
    {
        let legal = match self.mail_type {
            MailType::Internationalized => true,
            MailType::Ascii => char_is_ascii(c),
        };
        if legal {
            let mut s = String::new();
            push_char(&mut s, c);
            proof {
                assert(s@ =~= seq![c]);
            }
            let token = OutputToken::Text(s);
            self.tokens.push(token);
            proof {
                assert(self@ =~= old(self)@.push(TokenView::Text(seq![c])));
            }
            Ok(())
        } else {
            Err(EncodeError::IllegalCharacter)
        }
    }

    /// Appends a fold marker: a candidate break point for the line wrapper.
    pub fn write_fold_marker(&mut self)
        ensures
            final(self).mail_type_spec() == old(self).mail_type_spec(),
            final(self).committed() == old(self).committed(),
            old(self).wf() ==> final(self).wf(),
            final(self)@ =~= old(self)@.push(TokenView::MarkFold),
    {
        self.tokens.push(OutputToken::MarkFold);
        proof {
            assert(self@ =~= old(self)@.push(TokenView::MarkFold));
        }
    }

    /// Opens a write region: returns a savepoint for [`Self::rollback`].
    pub fn begin_transaction(&self) -> (sp: usize)
        ensures
            sp == self@.len(),
    {
        self.tokens.len()
    }

    /// Erases every token appended since the savepoint was taken, leaving the
    /// stream exactly as it was then. Total and synchronous.
    pub fn rollback(&mut self, sp: usize)
        requires
            sp <= old(self)@.len(),
        ensures
            final(self).mail_type_spec() == old(self).mail_type_spec(),
            final(self).committed() == old(self).committed(),
            final(self)@ =~= old(self)@.take(sp as int),
    {
        self.tokens.truncate(sp);
        proof {
            assert(self@ =~= old(self)@.take(sp as int));
        }
    }

    /// Erases everything appended since the last [`Self::finish_header`].
    pub fn undo_header(&mut self)
        requires
            old(self).wf(),
        ensures
            final(self).mail_type_spec() == old(self).mail_type_spec(),
            final(self).committed() == old(self).committed(),
            final(self).wf(),
            final(self)@ =~= old(self)@.take(old(self).committed() as int),
    {
        self.tokens.truncate(self.header_start);
        proof {
            assert(self@ =~= old(self)@.take(old(self).committed() as int));
        }
    }

    /// Commits everything written so far: [`Self::undo_header`] will no longer
    /// reach behind this point.
    pub fn finish_header(&mut self)
        ensures
            final(self).mail_type_spec() == old(self).mail_type_spec(),
            final(self)@ == old(self)@,
            final(self).committed() == old(self)@.len(),
            final(self).wf(),
    {
        self.header_start = self.tokens.len();
    }

    /// Hands the accumulated stream to the caller, for the folding pass.
    pub fn into_tokens(self) -> (r: Vec<OutputToken>)
        ensures
            r@.len() == self@.len(),
            forall|i: int| 0 <= i < r@.len() ==> r@[i]@ == self@[i],
    {
        self.tokens
    }
}

} // verus!
