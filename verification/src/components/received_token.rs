//! One element of a `Received:` trace clause: a word, an address, or a
//! domain, and how each is written into the output stream.

use vstd::prelude::*;
use vstd::string::*;

use crate::codec::{EncodeHandle, TokenView};
use crate::error::EncodeError;
use crate::word::{
    do_encode_word, is_atext_char, is_atext_char_exec, word_rendering, word_representable,
    word_text_ok, Word,
};
use crate::{text_legal, MailType};

verus! {

/// Text acceptable as a domain name: non-empty labels of unquoted-atom
/// characters, separated by single dots.
pub open spec fn domain_text_ok(s: Seq<char>) -> bool {
    s.len() > 0 && s[0] != '.' && s[s.len() - 1] != '.'
    && (forall|i: int|
        0 <= i < s.len() ==> s[i] == '.' || is_atext_char(
            #[trigger] s[i],
            MailType::Internationalized,
        ))
    && (forall|i: int| 1 <= i < s.len() ==> !((#[trigger] s[i]) == '.' && s[i - 1] == '.'))
}

/// The tokens a domain becomes: a fold point, the dotted name as one
/// unsplit text token, a fold point.
pub open spec fn domain_tokens(d: Seq<char>) -> Seq<TokenView> {
    seq![TokenView::MarkFold, TokenView::Text(d), TokenView::MarkFold]
}

/// A dot-separated domain name. Stored whole; written as a single literal
/// token bracketed by fold markers. Never carries an encoded word.
#[derive(Debug, Clone, PartialEq, Eq, Hash)]
pub struct Domain {
    text: String,
}

impl View for Domain {
    type V = Seq<char>;

    closed spec fn view(&self) -> Seq<char> {
        self.text@
    }
}

impl Domain {
    /// Accepts dotted names whose labels are non-empty runs of unquoted-atom
    /// characters.
    pub fn try_from(s: &str) -> (r: Result<Domain, EncodeError>)
        ensures
            r is Ok <==> domain_text_ok(s@),
            r matches Ok(d) ==> d@ == s@,
            r is Err ==> r == Err::<Domain, EncodeError>(EncodeError::IllegalCharacter),
    {
        let n = s.unicode_len();
        if n == 0 {
            return Err(EncodeError::IllegalCharacter);
        }
        let mut i: usize = 0;
        let mut prev_dot = false;
        while i < n
            invariant
                0 < i <= n || i == 0,
                n == s@.len(),
                n > 0,
                i > 0 ==> s@[0] != '.',
                prev_dot == (i > 0 && s@[i - 1] == '.'),
                forall|j: int|
                    0 <= j < i ==> s@[j] == '.' || is_atext_char(
                        #[trigger] s@[j],
                        MailType::Internationalized,
                    ),
                forall|j: int| 1 <= j < i ==> !((#[trigger] s@[j]) == '.' && s@[j - 1] == '.'),
            decreases n - i,
        {
            let c = s.get_char(i);
            if c == '.' {
                if i == 0 || prev_dot {
                    return Err(EncodeError::IllegalCharacter);
                }
                prev_dot = true;
            } else if is_atext_char_exec(c, MailType::Internationalized) {
                prev_dot = false;
            } else {
                return Err(EncodeError::IllegalCharacter);
            }
            i += 1;
        }
        if prev_dot {
            return Err(EncodeError::IllegalCharacter);
        }
        Ok(Domain { text: s.to_owned() })
    }

    pub fn as_str(&self) -> (r: &str)
        ensures
            r@ == self@,
    {
        self.text.as_str()
    }

    /// Writes the domain: fold point, the whole dotted name, fold point.
    /// Fails, leaving the stream untouched, when the dialect refuses a
    /// character of the name: a domain never gets an encoded-word fallback.
    pub fn encode(&self, handle: &mut EncodeHandle) -> (r: Result<(), EncodeError>)
        ensures
            final(handle).mail_type_spec() == old(handle).mail_type_spec(),
            final(handle).committed() == old(handle).committed(),
            old(handle).wf() ==> final(handle).wf(),
            r is Ok <==> text_legal(self@, old(handle).mail_type_spec()),
            r is Ok ==> final(handle)@ =~= old(handle)@ + domain_tokens(self@),
            r is Err ==> final(handle)@ == old(handle)@ && r == Err::<(), EncodeError>(
                EncodeError::IllegalCharacter,
            ),
    {
        let sp = handle.begin_transaction();
        handle.write_fold_marker();
        match handle.write_literal(self.text.as_str()) {
            Ok(()) => {
                handle.write_fold_marker();
                proof {
                    assert(final(handle)@ =~= old(handle)@ + domain_tokens(self@));
                }
                Ok(())
            },
            Err(e) => {
                handle.rollback(sp);
                proof {
                    assert(final(handle)@ =~= old(handle)@);
                }
                Err(e)
            },
        }
    }
}

/// Whether `s` holds exactly one `@`.
pub open spec fn has_single_at(s: Seq<char>) -> bool {
    (exists|k: int| 0 <= k < s.len() && s[k] == '@')
    && (forall|k1: int, k2: int|
        0 <= k1 < s.len() && 0 <= k2 < s.len() && #[trigger] s[k1] == '@' && #[trigger] s[k2]
            == '@' ==> k1 == k2)
}

/// The position of the one `@` of `s`.
pub open spec fn the_at(s: Seq<char>) -> int {
    choose|k: int| 0 <= k < s.len() && s[k] == '@'
}

/// Text acceptable as an address: a non-empty local part without control
/// characters, one `@`, and a well-formed domain.
pub open spec fn email_text_ok(s: Seq<char>) -> bool {
    has_single_at(s) && {
        let k = the_at(s);
        s.take(k).len() > 0 && word_text_ok(s.take(k)) && domain_text_ok(s.skip(k + 1))
    }
}

/// The tokens an address becomes between its brackets: fold point, the local
/// part as one word, fold point, `@`, then the domain's own tokens.
pub open spec fn email_tokens(local: Seq<char>, domain: Seq<char>, mt: MailType) -> Seq<TokenView> {
    seq![
        TokenView::MarkFold,
        TokenView::Text(word_rendering(local, mt)),
        TokenView::MarkFold,
        TokenView::Text(seq!['@']),
    ] + domain_tokens(domain)
}

/// An address encodes only when its local part can stand without an
/// encoded-word fallback and its domain passes the dialect.
pub open spec fn email_encodable(local: Seq<char>, domain: Seq<char>, mt: MailType) -> bool {
    word_representable(local, mt, false) && text_legal(domain, mt)
}

/// The parts of an address, as plain text.
pub struct EmailView {
    pub local_part: Seq<char>,
    pub domain: Seq<char>,
}

/// A mailbox address: a local part and a domain.
#[derive(Debug, Clone, PartialEq, Eq, Hash)]
pub struct Email {
    local_part: Word,
    domain: Domain,
}

impl View for Email {
    type V = EmailView;

    closed spec fn view(&self) -> EmailView {
        EmailView { local_part: self.local_part@, domain: self.domain@ }
    }
}

impl Email {
    /// Splits `local@domain` at its one `@` and validates both sides.
    pub fn try_from(s: &str) -> (r: Result<Email, EncodeError>)
        ensures
            r is Ok <==> email_text_ok(s@),
            r matches Ok(e) ==> e@.local_part == s@.take(the_at(s@)) && e@.domain == s@.skip(
                the_at(s@) + 1,
            ),
            r is Err ==> r == Err::<Email, EncodeError>(EncodeError::IllegalCharacter),
    {
        let n = s.unicode_len();
        let mut i: usize = 0;
        let mut at_pos: usize = 0;
        let mut found = false;
        while i < n
            invariant
                i <= n,
                n == s@.len(),
                found ==> at_pos < i && s@[at_pos as int] == '@',
                found ==> forall|j: int| 0 <= j < i && j != at_pos ==> s@[j] != '@',
                !found ==> forall|j: int| 0 <= j < i ==> s@[j] != '@',
            decreases n - i,
        {
            let c = s.get_char(i);
            if c == '@' {
                if found {
                    proof {
                        assert(!has_single_at(s@));
                    }
                    return Err(EncodeError::IllegalCharacter);
                }
                found = true;
                at_pos = i;
            }
            i += 1;
        }
        if !found {
            proof {
                assert(!has_single_at(s@));
            }
            return Err(EncodeError::IllegalCharacter);
        }
        proof {
            assert(has_single_at(s@));
            assert(the_at(s@) == at_pos as int);
        }
        let local_str = s.substring_char(0, at_pos);
        let domain_str = s.substring_char(at_pos + 1, n);
        proof {
            assert(local_str@ =~= s@.take(at_pos as int));
            assert(domain_str@ =~= s@.skip(at_pos as int + 1));
        }
        if local_str.unicode_len() == 0 {
            return Err(EncodeError::IllegalCharacter);
        }
        let local_part = match Word::try_from(local_str) {
            Ok(w) => w,
            Err(e) => {
                return Err(e);
            },
        };
        let domain = match Domain::try_from(domain_str) {
            Ok(d) => d,
            Err(e) => {
                return Err(e);
            },
        };
        Ok(Email { local_part, domain })
    }

    /// Writes the bracketed interior of the address; the caller supplies the
    /// brackets. The local part never gets an encoded-word fallback. On any
    /// failure the stream is rolled back to where this call found it.
    pub fn encode(&self, handle: &mut EncodeHandle) -> (r: Result<(), EncodeError>)
        ensures
            final(handle).mail_type_spec() == old(handle).mail_type_spec(),
            final(handle).committed() == old(handle).committed(),
            old(handle).wf() ==> final(handle).wf(),
            r is Ok <==> email_encodable(self@.local_part, self@.domain, old(
                handle,
            ).mail_type_spec()),
            r is Ok ==> final(handle)@ =~= old(handle)@ + email_tokens(
                self@.local_part,
                self@.domain,
                old(handle).mail_type_spec(),
            ),
            r is Err ==> final(handle)@ == old(handle)@ && r == Err::<(), EncodeError>(
                EncodeError::IllegalCharacter,
            ),
    {
        let sp = handle.begin_transaction();
        handle.write_fold_marker();
        match do_encode_word(&self.local_part, handle, false) {
            Err(e) => {
                handle.rollback(sp);
                proof {
                    assert(final(handle)@ =~= old(handle)@);
                }
                return Err(e);
            },
            Ok(()) => {},
        }
        handle.write_fold_marker();
        let at = handle.write_char('@');
        proof {
            assert(at is Ok);
        }
        match self.domain.encode(handle) {
            Err(e) => {
                handle.rollback(sp);
                proof {
                    assert(final(handle)@ =~= old(handle)@);
                }
                Err(e)
            },
            Ok(()) => {
                proof {
                    assert(final(handle)@ =~= old(handle)@ + email_tokens(
                        self@.local_part,
                        self@.domain,
                        old(handle).mail_type_spec(),
                    ));
                }
                Ok(())
            },
        }
    }
}

/// The value of a trace token, as plain text.
pub enum ReceivedTokenView {
    Word(Seq<char>),
    Address(EmailView),
    Domain(Seq<char>),
}

/// The tokens a successful encode of a trace token appends: a function of
/// the value and the dialect alone.
pub open spec fn received_token_tokens(t: ReceivedTokenView, mt: MailType) -> Seq<TokenView> {
    match t {
        ReceivedTokenView::Word(w) => seq![TokenView::Text(word_rendering(w, mt))],
        ReceivedTokenView::Address(e) => seq![TokenView::Text(seq!['<'])] + email_tokens(
            e.local_part,
            e.domain,
            mt,
        ) + seq![TokenView::Text(seq!['>'])],
        ReceivedTokenView::Domain(d) => domain_tokens(d),
    }
}

/// When a trace token has a legal wire form under the dialect. A free-text
/// trace word may fall back to an RFC 2047 encoded word, so it is always
/// representable; address local parts and domains never get that fallback.
pub open spec fn received_token_encodable(t: ReceivedTokenView, mt: MailType) -> bool {
    match t {
        ReceivedTokenView::Word(w) => word_representable(w, mt, true),
        ReceivedTokenView::Address(e) => email_encodable(e.local_part, e.domain, mt),
        ReceivedTokenView::Domain(d) => text_legal(d, mt),
    }
}

/// One space-separated element of a `Received:` header clause.
#[derive(Debug, Clone, Hash, Eq, PartialEq)]
pub enum ReceivedToken {
    Word(Word),
    Address(Email),
    Domain(Domain),
}

impl View for ReceivedToken {
    type V = ReceivedTokenView;

    open spec fn view(&self) -> ReceivedTokenView {
        match self {
            ReceivedToken::Word(w) => ReceivedTokenView::Word(w@),
            ReceivedToken::Address(e) => ReceivedTokenView::Address(e@),
            ReceivedToken::Domain(d) => ReceivedTokenView::Domain(d@),
        }
    }
}

impl ReceivedToken {
    /// Writes one trace token. A word goes through the word encoder with the
    /// encoded-word fallback allowed, as in any free-text word position; an
    /// address is bracketed `<`…`>`; a domain is folded label text. On
    /// failure the stream is exactly as it was before the call.
    pub fn encode(&self, handle: &mut EncodeHandle) -> (r: Result<(), EncodeError>)
        ensures
            final(handle).mail_type_spec() == old(handle).mail_type_spec(),
            final(handle).committed() == old(handle).committed(),
            old(handle).wf() ==> final(handle).wf(),
            r is Ok <==> received_token_encodable(self@, old(handle).mail_type_spec()),
            r is Ok ==> final(handle)@ =~= old(handle)@ + received_token_tokens(
                self@,
                old(handle).mail_type_spec(),
            ),
            r is Err ==> final(handle)@ == old(handle)@ && r == Err::<(), EncodeError>(
                EncodeError::IllegalCharacter,
            ),
    {
        match self {
            ReceivedToken::Word(word) => {
                let r = do_encode_word(word, handle, true);
                proof {
                    if r is Ok {
                        assert(final(handle)@ =~= old(handle)@ + received_token_tokens(
                            self@,
                            old(handle).mail_type_spec(),
                        ));
                    }
                }
                r
            },
            ReceivedToken::Address(addr) => {
                let sp = handle.begin_transaction();
                let open_bracket = handle.write_char('<');
                proof {
                    assert(open_bracket is Ok);
                }
                match addr.encode(handle) {
                    Err(e) => {
                        handle.rollback(sp);
                        proof {
                            assert(final(handle)@ =~= old(handle)@);
                        }
                        Err(e)
                    },
                    Ok(()) => {
                        let close_bracket = handle.write_char('>');
                        proof {
                            assert(close_bracket is Ok);
                            assert(final(handle)@ =~= old(handle)@ + received_token_tokens(
                                self@,
                                old(handle).mail_type_spec(),
                            ));
                        }
                        Ok(())
                    },
                }
            },
            ReceivedToken::Domain(domain) => {
                let r = domain.encode(handle);
                r
            },
        }
    }
}

/// Law: encoding is stateless and deterministic. The token sequence a
/// successful encode appends is a function of the token's value and the
/// dialect alone, so re-encoding the same value under the same dialect into
/// two fresh sinks yields identical streams.
pub proof fn lemma_encode_deterministic(
    t: ReceivedTokenView,
    mt: MailType,
    out1: Seq<TokenView>,
    out2: Seq<TokenView>,
)
    requires
        out1 == received_token_tokens(t, mt),
        out2 == received_token_tokens(t, mt),
    ensures
        out1 == out2,
{
}

} // verus!
