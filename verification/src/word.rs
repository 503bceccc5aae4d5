//! The word encoder: picks the representation of one free-text word.
//!
//! A word goes out in exactly one of three forms, or not at all:
//! - literal text, when every character is `atext` under the dialect;
//! - a quoted-string, when it needs quoting but every character may stand
//!   between quotes;
//! - an RFC 2047 encoded-word, when neither fits and the caller's grammar
//!   position permits one (`allow_encoded_word`);
//! - otherwise the word cannot be legally represented and encoding fails.

use vstd::prelude::*;
use vstd::string::*;
use vstd::utf8::encode_utf8;

use crate::codec::{push_char, EncodeHandle, TokenView};
use crate::error::EncodeError;
use crate::{char_legal, text_legal, MailType};

verus! {

/// RFC 5322 `atext`: ASCII letters, digits, and the specials-free symbols
/// that may stand in an unquoted atom.
pub open spec fn is_ascii_atext_char(c: char) -> bool {
    (97 <= c as u32 && c as u32 <= 122)  // 'a'..='z'
    || (65 <= c as u32 && c as u32 <= 90)  // 'A'..='Z'
    || (48 <= c as u32 && c as u32 <= 57)  // '0'..='9'
    || c == '!' || c == '#' || c == '$' || c == '%' || c == '&' || c == '\''
    || c == '*' || c == '+' || c == '-' || c == '/' || c == '=' || c == '?'
    || c == '^' || c == '_' || c == '`' || c == '{' || c == '|' || c == '}'
    || c == '~'
}

/// A character the dialect lets stand in an unquoted atom.
pub open spec fn is_atext_char(c: char, mt: MailType) -> bool {
    is_ascii_atext_char(c) || (mt is Internationalized && c as u32 > 127)
}

/// A character that may stand between the quotes of a quoted-string without
/// an escape: space, printable ASCII except `"` and `\`, and, in the
/// internationalized dialect, any non-ASCII character.
pub open spec fn is_quotable_char(c: char, mt: MailType) -> bool {
    c == ' '
    || (33 <= c as u32 && c as u32 <= 126 && c != '"' && c != '\\')
    || (mt is Internationalized && c as u32 > 127)
}

/// A non-empty word whose every character is `atext`: safe as a literal.
pub open spec fn word_is_atext(s: Seq<char>, mt: MailType) -> bool {
    s.len() > 0 && forall|i: int| 0 <= i < s.len() ==> is_atext_char(#[trigger] s[i], mt)
}

/// A word every character of which may stand inside a quoted-string.
pub open spec fn word_is_quotable(s: Seq<char>, mt: MailType) -> bool {
    forall|i: int| 0 <= i < s.len() ==> is_quotable_char(#[trigger] s[i], mt)
}

/// The hexadecimal digit for a value below sixteen, upper case.
pub open spec fn hex_digit_char(n: u8) -> char {
    if n == 0 { '0' } else if n == 1 { '1' } else if n == 2 { '2' }
    else if n == 3 { '3' } else if n == 4 { '4' } else if n == 5 { '5' }
    else if n == 6 { '6' } else if n == 7 { '7' } else if n == 8 { '8' }
    else if n == 9 { '9' } else if n == 10 { 'A' } else if n == 11 { 'B' }
    else if n == 12 { 'C' } else if n == 13 { 'D' } else if n == 14 { 'E' }
    else { 'F' }
}

/// One byte of an encoded-word payload: always the three-character hex
/// escape, never a bare character, so the payload is uniform and plainly
/// within the RFC 2047 token alphabet.
pub open spec fn q_encoded_byte(b: u8) -> Seq<char> {
    seq!['=', hex_digit_char(b / 16), hex_digit_char(b % 16)]
}

/// The whole payload: each byte escaped, in order.
pub open spec fn q_encoded_bytes(bs: Seq<u8>) -> Seq<char>
    decreases bs.len(),
{
    if bs.len() == 0 {
        Seq::empty()
    } else {
        q_encoded_byte(bs[0]) + q_encoded_bytes(bs.drop_first())
    }
}

pub open spec fn encoded_word_prefix() -> Seq<char> {
    seq!['=', '?', 'u', 't', 'f', '-', '8', '?', 'Q', '?']
}

pub open spec fn encoded_word_suffix() -> Seq<char> {
    seq!['?', '=']
}

/// The RFC 2047 encoded-word form of a word: `=?utf-8?Q?`, then every UTF-8
/// byte of the text hex-escaped, then `?=`.
pub open spec fn encoded_word_of(s: Seq<char>) -> Seq<char> {
    encoded_word_prefix() + q_encoded_bytes(encode_utf8(s)) + encoded_word_suffix()
}

/// The one text token a word becomes when it is representable at all:
/// itself, its quoted form, or its encoded-word form, in that order of
/// preference.
pub open spec fn word_rendering(s: Seq<char>, mt: MailType) -> Seq<char> {
    if word_is_atext(s, mt) {
        s
    } else if word_is_quotable(s, mt) {
        seq!['"'] + s + seq!['"']
    } else {
        encoded_word_of(s)
    }
}

/// Whether a word has any legal representation at this grammar position.
pub open spec fn word_representable(s: Seq<char>, mt: MailType, allow_encoded_word: bool) -> bool {
    word_is_atext(s, mt) || word_is_quotable(s, mt) || allow_encoded_word
}

/// An ASCII control character, which no header word may carry.
pub open spec fn is_control_char(c: char) -> bool {
    (c as u32) < 32 || c as u32 == 127
}

/// Text acceptable inside a [`Word`]: anything but control characters.
pub open spec fn word_text_ok(s: Seq<char>) -> bool {
    forall|i: int| 0 <= i < s.len() ==> !is_control_char(#[trigger] s[i])
}

/// One free-text word of a header. Holds arbitrary text free of ASCII
/// control characters; how it is written is decided only at encode time,
/// against the dialect and the grammar position.
#[derive(Debug, Clone, PartialEq, Eq, Hash)]
pub struct Word {
    text: String,
}

impl View for Word {
    type V = Seq<char>;

    closed spec fn view(&self) -> Seq<char> {
        self.text@
    }
}

impl Word {
    /// Accepts any text without ASCII control characters.
    pub fn try_from(s: &str) -> (r: Result<Word, EncodeError>)
        ensures
            r is Ok <==> word_text_ok(s@),
            r matches Ok(w) ==> w@ == s@,
            r is Err ==> r == Err::<Word, EncodeError>(EncodeError::IllegalCharacter),
    {
        let n = s.unicode_len();
        let mut i: usize = 0;
        while i < n
            invariant
                i <= n,
                n == s@.len(),
                forall|j: int| 0 <= j < i ==> !is_control_char(#[trigger] s@[j]),
            decreases n - i,
        {
            let c = s.get_char(i);
            let u: u32 = c as u32;
            if u < 32 || u == 127 {
                return Err(EncodeError::IllegalCharacter);
            }
            i += 1;
        }
        Ok(Word { text: s.to_owned() })
    }

    pub fn as_str(&self) -> (r: &str)
        ensures
            r@ == self@,
    {
        self.text.as_str()
    }
}

pub(crate) fn is_atext_char_exec(c: char, mt: MailType) -> (r: bool)
    ensures
        r == is_atext_char(c, mt),
{
    let u: u32 = c as u32;
    (97 <= u && u <= 122) || (65 <= u && u <= 90) || (48 <= u && u <= 57)
    || c == '!' || c == '#' || c == '$' || c == '%' || c == '&' || c == '\''
    || c == '*' || c == '+' || c == '-' || c == '/' || c == '=' || c == '?'
    || c == '^' || c == '_' || c == '`' || c == '{' || c == '|' || c == '}'
    || c == '~'
    || (matches!(mt, MailType::Internationalized) && u > 127)
}

fn is_quotable_char_exec(c: char, mt: MailType) -> (r: bool)
    ensures
        r == is_quotable_char(c, mt),
{
    let u: u32 = c as u32;
    c == ' '
    || (33 <= u && u <= 126 && c != '"' && c != '\\')
    || (matches!(mt, MailType::Internationalized) && u > 127)
}

fn all_atext(s: &str, mt: MailType) -> (r: bool)
    ensures
        r == forall|i: int| 0 <= i < s@.len() ==> is_atext_char(#[trigger] s@[i], mt),
{
    let n = s.unicode_len();
    let mut i: usize = 0;
    while i < n
        invariant
            i <= n,
            n == s@.len(),
            forall|j: int| 0 <= j < i ==> is_atext_char(#[trigger] s@[j], mt),
        decreases n - i,
    {
        if !is_atext_char_exec(s.get_char(i), mt) {
            return false;
        }
        i += 1;
    }
    true
}

fn all_quotable(s: &str, mt: MailType) -> (r: bool)
    ensures
        r == word_is_quotable(s@, mt),
{
    let n = s.unicode_len();
    let mut i: usize = 0;
    while i < n
        invariant
            i <= n,
            n == s@.len(),
            forall|j: int| 0 <= j < i ==> is_quotable_char(#[trigger] s@[j], mt),
        decreases n - i,
    {
        if !is_quotable_char_exec(s.get_char(i), mt) {
            return false;
        }
        i += 1;
    }
    true
}

proof fn lemma_atext_char_legal(c: char, mt: MailType)
    requires
        is_atext_char(c, mt),
    ensures
        char_legal(c, mt),
{
}

proof fn lemma_quotable_char_legal(c: char, mt: MailType)
    requires
        is_quotable_char(c, mt),
    ensures
        char_legal(c, mt),
{
}

fn exec_hex_digit(n: u8) -> (r: char)
    requires
        n < 16,
    ensures
        r == hex_digit_char(n),
{
    if n == 0 { '0' } else if n == 1 { '1' } else if n == 2 { '2' }
    else if n == 3 { '3' } else if n == 4 { '4' } else if n == 5 { '5' }
    else if n == 6 { '6' } else if n == 7 { '7' } else if n == 8 { '8' }
    else if n == 9 { '9' } else if n == 10 { 'A' } else if n == 11 { 'B' }
    else if n == 12 { 'C' } else if n == 13 { 'D' } else if n == 14 { 'E' }
    else { 'F' }
}

proof fn lemma_hex_digit_ascii(n: u8)
    ensures
        (hex_digit_char(n) as u32) < 128,
{
}

proof fn lemma_q_encoded_bytes_snoc(bs: Seq<u8>, i: int)
    requires
        0 <= i < bs.len(),
    ensures
        q_encoded_bytes(bs.take(i + 1)) == q_encoded_bytes(bs.take(i)) + q_encoded_byte(bs[i]),
    decreases i,
{
    let a = bs.take(i + 1);
    if i == 0 {
        assert(a.drop_first() =~= Seq::<u8>::empty());
        assert(q_encoded_bytes(a) == q_encoded_byte(bs[0]) + q_encoded_bytes(a.drop_first()));
        assert(q_encoded_bytes(bs.take(0)) =~= Seq::<char>::empty());
        assert(q_encoded_bytes(a) =~= q_encoded_bytes(bs.take(0)) + q_encoded_byte(bs[0]));
    } else {
        let tail = bs.drop_first();
        lemma_q_encoded_bytes_snoc(tail, i - 1);
        assert(a.drop_first() =~= tail.take(i));
        assert(bs.take(i).drop_first() =~= tail.take(i - 1));
        assert(tail[i - 1] == bs[i]);
        assert(q_encoded_bytes(a) == q_encoded_byte(bs[0]) + q_encoded_bytes(tail.take(i)));
        assert(q_encoded_bytes(bs.take(i)) == q_encoded_byte(bs[0]) + q_encoded_bytes(
            tail.take(i - 1),
        ));
        assert(q_encoded_bytes(a) =~= q_encoded_bytes(bs.take(i)) + q_encoded_byte(bs[i]));
    }
}

/// Builds the encoded-word text for `s`. The result is pure ASCII, so it is
/// writable under either dialect.
fn build_encoded_word(s: &str) -> (r: String)
    ensures
        r@ == encoded_word_of(s@),
        text_legal(r@, MailType::Ascii),
{
    let mut out = String::new();
    push_char(&mut out, '=');
    push_char(&mut out, '?');
    push_char(&mut out, 'u');
    push_char(&mut out, 't');
    push_char(&mut out, 'f');
    push_char(&mut out, '-');
    push_char(&mut out, '8');
    push_char(&mut out, '?');
    push_char(&mut out, 'Q');
    push_char(&mut out, '?');
    proof {
        assert(out@ =~= encoded_word_prefix());
        assert(text_legal(out@, MailType::Ascii));
    }
    let bytes = s.as_bytes_vec();
    let n = bytes.len();
    let mut i: usize = 0;
    while i < n
        invariant
            i <= n,
            n == bytes@.len(),
            bytes@ == encode_utf8(s@),
            out@ == encoded_word_prefix() + q_encoded_bytes(bytes@.take(i as int)),
            text_legal(out@, MailType::Ascii),
        decreases n - i,
    {
        let b = bytes[i];
        let hi = exec_hex_digit(b / 16);
        let lo = exec_hex_digit(b % 16);
        push_char(&mut out, '=');
        push_char(&mut out, hi);
        push_char(&mut out, lo);
        proof {
            lemma_q_encoded_bytes_snoc(bytes@, i as int);
            lemma_hex_digit_ascii(b / 16);
            lemma_hex_digit_ascii(b % 16);
            assert(out@ =~= encoded_word_prefix() + q_encoded_bytes(
                bytes@.take(i as int + 1),
            ));
            assert(text_legal(out@, MailType::Ascii));
        }
        i += 1;
    }
    push_char(&mut out, '?');
    push_char(&mut out, '=');
    proof {
        assert(bytes@.take(n as int) =~= bytes@);
        assert(out@ =~= encoded_word_of(s@));
        assert(text_legal(out@, MailType::Ascii));
    }
    out
}

/// Law: a non-empty word of nothing but unquoted-atom ASCII — printable,
/// no whitespace, no specials — is rendered, under either dialect, as a
/// single literal equal to the word itself, and needs no fallback.
pub proof fn lemma_safe_word_is_literal(s: Seq<char>, mt: MailType)
    requires
        s.len() > 0,
        forall|i: int| 0 <= i < s.len() ==> is_ascii_atext_char(#[trigger] s[i]),
    ensures
        word_rendering(s, mt) == s,
        word_representable(s, mt, false),
{
    assert(word_is_atext(s, mt));
}

/// Law: a word of ASCII only, holding whitespace or specials so it cannot
/// stand as a bare atom, but nothing a quoted-string refuses, is rendered,
/// under either dialect, as a quoted-string whose content is exactly the
/// word, and needs no fallback.
pub proof fn lemma_word_needing_quotes(s: Seq<char>, mt: MailType)
    requires
        forall|i: int| 0 <= i < s.len() ==> is_quotable_char(#[trigger] s[i], MailType::Ascii),
        exists|i: int| 0 <= i < s.len() && !is_ascii_atext_char(#[trigger] s[i]),
    ensures
        word_rendering(s, mt) == seq!['"'] + s + seq!['"'],
        word_representable(s, mt, false),
{
    let w = choose|i: int| 0 <= i < s.len() && !is_ascii_atext_char(#[trigger] s[i]);
    assert(is_quotable_char(s[w], MailType::Ascii));
    assert((s[w] as u32) < 128);
    assert(!is_atext_char(s[w], mt));
    assert(!word_is_atext(s, mt));
    assert forall|i: int| 0 <= i < s.len() implies is_quotable_char(#[trigger] s[i], mt) by {
        assert(is_quotable_char(s[i], MailType::Ascii));
    }
}

/// Law: a word holding a non-ASCII character has, under the ASCII dialect,
/// no representation at all where the encoded-word fallback is forbidden,
/// and exactly the encoded-word rendering where it is permitted.
pub proof fn lemma_non_ascii_word(s: Seq<char>, allow_encoded_word: bool)
    requires
        exists|i: int| 0 <= i < s.len() && (#[trigger] s[i] as u32) > 127,
    ensures
        word_representable(s, MailType::Ascii, allow_encoded_word) == allow_encoded_word,
        allow_encoded_word ==> word_rendering(s, MailType::Ascii) == encoded_word_of(s),
{
    let w = choose|i: int| 0 <= i < s.len() && (#[trigger] s[i] as u32) > 127;
    assert(!is_atext_char(s[w], MailType::Ascii));
    assert(!is_quotable_char(s[w], MailType::Ascii));
    assert(!word_is_atext(s, MailType::Ascii));
    assert(!word_is_quotable(s, MailType::Ascii));
}

/// Encodes one word into the sink: exactly one of literal text, a
/// quoted-string, or an encoded-word is appended, or nothing at all and the
/// word's error is returned. `allow_encoded_word` is false at grammar
/// positions that forbid the RFC 2047 fallback (address local parts and
/// domains); free-text word positions pass true.
pub fn do_encode_word(
    word: &Word,
    handle: &mut EncodeHandle,
    allow_encoded_word: bool,
) -> (r: Result<(), EncodeError>)
    ensures
        final(handle).mail_type_spec() == old(handle).mail_type_spec(),
        final(handle).committed() == old(handle).committed(),
        old(handle).wf() ==> final(handle).wf(),
        r is Ok <==> word_representable(word@, old(handle).mail_type_spec(), allow_encoded_word),
        r is Ok ==> final(handle)@ =~= old(handle)@.push(TokenView::Text(
            word_rendering(word@, old(handle).mail_type_spec()),
        )),
        r is Err ==> final(handle)@ == old(handle)@ && r == Err::<(), EncodeError>(
            EncodeError::IllegalCharacter,
        ),
{
    let mt = handle.mail_type();
    let s = word.as_str();
    if s.unicode_len() > 0 && all_atext(s, mt) {
        proof {
            assert forall|i: int| 0 <= i < s@.len() implies char_legal(#[trigger] s@[i], mt) by {
                lemma_atext_char_legal(s@[i], mt);
            }
        }
        let r = handle.write_literal(s);
        proof {
            assert(r is Ok);
            assert(word_rendering(word@, mt) == s@);
        }
        r
    } else if all_quotable(s, mt) {
        let mut q = String::new();
        push_char(&mut q, '"');
        q.append(s);
        push_char(&mut q, '"');
        proof {
            assert(q@ =~= seq!['"'] + s@ + seq!['"']);
            assert forall|i: int| 0 <= i < q@.len() implies char_legal(#[trigger] q@[i], mt) by {
                if 1 <= i < q@.len() - 1 {
                    lemma_quotable_char_legal(s@[i - 1], mt);
                }
            }
        }
        let r = handle.write_literal(q.as_str());
        proof {
            assert(r is Ok);
            assert(!word_is_atext(word@, mt));
            assert(word_rendering(word@, mt) == seq!['"'] + s@ + seq!['"']);
        }
        r
    } else if allow_encoded_word {
        let e = build_encoded_word(s);
        proof {
            assert forall|i: int| 0 <= i < e@.len() implies char_legal(#[trigger] e@[i], mt) by {
                assert(char_legal(e@[i], MailType::Ascii));
            }
        }
        let r = handle.write_literal(e.as_str());
        proof {
            assert(r is Ok);
            assert(!word_is_atext(word@, mt));
            assert(!word_is_quotable(word@, mt));
            assert(word_rendering(word@, mt) == encoded_word_of(word@));
        }
        r
    } else {
        Err(EncodeError::IllegalCharacter)
    }
}

} // verus!
