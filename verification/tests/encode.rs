use mail_headers::{
    do_encode_word, Domain, Email, EncodeError, EncodeHandle, MailType, OutputToken, ReceivedToken,
    Word,
};

fn text(s: &str) -> OutputToken {
    OutputToken::Text(s.to_string())
}

#[test]
fn no_encoded_word() {
    // A free-text trace word may fall back to an encoded word, so a
    // non-ASCII word still encodes under the ASCII dialect.
    let mut handle = EncodeHandle::new(MailType::Ascii);
    let input = ReceivedToken::Word(Word::try_from("\u{2193}right").unwrap());
    input.encode(&mut handle).unwrap();
    assert_eq!(
        handle.into_tokens(),
        vec![text("=?utf-8?Q?=E2=86=93=72=69=67=68=74?=")]
    );
}

#[test]
fn a_domain() {
    let mut handle = EncodeHandle::new(MailType::Ascii);
    let domain = Domain::try_from("random.mailnot").unwrap();
    ReceivedToken::Domain(domain).encode(&mut handle).unwrap();
    assert_eq!(
        handle.into_tokens(),
        vec![OutputToken::MarkFold, text("random.mailnot"), OutputToken::MarkFold]
    );
}

#[test]
fn a_address() {
    let mut handle = EncodeHandle::new(MailType::Ascii);
    let email = Email::try_from("modnar@random.mailnot").unwrap();
    ReceivedToken::Address(email).encode(&mut handle).unwrap();
    assert_eq!(
        handle.into_tokens(),
        vec![
            text("<"),
            OutputToken::MarkFold,
            text("modnar"),
            OutputToken::MarkFold,
            text("@"),
            OutputToken::MarkFold,
            text("random.mailnot"),
            OutputToken::MarkFold,
            text(">"),
        ]
    );
}

#[test]
fn a_word() {
    let mut handle = EncodeHandle::new(MailType::Ascii);
    let word = Word::try_from("simple").unwrap();
    ReceivedToken::Word(word).encode(&mut handle).unwrap();
    assert_eq!(handle.into_tokens(), vec![text("simple")]);
}

#[test]
fn a_quoted_word() {
    let mut handle = EncodeHandle::new(MailType::Ascii);
    let word = Word::try_from("sim ple").unwrap();
    ReceivedToken::Word(word).encode(&mut handle).unwrap();
    assert_eq!(handle.into_tokens(), vec![text(r#""sim ple""#)]);
}

#[test]
fn non_ascii_word_as_encoded_word() {
    let mut handle = EncodeHandle::new(MailType::Ascii);
    let word = Word::try_from("\u{2193}right").unwrap();
    do_encode_word(&word, &mut handle, true).unwrap();
    assert_eq!(
        handle.into_tokens(),
        vec![text("=?utf-8?Q?=E2=86=93=72=69=67=68=74?=")]
    );
}

#[test]
fn non_ascii_word_refused_without_fallback() {
    let mut handle = EncodeHandle::new(MailType::Ascii);
    handle.write_literal("before").unwrap();
    let word = Word::try_from("\u{2193}right").unwrap();
    let err = do_encode_word(&word, &mut handle, false).unwrap_err();
    assert_eq!(err, EncodeError::IllegalCharacter);
    assert_eq!(handle.into_tokens(), vec![text("before")]);
}

#[test]
fn non_ascii_word_literal_when_internationalized() {
    let mut handle = EncodeHandle::new(MailType::Internationalized);
    let word = Word::try_from("\u{2193}right").unwrap();
    do_encode_word(&word, &mut handle, false).unwrap();
    assert_eq!(handle.into_tokens(), vec![text("\u{2193}right")]);
}

#[test]
fn non_ascii_local_part_fails_and_rolls_back() {
    let mut handle = EncodeHandle::new(MailType::Ascii);
    handle.write_literal("kept").unwrap();
    let email = Email::try_from("m\u{2193}x@random.mailnot").unwrap();
    let err = ReceivedToken::Address(email).encode(&mut handle).unwrap_err();
    assert_eq!(err, EncodeError::IllegalCharacter);
    assert_eq!(handle.into_tokens(), vec![text("kept")]);
}

#[test]
fn non_ascii_domain_fails_and_rolls_back() {
    let mut handle = EncodeHandle::new(MailType::Ascii);
    let domain = Domain::try_from("r\u{2193}ndom.mailnot").unwrap();
    let err = ReceivedToken::Domain(domain).encode(&mut handle).unwrap_err();
    assert_eq!(err, EncodeError::IllegalCharacter);
    assert_eq!(handle.into_tokens(), vec![]);
}

#[test]
fn reencoding_is_identical() {
    let email = Email::try_from("modnar@random.mailnot").unwrap();
    let token = ReceivedToken::Address(email);
    let mut first = EncodeHandle::new(MailType::Ascii);
    let mut second = EncodeHandle::new(MailType::Ascii);
    token.encode(&mut first).unwrap();
    token.encode(&mut second).unwrap();
    assert_eq!(first.into_tokens(), second.into_tokens());
}

#[test]
fn bad_domains_are_rejected() {
    assert!(Domain::try_from("").is_err());
    assert!(Domain::try_from(".").is_err());
    assert!(Domain::try_from(".mailnot").is_err());
    assert!(Domain::try_from("random.").is_err());
    assert!(Domain::try_from("random..mailnot").is_err());
    assert!(Domain::try_from("ran dom.mailnot").is_err());
    assert!(Domain::try_from("random.mailnot").is_ok());
}

#[test]
fn bad_addresses_are_rejected() {
    assert!(Email::try_from("no-at-sign").is_err());
    assert!(Email::try_from("two@at@signs").is_err());
    assert!(Email::try_from("@no.local").is_err());
    assert!(Email::try_from("nodomain@").is_err());
    assert!(Email::try_from("modnar@random.mailnot").is_ok());
}

#[test]
fn control_characters_are_rejected() {
    assert_eq!(Word::try_from("a\nb").unwrap_err(), EncodeError::IllegalCharacter);
    assert!(Word::try_from("a b").is_ok());
}

#[test]
fn undo_header_erases_only_unfinished_output() {
    let mut handle = EncodeHandle::new(MailType::Ascii);
    handle.write_literal("kept").unwrap();
    handle.finish_header();
    handle.write_literal("dropped").unwrap();
    handle.write_fold_marker();
    handle.undo_header();
    assert_eq!(handle.into_tokens(), vec![text("kept")]);
}

#[test]
fn sink_refuses_illegal_literal() {
    let mut handle = EncodeHandle::new(MailType::Ascii);
    assert_eq!(
        handle.write_literal("\u{2193}").unwrap_err(),
        EncodeError::IllegalCharacter
    );
    let mut intl = EncodeHandle::new(MailType::Internationalized);
    intl.write_literal("\u{2193}").unwrap();
    assert_eq!(intl.into_tokens(), vec![text("\u{2193}")]);
}
