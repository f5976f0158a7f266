use mailgun_v3::{is_valid_address, is_valid_display_name, EmailAddress, ParseError};

#[test]
fn parse_email_address() {
    let success_cases = vec![
        ("test@email.com", EmailAddress::address("test@email.com")),
        (
            "Bob Test <test@email.com>",
            EmailAddress::name_address("Bob Test", "test@email.com"),
        ),
    ];
    for (input, expected) in success_cases {
        let result = EmailAddress::try_from(input);
        assert!(result.is_ok());
        assert_eq!(result.unwrap(), expected);
    }

    let failure_cases = vec![
        ("test", "Invalid email address"),
        ("@email.com", "Invalid email address"),
        ("Bob Test", "Invalid email address"),
        ("Bob Test <>", "Invalid email address"),
        ("Bob Test <test>", "Invalid email address"),
        ("Bob Test <@email.com>", "Invalid email address"),
        ("<Bob Test> <test@email.com>", "Invalid display name"),
    ];
    for (input, expected) in failure_cases {
        let result = EmailAddress::try_from(input);
        assert!(result.is_err());
        assert_eq!(result.err().map(|e| e.message()), Some(expected));
    }
}

#[test]
fn no_dot_after_at_is_invalid_address() {
    for input in ["user@localhost", "first.last@host", "a.b", "x.y <me@home>", ""] {
        assert_eq!(EmailAddress::try_from(input), Err(ParseError::InvalidAddress));
    }
}

#[test]
fn no_dot_with_bad_name_is_invalid_display_name() {
    assert_eq!(
        EmailAddress::try_from("<x> <me@home>"),
        Err(ParseError::InvalidDisplayName)
    );
}

#[test]
fn bare_address_parses_to_itself() {
    for input in ["test@email.com", "a@b.c", "a@b@c.d", "x.y@z.w.v"] {
        let parsed = EmailAddress::try_from(input).unwrap();
        assert_eq!(parsed, EmailAddress::address(input));
        assert_eq!(parsed.email(), input);
        assert_eq!(parsed.to_string(), input);
    }
}

#[test]
fn named_address_prints_back() {
    let input = "Bob Test <test@email.com>";
    let parsed = EmailAddress::try_from(input).unwrap();
    assert_eq!(parsed.email(), "test@email.com");
    assert_eq!(parsed.to_string(), input);
}

#[test]
fn round_trip_through_text() {
    for input in ["Alice <alice@example.org>", "bob@example.org", "A B C <x@y.z>"] {
        let parsed = EmailAddress::try_from(input).unwrap();
        let again = EmailAddress::try_from(parsed.to_string().as_str()).unwrap();
        assert_eq!(again, parsed);
    }
}

#[test]
fn longest_name_is_taken() {
    assert_eq!(
        EmailAddress::try_from("a <b <c@d.e>"),
        Err(ParseError::InvalidDisplayName)
    );
}

#[test]
fn empty_name_is_invalid() {
    assert_eq!(
        EmailAddress::try_from(" <a@b.c>"),
        Err(ParseError::InvalidDisplayName)
    );
}

#[test]
fn line_break_in_name_is_kept() {
    assert_eq!(
        EmailAddress::try_from("a\nb <c@d.e>"),
        Ok(EmailAddress::name_address("a\nb", "c@d.e"))
    );
}

#[test]
fn built_value_round_trips() {
    for value in [
        EmailAddress::name_address("a\nb", "c@d.e"),
        EmailAddress::name_address("Bob Test", "test@email.com"),
        EmailAddress::address("x@y.z"),
    ] {
        assert_eq!(EmailAddress::try_from(value.to_string().as_str()), Ok(value));
    }
}

#[test]
fn no_dot_in_parsed_domain_is_invalid_address() {
    assert_eq!(
        EmailAddress::try_from("a@b.c <x@y>"),
        Err(ParseError::InvalidAddress)
    );
}

#[test]
fn space_in_address_is_invalid() {
    assert_eq!(
        EmailAddress::try_from("Bob <te st@email.com>"),
        Err(ParseError::InvalidAddress)
    );
}

#[test]
fn to_string_formats() {
    assert_eq!(EmailAddress::name_address("N", "a@b.c").to_string(), "N <a@b.c>");
    assert_eq!(EmailAddress::address("a@b.c").to_string(), "a@b.c");
}

#[test]
fn error_messages() {
    assert_eq!(ParseError::InvalidDisplayName.message(), "Invalid display name");
    assert_eq!(ParseError::InvalidAddress.message(), "Invalid email address");
}

#[test]
fn validators() {
    assert!(is_valid_display_name("Bob Test"));
    assert!(!is_valid_display_name(""));
    assert!(!is_valid_display_name("a<b"));
    assert!(!is_valid_display_name("a>b"));
    assert!(is_valid_address("a@b.c"));
    assert!(!is_valid_address("a@.c"));
    assert!(!is_valid_address("a@b."));
    assert!(!is_valid_address("@b.c"));
    assert!(!is_valid_address("a@b.c "));
    assert!(!is_valid_address("a.b@c"));
}
