use licenseptium::input::{
    confirmation_from, expiry_from, read_checksum, read_comment, read_confirmation, read_expiry,
    read_key, read_limit, read_text, remove_crlf, Dialogue, ExpiryInput, Form, InputError, Next,
    Question,
};

#[test]
fn line_endings_are_removed_wherever_they_stand() {
    assert_eq!(remove_crlf("text\r\n"), "text");
    assert_eq!(remove_crlf("\r\n"), "");
    assert_eq!(remove_crlf(""), "");
    assert_eq!(remove_crlf("a\r\nb\r\n"), "ab");
    assert_eq!(remove_crlf("\r\r\n\n"), "\r\n");
    assert_eq!(remove_crlf("text\n"), "text\n");
    assert_eq!(remove_crlf("text\r"), "text\r");
    assert_eq!(remove_crlf("te\n\rxt"), "te\n\rxt");
}

#[test]
fn comment_and_checksum_must_not_be_empty() {
    assert_eq!(read_comment("Acme Ltd.\r\n"), Ok("Acme Ltd.".to_owned()));
    assert_eq!(read_comment("\r\n"), Err(InputError::EmptyComment));
    assert_eq!(read_comment(""), Err(InputError::EmptyComment));
    assert_eq!(read_comment(" \r\n"), Ok(" ".to_owned()));
    assert_eq!(read_checksum("Secret\r\n"), Ok("Secret".to_owned()));
    assert_eq!(read_checksum("\r\n"), Err(InputError::EmptyChecksum));
    assert_eq!(read_text("\r\n\r\n", InputError::EmptyKey), Err(InputError::EmptyKey));
    assert_eq!(read_text("x", InputError::EmptyKey), Ok("x".to_owned()));
}

#[test]
fn limit_is_one_by_default_and_a_positive_number_otherwise() {
    assert_eq!(read_limit("\r\n"), Ok(1));
    assert_eq!(read_limit(""), Ok(1));
    assert_eq!(read_limit("1"), Ok(1));
    assert_eq!(read_limit("5\r\n"), Ok(5));
    assert_eq!(read_limit("+5"), Ok(5));
    assert_eq!(read_limit("007"), Ok(7));
    assert_eq!(read_limit("2147483647"), Ok(i32::MAX));
    for text in ["0", "-0", "+0", "000", "-1", "-5", "-5\r\n", "-2147483648"] {
        assert_eq!(read_limit(text), Err(InputError::LimitNotPositive), "{:?}", text);
    }
    for text in [
        "2147483648",
        "-2147483649",
        "99999999999999999999",
        "five",
        "5 ",
        " 5",
        "5\n",
        "+",
        "-",
        "+-5",
        "--5",
        "5.0",
        "1_000",
        "0x10",
        "٣",
    ] {
        assert_eq!(read_limit(text), Err(InputError::LimitNotANumber), "{:?}", text);
    }
}

#[test]
fn expiry_is_never_for_nothing_and_for_infinity() {
    assert_eq!(read_expiry("\r\n"), ExpiryInput::Never);
    assert_eq!(read_expiry(""), ExpiryInput::Never);
    assert_eq!(read_expiry("infinity\r\n"), ExpiryInput::Never);
    assert_eq!(read_expiry("Infinity"), ExpiryInput::Never);
    assert_eq!(read_expiry("INFINITY\r\n"), ExpiryInput::Never);
    assert_eq!(
        read_expiry("1700000000\r\n"),
        ExpiryInput::At("1700000000".to_owned())
    );
    assert_eq!(read_expiry("infinite"), ExpiryInput::At("infinite".to_owned()));
    assert_eq!(read_expiry(" infinity"), ExpiryInput::At(" infinity".to_owned()));
    assert_eq!(read_expiry("Inf"), ExpiryInput::At("Inf".to_owned()));
    assert_eq!(expiry_from(String::new(), "whatever"), ExpiryInput::Never);
    assert_eq!(expiry_from("X".to_owned(), "infinity"), ExpiryInput::Never);
    assert_eq!(
        expiry_from("X".to_owned(), "Infinity"),
        ExpiryInput::At("X".to_owned())
    );
}

#[test]
fn key_line_must_hold_a_key() {
    assert_eq!(read_key("\r\n"), Err(InputError::EmptyKey));
    assert_eq!(read_key(""), Err(InputError::EmptyKey));
    assert_eq!(read_key("key\r\n"), Err(InputError::KeyNotUuid));
    assert_eq!(
        read_key("00000000-0000-0000-0000-0000000000ff\n"),
        Err(InputError::KeyNotUuid)
    );
    assert_eq!(read_key("00000000-0000-0000-0000-0000000000ff\r\n"), Ok(255));
    assert_eq!(read_key("000000000000000000000000000000FF"), Ok(255));
}

#[test]
fn revocation_needs_a_yes() {
    for line in ["y\r\n", "Y\r\n", "yes\r\n", "YES", "Yes, please\r\n", "oh yes", "eyes"] {
        assert_eq!(read_confirmation(line), Ok(()), "{:?}", line);
    }
    for line in ["\r\n", "", "n\r\n", "no", "ye", "y ", " y", "yy", "y\n", "ja", "y e s"] {
        assert_eq!(read_confirmation(line), Err(InputError::NotConfirmed), "{:?}", line);
    }
    assert_eq!(confirmation_from("y"), Ok(()));
    assert_eq!(confirmation_from("Y"), Err(InputError::NotConfirmed));
    assert_eq!(confirmation_from("xyesx"), Ok(()));
    assert_eq!(confirmation_from("YES"), Err(InputError::NotConfirmed));
}

#[test]
fn each_refusal_has_its_sentence() {
    let all = [
        InputError::EmptyComment,
        InputError::LimitNotANumber,
        InputError::LimitNotPositive,
        InputError::BadExpiry,
        InputError::EmptyChecksum,
        InputError::EmptyKey,
        InputError::KeyNotUuid,
        InputError::NotConfirmed,
    ];
    let messages: Vec<String> = all.iter().map(|e| e.message()).collect();
    assert_eq!(
        messages,
        vec![
            "Comment cannot be empty.",
            "IP limit must be a number.",
            "IP limit must be at least 1.",
            "Expiration date format is not Unix time (64 bit integer) or 'infinity'.",
            "Checksum cannot be empty.",
            "Key cannot be empty.",
            "Key format must be UUID.",
            "Terminating delete process.",
        ]
    );
}

fn run(first: Question, lines: &[&str]) -> (Form, Vec<Next>) {
    let mut form = Form::new();
    let mut steps = Vec::new();
    let mut question = first;
    for line in lines {
        let next = form.answer(question, line);
        steps.push(next);
        match next {
            Next::Ask(q) => question = q,
            _ => break,
        }
    }
    (form, steps)
}

#[test]
fn issue_dialogue_asks_four_questions_in_order() {
    assert_eq!(Dialogue::Issue.first_question(), Question::Comment);
    assert_eq!(Dialogue::Revoke.first_question(), Question::Key);
    let (form, steps) = run(
        Dialogue::Issue.first_question(),
        &["Acme Ltd.\r\n", "\r\n", "Infinity\r\n", "Secret\r\n"],
    );
    assert_eq!(
        steps,
        vec![
            Next::Ask(Question::Limit),
            Next::Ask(Question::Expiry),
            Next::Ask(Question::Checksum),
            Next::Done,
        ]
    );
    assert_eq!(
        form,
        Form {
            comment: Some("Acme Ltd.".to_owned()),
            ip_limit: Some(1),
            expiry: Some(ExpiryInput::Never),
            checksum: Some("Secret".to_owned()),
            key: None,
            confirmed: false,
        }
    );

    let (form, steps) = run(Question::Comment, &["c", "25", "1700000000.5", "k"]);
    assert_eq!(steps.last(), Some(&Next::Done));
    assert_eq!(form.ip_limit, Some(25));
    assert_eq!(form.expiry, Some(ExpiryInput::At("1700000000.5".to_owned())));
}

#[test]
fn issue_dialogue_stops_at_the_first_refusal() {
    let (form, steps) = run(Question::Comment, &["\r\n", "5", "", "k"]);
    assert_eq!(steps, vec![Next::Refuse(InputError::EmptyComment)]);
    assert_eq!(form, Form::new());

    let (form, steps) = run(Question::Comment, &["c", "0", "", "k"]);
    assert_eq!(
        steps,
        vec![Next::Ask(Question::Limit), Next::Refuse(InputError::LimitNotPositive)]
    );
    assert_eq!(form.comment, Some("c".to_owned()));
    assert_eq!(form.ip_limit, None);

    let (_, steps) = run(Question::Comment, &["c", "-5", "", "k"]);
    assert_eq!(steps[1], Next::Refuse(InputError::LimitNotPositive));
    let (_, steps) = run(Question::Comment, &["c", "many", "", "k"]);
    assert_eq!(steps[1], Next::Refuse(InputError::LimitNotANumber));

    let (form, steps) = run(Question::Comment, &["c", "2", "", "\r\n"]);
    assert_eq!(steps[3], Next::Refuse(InputError::EmptyChecksum));
    assert_eq!(form.ip_limit, Some(2));
    assert_eq!(form.checksum, None);
}

#[test]
fn a_refused_answer_leaves_the_form_as_it_was() {
    let mut form = Form::new();
    assert_eq!(form.answer(Question::Limit, "3"), Next::Ask(Question::Expiry));
    assert_eq!(
        form.answer(Question::Limit, "0"),
        Next::Refuse(InputError::LimitNotPositive)
    );
    assert_eq!(form.ip_limit, Some(3));
    assert_eq!(form.answer(Question::Limit, "4"), Next::Ask(Question::Expiry));
    assert_eq!(form.ip_limit, Some(4));
}

#[test]
fn revoke_dialogue_asks_for_the_key_and_then_for_a_yes() {
    let key = "00000000-0000-0000-0000-0000000000ff\r\n";
    let (form, steps) = run(Question::Key, &[key, "yes\r\n"]);
    assert_eq!(steps, vec![Next::Ask(Question::Confirmation), Next::Done]);
    assert_eq!(form.key, Some(255));
    assert!(form.confirmed);

    let (form, steps) = run(Question::Key, &[key, "n\r\n"]);
    assert_eq!(
        steps,
        vec![Next::Ask(Question::Confirmation), Next::Refuse(InputError::NotConfirmed)]
    );
    assert_eq!(form.key, Some(255));
    assert!(!form.confirmed);

    let (form, steps) = run(Question::Key, &["\r\n", "yes"]);
    assert_eq!(steps, vec![Next::Refuse(InputError::EmptyKey)]);
    assert_eq!(form, Form::new());
    let (_, steps) = run(Question::Key, &["key", "yes"]);
    assert_eq!(steps, vec![Next::Refuse(InputError::KeyNotUuid)]);
}
