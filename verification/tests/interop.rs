use keeplin_core::interop::{escape_text, uid_file_name, unescape_text, user_vcard, Contact};

#[test]
fn contact_round_trips_through_vcard() {
    let c = Contact {
        uid: "abc-123".into(),
        formatted_name: "Ada Lovelace".into(),
        family_name: Some("Lovelace".into()),
        given_name: Some("Ada".into()),
        emails: vec!["ada@example.com".into(), "a@work.com".into()],
        phones: vec!["+1 555 0100".into()],
        org: Some("Analytical Engines; Ltd".into()),
        note: Some("Line1\nLine2, with comma".into()),
        extra: vec!["X-CUSTOM:kept".into()],
    };
    let parsed = Contact::from_vcard(&c.to_vcard()).unwrap();
    assert_eq!(parsed, c, "vCard round-trip must be lossless");
}

#[test]
fn vcard_escaping_survives() {
    let c = Contact {
        formatted_name: "A, B; C\\D".into(),
        ..Default::default()
    };
    let parsed = Contact::from_vcard(&c.to_vcard()).unwrap();
    assert_eq!(parsed.formatted_name, "A, B; C\\D");
}

#[test]
fn user_vcard_carries_name_and_email() {
    let card = user_vcard("Grace Hopper", "grace@navy.mil");
    let parsed = Contact::from_vcard(&card).unwrap();
    assert_eq!(parsed.formatted_name, "Grace Hopper");
    assert_eq!(parsed.emails, vec!["grace@navy.mil".to_string()]);
}

#[test]
fn a_contact_without_uid_gets_a_fresh_one() {
    let c = Contact {
        formatted_name: "No Id".into(),
        ..Default::default()
    };
    let parsed = Contact::from_vcard(&c.to_vcard()).unwrap();
    assert_eq!(parsed.uid.len(), 36);
    assert_eq!(parsed.formatted_name, "No Id");
}

#[test]
fn text_without_a_card_reads_as_none() {
    assert!(Contact::from_vcard("nope").is_none());
    assert!(Contact::from_vcard("").is_none());
}

#[test]
fn escaping_marks_separators_and_unescaping_undoes_it() {
    assert_eq!(escape_text("a,b;c\\d\ne\r"), "a\\,b\\;c\\\\d\\ne");
    assert_eq!(unescape_text("a\\,b\\;c\\\\d\\ne\\N"), "a,b;c\\d\ne\n");
    assert_eq!(unescape_text("end\\"), "end\\");
}

#[test]
fn long_lines_fold_at_seventy_five_bytes() {
    let c = Contact {
        uid: "u".into(),
        formatted_name: "x".repeat(200),
        ..Default::default()
    };
    let card = c.to_vcard();
    for line in card.split("\r\n") {
        assert!(line.len() <= 75, "{line}");
    }
    let parsed = Contact::from_vcard(&card).unwrap();
    assert_eq!(parsed.formatted_name, "x".repeat(200));
}

#[test]
fn a_stored_file_is_named_by_uid_and_extension() {
    assert_eq!(uid_file_name("abc", "vcf"), "abc.vcf");
}

#[test]
fn folded_lines_keep_to_75_bytes_and_continuations_start_with_a_space() {
    let line: Vec<char> = "NOTE:".chars().chain("é日x".chars().cycle().take(200)).collect();
    let mut out = Vec::new();
    keeplin_core::interop::fold_line(&line, &mut out);
    let text: String = out.iter().collect();
    assert!(text.ends_with("\r\n"));
    let pieces: Vec<&str> = text[..text.len() - 2].split("\r\n").collect();
    assert!(pieces.len() > 1);
    let mut back = String::new();
    for (k, p) in pieces.iter().enumerate() {
        assert!(p.len() <= 75, "piece {k} has {} bytes", p.len());
        if k == 0 {
            back.push_str(p);
        } else {
            assert!(p.starts_with(' ') && p.len() >= 2);
            back.push_str(&p[1..]);
        }
    }
    assert_eq!(back, line.iter().collect::<String>());
}
