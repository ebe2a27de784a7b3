//! The account listing and the account directories.

use aside::accounts::{
    account_dir, accounts_from_listing, is_account_id, parse_account_line, parse_account_list,
    signed_in_accounts, ListingOutcome,
};

#[test]
fn account_list_parser_filters_signed_out_and_ignores_emails() {
    let text = "\
* u0  redacted  signed in  profiles: Profile 0
provider: redacted
  u1  redacted  signed out
  u2  redacted  signed in  profiles: Profile 0
not an account line
";
    assert_eq!(
        parse_account_list(text),
        vec![
            ("u0".to_owned(), true),
            ("u1".to_owned(), false),
            ("u2".to_owned(), true),
        ]
    );
    assert!(parse_account_list("").is_empty());
    assert!(parse_account_list("provider: redacted\n").is_empty());
}

#[test]
fn account_list_parser_filters_signed_out_rows() {
    let text = "* u0  redacted  signed in  profiles: Profile 0\nprovider: redacted\nu1  redacted  signed out\n";
    assert_eq!(
        parse_account_list(text),
        vec![("u0".to_owned(), true), ("u1".to_owned(), false)]
    );
    let signed_in: Vec<_> = parse_account_list(text)
        .into_iter()
        .filter(|(_, signed_in)| *signed_in)
        .collect();
    assert_eq!(signed_in, vec![("u0".to_owned(), true)]);
}

#[test]
fn account_dir_maps_u_prefix_to_digits() {
    let home = std::path::Path::new("/tmp/fake-home");
    assert_eq!(
        account_dir(home, "u0"),
        Some(home.join(".aside").join("u").join("0"))
    );
    assert_eq!(
        account_dir(home, "u12"),
        Some(home.join(".aside").join("u").join("12"))
    );
    assert_eq!(account_dir(home, "u"), None);
    assert_eq!(account_dir(home, "ux"), None);
    assert_eq!(account_dir(home, "0"), None);
    assert_eq!(account_dir(home, ""), None);
}

#[test]
fn account_directory_is_spelled_out() {
    let dir = account_dir(std::path::Path::new("/home/someone"), "u7").unwrap();
    assert_eq!(dir.to_str(), Some("/home/someone/.aside/u/7"));
}

#[test]
fn listing_marker_is_found_in_any_case() {
    assert_eq!(
        parse_account_list("u3 Signed In\nu4 SIGNED OUT"),
        vec![("u3".to_owned(), true), ("u4".to_owned(), false)]
    );
    // The Kelvin sign is not ASCII and lowers to `k`; the marker is still found.
    assert_eq!(
        parse_account_list("u5 \u{212a} Signed In"),
        vec![("u5".to_owned(), true)]
    );
}

#[test]
fn signed_in_marker_wins_over_signed_out() {
    assert_eq!(
        parse_account_list("u0 signed out, was signed in"),
        vec![("u0".to_owned(), true)]
    );
}

#[test]
fn marks_around_an_account_id_are_taken_off() {
    assert_eq!(
        parse_account_list("*u8, signed in\n:u9: signed out\r\n"),
        vec![("u8".to_owned(), true), ("u9".to_owned(), false)]
    );
}

#[test]
fn first_account_id_of_a_line_counts() {
    assert_eq!(
        parse_account_line("user u1x u2 u3 signed in", "user u1x u2 u3 signed in"),
        Some(("u2".to_owned(), true))
    );
    assert_eq!(parse_account_line("nobody signed in", "nobody signed in"), None);
    assert_eq!(parse_account_line("u1 away", "u1 away"), None);
}

#[test]
fn account_ids_are_u_and_ascii_digits() {
    assert!(is_account_id("u0"));
    assert!(is_account_id("u0123456789"));
    assert!(!is_account_id("u"));
    assert!(!is_account_id("U0"));
    assert!(!is_account_id("u1a"));
    assert!(!is_account_id("u\u{661}"));
}

#[test]
fn signed_in_accounts_keep_their_order() {
    assert_eq!(
        signed_in_accounts(vec![
            ("u2".to_owned(), true),
            ("u1".to_owned(), false),
            ("u0".to_owned(), true),
        ]),
        vec!["u2".to_owned(), "u0".to_owned()]
    );
}

#[test]
fn every_failed_listing_leaves_the_accounts_unknown() {
    assert_eq!(accounts_from_listing(&ListingOutcome::NoExecutable), None);
    assert_eq!(accounts_from_listing(&ListingOutcome::NotStarted), None);
    assert_eq!(accounts_from_listing(&ListingOutcome::TimedOut), None);
    assert_eq!(
        accounts_from_listing(&ListingOutcome::Exited {
            success: false,
            stdout: b"u0 signed in".to_vec(),
        }),
        None
    );
}

#[test]
fn listing_output_is_read_even_if_it_is_not_utf8() {
    assert_eq!(
        accounts_from_listing(&ListingOutcome::Exited {
            success: true,
            stdout: b"u0 \xff signed in\nu1 signed out\n".to_vec(),
        }),
        Some(vec!["u0".to_owned()])
    );
    // The replacement character is not white space, so the word is no account id.
    assert_eq!(
        accounts_from_listing(&ListingOutcome::Exited {
            success: true,
            stdout: b"u0\xff signed in".to_vec(),
        }),
        Some(vec![])
    );
    assert_eq!(
        accounts_from_listing(&ListingOutcome::Exited { success: true, stdout: vec![] }),
        Some(vec![])
    );
}

#[test]
fn listed_accounts_have_directories() {
    let home = std::path::Path::new("/h");
    for (id, _) in parse_account_list("u0 signed in\n* u1, signed out\nsigned in u22") {
        assert!(account_dir(home, &id).is_some());
    }
}

#[test]
fn joined_listings_list_the_accounts_of_both() {
    let parts = [
        "",
        "u0 signed in",
        "u1 signed out\n",
        "u2 signed in\r",
        "\n",
        "u3 away",
        "\u{c9} u4 SIGNED IN\r",
        "\u{3a3} u5 Signed Out \u{3a3}\r",
    ];
    for a in parts {
        for b in parts {
            let mut both = parse_account_list(a);
            both.extend(parse_account_list(b));
            assert_eq!(parse_account_list(&format!("{a}\n{b}")), both);
        }
    }
}

#[test]
fn other_words_of_a_line_do_not_reach_the_result() {
    let listing = |word: &str| format!("u9 signed out\n* u0 {word} signed in profiles\r\nend");
    let expected = vec![("u9".to_owned(), false), ("u0".to_owned(), true)];
    for word in ["a@example.invalid", "someone", "u", "ux1", "\u{e9}"] {
        assert_eq!(parse_account_list(&listing(word)), expected);
    }
}

#[test]
fn white_space_around_a_line_is_no_matter() {
    for line in ["u0 signed in", "\u{e9} u0 Signed In"] {
        for (before, after) in [("", ""), ("  ", "\t"), ("\u{3000}", "\r"), ("", " \u{a0}")] {
            assert_eq!(
                parse_account_list(&format!("{before}{line}{after}")),
                vec![("u0".to_owned(), true)]
            );
        }
    }
    // White space inside the marker does matter.
    assert!(parse_account_list("u0 signed  in").is_empty());
}
