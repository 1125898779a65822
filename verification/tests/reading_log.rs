use reading_log::classify::classify;
use reading_log::date::month_of_unix_days;
use reading_log::enrich::{
    apply_detail, detail_url, first_isbn13, next_after_search, search_url, IndustryId, IsbnKind,
    VolumeInfo,
};
use reading_log::model::{Book, ParseError, ParsedLine, Timestamp};
use reading_log::parse::parse_books;
use reading_log::render::{format_book, format_header, format_line};

fn sample_book(authors: Vec<&str>, title: &str, note: u8) -> Book {
    Book {
        authors: authors.into_iter().map(|a| a.to_string()).collect(),
        title: title.to_string(),
        isbn13: String::new(),
        note,
        timestamp: None,
    }
}

#[test]
fn classify_empty_line_is_blank() {
    assert!(matches!(classify(""), Ok(ParsedLine::Blank)));
}

#[test]
fn classify_spaces_line_is_blank() {
    assert!(matches!(classify("   "), Ok(ParsedLine::Blank)));
    assert!(matches!(classify(" \t "), Ok(ParsedLine::Blank)));
}

#[test]
fn classify_book_line_with_triple_plus() {
    let r = classify("Jean Dupont : Les Misérables (+++)").unwrap();
    match r {
        ParsedLine::Book(b) => {
            assert_eq!(b.authors, vec!["Jean Dupont".to_string()]);
            assert_eq!(b.title, "Les Misérables");
            assert_eq!(b.note, 3);
            assert_eq!(b.isbn13, "");
            assert!(b.timestamp.is_none());
        }
        _ => panic!("expected a book line"),
    }
}

#[test]
fn classify_book_line_multiple_authors() {
    let r = classify("Anne Brontë & Emily Brontë : Poems").unwrap();
    match r {
        ParsedLine::Book(b) => {
            assert_eq!(
                b.authors,
                vec!["Anne Brontë".to_string(), "Emily Brontë".to_string()]
            );
            assert_eq!(b.title, "Poems");
            assert_eq!(b.note, 0);
        }
        _ => panic!("expected a book line"),
    }
}

#[test]
fn classify_annotation_tokens() {
    let cases = [
        ("A : T (+)", 1u8),
        ("A : T (++)", 2),
        ("A : T (+++)", 3),
        ("A : T (\u{1f499})", 4),
        ("A : T (\u{2764}\u{fe0f})", 5),
    ];
    for (line, want) in cases {
        match classify(line).unwrap() {
            ParsedLine::Book(b) => {
                assert_eq!(b.note, want, "line {line:?}");
                assert_eq!(b.title, "T");
            }
            _ => panic!("expected a book line for {line:?}"),
        }
    }
}

#[test]
fn classify_unknown_annotation_is_note_zero() {
    let r = classify("A : T (xyz)").unwrap();
    match r {
        ParsedLine::Book(b) => {
            assert_eq!(b.note, 0);
            assert_eq!(b.title, "T");
        }
        _ => panic!("expected a book line"),
    }
}

#[test]
fn classify_unmatched_annotation_fails() {
    assert_eq!(
        classify("A : T)").unwrap_err(),
        ParseError::UnmatchedAnnotation
    );
}

#[test]
fn classify_separator_only_inside_annotation_fails() {
    assert_eq!(
        classify("X( : y)").unwrap_err(),
        ParseError::MissingSeparator
    );
}

#[test]
fn classify_header_without_space_fails() {
    assert_eq!(classify("garbage").unwrap_err(), ParseError::MissingYear);
}

#[test]
fn classify_month_header() {
    let r = classify("Fevrier 2021").unwrap();
    match r {
        ParsedLine::DateTime(t) => {
            assert_eq!(t.year, 2021);
            assert_eq!(t.month, 2);
        }
        _ => panic!("expected a month header"),
    }
}

#[test]
fn format_of_february_header_is_accented() {
    let r = classify("Fevrier 2021").unwrap();
    assert_eq!(format_line(&r), "Février 2021");
}

#[test]
fn classify_accented_upper_case_month() {
    let r = classify("FÉVRIER 1999").unwrap();
    match r {
        ParsedLine::DateTime(t) => {
            assert_eq!(t.year, 1999);
            assert_eq!(t.month, 2);
        }
        _ => panic!("expected a month header"),
    }
}

#[test]
fn unknown_month_defaults_to_january() {
    let r = classify("Brumaire 1794").unwrap();
    match r {
        ParsedLine::DateTime(t) => {
            assert_eq!(t.year, 1794);
            assert_eq!(t.month, 1);
        }
        _ => panic!("expected a month header"),
    }
}

#[test]
fn unparseable_year_defaults_to_2020() {
    let r = classify("Mars abc").unwrap();
    match r {
        ParsedLine::DateTime(t) => {
            assert_eq!(t.year, 2020);
            assert_eq!(t.month, 3);
        }
        _ => panic!("expected a month header"),
    }
}

#[test]
fn header_round_trip_all_months() {
    let displays = [
        "Janvier", "Février", "Mars", "Avril", "Mai", "Juin", "Juillet", "Août", "Septembre",
        "Octobre", "Novembre", "Décembre",
    ];
    for m in 1..=12u8 {
        let t = Timestamp::new(2021, m);
        let text = format_header(&t);
        assert_eq!(text, format!("{} 2021", displays[(m - 1) as usize]));
        match classify(&text).unwrap() {
            ParsedLine::DateTime(back) => assert_eq!(back, t),
            _ => panic!("header {text:?} did not classify as a header"),
        }
    }
}

#[test]
fn book_round_trip_concrete() {
    let b = sample_book(vec!["Anne Brontë", "Emily Brontë"], "Poems", 2);
    let text = format_book(&b);
    assert_eq!(text, "Anne Brontë & Emily Brontë : Poems (++)");
    match classify(&text).unwrap() {
        ParsedLine::Book(back) => {
            assert_eq!(back.authors, b.authors);
            assert_eq!(back.title, b.title);
            assert_eq!(back.note, b.note);
        }
        _ => panic!("expected a book line"),
    }
}

#[test]
fn format_blank_is_empty() {
    assert_eq!(format_line(&ParsedLine::Blank), "");
}

#[test]
fn parse_keeps_going_past_a_malformed_line() {
    let text = "Janvier 2021\nA : T1\ngarbage\nB : T2\n";
    let (books, diags) = parse_books(text, Timestamp::new(2020, 6));
    assert_eq!(books.len(), 2);
    let stamp = Some(Timestamp::new(2021, 1));
    assert_eq!(books[0].title, "T1");
    assert_eq!(books[0].timestamp, stamp);
    assert_eq!(books[1].title, "T2");
    assert_eq!(books[1].timestamp, stamp);
    assert_eq!(diags.len(), 1);
    assert_eq!(diags[0].line, 3);
    assert_eq!(diags[0].error, ParseError::MissingYear);
}

#[test]
fn parse_threads_headers_and_start_month() {
    let text = "A : T1\n\nJanvier 2021\nB : T2\nMars 2022\nC : T3";
    let start = Timestamp::new(2019, 7);
    let (books, diags) = parse_books(text, start);
    assert_eq!(diags.len(), 0);
    assert_eq!(books.len(), 3);
    assert_eq!(books[0].timestamp, Some(start));
    assert_eq!(books[1].timestamp, Some(Timestamp::new(2021, 1)));
    assert_eq!(books[2].timestamp, Some(Timestamp::new(2022, 3)));
}

#[test]
fn parse_empty_text_yields_nothing() {
    let (books, diags) = parse_books("", Timestamp::new(2020, 1));
    assert!(books.is_empty());
    assert!(diags.is_empty());
}

#[test]
fn search_url_matches_protocol() {
    let b = sample_book(vec!["Jane", "John"], "Dune", 0);
    assert_eq!(
        search_url(&b),
        "https://www.googleapis.com/books/v1/volumes?q=+inauthor:Jane+inauthor:John+intitle:Dune&fields=items/selfLink"
    );
}

#[test]
fn detail_url_matches_protocol() {
    assert_eq!(
        detail_url("https://example.test/v"),
        "https://example.test/v?fields=volumeInfo(title,authors,industryIdentifiers,imageLinks)"
    );
}

#[test]
fn empty_search_results_mean_no_follow_up() {
    assert!(next_after_search(&Some(Vec::new())).is_none());
    assert!(next_after_search(&None).is_none());
}

#[test]
fn first_search_result_is_followed() {
    let items = Some(vec!["https://example.test/a".to_string(), "x".to_string()]);
    let next = next_after_search(&items).unwrap();
    assert_eq!(
        next,
        "https://example.test/a?fields=volumeInfo(title,authors,industryIdentifiers,imageLinks)"
    );
}

#[test]
fn failed_detail_fetch_keeps_book_unchanged() {
    let b = sample_book(vec!["Jane"], "Dune", 1);
    let r = apply_detail(b, &None);
    assert_eq!(r.authors, vec!["Jane".to_string()]);
    assert_eq!(r.title, "Dune");
    assert_eq!(r.isbn13, "");
    assert_eq!(r.note, 1);
    assert_eq!(r.timestamp, None);
}

#[test]
fn successful_detail_fetch_overwrites_fields() {
    let mut b = sample_book(vec!["jane"], "dune", 2);
    b.timestamp = Some(Timestamp::new(2021, 4));
    let info = VolumeInfo {
        title: "Dune".to_string(),
        authors: vec!["Frank Herbert".to_string()],
        ids: vec![
            IndustryId {
                kind: IsbnKind::Isbn10,
                identifier: "0441172717".to_string(),
            },
            IndustryId {
                kind: IsbnKind::Isbn13,
                identifier: "9780441172719".to_string(),
            },
        ],
    };
    let r = apply_detail(b, &Some(info));
    assert_eq!(r.title, "Dune");
    assert_eq!(r.authors, vec!["Frank Herbert".to_string()]);
    assert_eq!(r.isbn13, "9780441172719");
    assert_eq!(r.note, 2);
    assert_eq!(r.timestamp, Some(Timestamp::new(2021, 4)));
}

#[test]
fn volume_without_isbn13_gives_empty_string() {
    let ids = vec![IndustryId {
        kind: IsbnKind::Isbn10,
        identifier: "0441172717".to_string(),
    }];
    assert_eq!(first_isbn13(&ids), "");
    assert_eq!(first_isbn13(&Vec::new()), "");
}

#[test]
fn month_of_epoch_start_is_january_1970() {
    let t = month_of_unix_days(0);
    assert_eq!(t.year, 1970);
    assert_eq!(t.month, 1);
}

#[test]
fn month_of_known_day_counts() {
    // 2021-02-01 is 18659 days after the epoch.
    let t = month_of_unix_days(18659);
    assert_eq!(t.year, 2021);
    assert_eq!(t.month, 2);
    // 2020-02-29 is 18321 days after the epoch (a leap day).
    let leap = month_of_unix_days(18321);
    assert_eq!(leap.year, 2020);
    assert_eq!(leap.month, 2);
    // 2020-03-01, the day after.
    let after = month_of_unix_days(18322);
    assert_eq!(after.year, 2020);
    assert_eq!(after.month, 3);
}

#[test]
fn describe_names_each_error() {
    assert!(!ParseError::UnmatchedAnnotation.describe().is_empty());
    assert!(!ParseError::MissingSeparator.describe().is_empty());
    assert!(!ParseError::MissingYear.describe().is_empty());
}

#[test]
fn windows_line_endings_are_tolerated() {
    let text = "Janvier 2021\r\nA : T1\r\n";
    let (books, diags) = parse_books(text, Timestamp::new(2020, 1));
    assert_eq!(diags.len(), 0);
    assert_eq!(books.len(), 1);
    assert_eq!(books[0].title, "T1");
    assert_eq!(books[0].timestamp, Some(Timestamp::new(2021, 1)));
}
