use hledger_parse::{parse_tag, Tag, TagError};

#[test]
fn test_parse_tag_with_space() {
    let input = "not a tag:";
    let err = parse_tag(input);
    assert_eq!(err, Err(TagError { position: 3 }));
    assert_eq!(&input[3..], " a tag:");
}

#[test]
fn test_parse_tag_no_value() {
    assert_eq!(
        parse_tag("cash:"),
        Ok((
            "".to_string(),
            Tag {
                name: "cash".into(),
                value: None,
            }
        ))
    )
}

#[test]
fn test_parse_tag_with_value() {
    assert_eq!(
        parse_tag("cash:atm"),
        Ok((
            "".to_string(),
            Tag {
                name: "cash".into(),
                value: Some("atm".into()),
            }
        ))
    )
}

#[test]
fn tag_value_stops_at_space() {
    assert_eq!(
        parse_tag("trip: paris"),
        Ok((
            " paris".to_string(),
            Tag {
                name: "trip".into(),
                value: None,
            }
        ))
    )
}

#[test]
fn tag_name_with_hyphen() {
    assert_eq!(
        parse_tag("due-date:tomorrow rest"),
        Ok((
            " rest".to_string(),
            Tag {
                name: "due-date".into(),
                value: Some("tomorrow".into()),
            }
        ))
    )
}

#[test]
fn tag_empty_name_is_refused() {
    assert_eq!(parse_tag(":value"), Err(TagError { position: 0 }));
}

#[test]
fn tag_without_colon_is_refused() {
    assert_eq!(parse_tag("cash"), Err(TagError { position: 4 }));
}
