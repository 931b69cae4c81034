use yarn_codegen::metadata::{
    parse_meta_line, parse_metadata, MetaLine, MetadataError, NodeMetadata, TrackingSetting,
    UnparsedLine,
};

fn line(text: &str) -> UnparsedLine {
    UnparsedLine { line_number: 0, text: text.to_string() }
}

fn numbered(texts: &[&str]) -> Vec<UnparsedLine> {
    texts
        .iter()
        .enumerate()
        .map(|(line_number, text)| UnparsedLine { line_number, text: text.to_string() })
        .collect()
}

fn own(text: &str) -> String {
    text.to_string()
}

#[test]
fn test_parsing() {
    assert_eq!(
        parse_meta_line(&line("title: Ch01_Awakening")).unwrap(),
        MetaLine::Title(own("Ch01_Awakening"))
    );
    assert_eq!(
        parse_meta_line(&line("   tags: more, night")).unwrap(),
        MetaLine::Tags(vec![own("more"), own("night")])
    );
    assert_eq!(
        parse_meta_line(&line("tags: day, light")).unwrap(),
        MetaLine::Tags(vec![own("day"), own("light")])
    );
    assert_eq!(
        parse_meta_line(&line("\ttags: less, stuff")).unwrap(),
        MetaLine::Tags(vec![own("less"), own("stuff")])
    );
    assert_eq!(
        parse_meta_line(&line("custom_tag: any info here")).unwrap(),
        MetaLine::Custom(own("custom_tag: any info here"))
    );
    assert_eq!(
        parse_meta_line(&line("\tanother custom_tag: other info   ")).unwrap(),
        MetaLine::Custom(own("another custom_tag: other info"))
    );
    assert_eq!(
        parse_meta_line(&line("tracking: always")).unwrap(),
        MetaLine::Tracking(TrackingSetting::Always)
    );

    assert_eq!(
        parse_meta_line(&line("tracking:  never")).unwrap(),
        MetaLine::Tracking(TrackingSetting::Never)
    );
    assert_eq!(
        parse_meta_line(&line("tracking:Never")).unwrap(),
        MetaLine::Tracking(TrackingSetting::Never)
    );
    assert_eq!(
        parse_meta_line(&line("tracking:\tNEVER")).unwrap(),
        MetaLine::Tracking(TrackingSetting::Never)
    );
    assert_eq!(
        parse_meta_line(&line("tracking:  Always")).unwrap(),
        MetaLine::Tracking(TrackingSetting::Always)
    );
    assert_eq!(
        parse_meta_line(&line("tracking:ALWAYS")).unwrap(),
        MetaLine::Tracking(TrackingSetting::Always)
    );
    assert_eq!(
        parse_meta_line(&line("tracking:NeVeR")).unwrap(),
        MetaLine::Tracking(TrackingSetting::Never)
    );
    assert_eq!(
        parse_meta_line(&line("tracking:AlWaYS")).unwrap(),
        MetaLine::Tracking(TrackingSetting::Always)
    );

    let unparsed_lines = numbered(&[
        "title: Ch01_Awakening",
        "   tags: more, night",
        "tags: day, light",
        "\ttags: less, stuff",
        "custom_tag: any info here",
        "\tanother custom_tag: other info   ",
        "tracking: always",
    ]);

    let valid_meta = parse_metadata(&unparsed_lines).unwrap();

    assert_eq!(
        valid_meta,
        NodeMetadata {
            title: own("Ch01_Awakening"),
            tags: vec![own("more"), own("night"), own("day"), own("light"), own("less"), own("stuff")],
            tracking: Some(TrackingSetting::Always),
            customs: vec![own("custom_tag: any info here"), own("another custom_tag: other info")],
        }
    );
}

#[test]
fn keyword_case_and_spacing_do_not_matter() {
    let plain = parse_metadata(&numbered(&["title: Start", "tags: a, b", "tracking: never"])).unwrap();
    let odd = parse_metadata(&numbered(&["  TiTlE :  Start  ", "\tTAGS:a ,b", "Tracking\t:NEVER "]))
        .unwrap();
    assert_eq!(plain, odd);
    assert_eq!(plain.title, "Start");
    assert_eq!(plain.tags, vec![own("a"), own("b")]);
    assert_eq!(plain.tracking, Some(TrackingSetting::Never));
}

#[test]
fn two_titles_are_refused_even_when_equal() {
    let err = parse_metadata(&numbered(&["title: Start", "tags: a", "title: Start"])).unwrap_err();
    assert_eq!(
        err,
        MetadataError::DuplicateTitle {
            first_line: 0,
            first: own("Start"),
            second_line: 2,
            second: own("Start"),
        }
    );
    let err = parse_metadata(&numbered(&["title: Start", "title: Other"])).unwrap_err();
    assert!(matches!(err, MetadataError::DuplicateTitle { .. }));
}

#[test]
fn two_tracking_lines_are_refused() {
    let err =
        parse_metadata(&numbered(&["title: Start", "tracking: always", "tracking: never"]))
            .unwrap_err();
    assert_eq!(
        err,
        MetadataError::DuplicateTracking {
            first_line: 1,
            first: TrackingSetting::Always,
            second_line: 2,
            second: TrackingSetting::Never,
        }
    );
}

#[test]
fn title_must_start_with_letter_or_underscore() {
    let err = parse_metadata(&numbered(&["title: 1abc"])).unwrap_err();
    assert_eq!(
        err,
        MetadataError::InvalidTitleStart { line_number: 0, title: own("1abc"), found: '1' }
    );
    let ok = parse_metadata(&numbered(&["title: _abc"])).unwrap();
    assert_eq!(ok.title, "_abc");
    assert_eq!(ok.tags, Vec::<String>::new());
    assert_eq!(ok.tracking, None);
}

#[test]
fn title_characters_are_checked() {
    let err = parse_metadata(&numbered(&["tags: x", "title: ab-c d"])).unwrap_err();
    assert_eq!(
        err,
        MetadataError::InvalidTitleCharacter { line_number: 1, title: own("ab-c d"), found: '-' }
    );
}

#[test]
fn missing_title_is_refused() {
    assert_eq!(
        parse_metadata(&numbered(&["tags: a", "custom: b"])).unwrap_err(),
        MetadataError::MissingTitle
    );
    assert_eq!(parse_metadata(&[]).unwrap_err(), MetadataError::MissingTitle);
}

#[test]
fn empty_title_and_bad_tracking_are_refused() {
    assert_eq!(
        parse_meta_line(&UnparsedLine { line_number: 7, text: own(" title:  ") }).unwrap_err(),
        MetadataError::MissingTitleName { line_number: 7, text: own(" title:  ") }
    );
    assert_eq!(
        parse_meta_line(&UnparsedLine { line_number: 3, text: own("tracking: sometimes") })
            .unwrap_err(),
        MetadataError::InvalidTracking {
            line_number: 3,
            text: own("tracking: sometimes"),
            value: own("sometimes"),
        }
    );
}

#[test]
fn first_refused_line_wins() {
    let err = parse_metadata(&numbered(&["title: A", "tracking: maybe", "title: B"])).unwrap_err();
    assert!(matches!(err, MetadataError::InvalidTracking { line_number: 1, .. }));
}

#[test]
fn tags_keep_empty_pieces_and_customs_are_trimmed() {
    assert_eq!(
        parse_meta_line(&line("tags: a,, b ,")).unwrap(),
        MetaLine::Tags(vec![own("a"), own(""), own("b"), own("")])
    );
    assert_eq!(parse_meta_line(&line("tags:")).unwrap(), MetaLine::Tags(vec![own("")]));
    assert_eq!(
        parse_meta_line(&line("  titles: x \u{3000}")).unwrap(),
        MetaLine::Custom(own("titles: x"))
    );
}
