use auth_api::watch::{
    classify_trade_message, extract_custom_label, extract_label_with_delimiter, extract_number,
    extract_timestamp, get_chat_type, new_lines_start, parse_trade_entry,
    split_trait_sentences, strip_timestamp_prefix, PendingGrangerSession,
};

#[test]
fn timestamp_prefixes_strip() {
    assert_eq!(strip_timestamp_prefix("[10:22:33] You smile at Bella."), "You smile at Bella.");
    assert_eq!(strip_timestamp_prefix("no timestamp here"), "no timestamp here");
    assert_eq!(strip_timestamp_prefix("[broken"), "[broken");
}

#[test]
fn timestamps_extract() {
    assert_eq!(extract_timestamp("[10:22:33] hello").as_deref(), Some("10:22:33"));
    assert_eq!(extract_timestamp("hello"), None);
    assert_eq!(extract_timestamp("[open forever"), None);
}

#[test]
fn numbers_collect_every_digit() {
    assert_eq!(extract_number("It has 25 trait points."), Some(25));
    assert_eq!(extract_number("no digits"), None);
    assert_eq!(extract_number("a1b2c3"), Some(123));
    assert_eq!(extract_number("99999999999999999999"), None);
}

#[test]
fn trade_keywords_classify() {
    assert_eq!(classify_trade_message("WTS rare pickaxe 5s").as_deref(), Some("WTS"));
    assert_eq!(classify_trade_message("wtb sleep powder").as_deref(), Some("WTB"));
    assert_eq!(classify_trade_message("WTT my horse for yours").as_deref(), Some("WTS"));
    assert_eq!(classify_trade_message("pc supreme saddle?").as_deref(), Some("PC"));
    assert_eq!(classify_trade_message("[WTS] bulk bricks").as_deref(), Some("WTS"));
    assert_eq!(classify_trade_message("WTB/WTS ores").as_deref(), Some("WTB"));
    assert_eq!(classify_trade_message("just chatting"), None);
    assert_eq!(classify_trade_message("   "), None);
}

#[test]
fn private_messages_classify_as_pm() {
    assert_eq!(classify_trade_message("@Alice hello").as_deref(), Some("PM"));
    assert_eq!(classify_trade_message("<Bob> @Alice got it").as_deref(), Some("PM"));
}

#[test]
fn sender_and_channel_tags_are_stepped_over() {
    assert_eq!(classify_trade_message("<Trader> WTS anchors").as_deref(), Some("WTS"));
    assert_eq!(classify_trade_message("(Freedom) <Trader> pc corn").as_deref(), Some("PC"));
}

#[test]
fn trade_entries_parse_with_timestamp() {
    let entry = parse_trade_entry("[09:01:02] <Dan> WTS iron lumps").unwrap();
    assert_eq!(entry.category, "WTS");
    assert_eq!(entry.timestamp, "09:01:02");
    assert_eq!(entry.message, "<Dan> WTS iron lumps");

    let bare = parse_trade_entry("wtb dirt").unwrap();
    assert_eq!(bare.timestamp, "");
    assert_eq!(bare.category, "WTB");

    assert!(parse_trade_entry("").is_none());
    assert!(parse_trade_entry("[09:01:02] idle chatter").is_none());
}

#[test]
fn chat_type_reads_the_file_name() {
    assert_eq!(get_chat_type("C:\\logs\\_Event.2024-05.txt"), "Event");
    assert_eq!(get_chat_type("/home/p/logs/_Skills.2024-05.txt"), "Skills");
    assert_eq!(get_chat_type("C:\\logs\\GL-Freedom.2024-05.txt"), "GL-Freedom");
    assert_eq!(get_chat_type("C:\\logs\\CA_HELP.2024-05.txt"), "CA-Help");
    assert_eq!(get_chat_type("C:\\logs\\Trade.2024-05.txt"), "Trade");
    assert_eq!(get_chat_type("C:\\logs\\PM__Alice.txt"), "PM");
    assert_eq!(get_chat_type("C:\\logs\\Village.txt"), "unknown");
}

#[test]
fn trait_sentences_split_out_traits() {
    let traits = split_trait_sentences(
        "It has a strong body. It has lightning movement. It has been bred in captivity. \
         She has 25 trait points.",
    );
    assert_eq!(traits, vec!["a strong body", "lightning movement"]);
}

#[test]
fn labels_extract_between_delimiters() {
    let (label, cleaned) = extract_label_with_delimiter("aged fat 'Star' Bella", '\'').unwrap();
    assert_eq!(label, "Star");
    assert_eq!(cleaned, "aged fat Bella");
    assert!(extract_label_with_delimiter("no quotes here", '\'').is_none());
}

#[test]
fn custom_labels_prefer_single_quotes() {
    let (label, cleaned) = extract_custom_label("aged horse 'Swift' Bella");
    assert_eq!(label.as_deref(), Some("Swift"));
    assert_eq!(cleaned, "aged horse Bella");

    let (label, cleaned) = extract_custom_label("aged \"Tank\" bison Bo");
    assert_eq!(label.as_deref(), Some("Tank"));
    assert_eq!(cleaned, "aged bison Bo");

    let (label, cleaned) = extract_custom_label("  plain text  ");
    assert_eq!(label, None);
    assert_eq!(cleaned, "plain text");

    let (label, _) = extract_custom_label("empty '' label");
    assert_eq!(label, None);
}

#[test]
fn a_smile_line_opens_a_session() {
    let session =
        PendingGrangerSession::from_smile_line("[10:00:00] You smile at the aged fat Bella.")
            .unwrap();
    assert_eq!(session.timestamp, "10:00:00");
    assert_eq!(session.name.as_deref(), Some("Bella"));
    assert_eq!(session.age.as_deref(), Some("aged"));
    assert_eq!(session.descriptors, vec!["fat"]);
    assert!(session.colour.is_none());
    assert!(!session.is_ready());
}

#[test]
fn other_lines_open_no_session() {
    assert!(PendingGrangerSession::from_smile_line("[10:00:00] You wave at Bella.").is_none());
    assert!(PendingGrangerSession::from_smile_line("You smile at.").is_none());
}

#[test]
fn a_session_absorbs_examine_lines_and_closes_on_colour() {
    let mut session =
        PendingGrangerSession::from_smile_line("[10:00:00] You smile at the aged fat Bella.")
            .unwrap();
    session.absorb_line("[10:00:01] Horses like this one are bred for speed.");
    session.absorb_line("[10:00:01] It is branded by and belongs to the settlement of Harbor.");
    session.absorb_line("[10:00:01] It is being taken care of by Dan.");
    session.absorb_line("[10:00:02] It has a strong body. It has lightning movement.");
    session.absorb_line("[10:00:02] It has A STRONG BODY.");
    session.absorb_line("[10:00:02] She has 25 trait points.");
    assert!(!session.is_ready());
    session.absorb_line("[10:00:03] Its colour is grey.");
    assert!(session.is_ready());

    assert_eq!(session.species.as_deref(), Some("Horses"));
    assert_eq!(session.settlement.as_deref(), Some("Harbor"));
    assert_eq!(session.caretaker.as_deref(), Some("Dan"));
    assert_eq!(
        session.condition.as_deref(),
        Some("It is branded by and belongs to the settlement of Harbor.")
    );
    assert_eq!(session.traits, vec!["a strong body", "lightning movement"]);
    assert_eq!(session.trait_points, Some(25));
    assert_eq!(session.colour.as_deref(), Some("grey"));

    let animal = session.into_animal().unwrap();
    assert_eq!(animal.id, "Bella");
    assert_eq!(animal.name, "Bella");
    assert_eq!(animal.updated_at, "10:00:00");
    assert_eq!(animal.colour.as_deref(), Some("grey"));
}

#[test]
fn a_nameless_session_yields_no_animal() {
    let session = PendingGrangerSession {
        timestamp: String::new(),
        name: None,
        descriptors: Vec::new(),
        age: None,
        custom_label: None,
        species: None,
        settlement: None,
        caretaker: None,
        condition: None,
        traits: Vec::new(),
        trait_points: None,
        colour: None,
        raw_lines: Vec::new(),
    };
    assert!(session.into_animal().is_none());
}

#[test]
fn whitespace_is_classed_as_the_platform_classes_it() {
    assert_eq!(auth_api::watch::trim("\u{a0} hello \u{3000}"), "hello");
    assert_eq!(classify_trade_message("\u{2003}wts\u{a0}fine rugs").as_deref(), Some("WTS"));
}

#[test]
fn alphanumerics_are_classed_as_the_platform_classes_them() {
    assert_eq!(classify_trade_message("«WTS» rugs").as_deref(), Some("WTS"));
    assert_eq!(classify_trade_message("éWTS something"), None);
}

#[test]
fn reading_resumes_after_the_seen_lines() {
    assert_eq!(new_lines_start(Some(10), 12), 10);
    assert_eq!(new_lines_start(Some(12), 12), 12);
    assert_eq!(new_lines_start(Some(20), 12), 11);
    assert_eq!(new_lines_start(None, 12), 11);
    assert_eq!(new_lines_start(None, 0), 0);
}
