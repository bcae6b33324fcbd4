use plural_kitty::parser::{parse_html, parse_plain_text, Cmd, CmdPart, EventRoom, ParseError};

use CmdPart::{EventId, Quote, RoomAlias, RoomId, UserId, Word};
use EventRoom::Id;

#[test]
fn test1() {
    let input = "test <a href=\"https://matrix.to/#/#emily-template-test-room:the-apothecary.club\">#emily-template-test-room:the-apothecary.club</a> <a href=\"https://matrix.to/#/@emily-dev:the-apothecary.club\">emily-dev</a> &quot;some quoted text&quot;  https://matrix.to/#/!JmUZDmdizioytNxcBx:the-apothecary.club/$_DY2gc3mXsj2nvSEUkxpOVPxAIDerLv9xcoaDgAk9Og?via=the-apothecary.club&amp;via=matrix.org";
    let expected = vec![
        Word("test".to_owned()),
        RoomAlias("#emily-template-test-room:the-apothecary.club".to_owned()),
        UserId("@emily-dev:the-apothecary.club".to_owned()),
        Quote,
        Word("some".to_owned()),
        Word("quoted".to_owned()),
        Word("text".to_owned()),
        Quote,
        EventId(
            Id("!JmUZDmdizioytNxcBx:the-apothecary.club".to_owned()),
            "$_DY2gc3mXsj2nvSEUkxpOVPxAIDerLv9xcoaDgAk9Og".to_owned(),
        ),
    ];
    let cmd_parts = parse_html(input).unwrap();
    assert_eq!(cmd_parts, expected);
}

#[test]
fn test2() {
    let input = "<a href=\"https://matrix.to/#/%23heavy-topics%3Athe-apothecary.club\">#heavy-topics:the-apothecary.club</a> test";
    let expected = vec![
        RoomAlias("#heavy-topics:the-apothecary.club".to_owned()),
        Word("test".to_owned()),
    ];
    let cmd_parts = parse_html(input).unwrap();
    assert_eq!(cmd_parts, expected);
}

#[test]
fn test3() {
    let input = "<mx-reply><blockquote><a href=\"https://matrix.to/#/!JmUZDmdizioytNxcBx:the-apothecary.club/$fOt_uoyD9gzlperifUtfY3-tjBgUw4i3sCXTx7fNkGc?via=the-apothecary.club&via=matrix.org\">In reply to</a> <a href=\"https://matrix.to/#/@sasha:the-apothecary.club\">@sasha:the-apothecary.club</a><br><a href=\"https://matrix.to/#/%23heavy-topics%3Athe-apothecary.club\">#heavy-topics:the-apothecary.club</a> test</blockquote></mx-reply>and what does this do";
    let expected = vec![
        Word("and".to_owned()),
        Word("what".to_owned()),
        Word("does".to_owned()),
        Word("this".to_owned()),
        Word("do".to_owned()),
    ];
    let cmd_parts = parse_html(input).unwrap();
    assert_eq!(cmd_parts, expected);
}

#[test]
fn test4() {
    let input = "<a href=\"https://matrix.to/#/%23heavy-topics%3Athe-apothecary.club\">#heavy-topics:the-apothecary.club</a> <a href=\"https://matrix.to/#/%21JmUZDmdizioytNxcBx%3Athe-apothecary.club/%2448Po10iXIYTSiXXkbtagpqpXlpQVsXba2ypFSjkKnsM?via=the-apothecary.club&amp;via=matrix.org\">https://matrix.to/#/%21JmUZDmdizioytNxcBx%3Athe-apothecary.club/%2448Po10iXIYTSiXXkbtagpqpXlpQVsXba2ypFSjkKnsM?via=the-apothecary.club&amp;via=matrix.org</a> meowww&quot;&quot;&quot;hello";
    let expected = vec![
        RoomAlias("#heavy-topics:the-apothecary.club".to_owned()),
        EventId(
            Id("!JmUZDmdizioytNxcBx:the-apothecary.club".to_owned()),
            "$48Po10iXIYTSiXXkbtagpqpXlpQVsXba2ypFSjkKnsM".to_owned(),
        ),
        Word("meowww".to_owned()),
        Quote,
        Quote,
        Quote,
        Word("hello".to_owned()),
    ];
    let cmd_parts = parse_html(input).unwrap();
    assert_eq!(cmd_parts, expected);
}

#[test]
fn plain_text_words_and_ids() {
    let parts = parse_plain_text("hello @alice:example.org !room:example.org #alias:example.org");
    assert_eq!(
        parts,
        vec![
            Word("hello".to_owned()),
            UserId("@alice:example.org".to_owned()),
            RoomId("!room:example.org".to_owned()),
            RoomAlias("#alias:example.org".to_owned()),
        ]
    );
}

#[test]
fn plain_text_skips_empty_words() {
    let parts = parse_plain_text("  a   b  ");
    assert_eq!(parts, vec![Word("a".to_owned()), Word("b".to_owned())]);
    assert_eq!(parse_plain_text(""), Vec::<CmdPart>::new());
}

#[test]
fn entity_decoding_feeds_quote_split() {
    // If the entity decoder handed its input back unchanged, the word would
    // stay one plain token instead of a quoted run.
    let parts = parse_plain_text("&quot;hi&quot;");
    assert_eq!(
        parts,
        vec![Quote, Word("hi".to_owned()), Quote]
    );
}

#[test]
fn url_word_with_percent_encoding() {
    // If the percent decoder handed its input back unchanged, the sigil
    // would stay `%23` and no alias token could come out.
    let parts = parse_plain_text("https://matrix.to/#/%23a:ex.org");
    assert_eq!(parts, vec![RoomAlias("#a:ex.org".to_owned())]);
}

#[test]
fn invalid_ids_stay_words() {
    let parts = parse_plain_text("@nodomain !x #y $z:");
    assert_eq!(
        parts,
        vec![
            Word("@nodomain".to_owned()),
            Word("!x".to_owned()),
            Word("#y".to_owned()),
            Word("$z:".to_owned()),
        ]
    );
}

#[test]
fn cmd_cursor_pop_and_peek() {
    let mut cmd = Cmd::parse("!member new Red", None).unwrap();
    assert_eq!(cmd.len(), 3);
    assert!(!cmd.is_empty());
    assert_eq!(cmd.peek(), Some(Word("!member".to_owned())));
    assert_eq!(cmd.pop(), Some(Word("!member".to_owned())));
    assert_eq!(cmd.pop_word(), Some("new".to_owned()));
    assert_eq!(cmd.pop_word(), Some("Red".to_owned()));
    assert_eq!(cmd.pop(), None);
    assert!(cmd.is_empty());
}

#[test]
fn cmd_pop_number() {
    let mut cmd = Cmd::parse("42 x", None).unwrap();
    assert_eq!(cmd.pop_number(), Some(42));
    assert_eq!(cmd.pop_number(), None);
    let mut signed = Cmd::parse("+5", None).unwrap();
    assert_eq!(signed.pop_number(), Some(5));
    let mut big = Cmd::parse("99999999999999999999999", None).unwrap();
    assert_eq!(big.pop_number(), None);
}

#[test]
fn cmd_pop_room_and_user() {
    let mut cmd = Cmd::parse("!r:ex.org #a:ex.org @u:ex.org", None).unwrap();
    assert_eq!(cmd.pop_room_id(), Some(EventRoom::Id("!r:ex.org".to_owned())));
    assert_eq!(cmd.pop_room_id_or_alias(), Some("#a:ex.org".to_owned()));
    assert_eq!(cmd.pop_user_id(), Some("@u:ex.org".to_owned()));
}

#[test]
fn cmd_pop_quoted_string() {
    let mut cmd = Cmd::parse("&quot;two words&quot; tail", None).unwrap();
    assert_eq!(cmd.pop_quoted_string(), Some("two words".to_owned()));
    assert_eq!(cmd.pop_word(), Some("tail".to_owned()));

    // On a plain token the rendering is reported without advancing.
    let mut plain = Cmd::parse("alpha beta", None).unwrap();
    assert_eq!(plain.pop_quoted_string(), Some("alpha".to_owned()));
    assert_eq!(plain.pop_word(), Some("alpha".to_owned()));
}

#[test]
fn cmd_into_string_joins_remaining() {
    let mut cmd = Cmd::parse("!m Red displayname Red Dragon", None).unwrap();
    cmd.pop_word();
    cmd.pop_word();
    cmd.pop_word();
    assert_eq!(cmd.pop_remaining_into_string(), Some("Red Dragon".to_owned()));
    let mut spent = Cmd::parse("x", None).unwrap();
    spent.pop_word();
    assert_eq!(spent.pop_remaining_into_string(), None);
}

#[test]
fn cmd_as_slice_shows_rest() {
    let mut cmd = Cmd::parse("a b", None).unwrap();
    cmd.pop_word();
    assert_eq!(cmd.as_slice(), &[Word("b".to_owned())]);
}

#[test]
fn invalid_markup_is_a_parse_error() {
    assert_eq!(parse_html("<div></div><body></body>"), Err(ParseError::InvalidHtml));
    assert!(Cmd::parse("x", Some("<div></div><html></html>")).is_err());
}
