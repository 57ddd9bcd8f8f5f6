use subtools::extract::is_container_extension;
use subtools::file_encoding::{
    check_decoded_line, classify_head, convert_to_utf8, has_utf8_bom, push_decoded_line,
    sniff_bom, Bom, Conversion, DecodedLine, TextError, TextHead, DETECTION_WINDOW,
    LINE_CAPACITY, UTF8_BOM,
};
use subtools::subtitle_file::{SubtitleFile, SubtitleFileError, SubtitleFormat};
use subtools::text::{bytes_eq, push_bytes, push_decimal, str_eq};

#[test]
fn test_utf8_bom() {
    let bom_reader = &UTF8_BOM[..];
    assert!(has_utf8_bom(bom_reader).unwrap());

    let small_reader = "test".as_bytes();
    assert!(!has_utf8_bom(small_reader).unwrap());
}

#[test]
fn bom_check_needs_three_bytes() {
    assert_eq!(has_utf8_bom(&[]), Err(TextError::NotEnoughData));
    assert_eq!(has_utf8_bom(&[0xEF]), Err(TextError::NotEnoughData));
    assert_eq!(has_utf8_bom(&[0xEF, 0xBB]), Err(TextError::NotEnoughData));
}

#[test]
fn bom_check_reads_the_first_three_bytes_only() {
    assert_eq!(has_utf8_bom(&[0xEF, 0xBB, 0xBF, b'1', b'\n']), Ok(true));
    assert_eq!(has_utf8_bom(&[0xEF, 0xBB, 0xBE, 0xBF]), Ok(false));
    assert_eq!(has_utf8_bom(&[0xEE, 0xBB, 0xBF]), Ok(false));
    assert_eq!(has_utf8_bom(&[0xEF, 0xBA, 0xBF]), Ok(false));
    assert_eq!(has_utf8_bom(&[b' ', 0xEF, 0xBB, 0xBF]), Ok(false));
    assert_eq!(has_utf8_bom(&[0xFF, 0xFE, 0x00]), Ok(false));
}

#[test]
fn byte_order_mark_is_ef_bb_bf() {
    assert_eq!(UTF8_BOM, [0xEF, 0xBB, 0xBF]);
}

#[test]
fn byte_order_marks_are_sniffed() {
    assert_eq!(sniff_bom(&[0xEF, 0xBB, 0xBF]), Some(Bom::Utf8));
    assert_eq!(sniff_bom(&[0xEF, 0xBB, 0xBF, b'a']), Some(Bom::Utf8));
    assert_eq!(sniff_bom(&[0xFF, 0xFE]), Some(Bom::Utf16Le));
    assert_eq!(sniff_bom(&[0xFF, 0xFE, 0x41, 0x00]), Some(Bom::Utf16Le));
    assert_eq!(sniff_bom(&[0xFE, 0xFF]), Some(Bom::Utf16Be));
    assert_eq!(sniff_bom(&[0xFE, 0xFF, 0x00, 0x41]), Some(Bom::Utf16Be));
    assert_eq!(sniff_bom(&[0xEF, 0xBB]), None);
    assert_eq!(sniff_bom(&[0xFF]), None);
    assert_eq!(sniff_bom(&[]), None);
    assert_eq!(sniff_bom(b"1\n00:00"), None);
    assert_eq!(sniff_bom(&[0x00, 0xEF, 0xBB, 0xBF]), None);
}

#[test]
fn head_of_a_text_is_classified() {
    assert_eq!(classify_head(&[0xEF, 0xBB, 0xBF, b'1']), Ok(TextHead::MarkedUtf8));
    assert_eq!(classify_head(&[0xEF, 0xBB, 0xBF]), Ok(TextHead::MarkedUtf8));
    assert_eq!(classify_head(b"1\n00"), Ok(TextHead::Unmarked));
    assert_eq!(classify_head(&[0xE9, 0x74, 0xE9]), Ok(TextHead::Unmarked));
    assert_eq!(classify_head(&[0xFF, 0xFE, 0x31, 0x00]), Err(TextError::UnsupportedBom(Bom::Utf16Le)));
    assert_eq!(classify_head(&[0xFF, 0xFE]), Err(TextError::UnsupportedBom(Bom::Utf16Le)));
    assert_eq!(classify_head(&[0xFE, 0xFF, 0x00]), Err(TextError::UnsupportedBom(Bom::Utf16Be)));
    assert_eq!(classify_head(&[]), Err(TextError::NotEnoughData));
    assert_eq!(classify_head(b"ab"), Err(TextError::NotEnoughData));
    assert_eq!(classify_head(&[0xEF, 0xBB]), Err(TextError::NotEnoughData));
}

#[test]
fn classification_agrees_with_the_bom_check() {
    let heads: [&[u8]; 5] =
        [&[0xEF, 0xBB, 0xBF], &[0xEF, 0xBB, 0xBF, 0x31], b"abc", &[0xEF, 0xBB, 0x00], b"test"];
    for head in heads {
        assert_eq!(
            classify_head(head) == Ok(TextHead::MarkedUtf8),
            has_utf8_bom(head).unwrap()
        );
    }
}

#[test]
fn decoded_line_is_judged() {
    assert_eq!(check_decoded_line(true, 10, 10, false), Ok(()));
    assert_eq!(check_decoded_line(true, 0, 0, false), Ok(()));
    assert_eq!(check_decoded_line(false, 10, 10, false), Err(TextError::OutputFull));
    assert_eq!(check_decoded_line(false, 3, 10, true), Err(TextError::OutputFull));
    assert_eq!(check_decoded_line(true, 9, 10, false), Err(TextError::Unread));
    assert_eq!(check_decoded_line(true, 9, 10, true), Err(TextError::Unread));
    assert_eq!(check_decoded_line(true, 10, 10, true), Err(TextError::Malformed));
}

fn report(text: &str, input_empty: bool, bytes_read: usize, had_replacements: bool) -> DecodedLine {
    DecodedLine { text: text.to_string(), input_empty, bytes_read, had_replacements }
}

#[test]
fn cleanly_decoded_line_joins_the_text() {
    let mut text = b"so far".to_vec();
    assert_eq!(push_decoded_line(&mut text, 5, &report("été\n", true, 5, false)), Ok(()));
    assert_eq!(text, "so farété\n".as_bytes());
    assert_eq!(push_decoded_line(&mut text, 0, &report("", true, 0, false)), Ok(()));
    assert_eq!(text, "so farété\n".as_bytes());
}

#[test]
fn line_that_is_not_decoded_cleanly_is_refused() {
    let mut text = b"so far".to_vec();
    assert_eq!(
        push_decoded_line(&mut text, 5, &report("ét", false, 3, false)),
        Err(TextError::OutputFull)
    );
    assert_eq!(
        push_decoded_line(&mut text, 5, &report("été", true, 4, false)),
        Err(TextError::Unread)
    );
    assert_eq!(
        push_decoded_line(&mut text, 5, &report("\u{FFFD}t\u{FFFD}\n", true, 5, true)),
        Err(TextError::Malformed)
    );
    assert_eq!(text, b"so far");
}

#[test]
fn converted_text_holds_every_line_once_and_in_order() {
    // Three lines in windows-1252; the last has no line feed.
    let latin = b"premi\xE8re ligne\nDeuxi\xE8me ligne, d\xE9j\xE0\r\n\xE0 la fin";
    assert_eq!(
        convert_to_utf8(latin),
        Ok(Conversion::Converted(marked("première ligne\nDeuxième ligne, déjà\r\nà la fin")))
    );
}

#[test]
fn empty_lines_are_kept() {
    let latin = b"\n\n\xE9t\xE9\n\nfran\xE7ais\n\n";
    assert_eq!(
        convert_to_utf8(latin),
        Ok(Conversion::Converted(marked("\n\nété\n\nfrançais\n\n")))
    );
}

fn marked(text: &str) -> Vec<u8> {
    let mut bytes = UTF8_BOM.to_vec();
    bytes.extend_from_slice(text.as_bytes());
    bytes
}

#[test]
fn marked_utf8_text_is_left_alone() {
    assert_eq!(convert_to_utf8(&marked("1\n00:00:01,000 --> 00:00:02,000\nÉté\n")), Ok(Conversion::AlreadyUtf8));
    assert_eq!(convert_to_utf8(&marked("")), Ok(Conversion::AlreadyUtf8));
    assert_eq!(convert_to_utf8(&marked("plain")), Ok(Conversion::AlreadyUtf8));
}

#[test]
fn marked_text_that_is_not_utf8_is_refused() {
    let mut text = marked("caf");
    text.push(0xE9);
    assert_eq!(convert_to_utf8(&text), Err(TextError::InvalidUtf8));
}

#[test]
fn utf16_text_is_refused() {
    assert_eq!(
        convert_to_utf8(&[0xFF, 0xFE, 0x31, 0x00, 0x0A, 0x00]),
        Err(TextError::UnsupportedBom(Bom::Utf16Le))
    );
    assert_eq!(
        convert_to_utf8(&[0xFE, 0xFF, 0x00, 0x31, 0x00, 0x0A]),
        Err(TextError::UnsupportedBom(Bom::Utf16Be))
    );
}

#[test]
fn text_too_short_for_a_mark_is_refused() {
    assert_eq!(convert_to_utf8(&[]), Err(TextError::NotEnoughData));
    assert_eq!(convert_to_utf8(&[0xE9, 0x0A]), Err(TextError::NotEnoughData));
}

#[test]
fn plain_ascii_text_is_refused() {
    assert_eq!(
        convert_to_utf8(b"1\n00:00:01,000 --> 00:00:02,000\nHello\n"),
        Err(TextError::OnlyAscii)
    );
}

#[test]
fn ascii_head_decides_even_if_the_rest_is_not_ascii() {
    let mut text = vec![b'a'; DETECTION_WINDOW];
    text.extend_from_slice(&[0xE9, 0x0A]);
    assert_eq!(convert_to_utf8(&text), Err(TextError::OnlyAscii));
}

#[test]
fn unmarked_utf8_text_gets_a_mark() {
    let text = "1\n00:00:01,000 --> 00:00:02,000\nVoilà l'été français, où êtes-vous ?\n\n";
    assert_eq!(convert_to_utf8(text.as_bytes()), Ok(Conversion::Converted(marked(text))));
}

#[test]
fn latin_text_is_converted() {
    // "Voilà l'été français, où êtes-vous ?" in windows-1252, on two lines, the last without end
    let latin = b"Voil\xE0 l'\xE9t\xE9 fran\xE7ais,\r\no\xF9 \xEAtes-vous ?";
    assert_eq!(
        convert_to_utf8(latin),
        Ok(Conversion::Converted(marked("Voilà l'été français,\r\noù êtes-vous ?")))
    );
}

#[test]
fn conversion_gives_marked_utf8() {
    let latin = b"D\xE9j\xE0 vu\n\n\xC0 bient\xF4t\n";
    match convert_to_utf8(latin) {
        Ok(Conversion::Converted(text)) => {
            assert_eq!(&text[..3], &UTF8_BOM);
            assert!(std::str::from_utf8(&text[3..]).is_ok());
        }
        other => panic!("unexpected: {other:?}"),
    }
}

#[test]
fn line_beyond_the_capacity_is_refused() {
    let mut text = vec![0xE9; LINE_CAPACITY + 1];
    text.push(0x0A);
    assert_eq!(convert_to_utf8(&text), Err(TextError::OutputFull));
}

#[test]
fn bytes_malformed_in_the_guessed_encoding_are_refused() {
    // The head is valid UTF-8, so UTF-8 is the guess; the byte behind the head is not.
    let mut text = Vec::new();
    while text.len() < DETECTION_WINDOW {
        text.extend_from_slice("été\n".as_bytes());
    }
    text.extend_from_slice(&[0xFF, 0x0A]);
    assert_eq!(convert_to_utf8(&text), Err(TextError::Malformed));
}

#[test]
fn format_follows_the_extension() {
    assert_eq!(SubtitleFormat::from_extension("srt"), Some(SubtitleFormat::Srt));
    assert_eq!(SubtitleFormat::from_extension("sub"), Some(SubtitleFormat::VobSub));
    assert_eq!(SubtitleFormat::from_extension("sup"), Some(SubtitleFormat::Pgs));
    assert_eq!(SubtitleFormat::from_extension("idx"), None);
    assert_eq!(SubtitleFormat::from_extension("SRT"), None);
    assert_eq!(SubtitleFormat::from_extension(".srt"), None);
    assert_eq!(SubtitleFormat::from_extension(""), None);
    assert_eq!(SubtitleFormat::from_extension("mkv"), None);
}

#[test]
fn format_is_text_or_image() {
    assert!(SubtitleFormat::Srt.is_text());
    assert!(!SubtitleFormat::Srt.is_image());
    assert!(!SubtitleFormat::VobSub.is_text());
    assert!(SubtitleFormat::VobSub.is_image());
    assert!(!SubtitleFormat::Pgs.is_text());
    assert!(SubtitleFormat::Pgs.is_image());
}

#[test]
fn format_names_its_extension() {
    for format in [SubtitleFormat::Srt, SubtitleFormat::VobSub, SubtitleFormat::Pgs] {
        assert_eq!(SubtitleFormat::from_extension(format.extension()), Some(format));
    }
    assert_eq!(SubtitleFormat::Srt.extension(), "srt");
    assert_eq!(SubtitleFormat::VobSub.extension(), "sub");
    assert_eq!(SubtitleFormat::Pgs.extension(), "sup");
}

#[test]
fn subtitle_file_keeps_path_stem_and_format() {
    let file = SubtitleFile::new(
        "/films/movie.en.srt".to_string(),
        "movie.en".to_string(),
        SubtitleFormat::Srt,
    );
    assert_eq!(file.path(), "/films/movie.en.srt");
    assert_eq!(file.file_stem(), "movie.en");
    assert_eq!(file.format(), SubtitleFormat::Srt);
    assert!(file.is_text());
    assert!(!file.is_image());
}

#[test]
fn subtitle_file_of_an_image_format() {
    let format = SubtitleFormat::of_file(Some("sup")).unwrap();
    let file = SubtitleFile::new("/films/movie.sup".to_string(), "movie".to_string(), format);
    assert_eq!(file.format(), SubtitleFormat::Pgs);
    assert!(file.is_image());
    assert!(!file.is_text());
}

#[test]
fn format_of_a_file_follows_its_extension() {
    assert_eq!(SubtitleFormat::of_file(Some("srt")).unwrap(), SubtitleFormat::Srt);
    assert_eq!(SubtitleFormat::of_file(Some("sub")).unwrap(), SubtitleFormat::VobSub);
    assert_eq!(SubtitleFormat::of_file(Some("sup")).unwrap(), SubtitleFormat::Pgs);
}

#[test]
fn subtitle_file_needs_an_extension() {
    match SubtitleFormat::of_file(None) {
        Err(SubtitleFileError::NoExtension) => {}
        other => panic!("unexpected: {other:?}"),
    }
}

#[test]
fn subtitle_file_refuses_an_unknown_extension() {
    match SubtitleFormat::of_file(Some("mkv")) {
        Err(SubtitleFileError::UnknownExtension(ext)) => assert_eq!(ext, "mkv"),
        other => panic!("unexpected: {other:?}"),
    }
    match SubtitleFormat::of_file(Some("")) {
        Err(SubtitleFileError::UnknownExtension(ext)) => assert_eq!(ext, ""),
        other => panic!("unexpected: {other:?}"),
    }
}

#[test]
fn new_name_carries_the_word_before_the_extension() {
    let file =
        SubtitleFile::new("/films/movie.srt".to_string(), "movie".to_string(), SubtitleFormat::Srt);
    assert_eq!(file.gen_new_name("old"), "movie.old.srt");
    let file =
        SubtitleFile::new("/films/a.b.sub".to_string(), "a.b".to_string(), SubtitleFormat::VobSub);
    assert_eq!(file.gen_new_name(""), "a.b..sub");
}

#[test]
fn container_extensions_are_mkv_and_webm() {
    assert!(is_container_extension("mkv"));
    assert!(is_container_extension("webm"));
    assert!(!is_container_extension("MKV"));
    assert!(!is_container_extension("mp4"));
    assert!(!is_container_extension("srt"));
    assert!(!is_container_extension(""));
    assert!(!is_container_extension("mkv "));
}

#[test]
fn texts_are_compared_by_their_characters() {
    assert!(str_eq("", ""));
    assert!(str_eq("héllo", "héllo"));
    assert!(!str_eq("hello", "hellO"));
    assert!(!str_eq("hello", "hell"));
    assert!(bytes_eq(&[1, 2, 3], &[1, 2, 3]));
    assert!(!bytes_eq(&[1, 2, 3], &[1, 2, 4]));
    assert!(!bytes_eq(&[1, 2, 3], &[1, 2]));
    assert!(bytes_eq(&[], &[]));
}

#[test]
fn bytes_are_appended_in_order() {
    let mut out = vec![9u8];
    push_bytes(&mut out, &[1, 2, 3]);
    push_bytes(&mut out, &[]);
    push_bytes(&mut out, &[4]);
    assert_eq!(out, vec![9, 1, 2, 3, 4]);
}

#[test]
fn numbers_are_written_in_decimal() {
    for (n, text) in [
        (0u64, "0"),
        (7, "7"),
        (10, "10"),
        (109, "109"),
        (1_000_000, "1000000"),
        (u64::MAX, "18446744073709551615"),
    ] {
        let mut out = String::from("n=");
        push_decimal(&mut out, n);
        assert_eq!(out, format!("n={text}"));
    }
}
