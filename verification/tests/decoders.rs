use subtools::file_encoding::UTF8_BOM;
use subtools::matroska::{
    DecoderError, SrtWriter, SubtitleLineDecoder, VobSubDecoder, WebvttWriter,
};
use subtools::time::TimeSpan;

fn span(start: i64, end: i64) -> TimeSpan {
    TimeSpan::new(start, end).unwrap()
}

fn with_bom(text: &str) -> Vec<u8> {
    let mut bytes = UTF8_BOM.to_vec();
    bytes.extend_from_slice(text.as_bytes());
    bytes
}

#[test]
fn srt_writer_starts_with_the_byte_order_mark() {
    let writer = SrtWriter::new(Vec::new());
    assert_eq!(writer.as_bytes(), &[0xEF, 0xBB, 0xBF]);
    assert_eq!(writer.last_line_index(), 0);
}

#[test]
fn srt_writer_keeps_what_the_writer_held() {
    let writer = SrtWriter::new(b"abc".to_vec());
    assert_eq!(writer.into_inner(), vec![b'a', b'b', b'c', 0xEF, 0xBB, 0xBF]);
}

#[test]
fn srt_block_is_rendered_exactly() {
    let mut writer = SrtWriter::new(Vec::new());
    writer.push_sub_line(span(1000, 3000), b"Hello").unwrap();
    assert_eq!(writer.as_bytes(), with_bom("1\n00:00:01,000 --> 00:00:03,000\nHello\n\n"));
}

#[test]
fn srt_counter_goes_up_by_one_per_line() {
    let mut writer = SrtWriter::new(Vec::new());
    let mut expected = String::new();
    for n in 1..=12u32 {
        writer.push_sub_line(span(0, 1), b"x").unwrap();
        assert_eq!(writer.last_line_index(), n);
        expected.push_str(&format!("{n}\n00:00:00,000 --> 00:00:00,001\nx\n\n"));
    }
    assert_eq!(writer.into_inner(), with_bom(&expected));
}

#[test]
fn srt_clock_splits_hours_minutes_seconds_milliseconds() {
    let mut writer = SrtWriter::new(Vec::new());
    // 1 h 2 min 3 s 4 ms, and 12 h 34 min 56 s 789 ms
    writer.push_sub_line(span(3_723_004, 45_296_789), b"t").unwrap();
    assert_eq!(writer.as_bytes(), with_bom("1\n01:02:03,004 --> 12:34:56,789\nt\n\n"));
}

#[test]
fn srt_clock_takes_more_than_two_digits_for_long_hours() {
    let mut writer = SrtWriter::new(Vec::new());
    writer.push_sub_line(span(359_999_999, 360_000_000), b"t").unwrap();
    assert_eq!(writer.as_bytes(), with_bom("1\n99:59:59,999 --> 100:00:00,000\nt\n\n"));
}

#[test]
fn srt_clock_of_the_largest_instant() {
    let ms = i64::MAX;
    let mut writer = SrtWriter::new(Vec::new());
    writer.push_sub_line(span(ms - 1, ms), b"t").unwrap();
    assert_eq!(
        writer.as_bytes(),
        with_bom("1\n2562047788015:12:55,806 --> 2562047788015:12:55,807\nt\n\n")
    );
}

#[test]
fn text_is_judged_as_utf8_is_defined() {
    let refused: [&[u8]; 8] = [
        &[0xC0, 0x80],             // overlong encoding of U+0000
        &[0xE0, 0x80, 0x80],       // overlong, three bytes
        &[0xED, 0xA0, 0x80],       // surrogate U+D800
        &[0xED, 0xBF, 0xBF],       // surrogate U+DFFF
        &[0xF4, 0x90, 0x80, 0x80], // beyond U+10FFFF
        &[0xF8, 0x88, 0x80, 0x80, 0x80], // five bytes
        &[0xE2, 0x82],             // cut short
        &[0x80],                   // continuation byte alone
    ];
    for payload in refused {
        let mut writer = SrtWriter::new(Vec::new());
        assert_eq!(writer.push_sub_line(span(0, 1), payload), Err(DecoderError::InvalidUtf8));
        assert_eq!(writer.last_line_index(), 0);
    }
    let taken: [&[u8]; 6] = [
        &[0x00],
        &[0x7F],
        &[0xC2, 0x80],             // U+0080
        &[0xED, 0x9F, 0xBF],       // U+D7FF
        &[0xEE, 0x80, 0x80],       // U+E000
        &[0xF4, 0x8F, 0xBF, 0xBF], // U+10FFFF
    ];
    for payload in taken {
        let mut writer = WebvttWriter::new(Vec::new(), None).unwrap();
        assert_eq!(writer.push_sub_line(span(0, 1), payload), Ok(()));
        let mut expected = b"WEBVTT\n\n00:00:00.000 --> 00:00:00.001\n".to_vec();
        expected.extend_from_slice(payload);
        expected.extend_from_slice(b"\n\n");
        assert_eq!(writer.as_bytes(), expected);
    }
}

#[test]
fn srt_text_keeps_its_bytes() {
    let mut writer = SrtWriter::new(Vec::new());
    let text = "Été – <i>naïve</i>\nsecond line";
    writer.push_sub_line(span(5, 6), text.as_bytes()).unwrap();
    assert_eq!(
        writer.as_bytes(),
        with_bom("1\n00:00:00,005 --> 00:00:00,006\nÉté – <i>naïve</i>\nsecond line\n\n")
    );
}

#[test]
fn srt_writer_refuses_bad_utf8_and_stays_as_it_was() {
    let mut writer = SrtWriter::new(Vec::new());
    writer.push_sub_line(span(0, 1), b"ok").unwrap();
    let before = writer.as_bytes().to_vec();
    assert_eq!(writer.push_sub_line(span(1, 2), &[0x48, 0xFF, 0x49]), Err(DecoderError::InvalidUtf8));
    assert_eq!(writer.push_sub_line(span(1, 2), &[0xC3]), Err(DecoderError::InvalidUtf8));
    assert_eq!(writer.as_bytes(), before);
    assert_eq!(writer.last_line_index(), 1);
    writer.push_sub_line(span(2, 3), b"next").unwrap();
    assert_eq!(writer.last_line_index(), 2);
}

#[test]
fn srt_empty_text_gives_an_empty_line() {
    let mut writer = SrtWriter::new(Vec::new());
    writer.push_sub_line(span(0, 0), b"").unwrap();
    assert_eq!(writer.as_bytes(), with_bom("1\n00:00:00,000 --> 00:00:00,000\n\n\n"));
}

#[test]
fn webvtt_writer_starts_with_the_signature() {
    let writer = WebvttWriter::new(Vec::new(), None).unwrap();
    assert_eq!(writer.as_bytes(), b"WEBVTT\n\n");
}

#[test]
fn webvtt_writer_copies_the_header_block() {
    let header = b"STYLE\n::cue { color: lime }\n";
    let writer = WebvttWriter::new(Vec::new(), Some(header)).unwrap();
    assert_eq!(writer.as_bytes(), b"WEBVTT\n\nSTYLE\n::cue { color: lime }\n");
}

#[test]
fn webvtt_header_is_written_byte_for_byte() {
    let headers: [&[u8]; 4] =
        [b"STYLE\n::cue { color: red }\n", b"", b"NOTE no line end", "Région\n\n".as_bytes()];
    for header in headers {
        let mut writer = WebvttWriter::new(Vec::new(), Some(header)).unwrap();
        let mut expected = b"WEBVTT\n\n".to_vec();
        expected.extend_from_slice(header);
        assert_eq!(writer.as_bytes(), expected);
        writer.push_sub_line(span(0, 1), b"cue").unwrap();
        expected.extend_from_slice(b"00:00:00.000 --> 00:00:00.001\ncue\n\n");
        assert_eq!(writer.as_bytes(), expected);
    }
}

#[test]
fn webvtt_writer_keeps_what_the_writer_held() {
    let writer = WebvttWriter::new(b"x".to_vec(), Some(b"h")).unwrap();
    assert_eq!(writer.into_inner(), b"xWEBVTT\n\nh".to_vec());
}

#[test]
fn webvtt_writer_refuses_a_header_that_is_not_utf8() {
    assert_eq!(
        WebvttWriter::new(Vec::new(), Some(&[0xFF, 0xFE])).unwrap_err(),
        DecoderError::InvalidUtf8
    );
}

#[test]
fn webvtt_cue_is_rendered_exactly() {
    let mut writer = WebvttWriter::new(Vec::new(), None).unwrap();
    writer.push_sub_line(span(1000, 3000), b"Hello").unwrap();
    writer.push_sub_line(span(3_723_004, 45_296_789), "Wörld".as_bytes()).unwrap();
    assert_eq!(
        writer.as_bytes(),
        "WEBVTT\n\n00:00:01.000 --> 00:00:03.000\nHello\n\n01:02:03.004 --> 12:34:56.789\nWörld\n\n"
            .as_bytes()
    );
}

#[test]
fn webvtt_writer_refuses_bad_utf8_and_stays_as_it_was() {
    let mut writer = WebvttWriter::new(Vec::new(), None).unwrap();
    assert_eq!(writer.push_sub_line(span(0, 1), &[0x80]), Err(DecoderError::InvalidUtf8));
    assert_eq!(writer.as_bytes(), b"WEBVTT\n\n");
}

#[test]
fn vobsub_decoder_reads_the_index_as_text() {
    let decoder = VobSubDecoder::new(b"size: 720x576\npalette: 000000\n").unwrap();
    assert_eq!(decoder.index(), "size: 720x576\npalette: 000000\n");
    assert!(decoder.pictures().is_empty());
}

#[test]
fn vobsub_decoder_refuses_an_index_that_is_not_utf8() {
    assert_eq!(VobSubDecoder::new(&[0x73, 0xFF]).unwrap_err(), DecoderError::InvalidUtf8);
}

#[test]
fn vobsub_decoder_keeps_every_subpicture_in_order() {
    let mut decoder = VobSubDecoder::new(b"idx").unwrap();
    decoder.push_sub_line(span(10, 20), &[0x00, 0xFF, 0x80]).unwrap();
    decoder.push_sub_line(span(30, 45), &[]).unwrap();
    let pictures = decoder.pictures();
    assert_eq!(pictures.len(), 2);
    assert_eq!(pictures[0].time.start(), 10);
    assert_eq!(pictures[0].time.end(), 20);
    assert_eq!(pictures[0].data, vec![0x00, 0xFF, 0x80]);
    assert_eq!(pictures[1].time.start(), 30);
    assert_eq!(pictures[1].time.end(), 45);
    assert!(pictures[1].data.is_empty());
    assert_eq!(decoder.index(), "idx");
}
