use subtools::matroska::{CodecId, CodecIdFromError};

#[test]
fn every_identifier_resolves_to_its_codec() {
    assert_eq!(CodecId::try_from("S_VOBSUB").unwrap(), CodecId::VobSub);
    assert_eq!(CodecId::try_from("S_HDMV/PGS").unwrap(), CodecId::Pgs);
    assert_eq!(CodecId::try_from("S_TEXT/UTF8").unwrap(), CodecId::SubRip);
    assert_eq!(CodecId::try_from("D_WEBVTT/SUBTITLES").unwrap(), CodecId::WebVTT);
    assert_eq!(CodecId::try_from("S_TEXT/ASS").unwrap(), CodecId::Ass);
}

#[test]
fn every_codec_names_its_identifier() {
    assert_eq!(CodecId::VobSub.id_str(), "S_VOBSUB");
    assert_eq!(CodecId::Pgs.id_str(), "S_HDMV/PGS");
    assert_eq!(CodecId::SubRip.id_str(), "S_TEXT/UTF8");
    assert_eq!(CodecId::WebVTT.id_str(), "D_WEBVTT/SUBTITLES");
    assert_eq!(CodecId::Ass.id_str(), "S_TEXT/ASS");
}

#[test]
fn naming_then_resolving_gives_the_codec_back() {
    let all = [CodecId::VobSub, CodecId::Pgs, CodecId::SubRip, CodecId::WebVTT, CodecId::Ass];
    for codec in all {
        assert_eq!(CodecId::try_from(codec.id_str()).unwrap(), codec);
    }
}

#[test]
fn unknown_identifier_is_refused_and_carried() {
    match CodecId::try_from("S_TEXT/SSA") {
        Err(CodecIdFromError::CodecIdNotManaged(id)) => assert_eq!(id, "S_TEXT/SSA"),
        Ok(codec) => panic!("resolved to {codec:?}"),
    }
}

#[test]
fn identifier_match_is_exact() {
    assert!(CodecId::try_from("s_vobsub").is_err());
    assert!(CodecId::try_from("S_VOBSUB ").is_err());
    assert!(CodecId::try_from("S_TEXT/UTF").is_err());
    assert!(CodecId::try_from("S_TEXT/UTF88").is_err());
    assert!(CodecId::try_from("").is_err());
    assert!(CodecId::try_from("A_AAC").is_err());
}

#[test]
fn resolution_is_repeatable() {
    assert_eq!(CodecId::try_from("S_HDMV/PGS").unwrap(), CodecId::try_from("S_HDMV/PGS").unwrap());
    assert!(CodecId::try_from("V_VP9").is_err());
    assert!(CodecId::try_from("V_VP9").is_err());
}
