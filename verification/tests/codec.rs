use rust_sfu_iroh::error::{MediaFault, SfuError};
use rust_sfu_iroh::media::codec::{
    AnyCodec, Codec, CodecFactory, CodecParameters, CodecType, OpusCodec, VP9Codec,
};

fn pairs(v: &[(&str, &str)]) -> Vec<(String, String)> {
    v.iter().map(|(a, b)| (a.to_string(), b.to_string())).collect()
}

#[test]
fn names_and_kinds() {
    assert_eq!(CodecType::Opus.name(), "opus");
    assert_eq!(CodecType::VP9.name(), "VP9");
    assert_eq!(CodecType::H264.name(), "H264");
    assert_eq!(CodecType::AV1.name(), "AV1");
    assert!(CodecType::Opus.is_audio() && !CodecType::Opus.is_video());
    for c in [CodecType::VP9, CodecType::H264, CodecType::AV1] {
        assert!(c.is_video() && !c.is_audio());
    }
}

#[test]
fn from_name_ignores_case() {
    assert_eq!(CodecType::from_name("OPUS"), Some(CodecType::Opus));
    assert_eq!(CodecType::from_name("opus"), Some(CodecType::Opus));
    assert_eq!(CodecType::from_name("Vp9"), Some(CodecType::VP9));
    assert_eq!(CodecType::from_name("H264"), Some(CodecType::H264));
    assert_eq!(CodecType::from_name("av1"), Some(CodecType::AV1));
    assert_eq!(CodecType::from_name("vp8"), None);
    assert_eq!(CodecType::from_name(""), None);
    assert_eq!(CodecType::from_lowercase_name(&"OPUS".to_string()), None);
}

#[test]
fn default_codecs() {
    assert_eq!(
        OpusCodec::new(),
        OpusCodec { sample_rate: 48000, channels: 2, use_inband_fec: true, use_dtx: true }
    );
    assert_eq!(VP9Codec::new(), VP9Codec { profile_id: 0, simulcast: true });
    assert_eq!(OpusCodec::with_params(8000, 1, false, true).sample_rate, 8000);
    assert_eq!(VP9Codec::with_params(2, false).profile_id, 2);
    assert_eq!(CodecFactory::create_codec(CodecType::Opus), Ok(AnyCodec::Opus(OpusCodec::new())));
    assert_eq!(CodecFactory::create_codec(CodecType::VP9), Ok(AnyCodec::VP9(VP9Codec::new())));
    assert_eq!(
        CodecFactory::create_codec(CodecType::H264),
        Err(SfuError::Media(MediaFault::UnsupportedCodec))
    );
    assert_eq!(CodecFactory::create_codec(CodecType::VP9).unwrap().codec_type(), CodecType::VP9);
}

#[test]
fn codecs_from_parameters() {
    let r = CodecFactory::create_codec_with_params(
        "Opus",
        &pairs(&[("rate", "16000"), ("channels", "1"), ("useinbandfec", "0"), ("usedtx", "1")]),
    );
    assert_eq!(
        r,
        Ok(AnyCodec::Opus(OpusCodec {
            sample_rate: 16000,
            channels: 1,
            use_inband_fec: false,
            use_dtx: true
        }))
    );
    let r = CodecFactory::create_codec_with_params(
        "opus",
        &pairs(&[("rate", "fast"), ("channels", "300"), ("usedtx", "yes")]),
    );
    assert_eq!(
        r,
        Ok(AnyCodec::Opus(OpusCodec {
            sample_rate: 48000,
            channels: 2,
            use_inband_fec: true,
            use_dtx: false
        }))
    );
    let r = CodecFactory::create_codec_with_params("VP9", &pairs(&[("profile-id", "2"), ("simulcast", "0")]));
    assert_eq!(r, Ok(AnyCodec::VP9(VP9Codec { profile_id: 2, simulcast: false })));
    let r = CodecFactory::create_codec_with_params("vp9", &pairs(&[]));
    assert_eq!(r, Ok(AnyCodec::VP9(VP9Codec { profile_id: 0, simulcast: true })));
    assert_eq!(
        CodecFactory::create_codec_with_params("av1", &pairs(&[])),
        Err(SfuError::Media(MediaFault::UnsupportedCodec))
    );
    assert_eq!(
        CodecFactory::create_codec_with_params("mp3", &pairs(&[])),
        Err(SfuError::Media(MediaFault::UnknownCodec))
    );
}

#[test]
fn first_parameter_of_a_name_counts() {
    let p = CodecFactory::read_parameters(&pairs(&[("rate", "8000"), ("rate", "16000")]));
    assert_eq!(p.rate, Some(8000));
    assert_eq!(p.channels, None);
    assert_eq!(p.simulcast, None);
}

#[test]
fn compatibility() {
    let opus = OpusCodec::new();
    assert_eq!(opus.codec_type(), CodecType::Opus);
    assert!(opus.is_compatible_with(CodecType::Opus, &OpusCodec::new().parameters()));
    assert!(!opus.is_compatible_with(CodecType::Opus, &OpusCodec::with_params(8000, 2, true, true).parameters()));
    assert!(!opus.is_compatible_with(CodecType::Opus, &OpusCodec::with_params(48000, 1, true, true).parameters()));
    assert!(opus.is_compatible_with(CodecType::Opus, &OpusCodec::with_params(48000, 2, false, false).parameters()));
    assert!(!opus.is_compatible_with(CodecType::VP9, &OpusCodec::new().parameters()));
    let none = CodecParameters {
        rate: None,
        channels: None,
        use_inband_fec: None,
        use_dtx: None,
        profile_id: None,
        simulcast: None,
    };
    assert!(opus.is_compatible_with(CodecType::Opus, &none));
    let vp9 = VP9Codec::new();
    assert_eq!(vp9.codec_type(), CodecType::VP9);
    assert!(vp9.is_compatible_with(CodecType::VP9, &none));
    assert!(vp9.is_compatible_with(CodecType::VP9, &VP9Codec::with_params(0, false).parameters()));
    assert!(!vp9.is_compatible_with(CodecType::VP9, &VP9Codec::with_params(1, true).parameters()));
    assert!(!vp9.is_compatible_with(CodecType::Opus, &none));
}
