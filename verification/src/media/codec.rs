//! Codec descriptors.
use vstd::prelude::*;
use crate::error::{MediaFault, SfuError};

verus! {

/// The codecs the unit knows by name.
#[derive(Clone, Copy, Debug, PartialEq, Eq, Structural)]
pub enum CodecType {
    /// Opus audio.
    Opus,
    /// VP9 video.
    VP9,
    /// H.264 video.
    H264,
    /// AV1 video.
    AV1,
}

impl CodecType {
    /// Whether the codec carries audio.
    pub open spec fn spec_is_audio(&self) -> bool {
        *self == CodecType::Opus
    }

    /// Whether the codec carries audio: only Opus does.
    #[verifier::when_used_as_spec(spec_is_audio)]
    pub fn is_audio(&self) -> (r: bool)
        ensures
            r == self.spec_is_audio(),
    {
        matches!(self, CodecType::Opus)
    }

    /// Whether the codec carries video.
    pub open spec fn spec_is_video(&self) -> bool {
        *self != CodecType::Opus
    }

    /// Whether the codec carries video: every codec but Opus does.
    #[verifier::when_used_as_spec(spec_is_video)]
    pub fn is_video(&self) -> (r: bool)
        ensures
            r == self.spec_is_video(),
    {
        matches!(self, CodecType::VP9 | CodecType::H264 | CodecType::AV1)
    }

    /// The codec's name as signaling writes it.
    pub open spec fn spec_name(&self) -> Seq<char> {
        match *self {
            CodecType::Opus => "opus"@,
            CodecType::VP9 => "VP9"@,
            CodecType::H264 => "H264"@,
            CodecType::AV1 => "AV1"@,
        }
    }

    /// The codec's name as signaling writes it.
    pub fn name(&self) -> (n: &'static str)
        ensures
            n@ == self.spec_name(),
    {
        match self {
            CodecType::Opus => "opus",
            CodecType::VP9 => "VP9",
            CodecType::H264 => "H264",
            CodecType::AV1 => "AV1",
        }
    }

    /// The codec that a name in lower case stands for.
    pub open spec fn of_lowercase(lower: Seq<char>) -> Option<CodecType> {
        if lower == "opus"@ {
            Some(CodecType::Opus)
        } else if lower == "vp9"@ {
            Some(CodecType::VP9)
        } else if lower == "h264"@ {
            Some(CodecType::H264)
        } else if lower == "av1"@ {
            Some(CodecType::AV1)
        } else {
            None
        }
    }

    /// The codec that a name in lower case stands for.
    pub fn from_lowercase_name(lower: &String) -> (r: Option<CodecType>)
        ensures
            r == Self::of_lowercase(lower@),
    {
        if same_text(lower, "opus") {
            Some(CodecType::Opus)
        } else if same_text(lower, "vp9") {
            Some(CodecType::VP9)
        } else if same_text(lower, "h264") {
            Some(CodecType::H264)
        } else if same_text(lower, "av1") {
            Some(CodecType::AV1)
        } else {
            None
        }
    }

    /// The codec that a name stands for, whatever its case.
    pub fn from_name(name: &str) -> (r: Option<CodecType>)
        ensures
            r == Self::of_lowercase(lowercase_of(name@)),
    {
        let lower = to_lowercase(name);
        Self::from_lowercase_name(&lower)
    }
}

/// What `str::to_lowercase` makes of a text.
pub uninterp spec fn lowercase_of(s: Seq<char>) -> Seq<char>;

/// What `str::parse::<u32>` reads from a text, if it reads a number.
pub uninterp spec fn parsed_u32(s: Seq<char>) -> Option<u32>;

/// What `str::parse::<u8>` reads from a text, if it reads a number.
pub uninterp spec fn parsed_u8(s: Seq<char>) -> Option<u8>;

/// `str::to_lowercase`: the text in lower case, a function of the text
/// alone.
#[verifier::external_body]
fn to_lowercase(s: &str) -> (r: String)
    ensures
        r@ == lowercase_of(s@),
{
    s.to_lowercase()
}

/// `str::parse::<u32>`: the number that the text spells, a function of the
/// text alone; the parse error carries nothing that is used.
#[verifier::external_body]
fn parse_u32(s: &str) -> (r: Option<u32>)
    ensures
        r == parsed_u32(s@),
{
    match s.parse::<u32>() {
        Ok(v) => Some(v),
        Err(_) => None,
    }
}

/// `str::parse::<u8>`: the number that the text spells, a function of the
/// text alone; the parse error carries nothing that is used.
#[verifier::external_body]
fn parse_u8(s: &str) -> (r: Option<u8>)
    ensures
        r == parsed_u8(s@),
{
    match s.parse::<u8>() {
        Ok(v) => Some(v),
        Err(_) => None,
    }
}

fn same_text(a: &String, b: &str) -> (r: bool)
    ensures
        r == (a@ == b@),
{
    let owned = b.to_owned();
    *a == owned
}

/// The parameters of a codec as values. A parameter that was not given is
/// `None`.
#[derive(Clone, Copy, Debug, PartialEq, Eq, Structural)]
pub struct CodecParameters {
    pub rate: Option<u32>,
    pub channels: Option<u8>,
    pub use_inband_fec: Option<bool>,
    pub use_dtx: Option<bool>,
    pub profile_id: Option<u8>,
    pub simulcast: Option<bool>,
}

/// What every codec can tell of itself.
pub trait Codec {
    spec fn spec_codec_type(&self) -> CodecType;

    spec fn spec_parameters(&self) -> CodecParameters;

    spec fn spec_compatible(&self, other_type: CodecType, other: CodecParameters) -> bool;

    /// Which codec this is.
    fn codec_type(&self) -> (t: CodecType)
        ensures
            t == self.spec_codec_type(),
    ;

    /// The codec's parameters.
    fn parameters(&self) -> (p: CodecParameters)
        ensures
            p == self.spec_parameters(),
    ;

    /// Whether a codec of the given type and parameters can talk to this
    /// one.
    fn is_compatible_with(&self, other_type: CodecType, other: &CodecParameters) -> (r: bool)
        ensures
            r == self.spec_compatible(other_type, *other),
    ;
}

/// Opus audio.
#[derive(Clone, Copy, Debug, PartialEq, Eq, Structural)]
pub struct OpusCodec {
    pub sample_rate: u32,
    pub channels: u8,
    pub use_inband_fec: bool,
    pub use_dtx: bool,
}

impl OpusCodec {
    /// 48 kHz stereo with in-band FEC and DTX.
    pub fn new() -> (c: OpusCodec)
        ensures
            c == (OpusCodec {
                sample_rate: 48000,
                channels: 2,
                use_inband_fec: true,
                use_dtx: true,
            }),
    {
        OpusCodec { sample_rate: 48000, channels: 2, use_inband_fec: true, use_dtx: true }
    }

    /// Opus with the given parameters.
    pub fn with_params(sample_rate: u32, channels: u8, use_inband_fec: bool, use_dtx: bool) -> (c:
        OpusCodec)
        ensures
            c == (OpusCodec { sample_rate, channels, use_inband_fec, use_dtx }),
    {
        OpusCodec { sample_rate, channels, use_inband_fec, use_dtx }
    }
}

impl Codec for OpusCodec {
    open spec fn spec_codec_type(&self) -> CodecType {
        CodecType::Opus
    }

    open spec fn spec_parameters(&self) -> CodecParameters {
        CodecParameters {
            rate: Some(self.sample_rate),
            channels: Some(self.channels),
            use_inband_fec: Some(self.use_inband_fec),
            use_dtx: Some(self.use_dtx),
            profile_id: None,
            simulcast: None,
        }
    }

    /// Opus talks to Opus of the same sample rate and channel count; a
    /// parameter that the other side left out does not count against it.
    open spec fn spec_compatible(&self, other_type: CodecType, other: CodecParameters) -> bool {
        &&& other_type == CodecType::Opus
        &&& (other.rate.is_none() || other.rate == Some(self.sample_rate))
        &&& (other.channels.is_none() || other.channels == Some(self.channels))
    }

    fn codec_type(&self) -> (t: CodecType) {
        CodecType::Opus
    }

    fn parameters(&self) -> (p: CodecParameters) {
        CodecParameters {
            rate: Some(self.sample_rate),
            channels: Some(self.channels),
            use_inband_fec: Some(self.use_inband_fec),
            use_dtx: Some(self.use_dtx),
            profile_id: None,
            simulcast: None,
        }
    }

    fn is_compatible_with(&self, other_type: CodecType, other: &CodecParameters) -> (r: bool) {
        if !other_type.is_audio() {
            return false;
        }
        let rate_fits = match other.rate {
            Some(rate) => rate == self.sample_rate,
            None => true,
        };
        let channels_fit = match other.channels {
            Some(channels) => channels == self.channels,
            None => true,
        };
        rate_fits && channels_fit
    }
}

/// VP9 video.
#[derive(Clone, Copy, Debug, PartialEq, Eq, Structural)]
pub struct VP9Codec {
    pub profile_id: u8,
    pub simulcast: bool,
}

impl VP9Codec {
    /// Profile 0 with simulcast.
    pub fn new() -> (c: VP9Codec)
        ensures
            c == (VP9Codec { profile_id: 0, simulcast: true }),
    {
        VP9Codec { profile_id: 0, simulcast: true }
    }

    /// VP9 with the given parameters.
    pub fn with_params(profile_id: u8, simulcast: bool) -> (c: VP9Codec)
        ensures
            c == (VP9Codec { profile_id, simulcast }),
    {
        VP9Codec { profile_id, simulcast }
    }
}

impl Codec for VP9Codec {
    open spec fn spec_codec_type(&self) -> CodecType {
        CodecType::VP9
    }

    open spec fn spec_parameters(&self) -> CodecParameters {
        CodecParameters {
            rate: None,
            channels: None,
            use_inband_fec: None,
            use_dtx: None,
            profile_id: Some(self.profile_id),
            simulcast: Some(self.simulcast),
        }
    }

    /// VP9 talks to VP9 of the same profile; a profile that the other side
    /// left out does not count against it.
    open spec fn spec_compatible(&self, other_type: CodecType, other: CodecParameters) -> bool {
        &&& other_type == CodecType::VP9
        &&& (other.profile_id.is_none() || other.profile_id == Some(self.profile_id))
    }

    fn codec_type(&self) -> (t: CodecType) {
        CodecType::VP9
    }

    fn parameters(&self) -> (p: CodecParameters) {
        CodecParameters {
            rate: None,
            channels: None,
            use_inband_fec: None,
            use_dtx: None,
            profile_id: Some(self.profile_id),
            simulcast: Some(self.simulcast),
        }
    }

    fn is_compatible_with(&self, other_type: CodecType, other: &CodecParameters) -> (r: bool) {
        match other_type {
            CodecType::VP9 => match other.profile_id {
                Some(profile_id) => profile_id == self.profile_id,
                None => true,
            },
            _ => false,
        }
    }
}

/// A codec of one of the kinds that the unit can make.
#[derive(Clone, Copy, Debug, PartialEq, Eq, Structural)]
pub enum AnyCodec {
    Opus(OpusCodec),
    VP9(VP9Codec),
}

impl AnyCodec {
    /// Which codec this is.
    pub open spec fn spec_codec_type(&self) -> CodecType {
        match *self {
            AnyCodec::Opus(_) => CodecType::Opus,
            AnyCodec::VP9(_) => CodecType::VP9,
        }
    }

    /// Which codec this is.
    pub fn codec_type(&self) -> (t: CodecType)
        ensures
            t == self.spec_codec_type(),
    {
        match self {
            AnyCodec::Opus(_) => CodecType::Opus,
            AnyCodec::VP9(_) => CodecType::VP9,
        }
    }
}

/// The value of the first parameter with the given name.
pub open spec fn lookup(params: Seq<(String, String)>, name: Seq<char>) -> Option<Seq<char>>
    decreases params.len(),
{
    if params.len() == 0 {
        None
    } else if params[0].0@ == name {
        Some(params[0].1@)
    } else {
        lookup(params.skip(1), name)
    }
}

/// The parameters that a list of (name, value) texts gives: a number that
/// does not parse counts as the default of its parameter, a flag is set by
/// the text `1`.
pub open spec fn parameters_of(params: Seq<(String, String)>) -> CodecParameters {
    CodecParameters {
        rate: match lookup(params, "rate"@) {
            Some(v) => Some(parsed_u32(v).unwrap_or(48000)),
            None => None,
        },
        channels: match lookup(params, "channels"@) {
            Some(v) => Some(parsed_u8(v).unwrap_or(2)),
            None => None,
        },
        use_inband_fec: match lookup(params, "useinbandfec"@) {
            Some(v) => Some(v == "1"@),
            None => None,
        },
        use_dtx: match lookup(params, "usedtx"@) {
            Some(v) => Some(v == "1"@),
            None => None,
        },
        profile_id: match lookup(params, "profile-id"@) {
            Some(v) => Some(parsed_u8(v).unwrap_or(0)),
            None => None,
        },
        simulcast: match lookup(params, "simulcast"@) {
            Some(v) => Some(v == "1"@),
            None => None,
        },
    }
}

/// The codec of a type with default parameters; only Opus and VP9 can be
/// made.
pub open spec fn default_codec(codec_type: CodecType) -> Result<AnyCodec, SfuError> {
    match codec_type {
        CodecType::Opus => Ok(
            AnyCodec::Opus(
                OpusCodec { sample_rate: 48000, channels: 2, use_inband_fec: true, use_dtx: true },
            ),
        ),
        CodecType::VP9 => Ok(AnyCodec::VP9(VP9Codec { profile_id: 0, simulcast: true })),
        _ => Err(SfuError::Media(MediaFault::UnsupportedCodec)),
    }
}

/// The codec of a type, if the name gave one, with the given parameters; a
/// parameter left out takes its default.
pub open spec fn codec_of(codec_type: Option<CodecType>, p: CodecParameters) -> Result<
    AnyCodec,
    SfuError,
> {
    match codec_type {
        None => Err(SfuError::Media(MediaFault::UnknownCodec)),
        Some(CodecType::Opus) => Ok(
            AnyCodec::Opus(
                OpusCodec {
                    sample_rate: p.rate.unwrap_or(48000),
                    channels: p.channels.unwrap_or(2),
                    use_inband_fec: p.use_inband_fec.unwrap_or(true),
                    use_dtx: p.use_dtx.unwrap_or(true),
                },
            ),
        ),
        Some(CodecType::VP9) => Ok(
            AnyCodec::VP9(
                VP9Codec {
                    profile_id: p.profile_id.unwrap_or(0),
                    simulcast: p.simulcast.unwrap_or(true),
                },
            ),
        ),
        Some(_) => Err(SfuError::Media(MediaFault::UnsupportedCodec)),
    }
}

fn find_value<'a>(params: &'a Vec<(String, String)>, name: &str) -> (r: Option<&'a String>)
    ensures
        match r {
            Some(v) => lookup(params@, name@) == Some(v@),
            None => lookup(params@, name@).is_none(),
        },
{
    let mut i: usize = 0;
    assert(params@.skip(0) =~= params@);
    while i < params.len()
        invariant
            i <= params@.len(),
            lookup(params@, name@) == lookup(params@.skip(i as int), name@),
        decreases params@.len() - i,
    {
        assert(params@.skip(i as int)[0] == params@[i as int]);
        assert(params@.skip(i as int).skip(1) =~= params@.skip(i + 1));
        if same_text(&params[i].0, name) {
            return Some(&params[i].1);
        }
        i = i + 1;
    }
    None
}

/// Makes codecs.
pub struct CodecFactory {}

impl CodecFactory {
    /// The codec of a type with default parameters.
    pub fn create_codec(codec_type: CodecType) -> (r: Result<AnyCodec, SfuError>)
        ensures
            r == default_codec(codec_type),
    {
        match codec_type {
            CodecType::Opus => Ok(AnyCodec::Opus(OpusCodec::new())),
            CodecType::VP9 => Ok(AnyCodec::VP9(VP9Codec::new())),
            _ => Err(SfuError::Media(MediaFault::UnsupportedCodec)),
        }
    }

    /// The codec of a type, if there is one, with the given parameters.
    pub fn create_from_values(codec_type: Option<CodecType>, p: &CodecParameters) -> (r: Result<
        AnyCodec,
        SfuError,
    >)
        ensures
            r == codec_of(codec_type, *p),
    {
        match codec_type {
            None => Err(SfuError::Media(MediaFault::UnknownCodec)),
            Some(CodecType::Opus) => {
                let sample_rate = match p.rate {
                    Some(v) => v,
                    None => 48000,
                };
                let channels = match p.channels {
                    Some(v) => v,
                    None => 2,
                };
                let use_inband_fec = match p.use_inband_fec {
                    Some(v) => v,
                    None => true,
                };
                let use_dtx = match p.use_dtx {
                    Some(v) => v,
                    None => true,
                };
                Ok(
                    AnyCodec::Opus(
                        OpusCodec::with_params(sample_rate, channels, use_inband_fec, use_dtx),
                    ),
                )
            },
            Some(CodecType::VP9) => {
                let profile_id = match p.profile_id {
                    Some(v) => v,
                    None => 0,
                };
                let simulcast = match p.simulcast {
                    Some(v) => v,
                    None => true,
                };
                Ok(AnyCodec::VP9(VP9Codec::with_params(profile_id, simulcast)))
            },
            Some(_) => Err(SfuError::Media(MediaFault::UnsupportedCodec)),
        }
    }

    /// Reads the parameters out of a list of (name, value) texts.
    pub fn read_parameters(params: &Vec<(String, String)>) -> (p: CodecParameters)
        ensures
            p == parameters_of(params@),
    {
        let rate = match find_value(params, "rate") {
            Some(v) => Some(
                match parse_u32(v.as_str()) {
                    Some(n) => n,
                    None => 48000,
                },
            ),
            None => None,
        };
        let channels = match find_value(params, "channels") {
            Some(v) => Some(
                match parse_u8(v.as_str()) {
                    Some(n) => n,
                    None => 2,
                },
            ),
            None => None,
        };
        let use_inband_fec = match find_value(params, "useinbandfec") {
            Some(v) => Some(same_text(v, "1")),
            None => None,
        };
        let use_dtx = match find_value(params, "usedtx") {
            Some(v) => Some(same_text(v, "1")),
            None => None,
        };
        let profile_id = match find_value(params, "profile-id") {
            Some(v) => Some(
                match parse_u8(v.as_str()) {
                    Some(n) => n,
                    None => 0,
                },
            ),
            None => None,
        };
        let simulcast = match find_value(params, "simulcast") {
            Some(v) => Some(same_text(v, "1")),
            None => None,
        };
        CodecParameters { rate, channels, use_inband_fec, use_dtx, profile_id, simulcast }
    }

    /// The codec that a name and a list of (name, value) texts describe.
    pub fn create_codec_with_params(name: &str, params: &Vec<(String, String)>) -> (r: Result<
        AnyCodec,
        SfuError,
    >)
        ensures
            r == codec_of(CodecType::of_lowercase(lowercase_of(name@)), parameters_of(params@)),
    {
        let codec_type = CodecType::from_name(name);
        let p = Self::read_parameters(params);
        Self::create_from_values(codec_type, &p)
    }
}

} // verus!
