use detect_exceptions::codecs::{
    BytesEncoder, CharacterDelimitedEncoder, CharacterDelimitedEncoderOptions, Framer,
    FramingConfig, LengthDelimitedEncoder, NewlineDelimitedEncoder, Serializer, SerializerConfig,
};

#[test]
fn framing_config_builds_its_framer() {
    assert_eq!(FramingConfig::Bytes.build(), Framer::Bytes(BytesEncoder));
    assert_eq!(
        FramingConfig::CharacterDelimited {
            character_delimited: CharacterDelimitedEncoderOptions { delimiter: b',' }
        }
        .build(),
        Framer::CharacterDelimited(CharacterDelimitedEncoder { delimiter: b',' })
    );
    assert_eq!(FramingConfig::LengthDelimited.build(), Framer::LengthDelimited(LengthDelimitedEncoder));
    assert_eq!(FramingConfig::NewlineDelimited.build(), Framer::NewlineDelimited(NewlineDelimitedEncoder));
}

#[test]
fn default_stream_framing_by_codec() {
    assert_eq!(SerializerConfig::Avro.default_stream_framing(), FramingConfig::LengthDelimited);
    assert_eq!(SerializerConfig::Native.default_stream_framing(), FramingConfig::LengthDelimited);
    for c in [
        SerializerConfig::Gelf,
        SerializerConfig::Json,
        SerializerConfig::Logfmt,
        SerializerConfig::NativeJson,
        SerializerConfig::RawMessage,
        SerializerConfig::Text,
        SerializerConfig::Syslog,
    ] {
        assert_eq!(c.default_stream_framing(), FramingConfig::NewlineDelimited);
    }
}

#[test]
fn json_support_by_serializer() {
    assert!(Serializer::Json.supports_json());
    assert!(Serializer::NativeJson.supports_json());
    assert!(Serializer::Gelf.supports_json());
    for s in [
        Serializer::Avro,
        Serializer::Logfmt,
        Serializer::Text,
        Serializer::Native,
        Serializer::RawMessage,
        Serializer::Syslog,
    ] {
        assert!(!s.supports_json());
    }
}
