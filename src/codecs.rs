//! Encoder configuration: which framing and which serializer a sink uses.
use vstd::prelude::*;

verus! {

/// Options for the character delimited encoder.
#[derive(Clone, Copy, Debug, PartialEq, Eq, Structural)]
pub struct CharacterDelimitedEncoderOptions {
    /// The ASCII (7-bit) character that delimits byte sequences.
    pub delimiter: u8,
}

/// Framing configuration.
#[derive(Clone, Copy, Debug, PartialEq, Eq, Structural)]
pub enum FramingConfig {
    /// Event data is not delimited at all.
    Bytes,
    /// Event data is delimited by a single ASCII (7-bit) character.
    CharacterDelimited {
        /// Options for the character delimited encoder.
        character_delimited: CharacterDelimitedEncoderOptions,
    },
    /// Event data is prefixed with its length in bytes.
    LengthDelimited,
    /// Event data is delimited by a newline (LF) character.
    NewlineDelimited,
}

/// An encoder that adds no frame boundary.
#[derive(Clone, Copy, Debug, PartialEq, Eq, Structural)]
pub struct BytesEncoder;

/// An encoder that ends each frame with a delimiter byte.
#[derive(Clone, Copy, Debug, PartialEq, Eq, Structural)]
pub struct CharacterDelimitedEncoder {
    pub delimiter: u8,
}

/// An encoder that prefixes each frame with its length.
#[derive(Clone, Copy, Debug, PartialEq, Eq, Structural)]
pub struct LengthDelimitedEncoder;

/// An encoder that ends each frame with a newline.
#[derive(Clone, Copy, Debug, PartialEq, Eq, Structural)]
pub struct NewlineDelimitedEncoder;

/// Produce a byte stream from byte frames.
#[derive(Clone, Copy, Debug, PartialEq, Eq, Structural)]
pub enum Framer {
    /// Uses a `BytesEncoder` for framing.
    Bytes(BytesEncoder),
    /// Uses a `CharacterDelimitedEncoder` for framing.
    CharacterDelimited(CharacterDelimitedEncoder),
    /// Uses a `LengthDelimitedEncoder` for framing.
    LengthDelimited(LengthDelimitedEncoder),
    /// Uses a `NewlineDelimitedEncoder` for framing.
    NewlineDelimited(NewlineDelimitedEncoder),
}

impl FramingConfig {
    /// Build the `Framer` from this configuration.
    pub fn build(&self) -> (r: Framer)
        ensures
            r == match *self {
                FramingConfig::Bytes => Framer::Bytes(BytesEncoder),
                FramingConfig::CharacterDelimited { character_delimited } => Framer::CharacterDelimited(
                    CharacterDelimitedEncoder { delimiter: character_delimited.delimiter },
                ),
                FramingConfig::LengthDelimited => Framer::LengthDelimited(LengthDelimitedEncoder),
                FramingConfig::NewlineDelimited => Framer::NewlineDelimited(NewlineDelimitedEncoder),
            },
    {
        match self {
            FramingConfig::Bytes => Framer::Bytes(BytesEncoder),
            FramingConfig::CharacterDelimited { character_delimited } => Framer::CharacterDelimited(
                CharacterDelimitedEncoder { delimiter: character_delimited.delimiter },
            ),
            FramingConfig::LengthDelimited => Framer::LengthDelimited(LengthDelimitedEncoder),
            FramingConfig::NewlineDelimited => Framer::NewlineDelimited(NewlineDelimitedEncoder),
        }
    }
}

/// Serializer configuration: the codec used to encode events.
#[derive(Clone, Copy, Debug, PartialEq, Eq, Structural)]
pub enum SerializerConfig {
    /// Encodes an event as an Apache Avro message.
    Avro,
    /// Encodes an event as a GELF message.
    Gelf,
    /// Encodes an event as JSON.
    Json,
    /// Encodes an event as a logfmt message.
    Logfmt,
    /// Encodes an event in the native Protocol Buffers format.
    Native,
    /// Encodes an event in the native JSON format.
    NativeJson,
    /// Uses the `message` field of a log event as it is.
    RawMessage,
    /// Plain text encoding.
    Text,
    /// Syslog encoding.
    Syslog,
}

/// Serialize structured events as bytes: which serializer is in use.
#[derive(Clone, Copy, Debug, PartialEq, Eq, Structural)]
pub enum Serializer {
    Avro,
    Gelf,
    Json,
    Logfmt,
    Native,
    NativeJson,
    RawMessage,
    Text,
    Syslog,
}

impl SerializerConfig {
    /// Return an appropriate default framer for the given serializer: length
    /// delimited for Avro and native, newline delimited for the others.
    pub fn default_stream_framing(&self) -> (r: FramingConfig)
        ensures
            r == match *self {
                SerializerConfig::Avro | SerializerConfig::Native => FramingConfig::LengthDelimited,
                _ => FramingConfig::NewlineDelimited,
            },
    {
        match self {
            SerializerConfig::Avro | SerializerConfig::Native => FramingConfig::LengthDelimited,
            SerializerConfig::Gelf
            | SerializerConfig::Json
            | SerializerConfig::Logfmt
            | SerializerConfig::NativeJson
            | SerializerConfig::RawMessage
            | SerializerConfig::Text
            | SerializerConfig::Syslog => FramingConfig::NewlineDelimited,
        }
    }
}

impl Serializer {
    /// Check if the serializer supports encoding an event to JSON: only the
    /// JSON, native JSON and GELF serializers do.
    pub fn supports_json(&self) -> (r: bool)
        ensures
            r == (*self == Serializer::Json || *self == Serializer::NativeJson || *self
                == Serializer::Gelf),
    {
        match self {
            Serializer::Json | Serializer::NativeJson | Serializer::Gelf => true,
            Serializer::Avro
            | Serializer::Logfmt
            | Serializer::Text
            | Serializer::Native
            | Serializer::RawMessage
            | Serializer::Syslog => false,
        }
    }
}

} // verus!
