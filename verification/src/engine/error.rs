use vstd::prelude::*;

verus! {

/// The failures the engine reports. Each variant carries the message of the
/// failure it stands for.
#[derive(Debug, PartialEq, Eq)]
pub enum UdoError {
    Io(String),
    Arrow(String),
    Parquet(String),
    JsonParse(String),
    Config(String),
    Pipeline(String),
    AiModel(String),
    Unknown(String),
}

impl UdoError {
    /// The text carried by the error, without the prefix of its kind.
    pub open spec fn detail(self) -> Seq<char> {
        match self {
            UdoError::Io(m) => m@,
            UdoError::Arrow(m) => m@,
            UdoError::Parquet(m) => m@,
            UdoError::JsonParse(m) => m@,
            UdoError::Config(m) => m@,
            UdoError::Pipeline(m) => m@,
            UdoError::AiModel(m) => m@,
            UdoError::Unknown(m) => m@,
        }
    }

    /// The prefix that names the error's kind in its rendered form.
    pub open spec fn prefix(self) -> Seq<char> {
        match self {
            UdoError::Io(_) => "IO Error: "@,
            UdoError::Arrow(_) => "Arrow Error: "@,
            UdoError::Parquet(_) => "Parquet Error: "@,
            UdoError::JsonParse(_) => "JSON Parsing Error: "@,
            UdoError::Config(_) => "Configuration Error: "@,
            UdoError::Pipeline(_) => "Pipeline Error: "@,
            UdoError::AiModel(_) => "AI Model Error: "@,
            UdoError::Unknown(_) => "Unknown Error: "@,
        }
    }

    /// Renders the error as its kind's prefix followed by its message.
    pub fn message(&self) -> (out: String)
        ensures
            out@ == self.prefix() + self.detail(),
    {
        match self {
            UdoError::Io(m) => String::from_str("IO Error: ").concat(m.as_str()),
            UdoError::Arrow(m) => String::from_str("Arrow Error: ").concat(m.as_str()),
            UdoError::Parquet(m) => String::from_str("Parquet Error: ").concat(m.as_str()),
            UdoError::JsonParse(m) => String::from_str("JSON Parsing Error: ").concat(m.as_str()),
            UdoError::Config(m) => String::from_str("Configuration Error: ").concat(m.as_str()),
            UdoError::Pipeline(m) => String::from_str("Pipeline Error: ").concat(m.as_str()),
            UdoError::AiModel(m) => String::from_str("AI Model Error: ").concat(m.as_str()),
            UdoError::Unknown(m) => String::from_str("Unknown Error: ").concat(m.as_str()),
        }
    }
}

} // verus!
