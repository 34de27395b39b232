//! The error type returned by the library's fallible operations.
use vstd::prelude::*;

use crate::json::JsonValue;
use crate::text::{append_chars, nat_decimal, u64_decimal};

verus! {

/// Errors of the application core. Each variant carries the human-readable
/// message that the user interface shows.
#[derive(Debug, Clone, PartialEq, Eq)]
pub enum AppError {
    Ssh(String),
    Sftp { message: String, code: u32 },
    Agent(String),
    Llm(String),
    Config(String),
    HostKeyMismatch {
        host: String,
        port: u16,
        stored_algorithm: String,
        stored_fingerprint: String,
        presented_algorithm: String,
        presented_fingerprint: String,
    },
    HostKeyVerification(String),
    Update(String),
    Network(String),
    Other(String),
    /// The user aborted a running operation.
    Cancelled(String),
}

impl AppError {
    /// The stable `kind` tag under which the error is reported to the
    /// frontend.
    pub fn kind(&self) -> (k: &'static str)
        ensures
            k@ == app_error_kind(*self),
    {
        match self {
            AppError::Ssh(_) => "Ssh",
            AppError::Sftp { .. } => "Sftp",
            AppError::Agent(_) => "Agent",
            AppError::Llm(_) => "Llm",
            AppError::Config(_) => "Config",
            AppError::HostKeyMismatch { .. } => "HostKeyMismatch",
            AppError::HostKeyVerification(_) => "HostKeyVerification",
            AppError::Update(_) => "Update",
            AppError::Network(_) => "Network",
            AppError::Other(_) => "Other",
            AppError::Cancelled(_) => "Cancelled",
        }
    }
}

impl AppError {
    /// The message shown to the user: the variant's prefix followed by what
    /// it carries (see [`app_error_message`]).
    pub fn message(&self) -> (m: String)
        ensures
            m@ == app_error_message(*self),
    {
        match self {
            AppError::Ssh(s) => prefixed("SSH error: ", s),
            AppError::Sftp { message, code } => {
                let mut m = String::from_str("SFTP error (code ");
                append_chars(&mut m, &u64_decimal(*code as u64));
                m.append("): ");
                m.append(message.as_str());
                m
            },
            AppError::Agent(s) => prefixed("Agent error: ", s),
            AppError::Llm(s) => prefixed("LLM error: ", s),
            AppError::Config(s) => prefixed("Config error: ", s),
            AppError::HostKeyMismatch {
                host,
                port,
                stored_algorithm,
                stored_fingerprint,
                presented_algorithm,
                presented_fingerprint,
            } => {
                let mut m = String::from_str("Host key mismatch for ");
                m.append(host.as_str());
                m.append(":");
                append_chars(&mut m, &u64_decimal(*port as u64));
                m.append(" (stored ");
                m.append(stored_algorithm.as_str());
                m.append(" ");
                m.append(stored_fingerprint.as_str());
                m.append(", presented ");
                m.append(presented_algorithm.as_str());
                m.append(" ");
                m.append(presented_fingerprint.as_str());
                m.append(")");
                m
            },
            AppError::HostKeyVerification(s) => prefixed("Host key verification failed: ", s),
            AppError::Update(s) => prefixed("Update error: ", s),
            AppError::Network(s) => prefixed("Network error: ", s),
            AppError::Other(s) => s.clone(),
            AppError::Cancelled(s) => s.clone(),
        }
    }

    /// The structured payload reported beside the kind and the message: the
    /// status code of an SFTP error, both keys of a host key mismatch,
    /// nothing for the other variants (see [`app_error_data`]).
    pub fn data(&self) -> (d: Option<JsonValue>)
        ensures
            json_option_shape(d) == app_error_data(*self),
    {
        match self {
            AppError::Sftp { code, .. } => {
                let mut members: Vec<(String, JsonValue)> = Vec::new();
                members.push((String::from_str("code"), JsonValue::Number(Some(*code as u64))));
                Some(JsonValue::Object(members))
            },
            AppError::HostKeyMismatch {
                host,
                port,
                stored_algorithm,
                stored_fingerprint,
                presented_algorithm,
                presented_fingerprint,
            } => {
                let mut members: Vec<(String, JsonValue)> = Vec::new();
                members.push((String::from_str("host"), JsonValue::Str(host.clone())));
                members.push((String::from_str("port"), JsonValue::Number(Some(*port as u64))));
                members.push(
                    (String::from_str("storedAlgorithm"), JsonValue::Str(stored_algorithm.clone())),
                );
                members.push(
                    (
                        String::from_str("storedFingerprint"),
                        JsonValue::Str(stored_fingerprint.clone()),
                    ),
                );
                members.push(
                    (
                        String::from_str("presentedAlgorithm"),
                        JsonValue::Str(presented_algorithm.clone()),
                    ),
                );
                members.push(
                    (
                        String::from_str("presentedFingerprint"),
                        JsonValue::Str(presented_fingerprint.clone()),
                    ),
                );
                Some(JsonValue::Object(members))
            },
            _ => None,
        }
    }
}

fn prefixed(prefix: &str, s: &String) -> (m: String)
    ensures
        m@ == prefix@ + s@,
{
    let mut m = String::from_str(prefix);
    m.append(s.as_str());
    m
}

/// The message of each variant.
pub open spec fn app_error_message(e: AppError) -> Seq<char> {
    match e {
        AppError::Ssh(s) => "SSH error: "@ + s@,
        AppError::Sftp { message, code } => "SFTP error (code "@ + nat_decimal(code as nat)
            + "): "@ + message@,
        AppError::Agent(s) => "Agent error: "@ + s@,
        AppError::Llm(s) => "LLM error: "@ + s@,
        AppError::Config(s) => "Config error: "@ + s@,
        AppError::HostKeyMismatch {
            host,
            port,
            stored_algorithm,
            stored_fingerprint,
            presented_algorithm,
            presented_fingerprint,
        } => "Host key mismatch for "@ + host@ + ":"@ + nat_decimal(port as nat) + " (stored "@
            + stored_algorithm@ + " "@ + stored_fingerprint@ + ", presented "@
            + presented_algorithm@ + " "@ + presented_fingerprint@ + ")"@,
        AppError::HostKeyVerification(s) => "Host key verification failed: "@ + s@,
        AppError::Update(s) => "Update error: "@ + s@,
        AppError::Network(s) => "Network error: "@ + s@,
        AppError::Other(s) => s@,
        AppError::Cancelled(s) => s@,
    }
}

/// A JSON value seen as a plain value: an integer, a string, or anything
/// else.
pub enum JsonShape {
    Num(u64),
    Text(Seq<char>),
    Other,
}

/// The payload of each variant as `(key, value)` pairs.
pub open spec fn app_error_data(e: AppError) -> Option<Seq<(Seq<char>, JsonShape)>> {
    match e {
        AppError::Sftp { code, .. } => Some(seq![("code"@, JsonShape::Num(code as u64))]),
        AppError::HostKeyMismatch {
            host,
            port,
            stored_algorithm,
            stored_fingerprint,
            presented_algorithm,
            presented_fingerprint,
        } => Some(
            seq![
                ("host"@, JsonShape::Text(host@)),
                ("port"@, JsonShape::Num(port as u64)),
                ("storedAlgorithm"@, JsonShape::Text(stored_algorithm@)),
                ("storedFingerprint"@, JsonShape::Text(stored_fingerprint@)),
                ("presentedAlgorithm"@, JsonShape::Text(presented_algorithm@)),
                ("presentedFingerprint"@, JsonShape::Text(presented_fingerprint@)),
            ],
        ),
        _ => None,
    }
}

/// The shape of a JSON value.
pub open spec fn json_leaf_shape(v: JsonValue) -> JsonShape {
    match v {
        JsonValue::Number(Some(n)) => JsonShape::Num(n),
        JsonValue::Str(s) => JsonShape::Text(s@),
        _ => JsonShape::Other,
    }
}

/// An optional object read as its members' `(key, shape)` pairs.
pub open spec fn json_option_shape(d: Option<JsonValue>) -> Option<Seq<(Seq<char>, JsonShape)>> {
    match d {
        Some(JsonValue::Object(members)) => Some(
            members@.map_values(|m: (String, JsonValue)| (m.0@, json_leaf_shape(m.1))),
        ),
        _ => None,
    }
}

/// The `kind` tag of each variant.
pub open spec fn app_error_kind(e: AppError) -> Seq<char> {
    match e {
        AppError::Ssh(_) => "Ssh"@,
        AppError::Sftp { .. } => "Sftp"@,
        AppError::Agent(_) => "Agent"@,
        AppError::Llm(_) => "Llm"@,
        AppError::Config(_) => "Config"@,
        AppError::HostKeyMismatch { .. } => "HostKeyMismatch"@,
        AppError::HostKeyVerification(_) => "HostKeyVerification"@,
        AppError::Update(_) => "Update"@,
        AppError::Network(_) => "Network"@,
        AppError::Other(_) => "Other"@,
        AppError::Cancelled(_) => "Cancelled"@,
    }
}

} // verus!
