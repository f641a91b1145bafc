//! Frames, the records of the log, and their retention policies.
use vstd::prelude::*;
use crate::text::{parse_u64, parse_u64_spec, same_text};

verus! {

/// One record of the log.
///
/// `id` is the 128-bit time-ordered identifier that the command loop assigns;
/// `hash` is the textual integrity digest of a payload held in the
/// content-addressed store; `meta` is JSON text that the store never reads.
#[derive(Debug, PartialEq, Eq)]
pub struct Frame {
    pub id: u128,
    pub topic: String,
    pub hash: Option<String>,
    pub meta: Option<String>,
}

impl Clone for Frame {
    fn clone(&self) -> (r: Frame)
        ensures
            r == *self,
    {
        let hash = match &self.hash {
            Some(h) => Some(h.clone()),
            None => None,
        };
        let meta = match &self.meta {
            Some(m) => Some(m.clone()),
            None => None,
        };
        Frame { id: self.id, topic: self.topic.clone(), hash, meta }
    }
}

/// The topic of the marker that separates replayed history from live frames.
pub open spec fn threshold_topic() -> Seq<char> {
    "xs.threshold"@
}

/// The topic of the periodic heartbeat frames.
pub open spec fn pulse_topic() -> Seq<char> {
    "xs.pulse"@
}

/// A synthetic frame: the given identifier and topic, no payload, no metadata.
pub open spec fn is_signal(f: Frame, id: u128, topic: Seq<char>) -> bool {
    f.id == id && f.topic@ == topic && f.hash is None && f.meta is None
}

impl Frame {
    /// The marker frame `xs.threshold` carrying the identifier `id`.
    pub fn threshold(id: u128) -> (r: Frame)
        ensures
            is_signal(r, id, threshold_topic()),
    {
        Frame { id, topic: "xs.threshold".to_owned(), hash: None, meta: None }
    }

    /// The heartbeat frame `xs.pulse` carrying the identifier `id`.
    pub fn pulse(id: u128) -> (r: Frame)
        ensures
            is_signal(r, id, pulse_topic()),
    {
        Frame { id, topic: "xs.pulse".to_owned(), hash: None, meta: None }
    }
}

/// The retention policy attached to a frame when it is appended.
#[derive(Clone, Copy, Debug, PartialEq, Eq, Structural)]
pub enum TTL {
    /// Kept until removed by hand.
    Forever,
    /// Delivered to live subscribers only, never written to the log.
    Ephemeral,
    /// Eligible for removal once this many seconds have passed.
    Time(u64),
    /// Only the most recent this many frames of the topic are kept.
    Head(u64),
}

/// Why a textual request option was rejected.
#[derive(Clone, Copy, Debug, PartialEq, Eq, Structural)]
pub enum OptionError {
    /// The query string is not form-encoded text.
    Malformed,
    /// `follow` holds none of the accepted forms.
    InvalidFollow,
    /// `last-id` is not a 25-digit base-36 identifier.
    InvalidLastId,
    /// A recognised field occurs twice.
    DuplicateField,
    /// A retention token is none of the accepted forms.
    InvalidTtl,
}

/// The retention policy that the token `s` names: `forever`, `ephemeral`,
/// `time:<seconds>` or `head:<n>`.
pub open spec fn ttl_spec(s: Seq<char>) -> Result<TTL, OptionError> {
    if s == "forever"@ {
        Ok(TTL::Forever)
    } else if s == "ephemeral"@ {
        Ok(TTL::Ephemeral)
    } else if s.len() >= 5 && s.subrange(0, 5) == "time:"@
        && parse_u64_spec(s.subrange(5, s.len() as int)) is Some {
        Ok(TTL::Time(parse_u64_spec(s.subrange(5, s.len() as int))->Some_0))
    } else if s.len() >= 5 && s.subrange(0, 5) == "head:"@
        && parse_u64_spec(s.subrange(5, s.len() as int)) is Some {
        Ok(TTL::Head(parse_u64_spec(s.subrange(5, s.len() as int))->Some_0))
    } else {
        Err(OptionError::InvalidTtl)
    }
}

impl TTL {
    /// Reads a retention token.
    pub fn parse(s: &str) -> (r: Result<TTL, OptionError>)
        ensures
            r == ttl_spec(s@),
    {
        if same_text(s, "forever") {
            return Ok(TTL::Forever);
        }
        if same_text(s, "ephemeral") {
            return Ok(TTL::Ephemeral);
        }
        let n = s.unicode_len();
        if n < 5 {
            return Err(OptionError::InvalidTtl);
        }
        let head = s.substring_char(0, 5);
        let rest = s.substring_char(5, n);
        let is_time = same_text(head, "time:");
        let is_head = same_text(head, "head:");
        if !is_time && !is_head {
            return Err(OptionError::InvalidTtl);
        }
        match parse_u64(rest) {
            Some(v) => {
                if is_time {
                    Ok(TTL::Time(v))
                } else {
                    Ok(TTL::Head(v))
                }
            },
            None => Err(OptionError::InvalidTtl),
        }
    }

    /// Whether a frame with this policy is written to the log.
    pub fn is_persisted(&self) -> (r: bool)
        ensures
            r == !(*self is Ephemeral),
    {
        match self {
            TTL::Ephemeral => false,
            _ => true,
        }
    }
}

} // verus!
