//! Limits on presence, and the checks that apply them to requests.
#[allow(unused_imports)]
use vstd::prelude::*;
#[allow(unused_imports)]
use vstd::string::*;
#[allow(unused_imports)]
use vstd::utf8::*;

use crate::error;
use crate::error::{ErrorV, RtDbError};
use crate::json::{Json, JsonV};
use crate::pagination;
use crate::pagination::{json_to_value, rendered_len};

verus! {

/// The presence part of the server's configuration.
#[derive(Debug, Clone, Copy)]
pub struct Config {
    pub presence_enabled: bool,
    pub presence_max_state_bytes: usize,
    pub presence_max_room_size: usize,
    pub presence_max_rooms_per_conn: usize,
    pub presence_max_room_bytes: usize,
    pub presence_broadcast_interval_ms: u64,
    pub presence_update_limit_per_sec: u32,
    pub presence_max_ttl_ms: u64,
    pub presence_beat_interval_ms: u64,
    pub presence_beat_timeout_ms: u64,
}

/// Limits on presence, fixed when the server starts.
#[derive(Debug, Clone, Copy)]
pub struct PresenceConfig {
    pub enabled: bool,
    pub max_state_bytes: usize,
    pub max_room_size: usize,
    pub max_rooms_per_conn: usize,
    pub max_room_bytes: usize,
    pub broadcast_interval_ms: u64,
    pub update_limit_per_sec: u32,
    pub max_ttl_ms: u64,
    pub beat_interval_ms: u64,
    pub beat_timeout_ms: u64,
}

impl PresenceConfig {
    /// The limits that a configuration sets.
    pub fn from_config(c: &Config) -> (r: PresenceConfig)
        ensures
            r == (PresenceConfig {
                enabled: c.presence_enabled,
                max_state_bytes: c.presence_max_state_bytes,
                max_room_size: c.presence_max_room_size,
                max_rooms_per_conn: c.presence_max_rooms_per_conn,
                max_room_bytes: c.presence_max_room_bytes,
                broadcast_interval_ms: c.presence_broadcast_interval_ms,
                update_limit_per_sec: c.presence_update_limit_per_sec,
                max_ttl_ms: c.presence_max_ttl_ms,
                beat_interval_ms: c.presence_beat_interval_ms,
                beat_timeout_ms: c.presence_beat_timeout_ms,
            }),
    {
        PresenceConfig {
            enabled: c.presence_enabled,
            max_state_bytes: c.presence_max_state_bytes,
            max_room_size: c.presence_max_room_size,
            max_rooms_per_conn: c.presence_max_rooms_per_conn,
            max_room_bytes: c.presence_max_room_bytes,
            broadcast_interval_ms: c.presence_broadcast_interval_ms,
            update_limit_per_sec: c.presence_update_limit_per_sec,
            max_ttl_ms: c.presence_max_ttl_ms,
            beat_interval_ms: c.presence_beat_interval_ms,
            beat_timeout_ms: c.presence_beat_timeout_ms,
        }
    }
}

/// What is wrong with the name of a room, if anything: a name has at least one
/// byte and at most as many as the limit.
pub open spec fn room_fault(room: Seq<char>, cfg: PresenceConfig) -> Option<ErrorV> {
    if room.len() == 0 || encode_utf8(room).len() > cfg.max_room_bytes {
        Some(error::bad("invalid room name"@))
    } else {
        None
    }
}

/// Rejects a room name that is empty or too long.
pub fn validate_room(room: &str, cfg: &PresenceConfig) -> (r: Result<(), RtDbError>)
    ensures
        match room_fault(room@, *cfg) {
            Some(e) => r matches Err(x) && x@ == e,
            None => r is Ok,
        },
{
    if room.unicode_len() == 0 || room.as_bytes().len() > cfg.max_room_bytes {
        Err(RtDbError::bad_request("invalid room name".to_owned()))
    } else {
        Ok(())
    }
}

/// What is wrong with the size of a state, if anything. A state that has no
/// size counts as the largest one.
pub open spec fn size_fault(size: Option<usize>, cfg: PresenceConfig) -> Option<ErrorV> {
    let bytes = match size {
        Some(n) => n,
        None => usize::MAX,
    };
    if bytes > cfg.max_state_bytes {
        Some(error::bad("presence state too large"@))
    } else {
        None
    }
}

/// Rejects a size over the limit.
pub fn validate_size(size: Option<usize>, cfg: &PresenceConfig) -> (r: Result<(), RtDbError>)
    ensures
        match size_fault(size, *cfg) {
            Some(e) => r matches Err(x) && x@ == e,
            None => r is Ok,
        },
{
    let bytes: usize = match size {
        Some(n) => n,
        None => usize::MAX,
    };
    if bytes > cfg.max_state_bytes {
        Err(RtDbError::bad_request("presence state too large".to_owned()))
    } else {
        Ok(())
    }
}

/// What is wrong with a state, if anything: its JSON text is too long.
pub open spec fn state_fault(state: JsonV, cfg: PresenceConfig) -> Option<ErrorV> {
    size_fault(pagination::text_len(pagination::rebuilt(state)), cfg)
}

/// Rejects a state whose JSON text is over the limit.
pub fn validate_state(state: &Json, cfg: &PresenceConfig) -> (r: Result<(), RtDbError>)
    ensures
        match state_fault(state@, *cfg) {
            Some(e) => r matches Err(x) && x@ == e,
            None => r is Ok,
        },
{
    validate_size(rendered_len(&json_to_value(state)), cfg)
}

/// What is wrong with a time to live, if anything. None is ever shortened.
pub open spec fn ttl_fault(ttl_ms: Option<u64>, cfg: PresenceConfig) -> Option<ErrorV> {
    match ttl_ms {
        Some(t) => if t == 0 {
            Some(error::bad("ttl must be positive"@))
        } else if t > cfg.max_ttl_ms {
            Some(error::bad("ttl exceeds maximum"@))
        } else {
            None
        },
        None => None,
    }
}

/// Rejects a time to live of zero or over the limit.
pub fn validate_ttl(ttl_ms: Option<u64>, cfg: &PresenceConfig) -> (r: Result<(), RtDbError>)
    ensures
        match ttl_fault(ttl_ms, *cfg) {
            Some(e) => r matches Err(x) && x@ == e,
            None => r is Ok,
        },
{
    if let Some(t) = ttl_ms {
        if t == 0 {
            return Err(RtDbError::bad_request("ttl must be positive".to_owned()));
        }
        if t > cfg.max_ttl_ms {
            return Err(RtDbError::bad_request("ttl exceeds maximum".to_owned()));
        }
    }
    Ok(())
}

} // verus!
