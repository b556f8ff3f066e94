//! Release channels of Chrome.

use vstd::prelude::*;

use super::error::VersionError;
use crate::text::str_eq;

verus! {

/// A release channel.
#[derive(Clone, Copy, Debug, PartialEq, Eq, Structural)]
pub enum Channel {
    Stable,
    Beta,
    Dev,
    Canary,
}

/// The channel that `s` names.
pub open spec fn channel_named(s: Seq<char>) -> Option<Channel> {
    if s == "stable"@ {
        Some(Channel::Stable)
    } else if s == "beta"@ {
        Some(Channel::Beta)
    } else if s == "dev"@ {
        Some(Channel::Dev)
    } else if s == "canary"@ {
        Some(Channel::Canary)
    } else {
        None
    }
}

impl Channel {
    /// Reads the lower-case name of a channel.
    pub fn from_str(s: &str) -> (r: Result<Self, VersionError>)
        ensures
            match channel_named(s@) {
                Some(c) => r == Ok::<Channel, VersionError>(c),
                None => r matches Err(VersionError::InvalidChannel(t)) && t@ == s@,
            },
    {
        if str_eq(s, "stable") {
            Ok(Channel::Stable)
        } else if str_eq(s, "beta") {
            Ok(Channel::Beta)
        } else if str_eq(s, "dev") {
            Ok(Channel::Dev)
        } else if str_eq(s, "canary") {
            Ok(Channel::Canary)
        } else {
            Err(VersionError::InvalidChannel(String::from_str(s)))
        }
    }
}

} // verus!
