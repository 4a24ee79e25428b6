//! What a service is configured with, how it retries what it publishes, and
//! the exit code with which it ends.

use crate::game_state::DEFAULT_BOARD_SIZE;
use crate::gateway::topics::Topic;
use crate::repo::{RedisKeyNamespace, DEFAULT_NAMESPACE};
use crate::xread::{parse_u16, u16_of};
use vstd::prelude::*;
use vstd::string::*;

verus! {

/// The options that a service recognises in its environment, each as it was
/// found there.
#[derive(Clone, Debug, PartialEq, Eq)]
pub struct Options {
    /// `BROKERS`: the addresses of the brokers of the bus, as a list of
    /// `host:port` with commas between them.
    pub brokers: Option<String>,
    /// `REDIS_URL`: where the keyed store is.
    pub redis_url: Option<String>,
    /// `REDIS_NAMESPACE`: the prefix of all keys.
    pub redis_namespace: Option<String>,
    /// `APP_NAME`: the consumer group to read under.
    pub app_name: Option<String>,
    /// `BOARD_SIZE`: the side length of the boards of new games.
    pub board_size: Option<String>,
}

/// What a service is configured with.
#[derive(Clone, Debug, PartialEq, Eq)]
pub struct Config {
    pub brokers: Option<String>,
    pub redis_url: Option<String>,
    pub namespace: RedisKeyNamespace,
    pub app_name: String,
    pub board_size: u16,
}

/// Why a service cannot be configured.
#[derive(Clone, Copy, Debug, PartialEq, Eq, Hash, Structural)]
pub enum ConfigError {
    /// `BOARD_SIZE` is there but is not a number from 0 to 65535.
    BadBoardSize,
}

/// The text of an option, or the default where the option is not there.
pub open spec fn text_or(option: Option<String>, default: Seq<char>) -> Seq<char> {
    match option {
        Some(s) => s@,
        None => default,
    }
}

/// The board size that the option asks for: 19 where it is not there, no
/// size where it is there and is not a number that fits.
pub open spec fn board_size_of(option: Option<String>) -> Option<u16> {
    match option {
        Some(s) => u16_of(s@),
        None => Some(DEFAULT_BOARD_SIZE),
    }
}

/// Works out the configuration of a service from the options that were
/// found. `service` is the name of the service, under which it reads where
/// no other consumer group is asked for.
pub fn configure(options: &Options, service: &str) -> (r: Result<Config, ConfigError>)
    ensures
        match r {
            Ok(c) => {
                &&& board_size_of(options.board_size) == Some(c.board_size)
                &&& c.namespace.0@ == text_or(options.redis_namespace, DEFAULT_NAMESPACE@)
                &&& c.app_name@ == text_or(options.app_name, service@)
                &&& c.brokers == options.brokers
                &&& c.redis_url == options.redis_url
            },
            Err(e) => e == ConfigError::BadBoardSize && board_size_of(options.board_size) is None,
        },
{
    let board_size: u16 = match &options.board_size {
        Some(s) => match parse_u16(s.as_str()) {
            Some(n) => n,
            None => {
                return Err(ConfigError::BadBoardSize);
            },
        },
        None => DEFAULT_BOARD_SIZE,
    };
    let namespace: String = match &options.redis_namespace {
        Some(s) => s.clone(),
        None => DEFAULT_NAMESPACE.to_owned(),
    };
    let app_name: String = match &options.app_name {
        Some(s) => s.clone(),
        None => service.to_owned(),
    };
    Ok(
        Config {
            brokers: options.brokers.clone(),
            redis_url: options.redis_url.clone(),
            namespace: RedisKeyNamespace(namespace),
            app_name,
            board_size,
        },
    )
}

/// How a service ends.
#[derive(Clone, Copy, Debug, PartialEq, Eq, Hash, Structural)]
pub enum Exit {
    Normal,
    /// The configuration cannot be used.
    Configuration,
    /// The bus failed for good.
    Bus,
    /// The keyed store failed for good.
    Store,
}

/// The exit code of each way to end.
pub open spec fn exit_code_of(exit: Exit) -> i32 {
    match exit {
        Exit::Normal => 0,
        Exit::Configuration => 1,
        Exit::Bus => 2,
        Exit::Store => 3,
    }
}

/// The exit code with which a service ends.
pub fn exit_code(exit: Exit) -> (code: i32)
    ensures
        code == exit_code_of(exit),
{
    match exit {
        Exit::Normal => 0,
        Exit::Configuration => 1,
        Exit::Bus => 2,
        Exit::Store => 3,
    }
}

/// Whether what is published on `topic` carries the state of a game: a
/// failed write to such a topic is tried again, a failed write to any other
/// is logged and dropped.
pub open spec fn carries_state(topic: Topic) -> bool {
    topic == Topic::MoveAcceptedEv || topic == Topic::MoveMadeEv || topic
        == Topic::GameStatesChangelog
}

/// How many milliseconds to wait before the next try after `failures` tries
/// in a row have failed: 50, 100, 200, 500, then 1000; after a sixth failure
/// there is no next try.
pub open spec fn backoff_ms(failures: nat) -> Option<u32> {
    if failures == 1 {
        Some(50u32)
    } else if failures == 2 {
        Some(100u32)
    } else if failures == 3 {
        Some(200u32)
    } else if failures == 4 {
        Some(500u32)
    } else if failures == 5 {
        Some(1000u32)
    } else {
        None
    }
}

/// What to do after a write to the bus has failed.
#[derive(Clone, Copy, Debug, PartialEq, Eq, Hash, Structural)]
pub enum AfterFailure {
    /// Log the failure and go on without the write.
    Drop,
    /// Wait this many milliseconds, then try again.
    RetryAfter(u32),
    /// Give up: the service ends with the exit code of a bus failure.
    GiveUp,
}

/// What to do after the write to `topic` has failed `failures` times in a
/// row, `failures` being at least one.
pub open spec fn after_failure_of(topic: Topic, failures: nat) -> AfterFailure {
    if !carries_state(topic) {
        AfterFailure::Drop
    } else {
        match backoff_ms(failures) {
            Some(ms) => AfterFailure::RetryAfter(ms),
            None => AfterFailure::GiveUp,
        }
    }
}

/// What to do after the write to `topic` has failed `failures` times in a
/// row.
pub fn after_failure(topic: Topic, failures: u32) -> (r: AfterFailure)
    ensures
        r == after_failure_of(topic, failures as nat),
{
    let state: bool = match topic {
        Topic::MoveAcceptedEv => true,
        Topic::MoveMadeEv => true,
        Topic::GameStatesChangelog => true,
        _ => false,
    };
    if !state {
        AfterFailure::Drop
    } else if failures == 1 {
        AfterFailure::RetryAfter(50)
    } else if failures == 2 {
        AfterFailure::RetryAfter(100)
    } else if failures == 3 {
        AfterFailure::RetryAfter(200)
    } else if failures == 4 {
        AfterFailure::RetryAfter(500)
    } else if failures == 5 {
        AfterFailure::RetryAfter(1000)
    } else {
        AfterFailure::GiveUp
    }
}

} // verus!
