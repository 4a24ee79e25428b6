//! Where each command goes on the bus, and under which partition key.
//!
//! Commands about a game are keyed by the game id, commands of a client by
//! the client id: all commands about one game are then read in the order in
//! which they were written, and so are all commands of one client.

use crate::gateway::kafka_commands::KafkaCommands;
use crate::gateway::topics::Topic;
use crate::ids::hyphenated;
use vstd::prelude::*;

verus! {

/// The consumer group under which the gateway reads.
pub const APP_NAME: &'static str = "gateway";

/// Where a command is written: the topic, and the partition key.
#[derive(Debug, PartialEq, Eq)]
pub struct Outgoing {
    pub topic: Topic,
    pub key: String,
}

/// The topic of a command.
pub open spec fn topic_for(cmd: KafkaCommands) -> Topic {
    match cmd {
        KafkaCommands::MakeMove(_) => Topic::MakeMoveCmd,
        KafkaCommands::ProvideHistory(_) => Topic::ProvideHistoryCmd,
        KafkaCommands::JoinPrivateGame(_) => Topic::JoinPrivateGameCmd,
        KafkaCommands::FindPublicGame(_) => Topic::FindPublicGameCmd,
        KafkaCommands::CreateGame(_) => Topic::CreateGameCmd,
        KafkaCommands::ChooseColorPref(_) => Topic::ChooseColorPrefCmd,
        KafkaCommands::ClientHeartbeat(_) => Topic::ClientHeartbeat,
    }
}

/// The partition key of a command: the text of the game id for commands
/// about a game, the text of the client id for the others.
pub open spec fn key_for(cmd: KafkaCommands) -> Seq<char> {
    match cmd {
        KafkaCommands::MakeMove(c) => hyphenated(c.game_id.0),
        KafkaCommands::ProvideHistory(c) => hyphenated(c.game_id.0),
        KafkaCommands::JoinPrivateGame(c) => hyphenated(c.client_id.0),
        KafkaCommands::FindPublicGame(c) => hyphenated(c.client_id.0),
        KafkaCommands::CreateGame(c) => hyphenated(c.client_id.0),
        KafkaCommands::ChooseColorPref(c) => hyphenated(c.client_id.0),
        KafkaCommands::ClientHeartbeat(c) => hyphenated(c.client_id.0),
    }
}

/// Where to write `cmd`.
pub fn route(cmd: &KafkaCommands) -> (out: Outgoing)
    ensures
        out.topic == topic_for(*cmd),
        out.key@ == key_for(*cmd),
{
    match cmd {
        KafkaCommands::MakeMove(c) => Outgoing {
            topic: Topic::MakeMoveCmd,
            key: c.game_id.to_string(),
        },
        KafkaCommands::ProvideHistory(c) => Outgoing {
            topic: Topic::ProvideHistoryCmd,
            key: c.game_id.to_string(),
        },
        KafkaCommands::JoinPrivateGame(c) => Outgoing {
            topic: Topic::JoinPrivateGameCmd,
            key: c.client_id.to_string(),
        },
        KafkaCommands::FindPublicGame(c) => Outgoing {
            topic: Topic::FindPublicGameCmd,
            key: c.client_id.to_string(),
        },
        KafkaCommands::CreateGame(c) => Outgoing {
            topic: Topic::CreateGameCmd,
            key: c.client_id.to_string(),
        },
        KafkaCommands::ChooseColorPref(c) => Outgoing {
            topic: Topic::ChooseColorPrefCmd,
            key: c.client_id.to_string(),
        },
        KafkaCommands::ClientHeartbeat(c) => Outgoing {
            topic: Topic::ClientHeartbeat,
            key: c.client_id.to_string(),
        },
    }
}

} // verus!
