//! The topics of the bus, by their canonical names.

use vstd::prelude::*;
use vstd::string::*;

verus! {

/// A topic of the bus.
#[derive(Clone, Copy, Debug, PartialEq, Eq, Hash, Structural)]
pub enum Topic {
    MakeMoveCmd,
    MoveAcceptedEv,
    MoveMadeEv,
    MoveRejectedEv,
    GameStatesChangelog,
    GameReadyEv,
    WaitForOpponentEv,
    PrivateGameRejectedEv,
    JoinPrivateGameCmd,
    FindPublicGameCmd,
    CreateGameCmd,
    ChooseColorPrefCmd,
    ColorsChosenEv,
    ClientHeartbeat,
    AttachBotCmd,
    BotAttachedEv,
    UndoMoveCmd,
    MoveUndoneEv,
    ProvideHistoryCmd,
    HistoryProvidedEv,
}

impl Topic {
    /// The canonical name of the topic.
    pub open spec fn text(self) -> Seq<char> {
        match self {
            Topic::MakeMoveCmd => "make-move-cmd"@,
            Topic::MoveAcceptedEv => "move-accepted-ev"@,
            Topic::MoveMadeEv => "move-made-ev"@,
            Topic::MoveRejectedEv => "move-rejected-ev"@,
            Topic::GameStatesChangelog => "game-states-changelog"@,
            Topic::GameReadyEv => "game-ready-ev"@,
            Topic::WaitForOpponentEv => "wait-for-opponent-ev"@,
            Topic::PrivateGameRejectedEv => "private-game-rejected-ev"@,
            Topic::JoinPrivateGameCmd => "join-private-game-cmd"@,
            Topic::FindPublicGameCmd => "find-public-game-cmd"@,
            Topic::CreateGameCmd => "create-game-cmd"@,
            Topic::ChooseColorPrefCmd => "choose-color-pref-cmd"@,
            Topic::ColorsChosenEv => "colors-chosen-ev"@,
            Topic::ClientHeartbeat => "client-heartbeat"@,
            Topic::AttachBotCmd => "attach-bot-cmd"@,
            Topic::BotAttachedEv => "bot-attached-ev"@,
            Topic::UndoMoveCmd => "undo-move-cmd"@,
            Topic::MoveUndoneEv => "move-undone-ev"@,
            Topic::ProvideHistoryCmd => "provide-history-cmd"@,
            Topic::HistoryProvidedEv => "history-provided-ev"@,
        }
    }

    /// The canonical name of the topic.
    pub fn name(self) -> (s: &'static str)
        ensures
            s@ == self.text(),
    {
        match self {
            Topic::MakeMoveCmd => "make-move-cmd",
            Topic::MoveAcceptedEv => "move-accepted-ev",
            Topic::MoveMadeEv => "move-made-ev",
            Topic::MoveRejectedEv => "move-rejected-ev",
            Topic::GameStatesChangelog => "game-states-changelog",
            Topic::GameReadyEv => "game-ready-ev",
            Topic::WaitForOpponentEv => "wait-for-opponent-ev",
            Topic::PrivateGameRejectedEv => "private-game-rejected-ev",
            Topic::JoinPrivateGameCmd => "join-private-game-cmd",
            Topic::FindPublicGameCmd => "find-public-game-cmd",
            Topic::CreateGameCmd => "create-game-cmd",
            Topic::ChooseColorPrefCmd => "choose-color-pref-cmd",
            Topic::ColorsChosenEv => "colors-chosen-ev",
            Topic::ClientHeartbeat => "client-heartbeat",
            Topic::AttachBotCmd => "attach-bot-cmd",
            Topic::BotAttachedEv => "bot-attached-ev",
            Topic::UndoMoveCmd => "undo-move-cmd",
            Topic::MoveUndoneEv => "move-undone-ev",
            Topic::ProvideHistoryCmd => "provide-history-cmd",
            Topic::HistoryProvidedEv => "history-provided-ev",
        }
    }
}

/// Whether two strings hold the same text.
pub fn same_text(a: &str, b: &str) -> (r: bool)
    ensures
        r == (a@ == b@),
{
    let x: String = a.to_owned();
    let y: String = b.to_owned();
    x == y
}

} // verus!
