//! The report's data types and their mathematical views.
//!
//! Each exec type carries a ghost view struct over `Seq<char>`, so that the
//! extraction and aggregation contracts can be stated purely in spec land.

use vstd::prelude::*;

verus! {

/// The chat scope a message was sent to.  `Player` is the implicit
/// direct/unscoped channel used when no bracketed tag is present.
#[derive(Debug, Clone, Copy, PartialEq, Eq, Structural)]
pub enum ChatChannel {
    All,
    Team,
    Party,
    Player,
}

/// One recognized chat line.
#[derive(Debug, Clone, PartialEq, Eq)]
pub struct ChatMessage {
    pub time: String,
    pub channel: ChatChannel,
    pub player: String,
    pub champion: String,
    pub text: String,
}

/// One kill line: either a shutdown (with victim and optional bounty) or a
/// first blood (killer only).
#[derive(Debug, Clone, PartialEq, Eq)]
pub struct KillEvent {
    pub time: String,
    pub killer: String,
    pub killer_champion: String,
    pub victim: Option<String>,
    pub victim_champion: Option<String>,
    pub bounty: Option<u32>,
    pub is_shutdown: bool,
    pub is_first_blood: bool,
}

/// One objective/ping line.  `team` is populated only for team-objective
/// lines opening with a recognized team name.
#[derive(Debug, Clone, PartialEq, Eq)]
pub struct ObjectiveEvent {
    pub time: String,
    pub team: Option<String>,
    pub description: String,
}

/// One roster entry: a player and the sorted set of champions it was seen
/// playing.
#[derive(Debug, Clone, PartialEq, Eq)]
pub struct PlayerSummary {
    pub name: String,
    pub champions: Vec<String>,
}

/// A line whose timestamp could not be extracted, preserved verbatim
/// (trimmed).
#[derive(Debug, Clone, PartialEq, Eq)]
pub struct SystemLine {
    pub text: String,
}

/// The aggregate report built from one log.
#[derive(Debug, Clone, PartialEq, Eq)]
pub struct ParsedLog {
    pub players: Vec<PlayerSummary>,
    pub kills: Vec<KillEvent>,
    pub events: Vec<ObjectiveEvent>,
    pub messages: Vec<ChatMessage>,
    pub system: Vec<SystemLine>,
}

#[verifier::ext_equal]
pub ghost struct ChatMessageView {
    pub time: Seq<char>,
    pub channel: ChatChannel,
    pub player: Seq<char>,
    pub champion: Seq<char>,
    pub text: Seq<char>,
}

#[verifier::ext_equal]
pub ghost struct KillEventView {
    pub time: Seq<char>,
    pub killer: Seq<char>,
    pub killer_champion: Seq<char>,
    pub victim: Option<Seq<char>>,
    pub victim_champion: Option<Seq<char>>,
    pub bounty: Option<u32>,
    pub is_shutdown: bool,
    pub is_first_blood: bool,
}

#[verifier::ext_equal]
pub ghost struct ObjectiveEventView {
    pub time: Seq<char>,
    pub team: Option<Seq<char>>,
    pub description: Seq<char>,
}

#[verifier::ext_equal]
pub ghost struct PlayerSummaryView {
    pub name: Seq<char>,
    pub champions: Seq<Seq<char>>,
}

#[verifier::ext_equal]
pub ghost struct SystemLineView {
    pub text: Seq<char>,
}

#[verifier::ext_equal]
pub ghost struct ParsedLogView {
    pub players: Seq<PlayerSummaryView>,
    pub kills: Seq<KillEventView>,
    pub events: Seq<ObjectiveEventView>,
    pub messages: Seq<ChatMessageView>,
    pub system: Seq<SystemLineView>,
}

impl View for ChatMessage {
    type V = ChatMessageView;

    open spec fn view(&self) -> ChatMessageView {
        ChatMessageView {
            time: self.time@,
            channel: self.channel,
            player: self.player@,
            champion: self.champion@,
            text: self.text@,
        }
    }
}

impl DeepView for ChatMessage {
    type V = ChatMessageView;

    open spec fn deep_view(&self) -> ChatMessageView {
        self.view()
    }
}

impl View for KillEvent {
    type V = KillEventView;

    open spec fn view(&self) -> KillEventView {
        KillEventView {
            time: self.time@,
            killer: self.killer@,
            killer_champion: self.killer_champion@,
            victim: match self.victim {
                Some(ref v) => Some(v@),
                None => None,
            },
            victim_champion: match self.victim_champion {
                Some(ref v) => Some(v@),
                None => None,
            },
            bounty: self.bounty,
            is_shutdown: self.is_shutdown,
            is_first_blood: self.is_first_blood,
        }
    }
}

impl DeepView for KillEvent {
    type V = KillEventView;

    open spec fn deep_view(&self) -> KillEventView {
        self.view()
    }
}

impl View for ObjectiveEvent {
    type V = ObjectiveEventView;

    open spec fn view(&self) -> ObjectiveEventView {
        ObjectiveEventView {
            time: self.time@,
            team: match self.team {
                Some(ref t) => Some(t@),
                None => None,
            },
            description: self.description@,
        }
    }
}

impl DeepView for ObjectiveEvent {
    type V = ObjectiveEventView;

    open spec fn deep_view(&self) -> ObjectiveEventView {
        self.view()
    }
}

impl View for PlayerSummary {
    type V = PlayerSummaryView;

    open spec fn view(&self) -> PlayerSummaryView {
        PlayerSummaryView { name: self.name@, champions: self.champions.deep_view() }
    }
}

impl DeepView for PlayerSummary {
    type V = PlayerSummaryView;

    open spec fn deep_view(&self) -> PlayerSummaryView {
        self.view()
    }
}

impl View for SystemLine {
    type V = SystemLineView;

    open spec fn view(&self) -> SystemLineView {
        SystemLineView { text: self.text@ }
    }
}

impl DeepView for SystemLine {
    type V = SystemLineView;

    open spec fn deep_view(&self) -> SystemLineView {
        self.view()
    }
}

impl View for ParsedLog {
    type V = ParsedLogView;

    open spec fn view(&self) -> ParsedLogView {
        ParsedLogView {
            players: self.players.deep_view(),
            kills: self.kills.deep_view(),
            events: self.events.deep_view(),
            messages: self.messages.deep_view(),
            system: self.system.deep_view(),
        }
    }
}

} // verus!
