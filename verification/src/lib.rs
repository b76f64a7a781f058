//! Parser for line-oriented game chat/event logs.
//!
//! Each input line is expected to open with a clock-format timestamp
//! (digit groups separated by colons) followed by a free-form body.  The
//! body is classified in a fixed priority order as a chat message, a kill
//! event, an objective/ping event, or a generic player action; lines
//! without a valid timestamp are preserved verbatim as system lines.
//! The whole log is folded into a [`ParsedLog`] report with a sorted,
//! deduplicated player roster.

pub mod extract;
pub mod grammar;
pub mod laws;
pub mod model;
pub mod roster;
pub mod text;

pub use crate::grammar::LolChatParser;
pub use crate::model::{
    ChatChannel, ChatMessage, KillEvent, ObjectiveEvent, ParsedLog, PlayerSummary, SystemLine,
};

use vstd::prelude::*;

use crate::extract::{
    chat_spec, kill_spec, objective_spec, pair_spec, split_time_spec, target_spec,
    parse_chat_message, parse_kill_event, parse_objective_event,
    parse_player_with_champion_prefix, parse_target_player, parse_time_and_rest,
};
use crate::model::{
    ChatMessageView, KillEventView, ObjectiveEventView, SystemLineView,
};
use crate::roster::{add_player, record_pair, roster_map, roster_ok};
use crate::text::{line_views, split_lines, split_lines_spec, trim_spec, trim_str};

verus! {

/// A line's leading token is not a valid clock-format timestamp.
#[derive(Clone, Copy, Debug, PartialEq, Eq, Structural)]
pub struct NoTimestamp;

/// The timestamp of a line, when one can be extracted.
pub open spec fn timestamp_spec(line: Seq<char>) -> Option<Seq<char>> {
    match split_time_spec(line) {
        Some(tr) => Some(tr.0),
        None => None,
    }
}

/// Extract the leading clock-format timestamp of a line.
pub fn parse_timestamp(line: &str) -> (r: Result<String, NoTimestamp>)
    ensures
        match r {
            Ok(t) => timestamp_spec(line@) == Some(t@),
            Err(_) => timestamp_spec(line@) is None,
        },
{
    match parse_time_and_rest(line) {
        Ok((time, _rest)) => Ok(time),
        Err(e) => Err(e),
    }
}

/// The report state accumulated while folding over a log's lines.
#[verifier::ext_equal]
pub ghost struct LogAcc {
    pub players: Map<Seq<char>, Set<Seq<char>>>,
    pub kills: Seq<KillEventView>,
    pub events: Seq<ObjectiveEventView>,
    pub messages: Seq<ChatMessageView>,
    pub system: Seq<SystemLineView>,
}

/// The state before any line has been consumed.
pub open spec fn acc_empty() -> LogAcc {
    LogAcc {
        players: Map::empty(),
        kills: Seq::empty(),
        events: Seq::empty(),
        messages: Seq::empty(),
        system: Seq::empty(),
    }
}

/// The players registered by a kill: the killer, and the victim when the
/// kill is a shutdown.
pub open spec fn kill_players(
    m: Map<Seq<char>, Set<Seq<char>>>,
    k: KillEventView,
) -> Map<Seq<char>, Set<Seq<char>>> {
    let m1 = record_pair(m, k.killer, k.killer_champion);
    match (k.victim, k.victim_champion) {
        (Some(v), Some(vc)) => record_pair(m1, v, vc),
        _ => m1,
    }
}

/// The players registered by an objective line: its leading pair and its
/// targeted player, as far as either parses.
pub open spec fn objective_players(
    m: Map<Seq<char>, Set<Seq<char>>>,
    rest: Seq<char>,
) -> Map<Seq<char>, Set<Seq<char>>> {
    let m1 = match pair_spec(rest) {
        Some(pcr) => record_pair(m, pcr.0, pcr.1),
        None => m,
    };
    match target_spec(rest) {
        Some(tc) => record_pair(m1, tc.0, tc.1),
        None => m1,
    }
}

/// Consume one raw line: trim it, extract the timestamp, and classify the
/// remainder in the fixed priority order (chat, kill, objective, generic
/// player action); a line without a timestamp becomes a system line, and
/// a blank line is skipped.
pub open spec fn step_line(acc: LogAcc, line: Seq<char>) -> LogAcc {
    let trimmed = trim_spec(line);
    if trimmed.len() == 0 {
        acc
    } else {
        match split_time_spec(trimmed) {
            None => LogAcc {
                system: acc.system.push(SystemLineView { text: trimmed }),
                ..acc
            },
            Some((time, rest)) => match chat_spec(time, rest) {
                Some(m) => LogAcc {
                    players: record_pair(acc.players, m.player, m.champion),
                    messages: acc.messages.push(m),
                    ..acc
                },
                None => match kill_spec(time, rest) {
                    Some(k) => LogAcc {
                        players: kill_players(acc.players, k),
                        kills: acc.kills.push(k),
                        ..acc
                    },
                    None => match objective_spec(time, rest) {
                        Some(o) => LogAcc {
                            players: objective_players(acc.players, rest),
                            events: acc.events.push(o),
                            ..acc
                        },
                        None => match pair_spec(rest) {
                            Some(pcr) => LogAcc {
                                players: record_pair(acc.players, pcr.0, pcr.1),
                                ..acc
                            },
                            None => acc,
                        },
                    },
                },
            },
        }
    }
}

/// Fold a sequence of raw lines into a report state, in order.
pub open spec fn fold_lines(acc: LogAcc, lines: Seq<Seq<char>>) -> LogAcc
    decreases lines.len(),
{
    if lines.len() == 0 {
        acc
    } else {
        step_line(fold_lines(acc, lines.drop_last()), lines.last())
    }
}

/// The report state of a whole log.
pub open spec fn parse_log_acc(input: Seq<char>) -> LogAcc {
    fold_lines(acc_empty(), split_lines_spec(input))
}

/// Parse a whole log into a report.  Never fails: lines without a
/// timestamp degrade to system lines.  The event lists carry exactly what
/// the classification fold produces, in encounter order; the roster is
/// sorted by name with sorted champion lists and holds exactly the
/// accumulated player-to-champions mapping.
pub fn parse_log(input: &str) -> (r: ParsedLog)
    ensures
        r@.kills == parse_log_acc(input@).kills,
        r@.events == parse_log_acc(input@).events,
        r@.messages == parse_log_acc(input@).messages,
        r@.system == parse_log_acc(input@).system,
        roster_ok(r@.players),
        roster_map(r@.players) == parse_log_acc(input@).players,
{
    let lines = split_lines(input);
    let ghost lv = line_views(lines@);
    let n = lines.len();
    let mut players: Vec<PlayerSummary> = Vec::new();
    let mut kills: Vec<KillEvent> = Vec::new();
    let mut events: Vec<ObjectiveEvent> = Vec::new();
    let mut messages: Vec<ChatMessage> = Vec::new();
    let mut system: Vec<SystemLine> = Vec::new();
    proof {
        assert(lv.take(0) =~= Seq::<Seq<char>>::empty());
        assert(players.deep_view() =~= Seq::<crate::model::PlayerSummaryView>::empty());
        assert(roster_map(players.deep_view()) =~= Map::<Seq<char>, Set<Seq<char>>>::empty());
        assert(kills.deep_view() =~= Seq::<KillEventView>::empty());
        assert(events.deep_view() =~= Seq::<ObjectiveEventView>::empty());
        assert(messages.deep_view() =~= Seq::<ChatMessageView>::empty());
        assert(system.deep_view() =~= Seq::<SystemLineView>::empty());
    }
    let mut idx: usize = 0;
    while idx < n
        invariant
            0 <= idx <= n,
            n == lines@.len(),
            lv == line_views(lines@),
            roster_ok(players.deep_view()),
            roster_map(players.deep_view()) == fold_lines(acc_empty(), lv.take(idx as int)).players,
            kills.deep_view() == fold_lines(acc_empty(), lv.take(idx as int)).kills,
            events.deep_view() == fold_lines(acc_empty(), lv.take(idx as int)).events,
            messages.deep_view() == fold_lines(acc_empty(), lv.take(idx as int)).messages,
            system.deep_view() == fold_lines(acc_empty(), lv.take(idx as int)).system,
        decreases n - idx,
    {
        let ghost acc0 = fold_lines(acc_empty(), lv.take(idx as int));
        let ghost acc1 = fold_lines(acc_empty(), lv.take(idx + 1));
        let line = lines[idx];
        proof {
            assert(lv.take(idx + 1).drop_last() =~= lv.take(idx as int));
            assert(lv.take(idx + 1).last() == lv[idx as int]);
            assert(lv[idx as int] == line@);
            assert(acc1 == step_line(acc0, line@));
        }
        let trimmed = trim_str(line);
        if trimmed.unicode_len() == 0 {
            proof {
                assert(acc1 == acc0);
            }
        } else {
            match parse_time_and_rest(trimmed) {
                Err(_) => {
                    system.push(SystemLine { text: trimmed.to_owned() });
                    proof {
                        assert(system.deep_view() =~~= acc0.system.push(
                            SystemLineView { text: trim_spec(line@) },
                        ));
                    }
                },
                Ok((time, rest)) => {
                    if let Some(chat) = parse_chat_message(time.as_str(), rest.as_str()) {
                        let ghost cm = chat@;
                        add_player(&mut players, chat.player.as_str(), chat.champion.as_str());
                        messages.push(chat);
                        proof {
                            assert(messages.deep_view() =~~= acc0.messages.push(cm));
                        }
                    } else if let Some(kill) = parse_kill_event(time.as_str(), rest.as_str()) {
                        let ghost kv = kill@;
                        add_player(
                            &mut players,
                            kill.killer.as_str(),
                            kill.killer_champion.as_str(),
                        );
                        match (&kill.victim, &kill.victim_champion) {
                            (Some(v), Some(vc)) => {
                                add_player(&mut players, v.as_str(), vc.as_str());
                            },
                            _ => {},
                        }
                        kills.push(kill);
                        proof {
                            assert(kills.deep_view() =~~= acc0.kills.push(kv));
                        }
                    } else if let Some(obj) = parse_objective_event(time.as_str(), rest.as_str()) {
                        let ghost ov = obj@;
                        if let Some((p, c, _r)) = parse_player_with_champion_prefix(
                            rest.as_str(),
                        ) {
                            add_player(&mut players, p.as_str(), c.as_str());
                        }
                        if let Some((tp, tc)) = parse_target_player(rest.as_str()) {
                            add_player(&mut players, tp.as_str(), tc.as_str());
                        }
                        events.push(obj);
                        proof {
                            assert(events.deep_view() =~~= acc0.events.push(ov));
                        }
                    } else if let Some((p, c, _r)) = parse_player_with_champion_prefix(
                        rest.as_str(),
                    ) {
                        add_player(&mut players, p.as_str(), c.as_str());
                    }
                },
            }
        }
        idx = idx + 1;
    }
    proof {
        assert(lv.take(n as int) =~= lv);
    }
    ParsedLog { players, kills, events, messages, system }
}

} // verus!
