//! The line-classification and extraction cascade.
//!
//! Each extractor has a spec function over `Seq<char>` that defines exactly
//! what it recognizes and produces, and an exec function proved to return
//! precisely the spec's result.

use vstd::prelude::*;
use vstd::string::StrSliceExecFns;

use crate::grammar::{is_clock, check_clock};
use crate::NoTimestamp;
use crate::model::{
    ChatChannel, ChatMessage, ChatMessageView, KillEvent, KillEventView, ObjectiveEvent,
    ObjectiveEventView,
};
use crate::text::{
    trim_spec, trim_start_spec, trim_str, trim_start_str, find_char_spec, find_char,
    find_char_from, lemma_find_char, str_eq,
};

verus! {

/// Split a line into its leading clock token and the remainder after the
/// first space; `None` when there is no space or the token before it is
/// not clock-shaped.
pub open spec fn split_time_spec(line: Seq<char>) -> Option<(Seq<char>, Seq<char>)> {
    match find_char_spec(line, ' ') {
        None => None,
        Some(i) => {
            if is_clock(line.take(i)) {
                Some((line.take(i), line.skip(i + 1)))
            } else {
                None
            }
        },
    }
}

/// Extract `(time, rest)` from a line, per the model `split_time_spec`.
pub fn parse_time_and_rest(line: &str) -> (r: Result<(String, String), NoTimestamp>)
    ensures
        match r {
            Ok(tr) => split_time_spec(line@) == Some((tr.0@, tr.1@)),
            Err(_) => split_time_spec(line@) is None,
        },
{
    let n = line.unicode_len();
    match find_char(line, ' ') {
        None => Err(NoTimestamp),
        Some(i) => {
            proof {
                lemma_find_char(line@, ' ');
            }
            let time = line.substring_char(0, i);
            proof {
                assert(time@ =~= line@.take(i as int));
            }
            if check_clock(time) {
                let rest = line.substring_char(i + 1, n);
                proof {
                    assert(rest@ =~= line@.skip(i + 1));
                }
                Ok((time.to_owned(), rest.to_owned()))
            } else {
                Err(NoTimestamp)
            }
        },
    }
}

/// The `player (champion)` pair at the head of `text`: the text before the
/// first `(` (trimmed) and the text inside the parens (trimmed), both
/// required non-empty, plus the untrimmed remainder after the `)`.
pub open spec fn pair_spec(text: Seq<char>) -> Option<(Seq<char>, Seq<char>, Seq<char>)> {
    let t = trim_start_spec(text);
    match find_char_spec(t, '(') {
        None => None,
        Some(open) => match find_char_spec(t.skip(open), ')') {
            None => None,
            Some(off) => {
                let close = open + off;
                let player = trim_spec(t.take(open));
                let champion = trim_spec(t.subrange(open + 1, close));
                if player.len() == 0 || champion.len() == 0 {
                    None
                } else {
                    Some((player, champion, t.skip(close + 1)))
                }
            },
        },
    }
}

/// Parse the leading `player (champion)` pair, per the model `pair_spec`.
pub fn parse_player_with_champion_prefix<'a>(text: &'a str) -> (r: Option<
    (String, String, &'a str),
>)
    ensures
        match r {
            Some(pcr) => pair_spec(text@) == Some((pcr.0@, pcr.1@, pcr.2@)),
            None => pair_spec(text@) is None,
        },
{
    let t = trim_start_str(text);
    let n = t.unicode_len();
    let open = match find_char(t, '(') {
        None => {
            return None;
        },
        Some(o) => o,
    };
    proof {
        lemma_find_char(t@, '(');
    }
    let close = match find_char_from(t, open, ')') {
        None => {
            return None;
        },
        Some(c) => c,
    };
    proof {
        lemma_find_char(t@.skip(open as int), ')');
        assert(t@.skip(open as int)[0] == t@[open as int]);
        assert(close > open);
    }
    let player = trim_str(t.substring_char(0, open));
    proof {
        assert(t@.subrange(0, open as int) =~= t@.take(open as int));
    }
    if player.unicode_len() == 0 {
        return None;
    }
    let champion = trim_str(t.substring_char(open + 1, close));
    if champion.unicode_len() == 0 {
        return None;
    }
    let remainder = t.substring_char(close + 1, n);
    proof {
        assert(remainder@ =~= t@.skip(close + 1));
    }
    Some((player.to_owned(), champion.to_owned(), remainder))
}

/// The channel named by the content of a leading bracketed tag; anything
/// but the three exact literals is not a channel tag.
pub open spec fn channel_of_tag(tag: Seq<char>) -> Option<ChatChannel> {
    if tag == "All"@ {
        Some(ChatChannel::All)
    } else if tag == "Team"@ {
        Some(ChatChannel::Team)
    } else if tag == "Party"@ {
        Some(ChatChannel::Party)
    } else {
        None
    }
}

/// A chat body after the channel has been settled: a `player (champion)`
/// pair, a colon, and the left-trimmed message text.
pub open spec fn chat_body_spec(channel: ChatChannel, time: Seq<char>, s: Seq<char>) -> Option<
    ChatMessageView,
> {
    match pair_spec(s) {
        None => None,
        Some((player, champion, after)) => {
            let a = trim_start_spec(after);
            if a.len() > 0 && a[0] == ':' {
                Some(
                    ChatMessageView {
                        time,
                        channel,
                        player,
                        champion,
                        text: trim_start_spec(a.drop_first()),
                    },
                )
            } else {
                None
            }
        },
    }
}

/// A chat line: an optional `[All]`/`[Team]`/`[Party]` tag (no tag means
/// the direct `Player` channel), then a pair, a colon and the message.
pub open spec fn chat_spec(time: Seq<char>, rest: Seq<char>) -> Option<ChatMessageView> {
    let t = trim_start_spec(rest);
    if t.len() > 0 && t[0] == '[' {
        match find_char_spec(t, ']') {
            None => None,
            Some(closing) => match channel_of_tag(t.subrange(1, closing)) {
                None => None,
                Some(ch) => chat_body_spec(ch, time, trim_start_spec(t.skip(closing + 1))),
            },
        }
    } else {
        chat_body_spec(ChatChannel::Player, time, t)
    }
}

/// Parse the pair/colon/text part of a chat body once the channel is known.
fn parse_chat_body(channel: ChatChannel, time: &str, s: &str) -> (r: Option<ChatMessage>)
    ensures
        match r {
            Some(m) => chat_body_spec(channel, time@, s@) == Some(m@),
            None => chat_body_spec(channel, time@, s@) is None,
        },
{
    let (player, champion, after) = match parse_player_with_champion_prefix(s) {
        None => {
            return None;
        },
        Some(pcr) => pcr,
    };
    let a = trim_start_str(after);
    let alen = a.unicode_len();
    if alen == 0 {
        return None;
    }
    if a.get_char(0) != ':' {
        return None;
    }
    let message = trim_start_str(a.substring_char(1, alen));
    proof {
        assert(a@.subrange(1, alen as int) =~= a@.drop_first());
    }
    Some(
        ChatMessage {
            time: time.to_owned(),
            channel,
            player,
            champion,
            text: message.to_owned(),
        },
    )
}

/// Parse a chat line, per the model `chat_spec`.
pub fn parse_chat_message(time: &str, rest: &str) -> (r: Option<ChatMessage>)
    ensures
        match r {
            Some(m) => chat_spec(time@, rest@) == Some(m@),
            None => chat_spec(time@, rest@) is None,
        },
{
    let t = trim_start_str(rest);
    let n = t.unicode_len();
    if n > 0 && t.get_char(0) == '[' {
        let closing = match find_char(t, ']') {
            None => {
                return None;
            },
            Some(c) => c,
        };
        proof {
            lemma_find_char(t@, ']');
        }
        let tag = t.substring_char(1, closing);
        proof {
            assert(t@[0] == '[');
        }
        let channel = if str_eq(tag, "All") {
            ChatChannel::All
        } else if str_eq(tag, "Team") {
            ChatChannel::Team
        } else if str_eq(tag, "Party") {
            ChatChannel::Party
        } else {
            return None;
        };
        let remainder = trim_start_str(t.substring_char(closing + 1, n));
        proof {
            assert(t@.subrange(closing + 1, n as int) =~= t@.skip(closing + 1));
        }
        parse_chat_body(channel, time, remainder)
    } else {
        parse_chat_body(ChatChannel::Player, time, t)
    }
}

/// The `... has targeted <name> - (<champion>)` shape, used only to enrich
/// the player roster on targeting lines.
pub open spec fn target_spec(rest: Seq<char>) -> Option<(Seq<char>, Seq<char>)> {
    let text = trim_spec(rest);
    match crate::text::find_sub_spec(text, " has targeted "@) {
        None => None,
        Some(idx) => {
            let after = text.skip(idx + " has targeted "@.len());
            match crate::text::find_sub_spec(after, " - ("@) {
                None => None,
                Some(d) => {
                    let name = trim_spec(after.take(d));
                    if name.len() == 0 {
                        None
                    } else {
                        let after_dash = after.skip(d + " - ("@.len());
                        match find_char_spec(after_dash, ')') {
                            None => None,
                            Some(cp) => {
                                let champ = trim_spec(after_dash.take(cp));
                                if champ.len() == 0 {
                                    None
                                } else {
                                    Some((name, champ))
                                }
                            },
                        }
                    }
                },
            }
        },
    }
}

/// Parse the targeted player of a targeting line, per the model
/// `target_spec`.
pub fn parse_target_player(rest: &str) -> (r: Option<(String, String)>)
    ensures
        match r {
            Some(nc) => target_spec(rest@) == Some((nc.0@, nc.1@)),
            None => target_spec(rest@) is None,
        },
{
    let text = trim_str(rest);
    let n = text.unicode_len();
    let idx = match crate::text::find_sub(text, " has targeted ") {
        None => {
            return None;
        },
        Some(i) => i,
    };
    let marker_len = " has targeted ".unicode_len();
    proof {
        crate::text::lemma_find_sub(text@, " has targeted "@);
    }
    let after = text.substring_char(idx + marker_len, n);
    proof {
        assert(after@ =~= text@.skip(idx + " has targeted "@.len()));
    }
    let m = after.unicode_len();
    let d = match crate::text::find_sub(after, " - (") {
        None => {
            return None;
        },
        Some(i) => i,
    };
    let dash_len = " - (".unicode_len();
    proof {
        crate::text::lemma_find_sub(after@, " - ("@);
    }
    let name = trim_str(after.substring_char(0, d));
    proof {
        assert(after@.subrange(0, d as int) =~= after@.take(d as int));
    }
    if name.unicode_len() == 0 {
        return None;
    }
    let after_dash = after.substring_char(d + dash_len, m);
    proof {
        assert(after_dash@ =~= after@.skip(d + " - ("@.len()));
    }
    let cp = match find_char(after_dash, ')') {
        None => {
            return None;
        },
        Some(c) => c,
    };
    proof {
        lemma_find_char(after_dash@, ')');
    }
    let champ = trim_str(after_dash.substring_char(0, cp));
    proof {
        assert(after_dash@.subrange(0, cp as int) =~= after_dash@.take(cp as int));
    }
    if champ.unicode_len() == 0 {
        return None;
    }
    Some((name.to_owned(), champ.to_owned()))
}

/// A kill line.  Tried in order: the shutdown shape (`<killer pair> has
/// shut down <victim pair>! ... Bonus Bounty: <digits>`), then the first
/// blood shape (`<killer pair> has drawn first blood!`).
pub open spec fn kill_spec(time: Seq<char>, rest: Seq<char>) -> Option<KillEventView> {
    let text = trim_spec(rest);
    match crate::text::find_sub_spec(text, " has shut down "@) {
        Some(idx) => {
            let killer_part = text.take(idx);
            let tail = text.skip(idx + " has shut down "@.len());
            match pair_spec(killer_part) {
                None => None,
                Some((killer, killer_champion, _r1)) => match find_char_spec(tail, '!') {
                    None => None,
                    Some(ex) => match pair_spec(tail.take(ex)) {
                        None => None,
                        Some((victim, victim_champion, _r2)) => {
                            let bonus_part = tail.skip(ex + 1);
                            match crate::text::find_sub_spec(bonus_part, "Bonus Bounty:"@) {
                                None => None,
                                Some(bs) => Some(
                                    KillEventView {
                                        time,
                                        killer,
                                        killer_champion,
                                        victim: Some(victim),
                                        victim_champion: Some(victim_champion),
                                        bounty: crate::text::leading_number(
                                            trim_spec(bonus_part.skip(bs + "Bonus Bounty:"@.len())),
                                        ),
                                        is_shutdown: true,
                                        is_first_blood: false,
                                    },
                                ),
                            }
                        },
                    },
                },
            }
        },
        None => match crate::text::find_sub_spec(text, " has drawn first blood!"@) {
            None => None,
            Some(idx) => match pair_spec(text.take(idx)) {
                None => None,
                Some((killer, killer_champion, _r)) => Some(
                    KillEventView {
                        time,
                        killer,
                        killer_champion,
                        victim: None,
                        victim_champion: None,
                        bounty: None,
                        is_shutdown: false,
                        is_first_blood: true,
                    },
                ),
            },
        },
    }
}

/// Parse a kill line, per the model `kill_spec`.
pub fn parse_kill_event(time: &str, rest: &str) -> (r: Option<KillEvent>)
    ensures
        match r {
            Some(k) => kill_spec(time@, rest@) == Some(k@),
            None => kill_spec(time@, rest@) is None,
        },
{
    let text = trim_str(rest);
    let n = text.unicode_len();
    if let Some(idx) = crate::text::find_sub(text, " has shut down ") {
        proof {
            crate::text::lemma_find_sub(text@, " has shut down "@);
        }
        let killer_part = text.substring_char(0, idx);
        proof {
            assert(killer_part@ =~= text@.take(idx as int));
        }
        let marker_len = " has shut down ".unicode_len();
        let tail = text.substring_char(idx + marker_len, n);
        proof {
            assert(tail@ =~= text@.skip(idx + " has shut down "@.len()));
        }
        let (killer, killer_champion, _r1) = match parse_player_with_champion_prefix(
            killer_part,
        ) {
            None => {
                return None;
            },
            Some(pcr) => pcr,
        };
        let m = tail.unicode_len();
        let ex = match find_char(tail, '!') {
            None => {
                return None;
            },
            Some(e) => e,
        };
        proof {
            lemma_find_char(tail@, '!');
        }
        let victim_part = tail.substring_char(0, ex);
        proof {
            assert(victim_part@ =~= tail@.take(ex as int));
        }
        let (victim, victim_champion, _r2) = match parse_player_with_champion_prefix(
            victim_part,
        ) {
            None => {
                return None;
            },
            Some(pcr) => pcr,
        };
        let bonus_part = tail.substring_char(ex + 1, m);
        proof {
            assert(bonus_part@ =~= tail@.skip(ex + 1));
        }
        let bs = match crate::text::find_sub(bonus_part, "Bonus Bounty:") {
            None => {
                return None;
            },
            Some(b) => b,
        };
        proof {
            crate::text::lemma_find_sub(bonus_part@, "Bonus Bounty:"@);
        }
        let bp_len = bonus_part.unicode_len();
        let bounty_len = "Bonus Bounty:".unicode_len();
        let bonus_text = trim_str(bonus_part.substring_char(bs + bounty_len, bp_len));
        proof {
            assert(bonus_part@.subrange(bs + "Bonus Bounty:"@.len(), bp_len as int) =~= bonus_part@
                .skip(bs + "Bonus Bounty:"@.len()));
        }
        let bounty = crate::text::parse_leading_number(bonus_text);
        return Some(
            KillEvent {
                time: time.to_owned(),
                killer,
                killer_champion,
                victim: Some(victim),
                victim_champion: Some(victim_champion),
                bounty,
                is_shutdown: true,
                is_first_blood: false,
            },
        );
    }
    if let Some(idx) = crate::text::find_sub(text, " has drawn first blood!") {
        proof {
            crate::text::lemma_find_sub(text@, " has drawn first blood!"@);
        }
        let killer_part = text.substring_char(0, idx);
        proof {
            assert(killer_part@ =~= text@.take(idx as int));
        }
        let (killer, killer_champion, _r) = match parse_player_with_champion_prefix(
            killer_part,
        ) {
            None => {
                return None;
            },
            Some(pcr) => pcr,
        };
        return Some(
            KillEvent {
                time: time.to_owned(),
                killer,
                killer_champion,
                victim: None,
                victim_champion: None,
                bounty: None,
                is_shutdown: false,
                is_first_blood: true,
            },
        );
    }
    None
}

/// The team credited by a team-objective line: one of the four recognized
/// team names opening the line, if any.
pub open spec fn team_of(text: Seq<char>) -> Option<Seq<char>> {
    if crate::text::sub_at(text, "Enemy team"@, 0) {
        Some("Enemy team"@)
    } else if crate::text::sub_at(text, "Ally team"@, 0) {
        Some("Ally team"@)
    } else if crate::text::sub_at(text, "Blue team"@, 0) {
        Some("Blue team"@)
    } else if crate::text::sub_at(text, "Red team"@, 0) {
        Some("Red team"@)
    } else {
        None
    }
}

/// A tactical marker that makes a line an objective/ping event even
/// without the team-objective phrase.
pub open spec fn has_objective_marker(text: Seq<char>) -> bool {
    ||| crate::text::contains_sub(text, "has targeted"@)
    ||| crate::text::contains_sub(text, "purchased "@)
    ||| crate::text::contains_sub(text, "is on rampage!"@)
    ||| crate::text::contains_sub(text, " is on the way"@)
    ||| crate::text::contains_sub(text, " is missing"@)
    ||| crate::text::contains_sub(text, " is retreating"@)
    ||| crate::text::contains_sub(text, " is in danger"@)
    ||| crate::text::contains_sub(text, " needs vision"@)
}

/// An objective/ping line: a team-objective phrase (with best-effort team
/// attribution) or any tactical marker, described by the full trimmed
/// text.
pub open spec fn objective_spec(time: Seq<char>, rest: Seq<char>) -> Option<ObjectiveEventView> {
    let text = trim_spec(rest);
    if crate::text::contains_sub(text, " has completed the "@) {
        Some(ObjectiveEventView { time, team: team_of(text), description: text })
    } else if has_objective_marker(text) {
        Some(ObjectiveEventView { time, team: None, description: text })
    } else {
        None
    }
}

/// Parse an objective/ping line, per the model `objective_spec`.
pub fn parse_objective_event(time: &str, rest: &str) -> (r: Option<ObjectiveEvent>)
    ensures
        match r {
            Some(o) => objective_spec(time@, rest@) == Some(o@),
            None => objective_spec(time@, rest@) is None,
        },
{
    let text = trim_str(rest);
    if crate::text::contains_str(text, " has completed the ") {
        let team: Option<String> = if crate::text::starts_with_str(text, "Enemy team") {
            Some("Enemy team".to_owned())
        } else if crate::text::starts_with_str(text, "Ally team") {
            Some("Ally team".to_owned())
        } else if crate::text::starts_with_str(text, "Blue team") {
            Some("Blue team".to_owned())
        } else if crate::text::starts_with_str(text, "Red team") {
            Some("Red team".to_owned())
        } else {
            None
        };
        return Some(
            ObjectiveEvent { time: time.to_owned(), team, description: text.to_owned() },
        );
    }
    if crate::text::contains_str(text, "has targeted") || crate::text::contains_str(
        text,
        "purchased ",
    ) || crate::text::contains_str(text, "is on rampage!") || crate::text::contains_str(
        text,
        " is on the way",
    ) || crate::text::contains_str(text, " is missing") || crate::text::contains_str(
        text,
        " is retreating",
    ) || crate::text::contains_str(text, " is in danger") || crate::text::contains_str(
        text,
        " needs vision",
    ) {
        return Some(
            ObjectiveEvent { time: time.to_owned(), team: None, description: text.to_owned() },
        );
    }
    None
}

} // verus!
