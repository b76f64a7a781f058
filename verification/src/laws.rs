//! The library's general laws, stated over the extraction and aggregation
//! models and proved once for all inputs.

use vstd::prelude::*;

use crate::extract::{channel_of_tag, chat_spec, kill_spec, pair_spec, split_time_spec};
use crate::grammar::is_clock;
use crate::model::{ChatChannel, PlayerSummaryView};
use crate::roster::{
    champs_set, lemma_champs_set_only, record_pair, roster_map, lemma_roster_map_absent,
};
use crate::text::{
    find_char_spec, lemma_find_char, lemma_find_char_at, lemma_trim_fixed_ends,
    sub_at, trim_spec, trim_start_spec,
};
use crate::{acc_empty, fold_lines, kill_players, objective_players, parse_log_acc, step_line,
    LogAcc};

verus! {

/// A line made of a clock token, a single space and a remainder splits
/// into exactly that token and that remainder.
pub proof fn lemma_timestamp_round_trip(time: Seq<char>, rest: Seq<char>)
    requires
        is_clock(time),
    ensures
        split_time_spec(time + seq![' '] + rest) == Some((time, rest)),
{
    let line = time + seq![' '] + rest;
    assert(line[time.len() as int] == ' ');
    assert forall|j: int| 0 <= j < time.len() implies line[j] != ' ' by {
        assert(line[j] == time[j]);
        assert(crate::text::is_digit_char(time[j]) || time[j] == ':');
    }
    lemma_find_char_at(line, ' ', time.len() as int);
    assert(line.take(time.len() as int) =~= time);
    assert(line.skip(time.len() as int + 1) =~= rest);
}

/// A line whose token before the first space holds no colon has no
/// timestamp.
pub proof fn lemma_no_colon_no_timestamp(line: Seq<char>)
    requires
        match find_char_spec(line, ' ') {
            Some(i) => forall|j: int| 0 <= j < i ==> line[j] != ':',
            None => true,
        },
    ensures
        split_time_spec(line) is None,
{
    match find_char_spec(line, ' ') {
        Some(i) => {
            lemma_find_char(line, ' ');
            let tok = line.take(i);
            assert(forall|j: int| 0 <= j < tok.len() ==> #[trigger] tok[j] == line[j]);
            assert(!is_clock(tok));
        },
        None => {},
    }
}

/// A non-blank line without a timestamp becomes exactly one system line
/// and changes nothing else.
pub proof fn lemma_system_line(acc: LogAcc, line: Seq<char>)
    requires
        trim_spec(line).len() > 0,
        split_time_spec(trim_spec(line)) is None,
    ensures
        step_line(acc, line).system == acc.system.push(
            crate::model::SystemLineView { text: trim_spec(line) },
        ),
        step_line(acc, line).players == acc.players,
        step_line(acc, line).kills == acc.kills,
        step_line(acc, line).events == acc.events,
        step_line(acc, line).messages == acc.messages,
{
}

/// Formatting a non-empty, trim-fixed, paren-free pair back as
/// `name (champion)` and re-parsing it recovers the same pair exactly.
pub proof fn lemma_pair_round_trip(name: Seq<char>, champ: Seq<char>)
    requires
        name.len() > 0,
        champ.len() > 0,
        trim_spec(name) == name,
        trim_spec(champ) == champ,
        forall|i: int| 0 <= i < name.len() ==> name[i] != '(',
        forall|i: int| 0 <= i < champ.len() ==> champ[i] != '(' && champ[i] != ')',
    ensures
        pair_spec(name + " ("@ + champ + ")"@) == Some((name, champ, Seq::<char>::empty())),
{
    reveal_strlit(" (");
    reveal_strlit(")");
    let s = name + " ("@ + champ + ")"@;
    lemma_trim_fixed_ends(name);
    lemma_trim_fixed_ends(champ);
    assert(s[0] == name[0]);
    assert(trim_start_spec(s) == s);
    let open = name.len() as int + 1;
    assert(s[open] == '(');
    assert forall|j: int| 0 <= j < open implies s[j] != '(' by {
        if j < name.len() {
            assert(s[j] == name[j]);
        } else {
            assert(s[j] == ' ');
        }
    }
    lemma_find_char_at(s, '(', open);
    let t = s.skip(open);
    let off = champ.len() as int + 1;
    assert(t[off] == s[open + off]);
    assert(s[open + off] == ')');
    assert forall|j: int| 0 <= j < off implies t[j] != ')' by {
        assert(t[j] == s[open + j]);
        if j == 0 {
            assert(s[open] == '(');
        } else {
            assert(s[open + j] == champ[j - 1]);
        }
    }
    lemma_find_char_at(t, ')', off);
    let close = open + off;
    assert(s.take(open) =~= name + seq![' ']);
    assert((name + seq![' ']).drop_last() =~= name);
    assert(trim_start_spec(name + seq![' ']) == name + seq![' ']);
    assert(crate::text::trim_end_spec(name + seq![' ']) == crate::text::trim_end_spec(name));
    assert(trim_spec(name + seq![' ']) == name);
    assert(s.subrange(open + 1, close) =~= champ);
    assert(s.skip(close + 1) =~= Seq::<char>::empty());
}

/// Grammar/extractor conformance for pairs: every string of the grammar's
/// `player_with_champion` shape is accepted by the procedural pair parser,
/// which recovers a grammar-shaped player and champion and consumes the
/// whole string.
pub proof fn lemma_pair_conformance(s: Seq<char>)
    requires
        crate::grammar::rule_player_with_champion(s),
    ensures
        match pair_spec(s) {
            Some(pcr) => crate::grammar::rule_player_name(pcr.0)
                && crate::grammar::rule_champion_name(pcr.1) && pcr.2.len() == 0,
            None => false,
        },
{
    lemma_find_char(s, ' ');
    let i = match find_char_spec(s, ' ') {
        Some(i) => i,
        None => 0,
    };
    let w = s.take(i);
    let c = s.subrange(i + 2, s.len() - 1);
    assert(forall|j: int| 0 <= j < w.len() ==> #[trigger] w[j] == s[j]);
    assert(forall|j: int| 0 <= j < c.len() ==> #[trigger] c[j] == s[i + 2 + j]);
    assert(s.len() > 0);
    assert(s[0] == w[0]);
    assert(crate::grammar::is_word_char(s[0]));
    assert(trim_start_spec(s) == s);
    assert forall|j: int| 0 <= j < i + 1 implies s[j] != '(' by {
        if j < i {
            assert(crate::grammar::is_word_char(w[j]));
        }
    }
    lemma_find_char_at(s, '(', i + 1);
    let t = s.skip(i + 1);
    assert(forall|j: int| 0 <= j < t.len() ==> #[trigger] t[j] == s[i + 1 + j]);
    let off = s.len() - 1 - (i + 1);
    assert(t[off] == s[s.len() - 1]);
    assert forall|j: int| 0 <= j < off implies t[j] != ')' by {
        if j > 0 {
            assert(crate::grammar::is_word_char(c[j - 1]) || c[j - 1] == ' ');
        }
    }
    lemma_find_char_at(t, ')', off);
    let close = i + 1 + off;
    assert(s.take(i + 1) =~= w + seq![' ']);
    assert((w + seq![' ']).drop_last() =~= w);
    assert(crate::grammar::is_word_char(w[w.len() - 1]));
    assert(trim_start_spec(w + seq![' ']) == w + seq![' ']);
    assert(crate::text::trim_end_spec(w + seq![' ']) == crate::text::trim_end_spec(w));
    assert(crate::text::trim_end_spec(w) == w);
    assert(trim_spec(s.take(i + 1)) == w);
    assert(s.subrange(i + 1 + 1, close) =~= c);
    assert(crate::grammar::is_word_char(c[0]));
    assert(crate::grammar::is_word_char(c[c.len() - 1]));
    assert(trim_start_spec(c) == c);
    assert(crate::text::trim_end_spec(c) == c);
    assert(s.skip(close + 1) =~= Seq::<char>::empty());
    assert(pair_spec(s) == Some((w, c, Seq::<char>::empty())));
}

/// Any kill the classifier produces is exactly one of a shutdown and a
/// first blood, and carries victim fields exactly when it is a shutdown.
pub proof fn lemma_kill_event_exclusive(time: Seq<char>, rest: Seq<char>)
    ensures
        match kill_spec(time, rest) {
            Some(k) => {
                &&& k.is_shutdown != k.is_first_blood
                &&& k.is_shutdown == (k.victim is Some)
                &&& k.is_shutdown == (k.victim_champion is Some)
                &&& k.is_first_blood ==> k.bounty is None
            },
            None => true,
        },
{
}

/// A body opening with one of the three exact channel tags yields that
/// channel whenever a chat message is extracted at all; any other
/// bracketed opening makes chat extraction fail.
pub proof fn lemma_channel_detection(time: Seq<char>, rest: Seq<char>)
    ensures
        ({
            let t = trim_start_spec(rest);
            &&& sub_at(t, "[All]"@, 0) ==> (match chat_spec(time, rest) {
                Some(m) => m.channel == ChatChannel::All,
                None => true,
            })
            &&& sub_at(t, "[Team]"@, 0) ==> (match chat_spec(time, rest) {
                Some(m) => m.channel == ChatChannel::Team,
                None => true,
            })
            &&& sub_at(t, "[Party]"@, 0) ==> (match chat_spec(time, rest) {
                Some(m) => m.channel == ChatChannel::Party,
                None => true,
            })
            &&& (t.len() > 0 && t[0] == '[' && (match find_char_spec(t, ']') {
                Some(c) => channel_of_tag(t.subrange(1, c)) is None,
                None => true,
            })) ==> chat_spec(time, rest) is None
        }),
{
    let t = trim_start_spec(rest);
    reveal_strlit("[All]");
    reveal_strlit("[Team]");
    reveal_strlit("[Party]");
    reveal_strlit("All");
    reveal_strlit("Team");
    reveal_strlit("Party");
    if sub_at(t, "[All]"@, 0) {
        assert forall|j: int| 0 <= j < 5 implies #[trigger] t[j] == "[All]"@[j] by {
            assert(t.subrange(0, 5)[j] == t[j]);
        }
        lemma_find_char_at(t, ']', 4);
        assert(t.subrange(1, 4) =~= "All"@);
    }
    if sub_at(t, "[Team]"@, 0) {
        assert forall|j: int| 0 <= j < 6 implies #[trigger] t[j] == "[Team]"@[j] by {
            assert(t.subrange(0, 6)[j] == t[j]);
        }
        lemma_find_char_at(t, ']', 5);
        assert(t.subrange(1, 5) =~= "Team"@);
    }
    if sub_at(t, "[Party]"@, 0) {
        assert forall|j: int| 0 <= j < 7 implies #[trigger] t[j] == "[Party]"@[j] by {
            assert(t.subrange(0, 7)[j] == t[j]);
        }
        lemma_find_char_at(t, ']', 6);
        assert(t.subrange(1, 6) =~= "Party"@);
    }
}

/// A player holds a champion in the abstract roster.
pub open spec fn player_has(m: Map<Seq<char>, Set<Seq<char>>>, p: Seq<char>, c: Seq<char>) -> bool {
    m.contains_key(p) && m[p].contains(c)
}

/// Roster completeness over a report state: every player-bearing field of
/// every message and kill is registered with its champion.
pub open spec fn acc_complete(acc: LogAcc) -> bool {
    &&& forall|i: int| 0 <= i < acc.messages.len() ==> player_has(
        acc.players,
        (#[trigger] acc.messages[i]).player,
        acc.messages[i].champion,
    )
    &&& forall|i: int| 0 <= i < acc.kills.len() ==> player_has(
        acc.players,
        (#[trigger] acc.kills[i]).killer,
        acc.kills[i].killer_champion,
    )
    &&& forall|i: int| 0 <= i < acc.kills.len() ==> match (
        (#[trigger] acc.kills[i]).victim,
        acc.kills[i].victim_champion,
    ) {
        (Some(v), Some(vc)) => player_has(acc.players, v, vc),
        _ => true,
    }
}

/// Recording a pair registers it.
proof fn lemma_record_pair_has(m: Map<Seq<char>, Set<Seq<char>>>, p: Seq<char>, c: Seq<char>)
    ensures
        player_has(record_pair(m, p, c), p, c),
{
}

/// Recording a pair keeps every registration already present.
proof fn lemma_record_pair_mono(
    m: Map<Seq<char>, Set<Seq<char>>>,
    p: Seq<char>,
    c: Seq<char>,
    p2: Seq<char>,
    c2: Seq<char>,
)
    requires
        player_has(m, p2, c2),
    ensures
        player_has(record_pair(m, p, c), p2, c2),
{
}

/// One classification step preserves roster completeness.
proof fn lemma_step_complete(acc: LogAcc, line: Seq<char>)
    requires
        acc_complete(acc),
    ensures
        acc_complete(step_line(acc, line)),
{
    let a1 = step_line(acc, line);
    let trimmed = trim_spec(line);
    if trimmed.len() == 0 {
    } else {
        match split_time_spec(trimmed) {
            None => {},
            Some((time, rest)) => {
                match chat_spec(time, rest) {
                    Some(m) => {
                        lemma_record_pair_has(acc.players, m.player, m.champion);
                        assert forall|i: int| 0 <= i < a1.messages.len() implies player_has(
                            a1.players,
                            (#[trigger] a1.messages[i]).player,
                            a1.messages[i].champion,
                        ) by {
                            if i < acc.messages.len() {
                                lemma_record_pair_mono(
                                    acc.players,
                                    m.player,
                                    m.champion,
                                    acc.messages[i].player,
                                    acc.messages[i].champion,
                                );
                            }
                        }
                        assert forall|i: int| 0 <= i < a1.kills.len() implies player_has(
                            a1.players,
                            (#[trigger] a1.kills[i]).killer,
                            a1.kills[i].killer_champion,
                        ) && (match (a1.kills[i].victim, a1.kills[i].victim_champion) {
                            (Some(v), Some(vc)) => player_has(a1.players, v, vc),
                            _ => true,
                        }) by {
                            lemma_record_pair_mono(
                                acc.players,
                                m.player,
                                m.champion,
                                acc.kills[i].killer,
                                acc.kills[i].killer_champion,
                            );
                            match (acc.kills[i].victim, acc.kills[i].victim_champion) {
                                (Some(v), Some(vc)) => {
                                    lemma_record_pair_mono(
                                        acc.players,
                                        m.player,
                                        m.champion,
                                        v,
                                        vc,
                                    );
                                },
                                _ => {},
                            }
                        }
                    },
                    None => match kill_spec(time, rest) {
                        Some(k) => {
                            let m1 = record_pair(acc.players, k.killer, k.killer_champion);
                            lemma_record_pair_has(acc.players, k.killer, k.killer_champion);
                            match (k.victim, k.victim_champion) {
                                (Some(v), Some(vc)) => {
                                    lemma_record_pair_mono(
                                        m1,
                                        v,
                                        vc,
                                        k.killer,
                                        k.killer_champion,
                                    );
                                    lemma_record_pair_has(m1, v, vc);
                                },
                                _ => {},
                            }
                            assert(player_has(a1.players, k.killer, k.killer_champion));
                            assert forall|i: int| 0 <= i < a1.messages.len() implies player_has(
                                a1.players,
                                (#[trigger] a1.messages[i]).player,
                                a1.messages[i].champion,
                            ) by {
                                lemma_players_grow_kill(acc.players, k, acc.messages[i].player,
                                    acc.messages[i].champion);
                            }
                            assert forall|i: int| 0 <= i < a1.kills.len() implies player_has(
                                a1.players,
                                (#[trigger] a1.kills[i]).killer,
                                a1.kills[i].killer_champion,
                            ) && (match (a1.kills[i].victim, a1.kills[i].victim_champion) {
                                (Some(v), Some(vc)) => player_has(a1.players, v, vc),
                                _ => true,
                            }) by {
                                if i < acc.kills.len() {
                                    lemma_players_grow_kill(acc.players, k, acc.kills[i].killer,
                                        acc.kills[i].killer_champion);
                                    match (acc.kills[i].victim, acc.kills[i].victim_champion) {
                                        (Some(v), Some(vc)) => {
                                            lemma_players_grow_kill(acc.players, k, v, vc);
                                        },
                                        _ => {},
                                    }
                                }
                            }
                        },
                        None => match crate::extract::objective_spec(time, rest) {
                            Some(_o) => {
                                assert forall|i: int|
                                    0 <= i < a1.messages.len() implies player_has(
                                    a1.players,
                                    (#[trigger] a1.messages[i]).player,
                                    a1.messages[i].champion,
                                ) by {
                                    lemma_players_grow_objective(acc.players, rest,
                                        acc.messages[i].player, acc.messages[i].champion);
                                }
                                assert forall|i: int| 0 <= i < a1.kills.len() implies player_has(
                                    a1.players,
                                    (#[trigger] a1.kills[i]).killer,
                                    a1.kills[i].killer_champion,
                                ) && (match (a1.kills[i].victim, a1.kills[i].victim_champion) {
                                    (Some(v), Some(vc)) => player_has(a1.players, v, vc),
                                    _ => true,
                                }) by {
                                    lemma_players_grow_objective(acc.players, rest,
                                        acc.kills[i].killer, acc.kills[i].killer_champion);
                                    match (acc.kills[i].victim, acc.kills[i].victim_champion) {
                                        (Some(v), Some(vc)) => {
                                            lemma_players_grow_objective(acc.players, rest, v, vc);
                                        },
                                        _ => {},
                                    }
                                }
                            },
                            None => match pair_spec(rest) {
                                Some(pcr) => {
                                    assert forall|i: int|
                                        0 <= i < a1.messages.len() implies player_has(
                                        a1.players,
                                        (#[trigger] a1.messages[i]).player,
                                        a1.messages[i].champion,
                                    ) by {
                                        lemma_record_pair_mono(acc.players, pcr.0, pcr.1,
                                            acc.messages[i].player, acc.messages[i].champion);
                                    }
                                    assert forall|i: int|
                                        0 <= i < a1.kills.len() implies player_has(
                                        a1.players,
                                        (#[trigger] a1.kills[i]).killer,
                                        a1.kills[i].killer_champion,
                                    ) && (match (a1.kills[i].victim, a1.kills[i].victim_champion) {
                                        (Some(v), Some(vc)) => player_has(a1.players, v, vc),
                                        _ => true,
                                    }) by {
                                        lemma_record_pair_mono(acc.players, pcr.0, pcr.1,
                                            acc.kills[i].killer, acc.kills[i].killer_champion);
                                        match (acc.kills[i].victim, acc.kills[i].victim_champion) {
                                            (Some(v), Some(vc)) => {
                                                lemma_record_pair_mono(acc.players, pcr.0, pcr.1,
                                                    v, vc);
                                            },
                                            _ => {},
                                        }
                                    }
                                },
                                None => {},
                            },
                        },
                    },
                }
            },
        }
    }
}

/// Registering a kill's players keeps every registration already present.
proof fn lemma_players_grow_kill(
    m: Map<Seq<char>, Set<Seq<char>>>,
    k: crate::model::KillEventView,
    p: Seq<char>,
    c: Seq<char>,
)
    requires
        player_has(m, p, c),
    ensures
        player_has(kill_players(m, k), p, c),
{
    let m1 = record_pair(m, k.killer, k.killer_champion);
    lemma_record_pair_mono(m, k.killer, k.killer_champion, p, c);
    match (k.victim, k.victim_champion) {
        (Some(v), Some(vc)) => {
            lemma_record_pair_mono(m1, v, vc, p, c);
        },
        _ => {},
    }
}

/// Registering an objective line's players keeps every registration
/// already present.
proof fn lemma_players_grow_objective(
    m: Map<Seq<char>, Set<Seq<char>>>,
    rest: Seq<char>,
    p: Seq<char>,
    c: Seq<char>,
)
    requires
        player_has(m, p, c),
    ensures
        player_has(objective_players(m, rest), p, c),
{
    let m1 = match pair_spec(rest) {
        Some(pcr) => record_pair(m, pcr.0, pcr.1),
        None => m,
    };
    match pair_spec(rest) {
        Some(pcr) => {
            lemma_record_pair_mono(m, pcr.0, pcr.1, p, c);
        },
        None => {},
    }
    match crate::extract::target_spec(rest) {
        Some(tc) => {
            lemma_record_pair_mono(m1, tc.0, tc.1, p, c);
        },
        None => {},
    }
}

/// Folding any lines over a complete state keeps it complete.
proof fn lemma_fold_complete(acc: LogAcc, lines: Seq<Seq<char>>)
    requires
        acc_complete(acc),
    ensures
        acc_complete(fold_lines(acc, lines)),
    decreases lines.len(),
{
    if lines.len() > 0 {
        lemma_fold_complete(acc, lines.drop_last());
        lemma_step_complete(fold_lines(acc, lines.drop_last()), lines.last());
    }
}

/// Roster completeness of a whole log: every player named by a message or
/// a kill of the report state is registered with that champion.
pub proof fn lemma_roster_completeness(input: Seq<char>)
    ensures
        acc_complete(parse_log_acc(input)),
{
    assert(acc_complete(acc_empty()));
    lemma_fold_complete(acc_empty(), crate::text::split_lines_spec(input));
}

/// A registration in the abstract roster appears in the sorted roster
/// vector: some entry bears the player's name and lists the champion.
pub proof fn lemma_roster_entry(r: Seq<PlayerSummaryView>, p: Seq<char>, c: Seq<char>)
    requires
        player_has(roster_map(r), p, c),
    ensures
        exists|i: int|
            0 <= i < r.len() && (#[trigger] r[i]).name == p && r[i].champions.contains(c),
    decreases r.len(),
{
    if r.len() > 0 {
        if p == r.last().name {
            assert(roster_map(r)[p] == champs_set(r.last().champions));
            lemma_champs_set_only(r.last().champions, c);
            let k = choose|k: int|
                0 <= k < r.last().champions.len() && r.last().champions[k] == c;
            assert(r[r.len() - 1].name == p && r[r.len() - 1].champions.contains(c));
        } else {
            lemma_roster_entry(r.drop_last(), p, c);
            let i = choose|i: int|
                0 <= i < r.drop_last().len() && (#[trigger] r.drop_last()[i]).name == p
                    && r.drop_last()[i].champions.contains(c);
            assert(r[i].name == p && r[i].champions.contains(c));
        }
    } else {
        lemma_roster_map_absent(r, p);
    }
}

/// Encounter order is preserved: folding further lines only appends to
/// the kill, event, message and system lists.
pub proof fn lemma_order_preserved(acc: LogAcc, lines: Seq<Seq<char>>)
    ensures
        acc.kills.is_prefix_of(fold_lines(acc, lines).kills),
        acc.events.is_prefix_of(fold_lines(acc, lines).events),
        acc.messages.is_prefix_of(fold_lines(acc, lines).messages),
        acc.system.is_prefix_of(fold_lines(acc, lines).system),
    decreases lines.len(),
{
    if lines.len() > 0 {
        lemma_order_preserved(acc, lines.drop_last());
        let a1 = fold_lines(acc, lines.drop_last());
        let a2 = step_line(a1, lines.last());
        assert(a1.kills.is_prefix_of(a2.kills));
        assert(a1.events.is_prefix_of(a2.events));
        assert(a1.messages.is_prefix_of(a2.messages));
        assert(a1.system.is_prefix_of(a2.system));
    }
}

} // verus!
