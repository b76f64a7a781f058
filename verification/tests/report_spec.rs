use lol_chat_parser::extract::{
    parse_chat_message, parse_kill_event, parse_objective_event,
    parse_player_with_champion_prefix, parse_target_player, parse_time_and_rest,
};
use lol_chat_parser::ChatChannel;
use lol_chat_parser::{parse_log, parse_timestamp};

#[test]
fn splitter_returns_time_and_rest() {
    let (time, rest) = parse_time_and_rest("00:52 kozakSyla (Lux) has drawn first blood!").unwrap();
    assert_eq!(time, "00:52");
    assert_eq!(rest, "kozakSyla (Lux) has drawn first blood!");
}

#[test]
fn first_blood_line_yields_expected_kill_event() {
    let parsed = parse_log("00:52 kozakSyla (Lux) has drawn first blood!");
    assert_eq!(parsed.kills.len(), 1);
    let k = &parsed.kills[0];
    assert_eq!(k.time, "00:52");
    assert_eq!(k.killer, "kozakSyla");
    assert_eq!(k.killer_champion, "Lux");
    assert!(k.victim.is_none());
    assert!(k.victim_champion.is_none());
    assert!(k.bounty.is_none());
    assert!(k.is_first_blood);
    assert!(!k.is_shutdown);
}

#[test]
fn shutdown_line_yields_expected_kill_event() {
    let parsed =
        parse_log("13:05 Golf4f (Mel) has shut down BorysBulba (Tahm Kench)! (Bonus Bounty: 149G)");
    assert_eq!(parsed.kills.len(), 1);
    let k = &parsed.kills[0];
    assert_eq!(k.time, "13:05");
    assert_eq!(k.killer, "Golf4f");
    assert_eq!(k.killer_champion, "Mel");
    assert_eq!(k.victim.as_deref(), Some("BorysBulba"));
    assert_eq!(k.victim_champion.as_deref(), Some("Tahm Kench"));
    assert_eq!(k.bounty, Some(149));
    assert!(k.is_shutdown);
    assert!(!k.is_first_blood);
}

#[test]
fn all_chat_line_yields_expected_message() {
    let parsed = parse_log("16:53 [All] piwkobb (Yone): hello this is all chat msg");
    assert_eq!(parsed.messages.len(), 1);
    let m = &parsed.messages[0];
    assert_eq!(m.time, "16:53");
    assert_eq!(m.channel, ChatChannel::All);
    assert_eq!(m.player, "piwkobb");
    assert_eq!(m.champion, "Yone");
    assert_eq!(m.text, "hello this is all chat msg");
}

#[test]
fn line_without_timestamp_becomes_system_line() {
    let parsed = parse_log("Type /help for a list of commands");
    assert_eq!(parsed.system.len(), 1);
    assert_eq!(parsed.system[0].text, "Type /help for a list of commands");
    assert!(parsed.kills.is_empty());
    assert!(parsed.events.is_empty());
    assert!(parsed.messages.is_empty());
    assert!(parsed.players.is_empty());
}

#[test]
fn pair_parser_round_trips_its_own_output() {
    let (player, champion, rest) =
        parse_player_with_champion_prefix("BorysBulba (Tahm Kench) purchased").unwrap();
    assert_eq!(player, "BorysBulba");
    assert_eq!(champion, "Tahm Kench");
    assert_eq!(rest, " purchased");
    let formatted = format!("{} ({})", player, champion);
    let (p2, c2, r2) = parse_player_with_champion_prefix(&formatted).unwrap();
    assert_eq!(p2, player);
    assert_eq!(c2, champion);
    assert_eq!(r2, "");
}

#[test]
fn pair_parser_rejects_empty_player_or_champion() {
    assert!(parse_player_with_champion_prefix("(Lux) fine").is_none());
    assert!(parse_player_with_champion_prefix("kozakSyla () fine").is_none());
    assert!(parse_player_with_champion_prefix("no parens at all").is_none());
}

#[test]
fn unknown_bracket_tag_fails_chat_extraction() {
    assert!(parse_chat_message("17:34", "[Foo] piwkobb (Yone): hi").is_none());
    assert!(parse_chat_message("17:34", "[all] piwkobb (Yone): hi").is_none());
    assert!(parse_chat_message("17:34", "[All piwkobb (Yone): hi").is_none());
    let parsed = parse_log("17:34 [Foo] piwkobb (Yone): hi");
    assert!(parsed.messages.is_empty());
}

#[test]
fn bare_chat_line_uses_player_channel() {
    let m = parse_chat_message("12:00", "uskin432 (Warwick): ward top bush").unwrap();
    assert_eq!(m.channel, ChatChannel::Player);
    assert_eq!(m.player, "uskin432");
    assert_eq!(m.text, "ward top bush");
}

#[test]
fn chat_message_text_may_be_empty() {
    let m = parse_chat_message("12:00", "uskin432 (Warwick):").unwrap();
    assert_eq!(m.text, "");
}

#[test]
fn shutdown_without_bounty_digits_has_no_bounty() {
    let k = parse_kill_event("13:05", "A (B) has shut down C (D)! (Bonus Bounty: G)").unwrap();
    assert!(k.is_shutdown);
    assert_eq!(k.bounty, None);
}

#[test]
fn shutdown_with_huge_bounty_has_no_bounty() {
    let k = parse_kill_event(
        "13:05",
        "A (B) has shut down C (D)! (Bonus Bounty: 99999999999999999999G)",
    )
    .unwrap();
    assert!(k.is_shutdown);
    assert_eq!(k.bounty, None);
}

#[test]
fn kill_event_flags_are_exclusive() {
    let fb = parse_kill_event("00:52", "kozakSyla (Lux) has drawn first blood!").unwrap();
    assert!(fb.is_first_blood != fb.is_shutdown);
    let sd = parse_kill_event("13:05", "Golf4f (Mel) has shut down BorysBulba (Tahm Kench)! (Bonus Bounty: 149G)")
        .unwrap();
    assert!(sd.is_first_blood != sd.is_shutdown);
    assert_eq!(sd.victim.is_some(), sd.is_shutdown);
}

#[test]
fn team_feat_lines_attribute_each_team_variant() {
    for team in ["Enemy team", "Ally team", "Blue team", "Red team"] {
        let rest = format!("{} has completed the Feat of Warfare!", team);
        let o = parse_objective_event("02:24", &rest).unwrap();
        assert_eq!(o.team.as_deref(), Some(team));
        assert_eq!(o.description, rest);
    }
}

#[test]
fn team_feat_line_without_known_team_still_produces_event() {
    let o = parse_objective_event("02:24", "Someone has completed the Feat of Warfare!").unwrap();
    assert!(o.team.is_none());
}

#[test]
fn tactical_marker_lines_produce_events() {
    for rest in [
        "piwkobb (Yone) has targeted TheMiozl - (Renekton)",
        "BorysBulba (Tahm Kench) purchased Control Ward",
        "kozakSyla (Lux) is on rampage!",
        "uskin432 (Warwick) is on the way",
        "uskin432 (Warwick) is missing",
        "uskin432 (Warwick) is retreating",
        "uskin432 (Warwick) is in danger",
        "uskin432 (Warwick) needs vision",
    ] {
        let o = parse_objective_event("10:00", rest).unwrap();
        assert!(o.team.is_none());
        assert_eq!(o.description, rest);
    }
    assert!(parse_objective_event("10:00", "nothing tactical here").is_none());
}

#[test]
fn target_parser_extracts_targeted_player() {
    let (name, champ) =
        parse_target_player("piwkobb (Yone) has targeted TheMiozl - (Renekton)").unwrap();
    assert_eq!(name, "TheMiozl");
    assert_eq!(champ, "Renekton");
    assert!(parse_target_player("kozakSyla (Lux) has targeted the Power Flower (33%)").is_none());
}

#[test]
fn players_are_sorted_and_champions_accumulate_sorted() {
    let log = "10:00 zed (Zed): hi\n10:01 abe (Warwick): hi\n10:02 abe (Ahri): hi\n10:03 abe (Warwick): again";
    let parsed = parse_log(log);
    let names: Vec<_> = parsed.players.iter().map(|p| p.name.as_str()).collect();
    assert_eq!(names, vec!["abe", "zed"]);
    assert_eq!(parsed.players[0].champions, vec!["Ahri", "Warwick"]);
    assert_eq!(parsed.players[1].champions, vec!["Zed"]);
}

#[test]
fn event_lists_preserve_line_order() {
    let log = "10:00 a (A) is on the way\n10:01 b (B) has drawn first blood!\n10:02 c (C) is missing\njunk line\n10:03 d (D): hello";
    let parsed = parse_log(log);
    assert_eq!(parsed.events.len(), 2);
    assert_eq!(parsed.events[0].time, "10:00");
    assert_eq!(parsed.events[1].time, "10:02");
    assert_eq!(parsed.kills.len(), 1);
    assert_eq!(parsed.messages.len(), 1);
    assert_eq!(parsed.system.len(), 1);
    assert_eq!(parsed.system[0].text, "junk line");
}

#[test]
fn fallback_pair_only_registers_player() {
    let parsed = parse_log("10:00 piwkobb (Yone) did something weird");
    assert!(parsed.kills.is_empty());
    assert!(parsed.events.is_empty());
    assert!(parsed.messages.is_empty());
    assert!(parsed.system.is_empty());
    assert_eq!(parsed.players.len(), 1);
    assert_eq!(parsed.players[0].name, "piwkobb");
    assert_eq!(parsed.players[0].champions, vec!["Yone"]);
}

#[test]
fn targeting_line_registers_both_players() {
    let parsed = parse_log("15:40 piwkobb (Yone) has targeted TheMiozl - (Renekton)");
    let names: Vec<_> = parsed.players.iter().map(|p| p.name.as_str()).collect();
    assert_eq!(names, vec!["TheMiozl", "piwkobb"]);
}

#[test]
fn blank_lines_are_skipped() {
    let parsed = parse_log("\n\n   \n");
    assert!(parsed.system.is_empty());
    assert!(parsed.players.is_empty());
}

#[test]
fn lines_are_trimmed_before_parsing() {
    let parsed = parse_log("   00:52 kozakSyla (Lux) has drawn first blood!   ");
    assert_eq!(parsed.kills.len(), 1);
    let parsed2 = parse_log("   stray text   ");
    assert_eq!(parsed2.system[0].text, "stray text");
}

#[test]
fn handles_carriage_return_line_endings() {
    let parsed = parse_log("00:52 kozakSyla (Lux) has drawn first blood!\r\n10:00 abe (Warwick): hi\r\n");
    assert_eq!(parsed.kills.len(), 1);
    assert_eq!(parsed.messages.len(), 1);
    assert_eq!(parsed.messages[0].text, "hi");
}

#[test]
fn timestamp_helper_matches_splitter() {
    let ts = parse_timestamp("18:32 kozakSyla (Lux) has targeted the Power Flower (33%)").unwrap();
    assert_eq!(ts, "18:32");
}
