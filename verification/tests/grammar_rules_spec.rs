use lol_chat_parser::LolChatParser;

#[test]
fn rule_time_parses_timestamp() {
    assert!(LolChatParser::time("17:34"));
}

#[test]
fn rule_line_parses_full_line() {
    let input = "17:34 [Team] kozakSyla (Lux): hi in team chat";
    assert!(LolChatParser::line(input));
}

#[test]
fn rule_line_body_parses_body_only() {
    let input = "[All] piwkobb (Yone): hello this is all chat msg";
    assert!(LolChatParser::line_body(input));
    assert!(LolChatParser::chat_message(input));
}

#[test]
fn rule_player_name_parses_simple_name() {
    assert!(LolChatParser::player_name("uskin432"));
}

#[test]
fn rule_word_parses_word_with_apostrophe() {
    assert!(LolChatParser::word("Cho'Gath"));
}

#[test]
fn rule_champion_name_single_word() {
    assert!(LolChatParser::champion_name("Yone"));
}

#[test]
fn rule_champion_name_multi_word() {
    assert!(LolChatParser::champion_name("Tahm Kench"));
}

#[test]
fn rule_player_with_champion_parses_pair() {
    let input = "BorysBulba (Tahm Kench)";
    assert!(LolChatParser::player_with_champion(input));
}

#[test]
fn rule_channel_tag_parses_all_team_party() {
    for input in ["[All]", "[Team]", "[Party]"] {
        assert!(LolChatParser::channel_tag(input));
    }
}

#[test]
fn rule_number_parses_integer() {
    assert!(LolChatParser::number("149"));
}

#[test]
fn rule_percentage_parses_percentage_digits() {
    assert!(LolChatParser::percentage("33"));
}

#[test]
fn rule_percentage_accepts_percent_sign() {
    assert!(LolChatParser::percentage("33%"));
    assert!(!LolChatParser::percentage("%"));
}

#[test]
fn rule_name_phrase_parses_multi_word() {
    assert!(LolChatParser::name_phrase("Feat of Warfare"));
}

#[test]
fn rule_channel_chat_message_parses_all_chat() {
    let input = "[All] piwkobb (Yone): hello this is all chat msg";
    assert!(LolChatParser::channel_chat_message(input));
}

#[test]
fn rule_channel_chat_message_parses_team_chat() {
    let input = "[Team] kozakSyla (Lux): hi in team chat";
    assert!(LolChatParser::channel_chat_message(input));
}

#[test]
fn rule_channel_chat_message_parses_party_chat() {
    let input = "[Party] piwkobb (Yone): Cho'Gath Heartsteel - 20 charges";
    assert!(LolChatParser::channel_chat_message(input));
}

#[test]
fn rule_bare_chat_message_parses_player_chat() {
    let input = "uskin432 (Warwick): ward top bush";
    assert!(LolChatParser::bare_chat_message(input));
}

#[test]
fn rule_chat_message_parses_any_chat() {
    let input = "[All] piwkobb (Yone): hello this is all chat msg";
    assert!(LolChatParser::chat_message(input));
    assert!(LolChatParser::channel_chat_message(input));
}

#[test]
fn rule_chat_text_parses_full_message() {
    assert!(LolChatParser::chat_text("hello this is all chat msg"));
}

#[test]
fn rule_kill_first_blood_event_parses() {
    let input = "kozakSyla (Lux) has drawn first blood!";
    assert!(LolChatParser::kill_first_blood_event(input));
}

#[test]
fn rule_shutdown_bounty_parses() {
    let input = "(Bonus Bounty: 149G)";
    assert!(LolChatParser::shutdown_bounty(input));
}

#[test]
fn rule_kill_shutdown_event_parses() {
    let input = "Golf4f (Mel) has shut down BorysBulba (Tahm Kench)! (Bonus Bounty: 149G)";
    assert!(LolChatParser::kill_shutdown_event(input));
}

#[test]
fn rule_team_name_parses_enemy_team() {
    assert!(LolChatParser::team_name("Enemy team"));
}

#[test]
fn rule_team_feat_event_parses() {
    let input = "Enemy team has completed the Feat of Warfare!";
    assert!(LolChatParser::team_feat_event(input));
}

#[test]
fn rule_purchase_event_parses() {
    let input = "BorysBulba (Tahm Kench) purchased Control Ward";
    assert!(LolChatParser::purchase_event(input));
}

#[test]
fn rule_target_player_event_parses() {
    let input = "piwkobb (Yone) has targeted TheMiozl - (Renekton)";
    assert!(LolChatParser::target_player_event(input));
}

#[test]
fn rule_target_objective_event_parses() {
    let input = "kozakSyla (Lux) has targeted the Power Flower (33%)";
    assert!(LolChatParser::target_objective_event(input));
}

#[test]
fn rule_rampage_event_parses() {
    let input = "kozakSyla (Lux) is on rampage!";
    assert!(LolChatParser::rampage_event(input));
}

#[test]
fn rule_ping_on_the_way_event_parses() {
    let input = "uskin432 (Warwick) is on the way";
    assert!(LolChatParser::ping_on_the_way_event(input));
}

#[test]
fn rule_generic_player_event_parses() {
    let input = "piwkobb (Yone) did something weird";
    assert!(LolChatParser::generic_player_event(input));
}

#[test]
fn rule_generic_tail_parses_rest() {
    assert!(LolChatParser::generic_tail("did something weird"));
}

#[test]
fn rule_generic_text_parses_any_text() {
    assert!(LolChatParser::generic_text("some totally unknown text here"));
}
