//! The formal shape grammar of log lines.
//!
//! The grammar is the authoritative description of the token and line
//! shapes the extractor cascade recognizes.  Each rule is a spec predicate
//! over `Seq<char>`, and [`LolChatParser`] offers an exec recognizer per
//! rule, proved to decide exactly that predicate.

use vstd::prelude::*;
use vstd::string::StrSliceExecFns;

use crate::text::{
    is_digit_char, find_char_spec, find_char, find_sub_spec, find_sub, sub_at, lemma_find_char,
    lemma_find_sub, starts_with_str, match_at, str_eq,
};

verus! {

/// A clock-format timestamp: one or more digit groups separated by single
/// colons (`MM:SS`, also `H:MM:SS`); shape only, not validated as a clock
/// value.
pub open spec fn is_clock(s: Seq<char>) -> bool {
    &&& s.len() >= 3
    &&& is_digit_char(s[0])
    &&& is_digit_char(s[s.len() - 1])
    &&& forall|i: int| 0 <= i < s.len() ==> is_digit_char(s[i]) || s[i] == ':'
    &&& exists|i: int| 0 <= i < s.len() && s[i] == ':'
    &&& forall|i: int| 0 <= i < s.len() - 1 ==> !(#[trigger] s[i] == ':' && s[i + 1] == ':')
}

/// Decide `is_clock` on a string.
pub fn check_clock(s: &str) -> (b: bool)
    ensures
        b == is_clock(s@),
{
    let n = s.unicode_len();
    if n < 3 {
        return false;
    }
    let mut seen_colon = false;
    let mut i: usize = 0;
    while i < n
        invariant
            0 <= i <= n,
            3 <= n == s@.len(),
            forall|j: int| 0 <= j < i ==> is_digit_char(s@[j]) || s@[j] == ':',
            seen_colon == exists|j: int| 0 <= j < i && s@[j] == ':',
            forall|j: int| 0 <= j < i - 1 ==> !(#[trigger] s@[j] == ':' && s@[j + 1] == ':'),
            i > 0 ==> is_digit_char(s@[0]),
        decreases n - i,
    {
        let c = s.get_char(i);
        if c == ':' {
            if i == 0 {
                return false;
            }
            if s.get_char(i - 1) == ':' {
                return false;
            }
            seen_colon = true;
        } else if !('0' <= c && c <= '9') {
            return false;
        }
        i = i + 1;
    }
    if !seen_colon {
        return false;
    }
    if !('0' <= s.get_char(n - 1) && s.get_char(n - 1) <= '9') {
        return false;
    }
    true
}

/// A character that may appear inside a single name word: ASCII letters,
/// digits, apostrophes and underscores.
pub open spec fn is_word_char(c: char) -> bool {
    ||| 'a' <= c <= 'z'
    ||| 'A' <= c <= 'Z'
    ||| '0' <= c <= '9'
    ||| c == '\''
    ||| c == '_'
}

/// `word`: one or more name-word characters.
pub open spec fn rule_word(s: Seq<char>) -> bool {
    s.len() > 0 && forall|i: int| 0 <= i < s.len() ==> is_word_char(#[trigger] s[i])
}

/// `name_phrase` body: words separated by single spaces, with no leading
/// or trailing space.
pub open spec fn rule_word_list(s: Seq<char>) -> bool {
    &&& s.len() > 0
    &&& is_word_char(s[0])
    &&& is_word_char(s[s.len() - 1])
    &&& forall|i: int| 0 <= i < s.len() ==> is_word_char(#[trigger] s[i]) || s[i] == ' '
    &&& forall|i: int| 0 <= i < s.len() - 1 ==> !(#[trigger] s[i] == ' ' && s[i + 1] == ' ')
}

/// `number`: one or more ASCII digits.
pub open spec fn rule_number(s: Seq<char>) -> bool {
    s.len() > 0 && forall|i: int| 0 <= i < s.len() ==> is_digit_char(#[trigger] s[i])
}

/// `percentage`: a number, optionally followed by a percent sign.
pub open spec fn rule_percentage(s: Seq<char>) -> bool {
    ||| rule_number(s)
    ||| (s.len() > 1 && s[s.len() - 1] == '%' && rule_number(s.take(s.len() - 1)))
}

/// `channel_tag`: exactly one of the three bracketed channel literals.
pub open spec fn rule_channel_tag(s: Seq<char>) -> bool {
    s == "[All]"@ || s == "[Team]"@ || s == "[Party]"@
}

/// `team_name`: one of the four recognized team-name literals.
pub open spec fn rule_team_name(s: Seq<char>) -> bool {
    s == "Enemy team"@ || s == "Ally team"@ || s == "Blue team"@ || s == "Red team"@
}

/// `player_name`: a single name word.
pub open spec fn rule_player_name(s: Seq<char>) -> bool {
    rule_word(s)
}

/// `champion_name`: one or more words separated by single spaces.
pub open spec fn rule_champion_name(s: Seq<char>) -> bool {
    rule_word_list(s)
}

/// `name_phrase`: one or more words separated by single spaces.
pub open spec fn rule_name_phrase(s: Seq<char>) -> bool {
    rule_word_list(s)
}

/// `chat_text`: any run of characters, possibly empty.
pub open spec fn rule_chat_text(s: Seq<char>) -> bool {
    true
}

/// `generic_tail`: any run of characters after a recognized player prefix.
pub open spec fn rule_generic_tail(s: Seq<char>) -> bool {
    true
}

/// `generic_text`: the catch-all body shape.
pub open spec fn rule_generic_text(s: Seq<char>) -> bool {
    true
}

/// `player_with_champion`: `<player_name> (<champion_name>)`.
pub open spec fn rule_player_with_champion(s: Seq<char>) -> bool {
    match find_char_spec(s, ' ') {
        None => false,
        Some(i) => {
            &&& rule_player_name(s.take(i))
            &&& s.len() > i + 3
            &&& s[i + 1] == '('
            &&& s[s.len() - 1] == ')'
            &&& rule_champion_name(s.subrange(i + 2, s.len() - 1))
        },
    }
}

/// `bare_chat_message`: `<player_with_champion>:<chat_text>`.
pub open spec fn rule_bare_chat_message(s: Seq<char>) -> bool {
    match find_char_spec(s, ')') {
        None => false,
        Some(cp) => {
            &&& rule_player_with_champion(s.take(cp + 1))
            &&& cp + 1 < s.len()
            &&& s[cp + 1] == ':'
        },
    }
}

/// `channel_chat_message`: `<channel_tag> <bare_chat_message>`.
pub open spec fn rule_channel_chat_message(s: Seq<char>) -> bool {
    ||| (sub_at(s, "[All] "@, 0) && rule_bare_chat_message(s.skip("[All] "@.len() as int)))
    ||| (sub_at(s, "[Team] "@, 0) && rule_bare_chat_message(s.skip("[Team] "@.len() as int)))
    ||| (sub_at(s, "[Party] "@, 0) && rule_bare_chat_message(s.skip("[Party] "@.len() as int)))
}

/// `chat_message`: a channel chat message or a bare one.
pub open spec fn rule_chat_message(s: Seq<char>) -> bool {
    rule_channel_chat_message(s) || rule_bare_chat_message(s)
}

/// `kill_first_blood_event`: `<player_with_champion> has drawn first
/// blood!`.
pub open spec fn rule_kill_first_blood_event(s: Seq<char>) -> bool {
    let lit = " has drawn first blood!"@;
    &&& s.len() >= lit.len()
    &&& sub_at(s, lit, s.len() - lit.len())
    &&& rule_player_with_champion(s.take(s.len() - lit.len()))
}

/// `shutdown_bounty`: `(Bonus Bounty: <number>G)`.
pub open spec fn rule_shutdown_bounty(s: Seq<char>) -> bool {
    let lit = "(Bonus Bounty: "@;
    &&& s.len() > lit.len() + 2
    &&& sub_at(s, lit, 0)
    &&& s[s.len() - 2] == 'G'
    &&& s[s.len() - 1] == ')'
    &&& rule_number(s.subrange(lit.len() as int, s.len() - 2))
}

/// `kill_shutdown_event`: `<player_with_champion> has shut down
/// <player_with_champion>!`, optionally followed by a space and a
/// `shutdown_bounty`.
pub open spec fn rule_kill_shutdown_event(s: Seq<char>) -> bool {
    match find_sub_spec(s, " has shut down "@) {
        None => false,
        Some(i) => {
            let t = s.skip(i + " has shut down "@.len());
            &&& rule_player_with_champion(s.take(i))
            &&& match find_char_spec(t, '!') {
                None => false,
                Some(e) => {
                    &&& rule_player_with_champion(t.take(e))
                    &&& (t.len() == e + 1 || (t.len() > e + 2 && t[e + 1] == ' '
                        && rule_shutdown_bounty(t.skip(e + 2))))
                },
            }
        },
    }
}

/// `team_feat_event`: `<team_name> has completed the <name_phrase>!`.
pub open spec fn rule_team_feat_event(s: Seq<char>) -> bool {
    match crate::extract::team_of(s) {
        None => false,
        Some(team) => {
            let lit = " has completed the "@;
            &&& s.len() > team.len() + lit.len() + 1
            &&& sub_at(s, lit, team.len() as int)
            &&& s[s.len() - 1] == '!'
            &&& rule_name_phrase(s.subrange(team.len() + lit.len() as int, s.len() - 1))
        },
    }
}

/// `purchase_event`: `<player_with_champion> purchased <name_phrase>`.
pub open spec fn rule_purchase_event(s: Seq<char>) -> bool {
    match find_sub_spec(s, " purchased "@) {
        None => false,
        Some(i) => {
            &&& rule_player_with_champion(s.take(i))
            &&& rule_name_phrase(s.skip(i + " purchased "@.len()))
        },
    }
}

/// `target_player_event`: `<player_with_champion> has targeted
/// <player_name> - (<champion_name>)`.
pub open spec fn rule_target_player_event(s: Seq<char>) -> bool {
    match find_sub_spec(s, " has targeted "@) {
        None => false,
        Some(i) => {
            let t = s.skip(i + " has targeted "@.len());
            &&& rule_player_with_champion(s.take(i))
            &&& match find_sub_spec(t, " - ("@) {
                None => false,
                Some(d) => {
                    &&& rule_player_name(t.take(d))
                    &&& t.len() > d + " - ("@.len()
                    &&& t[t.len() - 1] == ')'
                    &&& rule_champion_name(t.subrange(d + " - ("@.len(), t.len() - 1))
                },
            }
        },
    }
}

/// `target_objective_event`: `<player_with_champion> has targeted the
/// <name_phrase> (<number>%)`.
pub open spec fn rule_target_objective_event(s: Seq<char>) -> bool {
    match find_sub_spec(s, " has targeted the "@) {
        None => false,
        Some(i) => {
            let t = s.skip(i + " has targeted the "@.len());
            &&& rule_player_with_champion(s.take(i))
            &&& match find_sub_spec(t, " ("@) {
                None => false,
                Some(d) => {
                    &&& rule_name_phrase(t.take(d))
                    &&& t.len() > d + 4
                    &&& t[t.len() - 2] == '%'
                    &&& t[t.len() - 1] == ')'
                    &&& rule_number(t.subrange(d + " ("@.len(), t.len() - 2))
                },
            }
        },
    }
}

/// `rampage_event`: `<player_with_champion> is on rampage!`.
pub open spec fn rule_rampage_event(s: Seq<char>) -> bool {
    let lit = " is on rampage!"@;
    &&& s.len() >= lit.len()
    &&& sub_at(s, lit, s.len() - lit.len())
    &&& rule_player_with_champion(s.take(s.len() - lit.len()))
}

/// `ping_on_the_way_event`: `<player_with_champion> is on the way`.
pub open spec fn rule_ping_on_the_way_event(s: Seq<char>) -> bool {
    let lit = " is on the way"@;
    &&& s.len() >= lit.len()
    &&& sub_at(s, lit, s.len() - lit.len())
    &&& rule_player_with_champion(s.take(s.len() - lit.len()))
}

/// `generic_player_event`: `<player_with_champion> <generic_tail>`.
pub open spec fn rule_generic_player_event(s: Seq<char>) -> bool {
    match find_char_spec(s, ')') {
        None => false,
        Some(cp) => {
            &&& rule_player_with_champion(s.take(cp + 1))
            &&& cp + 1 < s.len()
            &&& s[cp + 1] == ' '
        },
    }
}

/// `line_body`: the alternatives a line's body may take, with
/// `generic_text` as the catch-all.
pub open spec fn rule_line_body(s: Seq<char>) -> bool {
    ||| rule_chat_message(s)
    ||| rule_kill_shutdown_event(s)
    ||| rule_kill_first_blood_event(s)
    ||| rule_team_feat_event(s)
    ||| rule_purchase_event(s)
    ||| rule_target_player_event(s)
    ||| rule_target_objective_event(s)
    ||| rule_rampage_event(s)
    ||| rule_ping_on_the_way_event(s)
    ||| rule_generic_player_event(s)
    ||| rule_generic_text(s)
}

/// `line`: `<time> <line_body>`.
pub open spec fn rule_line(s: Seq<char>) -> bool {
    match find_char_spec(s, ' ') {
        None => false,
        Some(i) => is_clock(s.take(i)) && rule_line_body(s.skip(i + 1)),
    }
}

fn word_char(c: char) -> (b: bool)
    ensures
        b == is_word_char(c),
{
    ('a' <= c && c <= 'z') || ('A' <= c && c <= 'Z') || ('0' <= c && c <= '9') || c == '\'' || c
        == '_'
}

/// Decide `rule_word`.
fn word_str(s: &str) -> (b: bool)
    ensures
        b == rule_word(s@),
{
    let n = s.unicode_len();
    if n == 0 {
        return false;
    }
    let mut i: usize = 0;
    while i < n
        invariant
            0 <= i <= n,
            n == s@.len(),
            forall|j: int| 0 <= j < i ==> is_word_char(#[trigger] s@[j]),
        decreases n - i,
    {
        if !word_char(s.get_char(i)) {
            return false;
        }
        i = i + 1;
    }
    true
}

/// Decide `rule_word_list`.
fn word_list_str(s: &str) -> (b: bool)
    ensures
        b == rule_word_list(s@),
{
    let n = s.unicode_len();
    if n == 0 {
        return false;
    }
    if !word_char(s.get_char(0)) {
        return false;
    }
    if !word_char(s.get_char(n - 1)) {
        return false;
    }
    let mut i: usize = 0;
    while i < n
        invariant
            0 <= i <= n,
            0 < n == s@.len(),
            is_word_char(s@[0]),
            forall|j: int| 0 <= j < i ==> is_word_char(#[trigger] s@[j]) || s@[j] == ' ',
            forall|j: int| 0 <= j < i - 1 ==> !(#[trigger] s@[j] == ' ' && s@[j + 1] == ' '),
        decreases n - i,
    {
        let c = s.get_char(i);
        if c == ' ' {
            if i > 0 && s.get_char(i - 1) == ' ' {
                return false;
            }
        } else if !word_char(c) {
            return false;
        }
        i = i + 1;
    }
    true
}

/// Decide `rule_number`.
fn number_str(s: &str) -> (b: bool)
    ensures
        b == rule_number(s@),
{
    let n = s.unicode_len();
    if n == 0 {
        return false;
    }
    let mut i: usize = 0;
    while i < n
        invariant
            0 <= i <= n,
            n == s@.len(),
            forall|j: int| 0 <= j < i ==> is_digit_char(#[trigger] s@[j]),
        decreases n - i,
    {
        let c = s.get_char(i);
        if !('0' <= c && c <= '9') {
            return false;
        }
        i = i + 1;
    }
    true
}

/// The grammar's rule recognizers: each decides whether a string belongs
/// to the named rule's language.
pub struct LolChatParser;

impl LolChatParser {
    /// Decide `time` (`is_clock`).
    pub fn time(s: &str) -> (b: bool)
        ensures
            b == is_clock(s@),
    {
        check_clock(s)
    }

    /// Decide `word`.
    pub fn word(s: &str) -> (b: bool)
        ensures
            b == rule_word(s@),
    {
        word_str(s)
    }

    /// Decide `player_name`.
    pub fn player_name(s: &str) -> (b: bool)
        ensures
            b == rule_player_name(s@),
    {
        word_str(s)
    }

    /// Decide `champion_name`.
    pub fn champion_name(s: &str) -> (b: bool)
        ensures
            b == rule_champion_name(s@),
    {
        word_list_str(s)
    }

    /// Decide `name_phrase`.
    pub fn name_phrase(s: &str) -> (b: bool)
        ensures
            b == rule_name_phrase(s@),
    {
        word_list_str(s)
    }

    /// Decide `number`.
    pub fn number(s: &str) -> (b: bool)
        ensures
            b == rule_number(s@),
    {
        number_str(s)
    }

    /// Decide `percentage`.
    pub fn percentage(s: &str) -> (b: bool)
        ensures
            b == rule_percentage(s@),
    {
        let n = s.unicode_len();
        if number_str(s) {
            return true;
        }
        if n > 1 && s.get_char(n - 1) == '%' {
            let head = s.substring_char(0, n - 1);
            proof {
                assert(head@ =~= s@.take(n - 1));
            }
            number_str(head)
        } else {
            false
        }
    }

    /// Decide `channel_tag`.
    pub fn channel_tag(s: &str) -> (b: bool)
        ensures
            b == rule_channel_tag(s@),
    {
        str_eq(s, "[All]") || str_eq(s, "[Team]") || str_eq(s, "[Party]")
    }

    /// Decide `team_name`.
    pub fn team_name(s: &str) -> (b: bool)
        ensures
            b == rule_team_name(s@),
    {
        str_eq(s, "Enemy team") || str_eq(s, "Ally team") || str_eq(s, "Blue team") || str_eq(
            s,
            "Red team",
        )
    }

    /// Decide `chat_text`.
    pub fn chat_text(s: &str) -> (b: bool)
        ensures
            b == rule_chat_text(s@),
    {
        let _ = s;
        true
    }

    /// Decide `generic_tail`.
    pub fn generic_tail(s: &str) -> (b: bool)
        ensures
            b == rule_generic_tail(s@),
    {
        let _ = s;
        true
    }

    /// Decide `generic_text`.
    pub fn generic_text(s: &str) -> (b: bool)
        ensures
            b == rule_generic_text(s@),
    {
        let _ = s;
        true
    }

    /// Decide `player_with_champion`.
    pub fn player_with_champion(s: &str) -> (b: bool)
        ensures
            b == rule_player_with_champion(s@),
    {
        let n = s.unicode_len();
        let i = match find_char(s, ' ') {
            None => {
                return false;
            },
            Some(i) => i,
        };
        proof {
            lemma_find_char(s@, ' ');
        }
        let head = s.substring_char(0, i);
        proof {
            assert(head@ =~= s@.take(i as int));
        }
        if !word_str(head) {
            return false;
        }
        if n - i <= 3 {
            return false;
        }
        if s.get_char(i + 1) != '(' {
            return false;
        }
        if s.get_char(n - 1) != ')' {
            return false;
        }
        let champ = s.substring_char(i + 2, n - 1);
        proof {
            assert(champ@ =~= s@.subrange(i + 2, n - 1));
        }
        word_list_str(champ)
    }

    /// Decide `bare_chat_message`.
    pub fn bare_chat_message(s: &str) -> (b: bool)
        ensures
            b == rule_bare_chat_message(s@),
    {
        let n = s.unicode_len();
        let cp = match find_char(s, ')') {
            None => {
                return false;
            },
            Some(c) => c,
        };
        proof {
            lemma_find_char(s@, ')');
        }
        let head = s.substring_char(0, cp + 1);
        proof {
            assert(head@ =~= s@.take(cp + 1));
        }
        if !Self::player_with_champion(head) {
            return false;
        }
        if cp + 1 >= n {
            return false;
        }
        s.get_char(cp + 1) == ':'
    }

    /// Decide `channel_chat_message`.
    pub fn channel_chat_message(s: &str) -> (b: bool)
        ensures
            b == rule_channel_chat_message(s@),
    {
        proof {
            reveal_strlit("[All] ");
            reveal_strlit("[Team] ");
            reveal_strlit("[Party] ");
        }
        let n = s.unicode_len();
        if starts_with_str(s, "[All] ") {
            let m = "[All] ".unicode_len();
            let tail = s.substring_char(m, n);
            proof {
                assert(tail@ =~= s@.skip("[All] "@.len() as int));
                assert(s@.subrange(0, 6)[1] == s@[1]);
                assert(s@[1] == 'A');
                assert(!sub_at(s@, "[Team] "@, 0)) by {
                    if sub_at(s@, "[Team] "@, 0) {
                        assert(s@.subrange(0, 7)[1] == s@[1]);
                    }
                }
                assert(!sub_at(s@, "[Party] "@, 0)) by {
                    if sub_at(s@, "[Party] "@, 0) {
                        assert(s@.subrange(0, 8)[1] == s@[1]);
                    }
                }
            }
            Self::bare_chat_message(tail)
        } else if starts_with_str(s, "[Team] ") {
            let m = "[Team] ".unicode_len();
            let tail = s.substring_char(m, n);
            proof {
                assert(tail@ =~= s@.skip("[Team] "@.len() as int));
                assert(s@.subrange(0, 7)[1] == s@[1]);
                assert(s@[1] == 'T');
                assert(!sub_at(s@, "[Party] "@, 0)) by {
                    if sub_at(s@, "[Party] "@, 0) {
                        assert(s@.subrange(0, 8)[1] == s@[1]);
                    }
                }
            }
            Self::bare_chat_message(tail)
        } else if starts_with_str(s, "[Party] ") {
            let m = "[Party] ".unicode_len();
            let tail = s.substring_char(m, n);
            proof {
                assert(tail@ =~= s@.skip("[Party] "@.len() as int));
            }
            Self::bare_chat_message(tail)
        } else {
            false
        }
    }

    /// Decide `chat_message`.
    pub fn chat_message(s: &str) -> (b: bool)
        ensures
            b == rule_chat_message(s@),
    {
        Self::channel_chat_message(s) || Self::bare_chat_message(s)
    }

    /// Decide `kill_first_blood_event`.
    pub fn kill_first_blood_event(s: &str) -> (b: bool)
        ensures
            b == rule_kill_first_blood_event(s@),
    {
        let n = s.unicode_len();
        let m = " has drawn first blood!".unicode_len();
        if m > n {
            return false;
        }
        if !match_at(s, " has drawn first blood!", n - m) {
            return false;
        }
        let head = s.substring_char(0, n - m);
        proof {
            assert(head@ =~= s@.take(n - m));
        }
        Self::player_with_champion(head)
    }

    /// Decide `shutdown_bounty`.
    pub fn shutdown_bounty(s: &str) -> (b: bool)
        ensures
            b == rule_shutdown_bounty(s@),
    {
        let n = s.unicode_len();
        let m = "(Bonus Bounty: ".unicode_len();
        if n < 3 || n - 2 <= m {
            return false;
        }
        if !match_at(s, "(Bonus Bounty: ", 0) {
            return false;
        }
        if s.get_char(n - 2) != 'G' {
            return false;
        }
        if s.get_char(n - 1) != ')' {
            return false;
        }
        let digits = s.substring_char(m, n - 2);
        proof {
            assert(digits@ =~= s@.subrange("(Bonus Bounty: "@.len() as int, n - 2));
        }
        number_str(digits)
    }

    /// Decide `kill_shutdown_event`.
    pub fn kill_shutdown_event(s: &str) -> (b: bool)
        ensures
            b == rule_kill_shutdown_event(s@),
    {
        let n = s.unicode_len();
        let i = match find_sub(s, " has shut down ") {
            None => {
                return false;
            },
            Some(i) => i,
        };
        proof {
            lemma_find_sub(s@, " has shut down "@);
        }
        let m = " has shut down ".unicode_len();
        let head = s.substring_char(0, i);
        proof {
            assert(head@ =~= s@.take(i as int));
        }
        if !Self::player_with_champion(head) {
            return false;
        }
        let t = s.substring_char(i + m, n);
        proof {
            assert(t@ =~= s@.skip(i + " has shut down "@.len()));
        }
        let tn = t.unicode_len();
        let e = match find_char(t, '!') {
            None => {
                return false;
            },
            Some(e) => e,
        };
        proof {
            lemma_find_char(t@, '!');
        }
        let victim = t.substring_char(0, e);
        proof {
            assert(victim@ =~= t@.take(e as int));
        }
        if !Self::player_with_champion(victim) {
            return false;
        }
        if tn == e + 1 {
            return true;
        }
        if tn - e > 2 && t.get_char(e + 1) == ' ' {
            let tail = t.substring_char(e + 2, tn);
            proof {
                assert(tail@ =~= t@.skip(e + 2));
            }
            Self::shutdown_bounty(tail)
        } else {
            false
        }
    }

    /// Decide `team_feat_event`.
    pub fn team_feat_event(s: &str) -> (b: bool)
        ensures
            b == rule_team_feat_event(s@),
    {
        let n = s.unicode_len();
        let tl: usize = if starts_with_str(s, "Enemy team") {
            "Enemy team".unicode_len()
        } else if starts_with_str(s, "Ally team") {
            "Ally team".unicode_len()
        } else if starts_with_str(s, "Blue team") {
            "Blue team".unicode_len()
        } else if starts_with_str(s, "Red team") {
            "Red team".unicode_len()
        } else {
            return false;
        };
        let ll = " has completed the ".unicode_len();
        if n - tl == 0 || n - tl - 1 <= ll {
            return false;
        }
        if !match_at(s, " has completed the ", tl) {
            return false;
        }
        if s.get_char(n - 1) != '!' {
            return false;
        }
        let phrase = s.substring_char(tl + ll, n - 1);
        proof {
            assert(phrase@ =~= s@.subrange(tl + " has completed the "@.len(), n - 1));
        }
        word_list_str(phrase)
    }

    /// Decide `purchase_event`.
    pub fn purchase_event(s: &str) -> (b: bool)
        ensures
            b == rule_purchase_event(s@),
    {
        let n = s.unicode_len();
        let i = match find_sub(s, " purchased ") {
            None => {
                return false;
            },
            Some(i) => i,
        };
        proof {
            lemma_find_sub(s@, " purchased "@);
        }
        let m = " purchased ".unicode_len();
        let head = s.substring_char(0, i);
        proof {
            assert(head@ =~= s@.take(i as int));
        }
        if !Self::player_with_champion(head) {
            return false;
        }
        let tail = s.substring_char(i + m, n);
        proof {
            assert(tail@ =~= s@.skip(i + " purchased "@.len()));
        }
        word_list_str(tail)
    }

    /// Decide `target_player_event`.
    pub fn target_player_event(s: &str) -> (b: bool)
        ensures
            b == rule_target_player_event(s@),
    {
        let n = s.unicode_len();
        let i = match find_sub(s, " has targeted ") {
            None => {
                return false;
            },
            Some(i) => i,
        };
        proof {
            lemma_find_sub(s@, " has targeted "@);
        }
        let m = " has targeted ".unicode_len();
        let head = s.substring_char(0, i);
        proof {
            assert(head@ =~= s@.take(i as int));
        }
        if !Self::player_with_champion(head) {
            return false;
        }
        let t = s.substring_char(i + m, n);
        proof {
            assert(t@ =~= s@.skip(i + " has targeted "@.len()));
        }
        let tn = t.unicode_len();
        let d = match find_sub(t, " - (") {
            None => {
                return false;
            },
            Some(d) => d,
        };
        proof {
            lemma_find_sub(t@, " - ("@);
        }
        let dl = " - (".unicode_len();
        let name = t.substring_char(0, d);
        proof {
            assert(name@ =~= t@.take(d as int));
        }
        if !word_str(name) {
            return false;
        }
        if tn - d <= dl {
            return false;
        }
        if t.get_char(tn - 1) != ')' {
            return false;
        }
        let champ = t.substring_char(d + dl, tn - 1);
        proof {
            assert(champ@ =~= t@.subrange(d + " - ("@.len(), tn - 1));
        }
        word_list_str(champ)
    }

    /// Decide `target_objective_event`.
    pub fn target_objective_event(s: &str) -> (b: bool)
        ensures
            b == rule_target_objective_event(s@),
    {
        let n = s.unicode_len();
        let i = match find_sub(s, " has targeted the ") {
            None => {
                return false;
            },
            Some(i) => i,
        };
        proof {
            lemma_find_sub(s@, " has targeted the "@);
        }
        let m = " has targeted the ".unicode_len();
        let head = s.substring_char(0, i);
        proof {
            assert(head@ =~= s@.take(i as int));
        }
        if !Self::player_with_champion(head) {
            return false;
        }
        let t = s.substring_char(i + m, n);
        proof {
            assert(t@ =~= s@.skip(i + " has targeted the "@.len()));
        }
        let tn = t.unicode_len();
        let d = match find_sub(t, " (") {
            None => {
                return false;
            },
            Some(d) => d,
        };
        proof {
            lemma_find_sub(t@, " ("@);
        }
        let dl = " (".unicode_len();
        proof {
            reveal_strlit(" (");
        }
        let phrase = t.substring_char(0, d);
        proof {
            assert(phrase@ =~= t@.take(d as int));
        }
        if !word_list_str(phrase) {
            return false;
        }
        if tn - d <= 4 {
            return false;
        }
        if t.get_char(tn - 2) != '%' {
            return false;
        }
        if t.get_char(tn - 1) != ')' {
            return false;
        }
        let digits = t.substring_char(d + dl, tn - 2);
        proof {
            assert(digits@ =~= t@.subrange(d + " ("@.len(), tn - 2));
        }
        number_str(digits)
    }

    /// Decide `rampage_event`.
    pub fn rampage_event(s: &str) -> (b: bool)
        ensures
            b == rule_rampage_event(s@),
    {
        let n = s.unicode_len();
        let m = " is on rampage!".unicode_len();
        if m > n {
            return false;
        }
        if !match_at(s, " is on rampage!", n - m) {
            return false;
        }
        let head = s.substring_char(0, n - m);
        proof {
            assert(head@ =~= s@.take(n - m));
        }
        Self::player_with_champion(head)
    }

    /// Decide `ping_on_the_way_event`.
    pub fn ping_on_the_way_event(s: &str) -> (b: bool)
        ensures
            b == rule_ping_on_the_way_event(s@),
    {
        let n = s.unicode_len();
        let m = " is on the way".unicode_len();
        if m > n {
            return false;
        }
        if !match_at(s, " is on the way", n - m) {
            return false;
        }
        let head = s.substring_char(0, n - m);
        proof {
            assert(head@ =~= s@.take(n - m));
        }
        Self::player_with_champion(head)
    }

    /// Decide `generic_player_event`.
    pub fn generic_player_event(s: &str) -> (b: bool)
        ensures
            b == rule_generic_player_event(s@),
    {
        let n = s.unicode_len();
        let cp = match find_char(s, ')') {
            None => {
                return false;
            },
            Some(c) => c,
        };
        proof {
            lemma_find_char(s@, ')');
        }
        let head = s.substring_char(0, cp + 1);
        proof {
            assert(head@ =~= s@.take(cp + 1));
        }
        if !Self::player_with_champion(head) {
            return false;
        }
        if cp + 1 >= n {
            return false;
        }
        s.get_char(cp + 1) == ' '
    }

    /// Decide `line_body`.
    pub fn line_body(s: &str) -> (b: bool)
        ensures
            b == rule_line_body(s@),
    {
        let _ = s;
        true
    }

    /// Decide `line`.
    pub fn line(s: &str) -> (b: bool)
        ensures
            b == rule_line(s@),
    {
        let n = s.unicode_len();
        let i = match find_char(s, ' ') {
            None => {
                return false;
            },
            Some(i) => i,
        };
        proof {
            lemma_find_char(s@, ' ');
        }
        let head = s.substring_char(0, i);
        proof {
            assert(head@ =~= s@.take(i as int));
        }
        check_clock(head)
    }
}

} // verus!
