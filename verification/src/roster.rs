//! The player roster: a mapping from player name to the set of champions
//! the player was seen with, kept as a vector sorted by name so the final
//! report is deterministic.

use vstd::prelude::*;

use crate::model::{PlayerSummary, PlayerSummaryView};
use crate::text::{lex_lt, lemma_lex_connected, lemma_lex_asymmetric, lemma_lex_transitive, str_lt,
    str_eq};

verus! {

/// Strictly increasing champion list: sorted with no duplicates.
pub open spec fn champs_sorted(c: Seq<Seq<char>>) -> bool {
    forall|i: int, j: int| 0 <= i < j < c.len() ==> lex_lt(c[i], c[j])
}

/// Strictly increasing player names: sorted with no duplicates.
pub open spec fn names_sorted(r: Seq<PlayerSummaryView>) -> bool {
    forall|i: int, j: int| 0 <= i < j < r.len() ==> lex_lt(r[i].name, r[j].name)
}

/// Roster well-formedness: names strictly sorted, each champion list
/// strictly sorted.
pub open spec fn roster_ok(r: Seq<PlayerSummaryView>) -> bool {
    &&& names_sorted(r)
    &&& forall|i: int| 0 <= i < r.len() ==> champs_sorted(#[trigger] r[i].champions)
}

/// The set of champion names in a list.
pub open spec fn champs_set(c: Seq<Seq<char>>) -> Set<Seq<char>>
    decreases c.len(),
{
    if c.len() == 0 {
        Set::empty()
    } else {
        champs_set(c.drop_last()).insert(c.last())
    }
}

/// Abstract contents of a roster: player name to champion set.
pub open spec fn roster_map(r: Seq<PlayerSummaryView>) -> Map<Seq<char>, Set<Seq<char>>>
    decreases r.len(),
{
    if r.len() == 0 {
        Map::empty()
    } else {
        roster_map(r.drop_last()).insert(r.last().name, champs_set(r.last().champions))
    }
}

/// Record one `(player, champion)` sighting in the abstract roster.
pub open spec fn record_pair(
    m: Map<Seq<char>, Set<Seq<char>>>,
    p: Seq<char>,
    c: Seq<char>,
) -> Map<Seq<char>, Set<Seq<char>>> {
    let prev = if m.contains_key(p) {
        m[p]
    } else {
        Set::empty()
    };
    m.insert(p, prev.insert(c))
}

/// Every element of a champion list is in its set.
pub proof fn lemma_champs_set_has(c: Seq<Seq<char>>, k: int)
    requires
        0 <= k < c.len(),
    ensures
        champs_set(c).contains(c[k]),
    decreases c.len(),
{
    if k == c.len() - 1 {
    } else {
        lemma_champs_set_has(c.drop_last(), k);
        assert(c.drop_last()[k] == c[k]);
    }
}

/// Only the elements of a champion list are in its set.
pub proof fn lemma_champs_set_only(c: Seq<Seq<char>>, x: Seq<char>)
    requires
        champs_set(c).contains(x),
    ensures
        exists|k: int| 0 <= k < c.len() && c[k] == x,
    decreases c.len(),
{
    if c.len() > 0 {
        if x == c.last() {
            assert(c[c.len() - 1] == x);
        } else {
            lemma_champs_set_only(c.drop_last(), x);
            let k = choose|k: int| 0 <= k < c.drop_last().len() && c.drop_last()[k] == x;
            assert(c[k] == x);
        }
    }
}

/// Inserting an element into a champion list inserts it into the set.
pub proof fn lemma_champs_set_insert(a: Seq<Seq<char>>, b: Seq<Seq<char>>, x: Seq<char>)
    ensures
        champs_set(a + seq![x] + b) == champs_set(a + b).insert(x),
    decreases b.len(),
{
    if b.len() == 0 {
        assert(a + seq![x] + b =~= a.push(x));
        assert(a + b =~= a);
        assert(a.push(x).drop_last() =~= a);
        assert(a.push(x).last() == x);
    } else {
        let y = b.last();
        let b1 = b.drop_last();
        assert((a + seq![x] + b).drop_last() =~= a + seq![x] + b1);
        assert((a + seq![x] + b).last() == y);
        assert((a + b).drop_last() =~= a + b1);
        assert((a + b).last() == y);
        lemma_champs_set_insert(a, b1, x);
        assert(champs_set(a + b1).insert(x).insert(y) =~= champs_set(a + b1).insert(y).insert(x));
    }
}

/// Insert a champion into a sorted champion list, keeping it sorted and
/// adding it to the list's set.
pub fn insert_champion(champs: &mut Vec<String>, champion: &str)
    requires
        champs_sorted(old(champs).deep_view()),
    ensures
        champs_sorted(final(champs).deep_view()),
        champs_set(final(champs).deep_view()) == champs_set(old(champs).deep_view()).insert(
            champion@,
        ),
{
    let ghost c0 = champs.deep_view();
    let n = champs.len();
    let mut j: usize = 0;
    while j < n && str_lt(champs[j].as_str(), champion)
        invariant
            0 <= j <= n,
            n == champs@.len(),
            c0 == champs.deep_view(),
            c0.len() == n,
            forall|k: int| 0 <= k < c0.len() ==> c0[k] == champs@[k]@,
            forall|k: int| 0 <= k < j ==> lex_lt(#[trigger] c0[k], champion@),
        decreases n - j,
    {
        j = j + 1;
    }
    if j < n && str_eq(champs[j].as_str(), champion) {
        proof {
            lemma_champs_set_has(c0, j as int);
            assert(champs_set(c0).insert(champion@) =~= champs_set(c0));
        }
        return ;
    }
    proof {
        if j < n && !lex_lt(champion@, c0[j as int]) {
            lemma_lex_connected(c0[j as int], champion@);
            assert(false);
        }
    }
    champs.insert(j, champion.to_owned());
    proof {
        let c1 = champs.deep_view();
        assert(c1 =~= c0.subrange(0, j as int) + seq![champion@] + c0.subrange(
            j as int,
            c0.len() as int,
        ));
        assert(c0.subrange(0, j as int) + c0.subrange(j as int, c0.len() as int) =~= c0);
        lemma_champs_set_insert(
            c0.subrange(0, j as int),
            c0.subrange(j as int, c0.len() as int),
            champion@,
        );
        assert forall|p: int, q: int| 0 <= p < q < c1.len() implies lex_lt(c1[p], c1[q]) by {
            if q < j {
            } else if p < j && q == j {
            } else if p < j && q > j {
            } else if p == j {
                if q - 1 > j {
                    lemma_lex_transitive(champion@, c0[j as int], c0[q - 1]);
                }
            } else {
            }
        }
    }
}

/// A name absent from every entry is absent from the abstract roster.
pub proof fn lemma_roster_map_absent(r: Seq<PlayerSummaryView>, p: Seq<char>)
    requires
        forall|i: int| 0 <= i < r.len() ==> r[i].name != p,
    ensures
        !roster_map(r).contains_key(p),
    decreases r.len(),
{
    if r.len() > 0 {
        let t = r.drop_last();
        assert(forall|i: int| 0 <= i < t.len() ==> #[trigger] t[i] == r[i]);
        lemma_roster_map_absent(t, p);
        assert(r[r.len() - 1].name != p);
    }
}

/// With unique names, each entry's champion set is its value in the
/// abstract roster.
pub proof fn lemma_roster_map_value(r: Seq<PlayerSummaryView>, i: int)
    requires
        0 <= i < r.len(),
        forall|k: int| 0 <= k < r.len() && k != i ==> r[k].name != r[i].name,
    ensures
        roster_map(r).contains_key(r[i].name),
        roster_map(r)[r[i].name] == champs_set(r[i].champions),
    decreases r.len(),
{
    if i == r.len() - 1 {
    } else {
        let t = r.drop_last();
        assert(forall|k: int| 0 <= k < t.len() ==> #[trigger] t[k] == r[k]);
        lemma_roster_map_value(t, i);
        assert(r[r.len() - 1].name != r[i].name);
    }
}

/// Inserting an entry under a fresh-to-the-right name inserts its
/// champion set into the abstract roster.
pub proof fn lemma_roster_map_insert(
    a: Seq<PlayerSummaryView>,
    b: Seq<PlayerSummaryView>,
    x: PlayerSummaryView,
)
    requires
        forall|k: int| 0 <= k < b.len() ==> b[k].name != x.name,
    ensures
        roster_map(a + seq![x] + b) == roster_map(a + b).insert(x.name, champs_set(x.champions)),
    decreases b.len(),
{
    if b.len() == 0 {
        assert(a + seq![x] + b =~= a.push(x));
        assert(a + b =~= a);
        assert(a.push(x).drop_last() =~= a);
        assert(a.push(x).last() == x);
    } else {
        let y = b.last();
        let b1 = b.drop_last();
        assert((a + seq![x] + b).drop_last() =~= a + seq![x] + b1);
        assert((a + seq![x] + b).last() == y);
        assert((a + b).drop_last() =~= a + b1);
        assert((a + b).last() == y);
        assert(forall|k: int| 0 <= k < b1.len() ==> #[trigger] b1[k] == b[k]);
        lemma_roster_map_insert(a, b1, x);
        assert(y.name != x.name);
        assert(roster_map(a + b1).insert(x.name, champs_set(x.champions)).insert(
            y.name,
            champs_set(y.champions),
        ) =~= roster_map(a + b1).insert(y.name, champs_set(y.champions)).insert(
            x.name,
            champs_set(x.champions),
        ));
    }
}

/// Replacing the one entry that bears a name replaces that name's
/// champion set in the abstract roster.
pub proof fn lemma_roster_map_update(r: Seq<PlayerSummaryView>, i: int, x: PlayerSummaryView)
    requires
        0 <= i < r.len(),
        x.name == r[i].name,
        forall|k: int| 0 <= k < r.len() && k != i ==> r[k].name != x.name,
    ensures
        roster_map(r.update(i, x)) == roster_map(r).insert(x.name, champs_set(x.champions)),
    decreases r.len(),
{
    let u = r.update(i, x);
    if i == r.len() - 1 {
        assert(u.drop_last() =~= r.drop_last());
        assert(u.last() == x);
        assert(roster_map(r.drop_last()).insert(x.name, champs_set(x.champions))
            =~= roster_map(r.drop_last()).insert(r.last().name, champs_set(r.last().champions))
            .insert(x.name, champs_set(x.champions)));
    } else {
        let t = r.drop_last();
        assert(u.drop_last() =~= t.update(i, x));
        assert(u.last() == r.last());
        assert(forall|k: int| 0 <= k < t.len() ==> #[trigger] t[k] == r[k]);
        lemma_roster_map_update(t, i, x);
        assert(r.last().name != x.name);
        assert(roster_map(t).insert(x.name, champs_set(x.champions)).insert(
            r.last().name,
            champs_set(r.last().champions),
        ) =~= roster_map(t).insert(r.last().name, champs_set(r.last().champions)).insert(
            x.name,
            champs_set(x.champions),
        ));
    }
}

/// Record a `(player, champion)` sighting in the roster vector, keeping
/// it sorted and updating its abstract contents accordingly.
pub fn add_player(roster: &mut Vec<PlayerSummary>, player: &str, champion: &str)
    requires
        roster_ok(old(roster).deep_view()),
    ensures
        roster_ok(final(roster).deep_view()),
        roster_map(final(roster).deep_view()) == record_pair(
            roster_map(old(roster).deep_view()),
            player@,
            champion@,
        ),
{
    let ghost r0 = roster.deep_view();
    let n = roster.len();
    let mut i: usize = 0;
    while i < n && str_lt(roster[i].name.as_str(), player)
        invariant
            0 <= i <= n,
            n == roster@.len(),
            r0 == roster.deep_view(),
            r0.len() == n,
            forall|k: int| 0 <= k < n ==> #[trigger] r0[k] == roster@[k]@,
            forall|k: int| 0 <= k < i ==> lex_lt(#[trigger] r0[k].name, player@),
        decreases n - i,
    {
        i = i + 1;
    }
    if i < n && str_eq(roster[i].name.as_str(), player) {
        proof {
            assert forall|k: int| 0 <= k < n && k != i implies r0[k].name != player@ by {
                if k < i {
                    lemma_lex_asymmetric(r0[k].name, player@);
                } else {
                    assert(lex_lt(r0[i as int].name, r0[k].name));
                    lemma_lex_asymmetric(r0[i as int].name, r0[k].name);
                }
            }
        }
        let mut entry = roster.remove(i);
        proof {
            assert(r0[i as int] == old(roster)@[i as int]@);
            assert(entry@ == r0[i as int]);
            assert(champs_sorted(r0[i as int].champions));
            assert(entry.champions.deep_view() == r0[i as int].champions);
        }
        insert_champion(&mut entry.champions, champion);
        let ghost new_champs = entry.champions.deep_view();
        let ghost entry_name = entry.name@;
        roster.insert(i, entry);
        proof {
            let r1 = roster.deep_view();
            assert(entry_name == player@);
            let xv = PlayerSummaryView { name: player@, champions: new_champs };
            assert(r1 =~~= r0.update(i as int, xv));
            lemma_roster_map_update(r0, i as int, xv);
            lemma_roster_map_value(r0, i as int);
            assert(roster_map(r1) == record_pair(roster_map(r0), player@, champion@));
            assert forall|p: int, q: int| 0 <= p < q < r1.len() implies lex_lt(
                r1[p].name,
                r1[q].name,
            ) by {
                assert(r1[p].name == r0[p].name);
                assert(r1[q].name == r0[q].name);
            }
            assert(roster_ok(r1));
        }
    } else {
        proof {
            if i < n && !lex_lt(player@, r0[i as int].name) {
                lemma_lex_connected(r0[i as int].name, player@);
                assert(false);
            }
            assert forall|k: int| 0 <= k < n implies r0[k].name != player@ by {
                if k < i {
                    lemma_lex_asymmetric(r0[k].name, player@);
                } else if k == i {
                    lemma_lex_asymmetric(player@, r0[k].name);
                } else {
                    assert(lex_lt(r0[i as int].name, r0[k].name));
                    lemma_lex_transitive(player@, r0[i as int].name, r0[k].name);
                    lemma_lex_asymmetric(player@, r0[k].name);
                }
            }
            lemma_roster_map_absent(r0, player@);
        }
        let mut champs: Vec<String> = Vec::new();
        champs.push(champion.to_owned());
        let entry = PlayerSummary { name: player.to_owned(), champions: champs };
        roster.insert(i, entry);
        proof {
            let r1 = roster.deep_view();
            let xv = PlayerSummaryView { name: player@, champions: seq![champion@] };
            let a = r0.subrange(0, i as int);
            let b = r0.subrange(i as int, n as int);
            assert(r1 =~~= a + seq![xv] + b);
            assert(a + b =~= r0);
            assert forall|k: int| 0 <= k < b.len() implies b[k].name != player@ by {
                assert(b[k] == r0[k + i]);
            }
            lemma_roster_map_insert(a, b, xv);
            let s1 = seq![champion@];
            assert(s1.drop_last() =~= Seq::<Seq<char>>::empty());
            assert(s1.last() == champion@);
            assert(champs_set(Seq::<Seq<char>>::empty()) =~= Set::<Seq<char>>::empty());
            assert(champs_set(s1) =~= Set::empty().insert(champion@));
            assert(roster_map(r1) == record_pair(roster_map(r0), player@, champion@));
            assert forall|p: int, q: int| 0 <= p < q < r1.len() implies lex_lt(
                r1[p].name,
                r1[q].name,
            ) by {
                if q < i {
                } else if p < i && q == i {
                } else if p < i && q > i {
                } else if p == i {
                    if q - 1 > i {
                        lemma_lex_transitive(player@, r0[i as int].name, r0[q - 1].name);
                    }
                } else {
                }
            }
            assert(roster_ok(r1));
        }
    }
}

} // verus!
