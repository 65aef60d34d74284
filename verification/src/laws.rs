//! Properties of the library as a whole: what a read gives back of a
//! write, what a refused request leaves, what every operation keeps.
use vstd::prelude::*;
use vstd::multiset::Multiset;
use crate::casino::{
    ace_count, color_of, is_red, blackjack_hit_spec, blackjack_quick_spec, raw_total, soften, blackjack_start_spec, blackjack_stand_spec, credits_or_start, dealer_draw, hand_value, roulette_spec, slots_payout,
    slots_spec, user_key, BlackjackGame, CasinoError, MAX_BET,
};
use crate::chat_bot::{add_reply, chat_spec, ChatOutcome};
use crate::chat::{faq_add_command, faq_delete_command, faq_set_command, normalized_line};
use crate::config::BotConfig;
use crate::faq::{best_greeting, faq_id_spec, faq_number_spec, greeter_candidate};
use crate::public::{PublicRow, can_read_records, can_write_records, first_with_text_id, id_other_than, text_of, updated_spec, FieldView};
use crate::records::{can_edit, kept_after_delete, WaypointEntry, first_with_id, lemma_first_with_id, other_than, visible_to, without_id, Keyed, PearlEntry};
use crate::users::{is_known_permission, normalized_permissions, permission_step, first_user, first_user_from, lemma_first_user_from, new_account, without_user, AppUser, NewUserRequest, UserRole};
use crate::text::{ascii_lower, eq_ci, find_char_seq, is_ascii_text, is_ws, lower_of, skip_ws, trim_end_at, trim_seq};
use crate::access::has_permission;
use crate::viewport::{columns_sorted, in_area, in_area_pred, last_for_column, lemma_filter_sorted, merged, ViewportBlock};
use crate::bot_rules::{
    player_may, book_amount, book_recipient, credits_book_spec, is_rule_char, join_lines, BookStack, WrittenBook, lemma_split_newlines_len, lines_of, pull_choice, pullable, pullable_by, query_key,
    rule_end, skip_rule, split_newlines, strip_cr, trim_rule, trimmed_nonblank,
};
use crate::book_writer::{first_long_page, prepared_book, with_recipient};
use crate::ledger::{ledger_slot_outcome, SlotOutcome};
use crate::pathing::{lemma_walk_depth, lemma_way_walks, room_reached, walk_from, way_to, Cell};

verus! {

broadcast use vstd::seq_lib::group_to_multiset_ensures, vstd::multiset::group_multiset_axioms;

// ---------------------------------------------------------------------------
// Balances
// ---------------------------------------------------------------------------
/// After `set_balance` of `credits` for `username` (whose key is not empty),
/// `balance` of `username` reads `credits` back.
pub proof fn law_set_balance_reads_back(m: Map<Seq<char>, i64>, username: Seq<char>, credits: i64)
    requires
        user_key(username).len() > 0,
    ensures
        credits_or_start(m.insert(user_key(username), credits), user_key(username)) == credits,
{
}

/// A slots pull that is refused (bad bet, too few Credits) leaves every
/// balance as it was.
pub proof fn law_refused_slots_keep_balances(
    old: Map<Seq<char>, i64>,
    user: Seq<char>,
    bet: i64,
    a: int,
    b: int,
    c: int,
    new: Map<Seq<char>, i64>,
    r: Result<crate::models::SlotsResponse, CasinoError>,
)
    requires
        slots_spec(old, user, bet, a, b, c, new, r),
        r is Err,
    ensures
        new == old,
{
}

/// A roulette spin refused for its bet or for too few Credits leaves every
/// balance as it was. (A spin on a choice the wheel does not know keeps the
/// stake: the bet is charged before the choice is read.)
pub proof fn law_refused_roulette_keeps_balances(
    old: Map<Seq<char>, i64>,
    user: Seq<char>,
    bet: i64,
    choice: Seq<char>,
    number: u8,
    new: Map<Seq<char>, i64>,
    r: Result<crate::models::RouletteResponse, CasinoError>,
)
    requires
        roulette_spec(old, user, bet, choice, number, new, r),
        r matches Err(e) && !(e is InvalidRouletteChoice) && !(e is RouletteNumberOutOfRange),
    ensures
        new == old,
{
}

/// A slots pull that is played leaves the player the old balance minus the
/// stake plus the payout, which is nothing, twice, ten or twenty-five times
/// the stake.
pub proof fn law_slots_pay_on_the_stake(
    old: Map<Seq<char>, i64>,
    user: Seq<char>,
    bet: i64,
    a: int,
    b: int,
    c: int,
    new: Map<Seq<char>, i64>,
    r: Result<crate::models::SlotsResponse, CasinoError>,
)
    requires
        slots_spec(old, user, bet, a, b, c, new, r),
        r is Ok,
    ensures
        new[user_key(user)] == (credits_or_start(old, user_key(user)) - bet + slots_payout(bet, a, b, c)) as i64,
        slots_payout(bet, a, b, c) == 0 || slots_payout(bet, a, b, c) == 2 * bet || slots_payout(bet, a, b, c)
            == 10 * bet || slots_payout(bet, a, b, c) == 25 * bet,
        forall|k: Seq<char>| k != user_key(user) ==> new.dom().contains(k) == old.dom().contains(k) && (
        old.dom().contains(k) ==> new[k] == old[k]),
{
}

/// A word of letters is no number.
proof fn lemma_word_is_no_number(w: Seq<char>)
    requires
        w.len() > 0,
        !crate::num::is_digit(w[0]),
        w[0] != '+',
    ensures
        crate::num::parse_u8_seq(w) is None,
{
    assert(!crate::num::all_digits(w));
}

/// What a roulette spin pays, by the pocket it lands on and the choice
/// (trimmed, lowercased): red and black win on a pocket of that color, odd
/// and even on a nonzero pocket of that parity, each paying twice the bet;
/// green wins on 0 and a number from 0 to 36 on that pocket, each paying 36
/// times the bet; a number over 36 is refused after the bet is charged. The
/// player keeps the old balance, less the bet, plus the payout.
pub proof fn law_roulette_pays_by_pocket(
    old: Map<Seq<char>, i64>,
    user: Seq<char>,
    bet: i64,
    choice: Seq<char>,
    number: u8,
    new: Map<Seq<char>, i64>,
    r: Result<crate::models::RouletteResponse, CasinoError>,
)
    requires
        roulette_spec(old, user, bet, choice, number, new, r),
        1 <= bet <= MAX_BET,
        credits_or_start(old, user_key(user)) >= bet,
        credits_or_start(old, user_key(user)) + 35 * bet <= i64::MAX,
        number <= 36,
    ensures
        ({
            let ch = lower_of(trim_seq(choice));
            let key = user_key(user);
            let c0 = credits_or_start(old, key);
            &&& ch == "red"@ ==> r is Ok && r->Ok_0.won == (number != 0 && is_red(number))
                && r->Ok_0.payout == (if r->Ok_0.won { 2 * bet } else { 0 })
            &&& ch == "black"@ ==> r is Ok && r->Ok_0.won == (number != 0 && !is_red(number))
                && r->Ok_0.payout == (if r->Ok_0.won { 2 * bet } else { 0 })
            &&& ch == "green"@ ==> r is Ok && r->Ok_0.won == (number == 0)
                && r->Ok_0.payout == (if r->Ok_0.won { 36 * bet } else { 0 })
            &&& ch == "odd"@ ==> r is Ok && r->Ok_0.won == (number % 2 == 1)
                && r->Ok_0.payout == (if r->Ok_0.won { 2 * bet } else { 0 })
            &&& ch == "even"@ ==> r is Ok && r->Ok_0.won == (number != 0 && number % 2 == 0)
                && r->Ok_0.payout == (if r->Ok_0.won { 2 * bet } else { 0 })
            &&& forall|p: u8| #[trigger] crate::num::parse_u8_seq(ch) == Some(p) && p <= 36 ==> r is Ok
                && r->Ok_0.won == (number == p) && r->Ok_0.payout == (if r->Ok_0.won { 36 * bet } else { 0 })
            &&& forall|p: u8| #[trigger] crate::num::parse_u8_seq(ch) == Some(p) && p > 36 ==> (r matches Err(
                CasinoError::RouletteNumberOutOfRange,
            ) && new == old.insert(key, (c0 - bet) as i64))
            &&& r is Ok ==> r->Ok_0.number == number && new[key] == c0 - bet + r->Ok_0.payout && new == old.insert(
                key,
                new[key],
            )
        }),
{
    let ch = lower_of(trim_seq(choice));
    lemma_roulette_words();
    if ch == "red"@ || ch == "black"@ || ch == "green"@ || ch == "odd"@ || ch == "even"@ {
        lemma_word_is_no_number(ch);
    }
}

/// The roulette words are different words, none of them a number.
proof fn lemma_roulette_words()
    ensures
        "green"@ != "red"@,
        "green"@ != "black"@,
        "red"@ != "black"@,
        "red"@.len() > 0 && "red"@[0] == 'r',
        "black"@.len() > 0 && "black"@[0] == 'b',
        "green"@.len() > 0 && "green"@[0] == 'g',
        "odd"@.len() > 0 && "odd"@[0] == 'o',
        "even"@.len() > 0 && "even"@[0] == 'e',
        "odd"@ != "red"@ && "odd"@ != "black"@ && "odd"@ != "green"@,
        "even"@ != "red"@ && "even"@ != "black"@ && "even"@ != "green"@ && "even"@ != "odd"@,
{
    reveal_strlit("red");
    reveal_strlit("black");
    reveal_strlit("green");
    reveal_strlit("odd");
    reveal_strlit("even");
    assert("green"@.len() != "red"@.len());
    assert("green"@[0] != "black"@[0]);
    assert("red"@.len() != "black"@.len());
    assert("odd"@.len() != "black"@.len() && "odd"@.len() != "green"@.len() && "odd"@[0] != "red"@[0]);
    assert("even"@.len() != "red"@.len() && "even"@.len() != "black"@.len() && "even"@.len() != "green"@.len());
    assert("even"@.len() != "odd"@.len());
}

/// What a slots pull pays, by the faces it shows: three Crowns (face 0)
/// twenty-five times the bet, three of any other face ten times, two equal
/// faces (whichever two) twice the bet, three different faces nothing. The
/// player keeps the old balance, less the bet, plus the payout; no other
/// balance changes.
pub proof fn law_slots_pay_by_faces(
    old: Map<Seq<char>, i64>,
    user: Seq<char>,
    bet: i64,
    a: int,
    b: int,
    c: int,
    new: Map<Seq<char>, i64>,
    r: Result<crate::models::SlotsResponse, CasinoError>,
)
    requires
        slots_spec(old, user, bet, a, b, c, new, r),
        1 <= bet <= MAX_BET,
        credits_or_start(old, user_key(user)) >= bet,
        credits_or_start(old, user_key(user)) + 24 * bet <= i64::MAX,
    ensures
        r is Ok,
        a == b && b == c && a == 0 ==> r->Ok_0.payout == 25 * bet,
        a == b && b == c && a != 0 ==> r->Ok_0.payout == 10 * bet,
        a == b && b != c ==> r->Ok_0.payout == 2 * bet,
        a == c && b != c ==> r->Ok_0.payout == 2 * bet,
        b == c && a != b ==> r->Ok_0.payout == 2 * bet,
        a != b && b != c && a != c ==> r->Ok_0.payout == 0 && !r->Ok_0.won,
        r->Ok_0.won == (r->Ok_0.payout > 0),
        new[user_key(user)] == credits_or_start(old, user_key(user)) - bet + r->Ok_0.payout,
        new == old.insert(user_key(user), new[user_key(user)]),
{
}

/// How standing settles a hand, by the final totals: a dealer over 21 or a
/// higher player total wins and pays twice the bet; equal totals push and
/// give the bet back; a lower player total loses and pays nothing. Only the
/// player's balance changes.
pub proof fn law_stand_settles_by_totals(
    old: Map<Seq<char>, i64>,
    user: Seq<char>,
    g0: BlackjackGame,
    g1: BlackjackGame,
    new: Map<Seq<char>, i64>,
    r: Result<crate::models::BlackjackResponse, CasinoError>,
)
    requires
        blackjack_stand_spec(old, user, g0, g1, new, r),
        r is Ok,
        g0.bet >= 0,
        credits_or_start(old, user_key(user)) + 2 * g0.bet <= i64::MAX,
    ensures
        ({
            let p = hand_value(g0.player_cards@);
            let d = hand_value(g1.dealer_cards@);
            let c0 = credits_or_start(old, user_key(user));
            &&& r->Ok_0.finished
            &&& new == old.insert(user_key(user), new[user_key(user)])
            &&& (d > 21 || p > d) ==> r->Ok_0.outcome@ == "won"@ && new[user_key(user)] == c0 + 2 * g0.bet
            &&& (d <= 21 && p == d) ==> r->Ok_0.outcome@ == "push"@ && new[user_key(user)] == c0 + g0.bet
            &&& (d <= 21 && p < d) ==> r->Ok_0.outcome@ == "lost"@ && new[user_key(user)] == c0
        }),
{
}

/// The total of a hand with `j` of its aces counted as 1 and the others
/// as 11.
pub open spec fn total_with_low_aces(s: Seq<u8>, j: int) -> int {
    raw_total(s) - 10 * j
}

/// The value of a hand counts each ace as 11 or as 1: it is the total with
/// some of its aces at 1. Aces drop to 1 only while the hand would be over
/// 21: a hand over 21 has every ace at 1, and a hand that dropped an ace is
/// at least 12.
pub proof fn law_hand_value_counts_aces(s: Seq<u8>)
    ensures
        exists|j: int| 0 <= j <= ace_count(s) && hand_value(s) == #[trigger] total_with_low_aces(s, j),
        hand_value(s) > 21 ==> hand_value(s) == total_with_low_aces(s, ace_count(s)),
        hand_value(s) < raw_total(s) ==> hand_value(s) >= 12,
{
    lemma_ace_count_nonneg(s);
    let j = lemma_soften_steps(raw_total(s), ace_count(s));
    assert(hand_value(s) == total_with_low_aces(s, j));
}

proof fn lemma_ace_count_nonneg(s: Seq<u8>)
    ensures
        ace_count(s) >= 0,
    decreases s.len(),
{
    if s.len() > 0 {
        lemma_ace_count_nonneg(s.drop_last());
    }
}

proof fn lemma_soften_steps(total: int, aces: int) -> (j: int)
    requires
        aces >= 0,
    ensures
        0 <= j <= aces,
        soften(total, aces) == total - 10 * j,
        soften(total, aces) > 21 ==> j == aces,
        soften(total, aces) < total ==> soften(total, aces) >= 12,
    decreases aces,
{
    if total > 21 && aces > 0 {
        let j = lemma_soften_steps(total - 10, aces - 1);
        j + 1
    } else {
        0
    }
}

/// Dealing takes the top four cards of the deck, alternately to the player
/// and the dealer, after charging the bet. A natural 21 ends the hand at once
/// and pays three times the bet; otherwise the hand goes on with the bet
/// charged. No card is lost or made.
pub proof fn law_deal_pays_a_natural(
    old: Map<Seq<char>, i64>,
    user: Seq<char>,
    bet: i64,
    deck: Seq<u8>,
    new: Map<Seq<char>, i64>,
    r: Result<(BlackjackGame, crate::models::BlackjackResponse), CasinoError>,
)
    requires
        blackjack_start_spec(old, user, bet, deck, new, r),
        1 <= bet <= MAX_BET,
        credits_or_start(old, user_key(user)) >= bet,
        credits_or_start(old, user_key(user)) + 2 * bet <= i64::MAX,
        deck.len() >= 4,
    ensures
        r is Ok,
        ({
            let (g, resp) = r->Ok_0;
            let n = deck.len() as int;
            let c0 = credits_or_start(old, user_key(user));
            &&& g.bet == bet
            &&& g.player_cards@ == seq![deck[n - 1], deck[n - 3]]
            &&& g.dealer_cards@ == seq![deck[n - 2], deck[n - 4]]
            &&& g.deck@ == deck.take(n - 4)
            &&& cards_of(g) == deck.to_multiset()
            &&& hand_value(g.player_cards@) == 21 ==> resp.finished && resp.outcome@ == "blackjack"@ && new
                == old.insert(user_key(user), (c0 + 2 * bet) as i64)
            &&& hand_value(g.player_cards@) != 21 ==> !resp.finished && resp.outcome@ == "playing"@ && new
                == old.insert(user_key(user), (c0 - bet) as i64)
        }),
{
    let n = deck.len() as int;
    let g = r->Ok_0.0;
    let rest = deck.take(n - 4);
    assert(deck == rest.push(deck[n - 4]).push(deck[n - 3]).push(deck[n - 2]).push(deck[n - 1]));
    assert(seq![deck[n - 1], deck[n - 3]] == Seq::<u8>::empty().push(deck[n - 1]).push(deck[n - 3]));
    assert(seq![deck[n - 2], deck[n - 4]] == Seq::<u8>::empty().push(deck[n - 2]).push(deck[n - 4]));
    assert(cards_of(g) =~= deck.to_multiset());
}

/// A hit moves the top card of the deck to the player's hand and moves no
/// Credits; a hand over 21 is lost and ends there, any other goes on.
pub proof fn law_hit_busts_over_21(
    old: Map<Seq<char>, i64>,
    user: Seq<char>,
    g0: BlackjackGame,
    g1: BlackjackGame,
    new: Map<Seq<char>, i64>,
    r: Result<crate::models::BlackjackResponse, CasinoError>,
)
    requires
        blackjack_hit_spec(old, user, g0, g1, new, r),
        g0.deck@.len() > 0,
    ensures
        r is Ok,
        g1.player_cards@ == g0.player_cards@.push(g0.deck@.last()),
        g1.deck@ == g0.deck@.drop_last(),
        g1.dealer_cards@ == g0.dealer_cards@,
        new[user_key(user)] == credits_or_start(old, user_key(user)),
        new == old.insert(user_key(user), new[user_key(user)]),
        hand_value(g1.player_cards@) > 21 ==> r->Ok_0.finished && r->Ok_0.outcome@ == "lost"@,
        hand_value(g1.player_cards@) <= 21 ==> !r->Ok_0.finished && r->Ok_0.outcome@ == "playing"@,
{
}

proof fn lemma_dealer_draw_shape(d: Seq<u8>, k: Seq<u8>)
    ensures
        ({
            let (d1, k1, done) = dealer_draw(d, k);
            &&& k1.len() <= k.len()
            &&& k1 == k.take(k1.len() as int)
            &&& d1.len() == d.len() + (k.len() - k1.len())
            &&& d1.take(d.len() as int) == d
            &&& forall|j: int| d.len() <= j < d1.len() ==> #[trigger] d1[j] == k[k.len() - 1 - (j - d.len())]
            &&& forall|j: int| d.len() <= j < d1.len() ==> hand_value(#[trigger] d1.take(j)) < 17
            &&& done ==> hand_value(d1) >= 17
            &&& !done ==> k1.len() == 0 && hand_value(d1) < 17
        }),
    decreases k.len(),
{
    if hand_value(d) >= 17 {
        assert(k.take(k.len() as int) == k);
        assert(d.take(d.len() as int) == d);
    } else if k.len() == 0 {
        assert(k.take(0) == k);
        assert(d.take(d.len() as int) == d);
    } else {
        let d2 = d.push(k.last());
        let k2 = k.drop_last();
        lemma_dealer_draw_shape(d2, k2);
        let (d1, k1, done) = dealer_draw(d2, k2);
        assert(dealer_draw(d, k) == dealer_draw(d2, k2));
        assert(k2.take(k1.len() as int) == k.take(k1.len() as int));
        assert(d1.take(d.len() as int) == d2.take(d2.len() as int).take(d.len() as int));
        assert(d2.take(d.len() as int) == d);
        assert forall|j: int| d.len() <= j < d1.len() implies #[trigger] d1[j] == k[k.len() - 1 - (j - d.len())] by {
            if j == d.len() {
                assert(d1[j] == d1.take(d2.len() as int)[j]);
            } else {
                assert(d1[j] == k2[k2.len() - 1 - (j - d2.len())]);
            }
        }
        assert forall|j: int| d.len() <= j < d1.len() implies hand_value(#[trigger] d1.take(j)) < 17 by {
            if j == d.len() {
                assert(d1.take(j) == d1.take(d2.len() as int).take(j));
                assert(d2.take(j) == d);
            }
        }
    }
}

/// Standing lets the dealer draw from the top of the deck while the
/// dealer's hand is under 17, and no further: the dealer's hand keeps its
/// cards, takes the deck's top cards in order, reaches 17 or more, and was
/// under 17 before each card it took. Only a deck that runs out first stops
/// the dealer short, and then the stand is refused with the deck empty.
pub proof fn law_dealer_draws_to_17(
    old: Map<Seq<char>, i64>,
    user: Seq<char>,
    g0: BlackjackGame,
    g1: BlackjackGame,
    new: Map<Seq<char>, i64>,
    r: Result<crate::models::BlackjackResponse, CasinoError>,
)
    requires
        blackjack_stand_spec(old, user, g0, g1, new, r),
    ensures
        ({
            let d0 = g0.dealer_cards@;
            let d1 = g1.dealer_cards@;
            let k0 = g0.deck@;
            &&& d1.take(d0.len() as int) == d0
            &&& d1.len() == d0.len() + (k0.len() - g1.deck@.len())
            &&& g1.deck@ == k0.take(g1.deck@.len() as int)
            &&& forall|j: int| d0.len() <= j < d1.len() ==> #[trigger] d1[j] == k0[k0.len() - 1 - (j - d0.len())]
            &&& forall|j: int| d0.len() <= j < d1.len() ==> hand_value(#[trigger] d1.take(j)) < 17
            &&& r is Ok ==> hand_value(d1) >= 17
            &&& r is Err ==> g1.deck@.len() == 0 && hand_value(d1) < 17 && new == old
        }),
{
    lemma_dealer_draw_shape(g0.dealer_cards@, g0.deck@);
}

// ---------------------------------------------------------------------------
// Blackjack keeps its cards
// ---------------------------------------------------------------------------
/// The cards of a hand: those in the deck and in both hands.
pub open spec fn cards_of(g: BlackjackGame) -> Multiset<u8> {
    g.deck@.to_multiset().add(g.player_cards@.to_multiset()).add(g.dealer_cards@.to_multiset())
}

proof fn lemma_move_top(deck: Seq<u8>, hand: Seq<u8>)
    requires
        deck.len() > 0,
    ensures
        deck.drop_last().to_multiset().add(hand.push(deck.last()).to_multiset()) == deck.to_multiset().add(
            hand.to_multiset(),
        ),
{
    assert(deck.drop_last().push(deck.last()) == deck);
    assert(deck.to_multiset() == deck.drop_last().to_multiset().insert(deck.last()));
    assert(hand.push(deck.last()).to_multiset() == hand.to_multiset().insert(deck.last()));
    assert(deck.drop_last().to_multiset().add(hand.push(deck.last()).to_multiset()) =~= deck.to_multiset().add(
        hand.to_multiset(),
    ));
}

proof fn lemma_dealer_draw_keeps(dealer: Seq<u8>, deck: Seq<u8>)
    ensures
        dealer_draw(dealer, deck).1.to_multiset().add(dealer_draw(dealer, deck).0.to_multiset())
            == deck.to_multiset().add(dealer.to_multiset()),
    decreases deck.len(),
{
    if hand_value(dealer) >= 17 || deck.len() == 0 {
    } else {
        lemma_dealer_draw_keeps(dealer.push(deck.last()), deck.drop_last());
        lemma_move_top(deck, dealer);
    }
}

/// Taking a card moves it from the deck to the player's hand: no card is
/// lost or made.
pub proof fn law_hit_keeps_cards(
    old: Map<Seq<char>, i64>,
    user: Seq<char>,
    g0: BlackjackGame,
    g1: BlackjackGame,
    new: Map<Seq<char>, i64>,
    r: Result<crate::models::BlackjackResponse, CasinoError>,
)
    requires
        blackjack_hit_spec(old, user, g0, g1, new, r),
    ensures
        cards_of(g1) == cards_of(g0),
{
    if g0.deck@.len() > 0 {
        lemma_move_top(g0.deck@, g0.player_cards@);
        assert(cards_of(g1) =~= cards_of(g0));
    }
}

/// Standing lets the dealer draw from the deck: no card is lost or made.
pub proof fn law_stand_keeps_cards(
    old: Map<Seq<char>, i64>,
    user: Seq<char>,
    g0: BlackjackGame,
    g1: BlackjackGame,
    new: Map<Seq<char>, i64>,
    r: Result<crate::models::BlackjackResponse, CasinoError>,
)
    requires
        blackjack_stand_spec(old, user, g0, g1, new, r),
    ensures
        cards_of(g1) == cards_of(g0),
{
    lemma_dealer_draw_keeps(g0.dealer_cards@, g0.deck@);
    let d0 = g0.deck@.to_multiset();
    let e0 = g0.dealer_cards@.to_multiset();
    let d1 = g1.deck@.to_multiset();
    let e1 = g1.dealer_cards@.to_multiset();
    assert forall|x: u8| #[trigger] cards_of(g1).count(x) == cards_of(g0).count(x) by {
        assert(d1.add(e1).count(x) == d0.add(e0).count(x));
    }
    assert(cards_of(g1) =~= cards_of(g0));
}

/// A quick game that is played to the end answers with a finished hand
/// whose outcome is "blackjack", "won", "push" or "lost".
pub proof fn law_quick_game_finishes(
    old: Map<Seq<char>, i64>,
    user: Seq<char>,
    bet: i64,
    deck: Seq<u8>,
    new: Map<Seq<char>, i64>,
    r: Result<crate::models::BlackjackResponse, CasinoError>,
)
    requires
        blackjack_quick_spec(old, user, bet, deck, new, r),
        r is Ok,
    ensures
        r->Ok_0.finished,
        r->Ok_0.outcome@ == "blackjack"@ || r->Ok_0.outcome@ == "won"@ || r->Ok_0.outcome@ == "push"@
            || r->Ok_0.outcome@ == "lost"@,
{
    let (mid, rs) = choose|mid: Map<Seq<char>, i64>, rs: Result<(BlackjackGame, crate::models::BlackjackResponse), CasinoError>|
        #[trigger] blackjack_start_spec(old, user, bet, deck, mid, rs) && match rs {
            Err(e) => new == mid && r == Err::<crate::models::BlackjackResponse, CasinoError>(e),
            Ok((g, resp)) => if resp.finished {
                new == mid && r == Ok::<crate::models::BlackjackResponse, CasinoError>(resp)
            } else {
                exists|g1: BlackjackGame| #[trigger] blackjack_stand_spec(mid, user, g, g1, new, r)
            },
        };
    if let Ok((g, resp)) = rs {
        if !resp.finished {
            let g1 = choose|g1: BlackjackGame| #[trigger] blackjack_stand_spec(mid, user, g, g1, new, r);
            assert(blackjack_stand_spec(mid, user, g, g1, new, r));
        }
    }
}

// ---------------------------------------------------------------------------
// Records
// ---------------------------------------------------------------------------
/// A record added under a fresh id is found by that id.
pub proof fn law_added_record_found<T: Keyed>(old: Seq<T>, r: T, id: u128)
    requires
        first_with_id(old, id, 0) is None,
        r.key() == id,
    ensures
        first_with_id(old.push(r), id, 0) == Some(old.len() as int),
{
    lemma_first_with_id(old, id, 0);
    lemma_first_with_id(old.push(r), id, 0);
    assert(old.push(r)[old.len() as int] == r);
    if let Some(j) = first_with_id(old.push(r), id, 0) {
        if j < old.len() {
            assert(old.push(r)[j] == old[j]);
        }
    }
}

/// After a delete, no record with that id is found.
pub proof fn law_deleted_record_gone<T: Keyed>(s: Seq<T>, id: u128)
    ensures
        first_with_id(without_id(s, id), id, 0) is None,
{
    let w = without_id(s, id);
    lemma_first_with_id(w, id, 0);
    if let Some(j) = first_with_id(w, id, 0) {
        assert(w.contains(w[j]));
        assert(other_than::<T>(id)(w[j]));
    }
}

/// Deleting a pearl removes only pearls with that id that the user may
/// edit: every other pearl is kept, a player who is not an owner never
/// removes another player's pearl, and an owner removes every pearl with
/// that id.
pub proof fn law_delete_pearl_only_own(old: Seq<PearlEntry>, id: u128, key: Seq<char>, role: UserRole)
    ensures
        ({
            let new = old.filter(kept_after_delete(id, key, role));
            &&& forall|i: int| 0 <= i < old.len() && (#[trigger] old[i]).id != id ==> new.contains(old[i])
            &&& forall|i: int|
                0 <= i < old.len() && role != UserRole::Owner && !eq_ci((#[trigger] old[i]).owner_user@, key)
                    ==> new.contains(old[i])
            &&& role == UserRole::Owner ==> forall|i: int| 0 <= i < new.len() ==> (#[trigger] new[i]).id != id
            &&& forall|i: int| 0 <= i < new.len() ==> old.contains(#[trigger] new[i])
        }),
{
    let pred = kept_after_delete(id, key, role);
    let new = old.filter(pred);
    assert forall|i: int| 0 <= i < old.len() && (#[trigger] old[i]).id != id implies new.contains(old[i]) by {
        old.lemma_filter_contains(pred, i);
    }
    assert forall|i: int|
        0 <= i < old.len() && role != UserRole::Owner && !eq_ci((#[trigger] old[i]).owner_user@, key) implies new.contains(
        old[i],
    ) by {
        old.lemma_filter_contains(pred, i);
    }
    assert forall|i: int| 0 <= i < new.len() implies old.contains(#[trigger] new[i]) by {
        assert(new.contains(new[i]));
        old.lemma_filter_contains_rev(pred, new[i]);
    }
    if role == UserRole::Owner {
        assert forall|i: int| 0 <= i < new.len() implies (#[trigger] new[i]).id != id by {
            old.lemma_filter_pred(pred, i);
        }
    }
}

/// A player who is neither an owner nor the pearl's owner cannot change it:
/// the update is refused and every pearl stays as it was.
pub proof fn law_update_pearl_only_own(p: PearlEntry, key: Seq<char>, role: UserRole)
    ensures
        role != UserRole::Owner && !eq_ci(p.owner_user@, key) ==> !can_edit(p, key, role),
        role == UserRole::Owner ==> can_edit(p, key, role),
        eq_ci(p.owner_user@, key) ==> can_edit(p, key, role),
{
}

/// An owner sees every pearl.
pub proof fn law_owner_sees_all_pearls(pearls: Seq<PearlEntry>, key: Seq<char>)
    ensures
        pearls.filter(visible_to(key, UserRole::Owner)) == pearls,
    decreases pearls.len(),
{
    reveal_with_fuel(Seq::filter, 1);
    if pearls.len() > 0 {
        law_owner_sees_all_pearls(pearls.drop_last(), key);
        assert(pearls.drop_last().push(pearls.last()) == pearls);
        pearls.drop_last().lemma_filter_push(pearls.last(), visible_to(key, UserRole::Owner));
    } else {
        assert(pearls.filter(visible_to(key, UserRole::Owner)) =~= pearls);
    }
}

/// The sender `sk` (trimmed, lowercased) may pull pearl `p` whatever is
/// asked: the pearl is a block stasis (or both kinds, or of no kind given)
/// and the sender is its player, its owner or one of its allowed users, up to
/// ASCII case.
pub open spec fn may_pull(p: PearlEntry, sk: Seq<char>) -> bool {
    let kind = lower_of(trim_seq(p.stasis_kind@));
    &&& (kind.len() == 0 || kind == "block"@ || kind == "both"@)
    &&& (eq_ci(p.player@, sk) || eq_ci(p.owner_user@, sk) || exists|i: int|
        0 <= i < p.allowed_users@.len() && eq_ci(#[trigger] p.allowed_users@[i]@, sk))
}

proof fn lemma_filter_none<A>(s: Seq<A>, pred: spec_fn(A) -> bool)
    requires
        forall|j: int| 0 <= j < s.len() ==> !pred(#[trigger] s[j]),
    ensures
        s.filter(pred) == Seq::<A>::empty(),
    decreases s.len(),
{
    if s.len() > 0 {
        let d = s.drop_last();
        assert(d.push(s.last()) == s);
        assert forall|j: int| 0 <= j < d.len() implies !pred(#[trigger] d[j]) by {
            assert(d[j] == s[j]);
        }
        lemma_filter_none(d, pred);
        d.lemma_filter_push(s.last(), pred);
    }
}

proof fn lemma_filter_one<A>(s: Seq<A>, pred: spec_fn(A) -> bool, i: int)
    requires
        0 <= i < s.len(),
        pred(s[i]),
        forall|j: int| 0 <= j < s.len() && j != i ==> !pred(#[trigger] s[j]),
    ensures
        s.filter(pred) == seq![s[i]],
    decreases s.len(),
{
    let d = s.drop_last();
    assert(d.push(s.last()) == s);
    d.lemma_filter_push(s.last(), pred);
    if i == s.len() - 1 {
        assert forall|j: int| 0 <= j < d.len() implies !pred(#[trigger] d[j]) by {
            assert(d[j] == s[j]);
        }
        lemma_filter_none(d, pred);
        assert(Seq::<A>::empty().push(s[i]) == seq![s[i]]);
    } else {
        assert forall|j: int| 0 <= j < d.len() && j != i implies !pred(#[trigger] d[j]) by {
            assert(d[j] == s[j]);
        }
        assert(d[i] == s[i]);
        lemma_filter_one(d, pred, i);
        assert(!pred(s[s.len() - 1]));
    }
}

/// A whisper that names a pearl's label or player (up to ASCII case), or
/// names nothing, pulls that pearl when it is the one pearl the sender may
/// pull at all.
pub proof fn law_pull_finds_the_named_pearl(
    pearls: Seq<PearlEntry>,
    sender: Seq<char>,
    query: Option<Seq<char>>,
    r: Result<PearlEntry, crate::bot_rules::PullError>,
    i: int,
)
    requires
        pull_choice(pearls, sender, query, r),
        0 <= i < pearls.len(),
        may_pull(pearls[i], lower_of(trim_seq(sender))),
        query_key(query).len() == 0 || eq_ci(pearls[i].label@, query_key(query)) || eq_ci(
            pearls[i].player@,
            query_key(query),
        ),
        forall|j: int| 0 <= j < pearls.len() && j != i ==> !may_pull(#[trigger] pearls[j], lower_of(trim_seq(sender))),
    ensures
        r == Ok::<PearlEntry, crate::bot_rules::PullError>(pearls[i]),
{
    let sk = lower_of(trim_seq(sender));
    let pred = pullable_by(sk, query_key(query));
    assert forall|j: int| 0 <= j < pearls.len() && j != i implies !pred(#[trigger] pearls[j]) by {
        assert(!may_pull(pearls[j], sk));
    }
    assert(pred(pearls[i]));
    lemma_filter_one(pearls, pred, i);
}

/// A whisper that names, up to ASCII case, the label or the player of a
/// pearl the sender may pull never answers that nothing matched: it pulls a
/// pearl, or says that several match.
pub proof fn law_named_pearl_is_never_missing(
    pearls: Seq<PearlEntry>,
    sender: Seq<char>,
    query: Option<Seq<char>>,
    r: Result<PearlEntry, crate::bot_rules::PullError>,
    i: int,
)
    requires
        pull_choice(pearls, sender, query, r),
        0 <= i < pearls.len(),
        may_pull(pearls[i], lower_of(trim_seq(sender))),
        eq_ci(pearls[i].label@, query_key(query)) || eq_ci(pearls[i].player@, query_key(query)),
    ensures
        r is Ok || r matches Err(crate::bot_rules::PullError::Ambiguous),
{
    let pred = pullable_by(lower_of(trim_seq(sender)), query_key(query));
    assert(pred(pearls[i]));
    pearls.lemma_filter_contains(pred, i);
}

/// A whisper from a sender who may pull no pearl at all finds none.
pub proof fn law_pull_needs_a_pearl_the_sender_may_pull(
    pearls: Seq<PearlEntry>,
    sender: Seq<char>,
    query: Option<Seq<char>>,
    r: Result<PearlEntry, crate::bot_rules::PullError>,
)
    requires
        pull_choice(pearls, sender, query, r),
        forall|j: int| 0 <= j < pearls.len() ==> !may_pull(#[trigger] pearls[j], lower_of(trim_seq(sender))),
    ensures
        r is Err,
{
    let sk = lower_of(trim_seq(sender));
    let pred = pullable_by(sk, query_key(query));
    assert forall|j: int| 0 <= j < pearls.len() implies !pred(#[trigger] pearls[j]) by {
        assert(!may_pull(pearls[j], sk));
    }
    lemma_filter_none(pearls, pred);
}

/// The pearl that a whisper pulls is one that the sender may pull and that
/// matches the query.
pub proof fn law_pulled_pearl_is_allowed(
    pearls: Seq<PearlEntry>,
    sender: Seq<char>,
    query: Option<Seq<char>>,
    r: Result<PearlEntry, crate::bot_rules::PullError>,
)
    requires
        pull_choice(pearls, sender, query, r),
        r is Ok,
    ensures
        pullable(r->Ok_0, lower_of(trim_seq(sender)), query_key(query)),
{
    let m = pearls.filter(pullable_by(lower_of(trim_seq(sender)), query_key(query)));
    assert(m.contains(m[0]));
}

// ---------------------------------------------------------------------------
// Books
// ---------------------------------------------------------------------------
proof fn lemma_split_append(p: Seq<char>, y: Seq<char>)
    requires
        forall|i: int| 0 <= i < y.len() ==> y[i] != '\n',
    ensures
        split_newlines(p + y) == split_newlines(p).update(
            split_newlines(p).len() - 1,
            split_newlines(p).last() + y,
        ),
    decreases y.len(),
{
    lemma_split_newlines_len(p);
    let sp = split_newlines(p);
    if y.len() == 0 {
        assert(p + y == p);
        assert(sp.last() + y == sp.last());
        assert(sp.update(sp.len() - 1, sp.last()) == sp);
    } else {
        let t = p + y;
        assert(t.drop_last() == p + y.drop_last());
        assert(t.last() == y.last());
        lemma_split_append(p, y.drop_last());
        assert((sp.last() + y.drop_last()).push(y.last()) == sp.last() + y);
        assert(sp.update(sp.len() - 1, sp.last() + y.drop_last()).update(sp.len() - 1, sp.last() + y) == sp.update(
            sp.len() - 1,
            sp.last() + y,
        ));
    }
}

/// `s` begins and ends with a character that is neither whitespace nor a
/// rule character: trimming leaves it as it is.
proof fn lemma_trim_keeps(s: Seq<char>)
    requires
        s.len() > 0,
        !is_ws(s[0]),
        !is_ws(s.last()),
    ensures
        trim_seq(s) == s,
{
    assert(skip_ws(s, 0) == 0);
    assert(trim_end_at(s, s.len() as int) == s.len());
    assert(s.subrange(0, s.len() as int) == s);
}

proof fn lemma_two_lines(a: Seq<char>, y: Seq<char>)
    requires
        a.len() > 0,
        y.len() > 0,
        trim_seq(a) == a,
        trim_seq(y) == y,
    ensures
        trimmed_nonblank(seq![a, y]) == seq![a, y],
{
    assert(seq![a, y].drop_last() == seq![a]);
    assert(seq![a].drop_last() == Seq::<Seq<char>>::empty());
    assert(seq![a].last() == a);
    assert(trimmed_nonblank(Seq::<Seq<char>>::empty()) == Seq::<Seq<char>>::empty());
    assert(Seq::<Seq<char>>::empty().push(a) == seq![a]);
    assert(trimmed_nonblank(seq![a]) == seq![a]);
    assert(seq![a].push(y) == seq![a, y]);
}

/// The lines of `a`, a line feed, then `y`, where neither holds a line feed
/// and `a` does not end in a carriage return.
proof fn lemma_two_line_text(a: Seq<char>, y: Seq<char>)
    requires
        forall|i: int| 0 <= i < a.len() ==> a[i] != '\n',
        forall|i: int| 0 <= i < y.len() ==> y[i] != '\n',
        a.len() > 0,
        a.last() != '\r',
        y.len() > 0,
    ensures
        lines_of(a.push('\n') + y) == seq![a, y],
{
    lemma_split_append(Seq::empty(), a);
    assert(Seq::<char>::empty() + a == a);
    assert(split_newlines(a) == seq![a]);
    assert(a.push('\n').drop_last() == a);
    assert(split_newlines(a.push('\n')) == seq![a, Seq::<char>::empty()]);
    lemma_split_append(a.push('\n'), y);
    let p = split_newlines(a.push('\n') + y);
    assert(p == seq![a, y]);
    assert(strip_cr(a) == a);
    assert(p.take(1).map_values(|l: Seq<char>| strip_cr(l)) == seq![a]);
}

/// `" "` then `r`, trimmed of whitespace, then of rule characters, then of
/// whitespace again, is `r`.
proof fn lemma_value_after_colon(r: Seq<char>)
    requires
        r.len() > 0,
        !is_rule_char(r[0]),
        !is_rule_char(r.last()),
    ensures
        trim_seq(trim_rule(trim_seq(seq![' '] + r))) == r,
{
    let v = seq![' '] + r;
    assert(v[1] == r[0]);
    assert(skip_ws(v, 1) == 1);
    assert(skip_ws(v, 0) == 1);
    assert(v.last() == r.last());
    assert(trim_end_at(v, v.len() as int) == v.len());
    assert(v.subrange(1, v.len() as int) == r);
    assert(skip_rule(r, 0) == 0);
    assert(rule_end(r, 0, r.len() as int) == r.len());
    assert(r.subrange(0, r.len() as int) == r);
    lemma_trim_keeps(r);
}

proof fn lemma_no_long_page(ps: Seq<Seq<char>>, i: int)
    requires
        0 <= i <= ps.len(),
        first_long_page(ps, i) is None,
    ensures
        forall|k: int| i <= k < ps.len() ==> (#[trigger] ps[k]).len() <= 1024,
    decreases ps.len() - i,
{
    if i < ps.len() {
        lemma_no_long_page(ps, i + 1);
    }
}

/// A book is written only as a signed book can hold it: a trimmed title of
/// 1 to 32 characters, and 1 to 100 pages of at most 1024 characters each.
/// A title over 32 characters once trimmed is refused.
pub proof fn law_prepared_book_fits(title: Seq<char>, pages: Seq<Seq<char>>, recipient: Seq<char>)
    ensures
        prepared_book(title, pages, recipient) matches Ok((t, ps)) ==> {
            &&& t == trim_seq(title)
            &&& 1 <= t.len() <= 32
            &&& 1 <= ps.len() <= 100
            &&& forall|k: int| 0 <= k < ps.len() ==> (#[trigger] ps[k]).len() <= 1024
        },
        trim_seq(title).len() > 32 ==> prepared_book(title, pages, recipient) is Err,
        trim_seq(title).len() == 0 ==> prepared_book(title, pages, recipient) is Err,
{
    if let Ok((t, ps)) = prepared_book(title, pages, recipient) {
        lemma_no_long_page(ps, 0);
    }
}

/// The page that `prepare_book` writes for a recipient when there are no
/// pages of its own names that recipient back, as long as the recipient is
/// one line that neither begins nor ends with '-', '=' or whitespace.
pub proof fn law_recipient_page_reads_back(r: Seq<char>)
    requires
        r.len() > 0,
        !is_rule_char(r[0]),
        !is_rule_char(r.last()),
        forall|i: int| 0 <= i < r.len() ==> r[i] != '\n',
    ensures
        book_recipient(with_recipient(Seq::empty(), r)[0]) == Some(r),
{
    reveal_strlit("Credits Deposit\nRecipient: ");
    let h = "Credits Deposit\nRecipient: "@;
    let text = h + r;
    assert(with_recipient(Seq::empty(), r)[0] == text);
    let a = h.take(15);
    let y = h.skip(16) + r;
    assert(text == a.push('\n') + y);
    lemma_two_line_text(a, y);
    lemma_trim_keeps(a);
    assert(y[0] == 'R');
    assert(y.last() == r.last());
    lemma_trim_keeps(y);
    lemma_two_lines(a, y);
    assert(y[9] == ':');
    assert(find_char_seq(y, ':') == Some(9int));
    assert(y.skip(10) == seq![' '] + r);
    lemma_value_after_colon(r);
}

// ---------------------------------------------------------------------------
// The Credits ledger
// ---------------------------------------------------------------------------
/// A Credits book is accepted only for an amount within the configured
/// range: the amount it reads is the one its pages (then title) name, and
/// it lies between `min_credits` and `max_credits`; its author is the
/// trimmed signer, who is on the allowed list when there is one.
pub proof fn law_accepted_book_is_in_range(
    book: BookStack,
    slot: usize,
    allowed: Seq<Seq<char>>,
    min_credits: i64,
    max_credits: i64,
)
    requires
        credits_book_spec(book, slot, allowed, min_credits, max_credits) is Ok,
        credits_book_spec(book, slot, allowed, min_credits, max_credits)->Ok_0 is Some,
    ensures
        ({
            let b = credits_book_spec(book, slot, allowed, min_credits, max_credits)->Ok_0->Some_0;
            &&& min_credits <= b.3 <= max_credits
            &&& book matches BookStack::Written(Some(content)) && b.0 == trim_seq(content.author@) && Some(b.3)
                == book_amount(join_lines(content.pages.deep_view()), content.title@) && (allowed.len() == 0
                || allowed.contains(lower_of(b.0)))
        }),
{
}

/// A signed book whose amount lies outside the configured range is never
/// paid: no balance changes and the slot is not credited.
pub proof fn law_ledger_refuses_out_of_range(
    old: Map<Seq<char>, i64>,
    new: Map<Seq<char>, i64>,
    content: WrittenBook,
    slot: usize,
    allowed: Seq<Seq<char>>,
    min_credits: i64,
    max_credits: i64,
    r: Option<SlotOutcome>,
    amount: i64,
)
    requires
        ledger_slot_outcome(old, new, BookStack::Written(Some(content)), slot, allowed, min_credits, max_credits, r),
        book_amount(join_lines(content.pages.deep_view()), content.title@) == Some(amount),
        amount < min_credits || amount > max_credits,
    ensures
        new == old,
        !(r matches Some(SlotOutcome::Credited(_))),
{
}

/// A signed book by an allowed writer whose amount lies within the range is
/// paid to its author: the author's balance grows by exactly the amount
/// (when that fits) and no other balance changes.
pub proof fn law_ledger_pays_the_author(
    old: Map<Seq<char>, i64>,
    new: Map<Seq<char>, i64>,
    content: WrittenBook,
    slot: usize,
    allowed: Seq<Seq<char>>,
    min_credits: i64,
    max_credits: i64,
    r: Option<SlotOutcome>,
    amount: i64,
)
    requires
        ledger_slot_outcome(old, new, BookStack::Written(Some(content)), slot, allowed, min_credits, max_credits, r),
        book_amount(join_lines(content.pages.deep_view()), content.title@) == Some(amount),
        min_credits <= amount <= max_credits,
        allowed.len() == 0 || allowed.contains(lower_of(trim_seq(content.author@))),
        credits_or_start(old, user_key(trim_seq(content.author@))) + amount <= i64::MAX,
        credits_or_start(old, user_key(trim_seq(content.author@))) + amount >= i64::MIN,
    ensures
        r matches Some(SlotOutcome::Credited(e)) && e.amount == amount && e.author@ == trim_seq(content.author@),
        new == old.insert(
            user_key(trim_seq(content.author@)),
            (credits_or_start(old, user_key(trim_seq(content.author@))) + amount) as i64,
        ),
{
}

// ---------------------------------------------------------------------------
// Server records
// ---------------------------------------------------------------------------
/// Owners may read the server records and write every collection; an
/// account that is no owner and holds no permission may do neither; the
/// "public_admin" permission lets one write every collection, and
/// "<collection>:write" that collection.
pub proof fn law_record_access_by_role(user: AppUser, collection: Seq<char>)
    ensures
        user.role == UserRole::Owner ==> can_read_records(user) && can_write_records(user, collection),
        user.role != UserRole::Owner && user.permissions@.len() == 0 ==> !can_read_records(user)
            && !can_write_records(user, collection),
        has_permission(user, "public_admin"@) ==> can_write_records(user, collection),
        has_permission(user, collection + ":write"@) ==> can_write_records(user, collection),
{
}

// ---------------------------------------------------------------------------
// Users
// ---------------------------------------------------------------------------
/// An account that `add_user` appended is found by its stored username.
pub proof fn law_added_user_found(old: Seq<AppUser>, u: AppUser, input: NewUserRequest)
    requires
        user_key(input.username@).len() > 0,
        first_user(old, user_key(input.username@)) is None,
        new_account(u, input),
    ensures
        first_user(old.push(u), u.username@) == Some(old.len() as int),
{
    lemma_first_user_from(old, u.username@, 0);
    lemma_first_user_from(old.push(u), u.username@, 0);
    assert(eq_ci(u.username@, u.username@));
    assert(old.push(u)[old.len() as int] == u);
    if let Some(j) = first_user(old.push(u), u.username@) {
        if j < old.len() {
            assert(old.push(u)[j] == old[j]);
        }
    }
}

/// An account that `add_user` appended, for a username that is ASCII once
/// trimmed, is the one that `verify_user` looks up by that same username;
/// it holds the password it was added with.
pub proof fn law_added_user_verifies(old: Seq<AppUser>, u: AppUser, input: NewUserRequest)
    requires
        is_ascii_text(trim_seq(input.username@)),
        user_key(input.username@).len() > 0,
        first_user(old, user_key(input.username@)) is None,
        new_account(u, input),
    ensures
        first_user(old.push(u), trim_seq(input.username@)) == Some(old.len() as int),
        old.push(u)[old.len() as int].password@ == input.password@,
{
    let t = trim_seq(input.username@);
    let name = u.username@;
    let all = old.push(u);
    assert(eq_ci(name, t)) by {
        assert forall|i: int| 0 <= i < name.len() implies ascii_lower(#[trigger] name[i]) == ascii_lower(t[i]) by {
            lemma_ascii_lower_twice(t[i]);
        }
    }
    lemma_first_user_from(old, name, 0);
    lemma_first_user_from(all, t, 0);
    assert(all[old.len() as int] == u);
    if let Some(j) = first_user(all, t) {
        if j < old.len() {
            assert(all[j] == old[j]);
            let a = old[j].username@;
            assert(eq_ci(a, name)) by {
                assert forall|i: int| 0 <= i < a.len() implies ascii_lower(#[trigger] a[i]) == ascii_lower(name[i]) by {
                    lemma_ascii_lower_twice(t[i]);
                }
            }
        }
    }
}

proof fn lemma_ascii_lower_twice(c: char)
    ensures
        ascii_lower(ascii_lower(c)) == ascii_lower(c),
{
}

/// The permissions an account keeps are the known ones among those asked
/// for, each once, trimmed and lowercased: every kept permission is known
/// and was asked for, none is kept twice, and every known permission asked
/// for is kept.
pub proof fn law_kept_permissions(s: Seq<Seq<char>>)
    ensures
        forall|i: int| 0 <= i < normalized_permissions(s).len() ==> is_known_permission(
            #[trigger] normalized_permissions(s)[i],
        ),
        forall|i: int, j: int|
            0 <= i < j < normalized_permissions(s).len() ==> #[trigger] normalized_permissions(s)[i]
                != #[trigger] normalized_permissions(s)[j],
        forall|k: int| 0 <= k < s.len() && is_known_permission(user_key(#[trigger] s[k])) ==> normalized_permissions(
            s,
        ).contains(user_key(s[k])),
        forall|i: int| 0 <= i < normalized_permissions(s).len() ==> exists|k: int|
            0 <= k < s.len() && user_key(#[trigger] s[k]) == #[trigger] normalized_permissions(s)[i],
    decreases s.len(),
{
    if s.len() > 0 {
        let d = s.drop_last();
        law_kept_permissions(d);
        let o = normalized_permissions(d);
        let n = normalized_permissions(s);
        let key = user_key(s.last());
        assert(n == permission_step(o, s.last()));
        assert forall|k: int| 0 <= k < s.len() && is_known_permission(user_key(#[trigger] s[k])) implies n.contains(
            user_key(s[k]),
        ) by {
            if k < d.len() {
                assert(s[k] == d[k]);
                let i = choose|i: int| 0 <= i < o.len() && o[i] == user_key(d[k]);
                if n != o {
                    assert(n[i] == o[i]);
                }
                assert(n[i] == user_key(s[k]));
            } else {
                if n == o {
                    assert(o.contains(key));
                } else {
                    assert(n[o.len() as int] == key);
                }
            }
        }
        assert forall|i: int| 0 <= i < n.len() implies exists|k: int|
            0 <= k < s.len() && user_key(#[trigger] s[k]) == #[trigger] n[i] by {
            if i < o.len() {
                let k = choose|k: int| 0 <= k < d.len() && user_key(#[trigger] d[k]) == #[trigger] o[i];
                assert(s[k] == d[k]);
                if n != o {
                    assert(n[i] == o[i]);
                }
            } else {
                assert(s[s.len() - 1] == s.last());
            }
        }
        assert forall|i: int, j: int| 0 <= i < j < n.len() implies #[trigger] n[i] != #[trigger] n[j] by {
            if n != o && j == o.len() {
                assert(n[i] == o[i]);
                assert(o.contains(o[i]));
            } else if n != o {
                assert(n[i] == o[i] && n[j] == o[j]);
            }
        }
        assert forall|i: int| 0 <= i < n.len() implies is_known_permission(#[trigger] n[i]) by {
            if n != o && i < o.len() {
                assert(n[i] == o[i]);
            }
        }
    }
}

/// After `delete_user`, no remaining account has that name (up to ASCII
/// case).
pub proof fn law_deleted_user_gone(users: Seq<AppUser>, key: Seq<char>)
    ensures
        forall|i: int| 0 <= i < without_user(users, key).len() ==> !eq_ci(
            (#[trigger] without_user(users, key)[i]).username@,
            key,
        ),
{
    let w = without_user(users, key);
    assert forall|i: int| 0 <= i < w.len() implies !eq_ci((#[trigger] w[i]).username@, key) by {
        assert(w.contains(w[i]));
    }
}

// ---------------------------------------------------------------------------
// Server records and FAQs
// ---------------------------------------------------------------------------
/// An updated row keeps the id it was updated under and names its updater.
pub proof fn law_update_keeps_id(m: Map<Seq<char>, FieldView>, user: Seq<char>, id: Seq<char>, now: Seq<char>)
    ensures
        text_of(updated_spec(m, user, id, now), "id"@) == Some(id),
        text_of(updated_spec(m, user, id, now), "updated_by"@) == Some(user),
        text_of(updated_spec(m, user, id, now), "updated_at"@) == Some(now),
{
    reveal_strlit("id");
    reveal_strlit("updated_by");
    reveal_strlit("updated_at");
    assert("updated_by"@ != "id"@) by {
        assert("updated_by"@.len() != "id"@.len());
    }
    assert("updated_at"@ != "id"@) by {
        assert("updated_at"@.len() != "id"@.len());
    }
    assert("updated_at"@ != "updated_by"@) by {
        assert("updated_at"@[8] != "updated_by"@[8]);
    }
}

/// After a delete, no row has the deleted id.
pub proof fn law_deleted_rows_gone(rows: Seq<Map<Seq<char>, FieldView>>, id: Seq<char>)
    ensures
        first_with_text_id(rows.filter(id_other_than(id)), id, 0) is None,
{
    let w = rows.filter(id_other_than(id));
    assert forall|i: int| 0 <= i < w.len() implies text_of(#[trigger] w[i], "id"@) != Some(id) by {
        assert(w.contains(w[i]));
        assert(id_other_than(id)(w[i]));
    }
    lemma_no_text_id(w, id, 0);
}

proof fn lemma_no_text_id(s: Seq<Map<Seq<char>, FieldView>>, id: Seq<char>, i: int)
    requires
        0 <= i <= s.len(),
        forall|k: int| 0 <= k < s.len() ==> text_of(#[trigger] s[k], "id"@) != Some(id),
    ensures
        first_with_text_id(s, id, i) is None,
    decreases s.len() - i,
{
    if i < s.len() {
        lemma_no_text_id(s, id, i + 1);
    }
}

proof fn lemma_first_text_id(s: Seq<Map<Seq<char>, FieldView>>, id: Seq<char>, i: int)
    requires
        0 <= i <= s.len(),
    ensures
        first_with_text_id(s, id, i) matches Some(j) ==> i <= j < s.len() && text_of(s[j], "id"@) == Some(id),
    decreases s.len() - i,
{
    if i < s.len() && text_of(s[i], "id"@) != Some(id) {
        lemma_first_text_id(s, id, i + 1);
    }
}

/// The FAQ number given for an id leads back to that id.
pub proof fn law_faq_number_leads_back(s: Seq<Map<Seq<char>, FieldView>>, id: Seq<char>, n: nat)
    requires
        faq_number_spec(s, id) == Some(n),
    ensures
        faq_id_spec(s, n) == Some(id),
{
    lemma_first_text_id(s, id, 0);
}

// ---------------------------------------------------------------------------
// FAQ editing from chat
// ---------------------------------------------------------------------------
/// Only players allowed to edit FAQs change them: where no player holds the
/// "faq_whisper" permission (nor is an owner), no chat line adds, changes
/// or deletes a FAQ, or writes to the log.
pub proof fn law_faq_edits_need_permission(
    raw: Seq<char>,
    config: BotConfig,
    users: Seq<AppUser>,
    faqs0: Seq<PublicRow>,
    faqs1: Seq<PublicRow>,
    log0: Seq<PublicRow>,
    log1: Seq<PublicRow>,
    greeters: Seq<PublicRow>,
    pearls: Seq<PearlEntry>,
    waypoints: Seq<WaypointEntry>,
    bank0: Map<Seq<char>, i64>,
    bank1: Map<Seq<char>, i64>,
    fcd0: Seq<(String, u64)>,
    fcd1: Seq<(String, u64)>,
    gcd0: Seq<(String, u64)>,
    gcd1: Seq<(String, u64)>,
    now: u64,
    r: Option<ChatOutcome>,
)
    requires
        chat_spec(raw, config, users, faqs0, faqs1, log0, log1, greeters, pearls, waypoints, bank0, bank1, fcd0, fcd1,
            gcd0, gcd1, now, r),
        forall|p: Seq<char>| !#[trigger] player_may(users, p, "faq_whisper"@),
    ensures
        faqs1 == faqs0,
        log1 == log0,
{
    let line = normalized_line(raw);
    if faq_add_command(line) is Some {
        let (sender, text) = faq_add_command(line)->Some_0;
        let out = r->Some_0.say@[0]@;
        let msg = choose|msg: Seq<char>| #[trigger] add_reply(config, users, faqs0, faqs1, fcd0, fcd1, sender, text, now, msg, out);
        assert(!player_may(users, sender, "faq_whisper"@));
    } else if faq_set_command(line) is Some {
        let (sender, number, text) = faq_set_command(line)->Some_0;
        assert(!player_may(users, sender, "faq_whisper"@));
    } else if faq_delete_command(line) is Some {
        let (sender, number) = faq_delete_command(line)->Some_0;
        assert(!player_may(users, sender, "faq_whisper"@));
    }
}

// ---------------------------------------------------------------------------
// Login greetings
// ---------------------------------------------------------------------------
/// The greeting chosen among the first `n` rows is the offer of one of
/// them whose priority no other offer beats, and no later row offers as
/// much; where no row offers a greeting, none is chosen.
#[verifier::spinoff_prover]
#[verifier::rlimit(40)]
pub proof fn law_best_greeting_wins(s: Seq<Map<Seq<char>, FieldView>>, n: int, player: Seq<char>)
    requires
        0 <= n <= s.len(),
    ensures
        best_greeting(s, n, player) is None <==> forall|j: int| 0 <= j < n ==> greeter_candidate(#[trigger] s[j], player)
            is None,
        best_greeting(s, n, player) matches Some(b) ==> exists|i: int|
            0 <= i < n && greeter_candidate(#[trigger] s[i], player) == Some(b) && forall|j: int|
                0 <= j < n && #[trigger] greeter_candidate(s[j], player) is Some ==> (j <= i && greeter_candidate(
                    s[j],
                    player,
                )->Some_0.0 <= b.0) || (j > i && greeter_candidate(s[j], player)->Some_0.0 < b.0),
    decreases n,
{
    if n > 0 {
        law_best_greeting_wins(s, n - 1, player);
        let before = best_greeting(s, n - 1, player);
        let c = greeter_candidate(s[n - 1], player);
        if let Some(cv) = c {
            if let Some(b) = before {
                if b.0 > cv.0 {
                    let i = choose|i: int|
                        0 <= i < n - 1 && greeter_candidate(#[trigger] s[i], player) == Some(b) && forall|j: int|
                            0 <= j < n - 1 && #[trigger] greeter_candidate(s[j], player) is Some ==> (j <= i
                                && greeter_candidate(s[j], player)->Some_0.0 <= b.0) || (j > i && greeter_candidate(
                                s[j],
                                player,
                            )->Some_0.0 < b.0);
                    assert(greeter_candidate(s[i], player) == Some(b));
                } else {
                    let i = choose|i: int|
                        0 <= i < n - 1 && greeter_candidate(#[trigger] s[i], player) == Some(b) && forall|j: int|
                            0 <= j < n - 1 && #[trigger] greeter_candidate(s[j], player) is Some ==> (j <= i
                                && greeter_candidate(s[j], player)->Some_0.0 <= b.0) || (j > i && greeter_candidate(
                                s[j],
                                player,
                            )->Some_0.0 < b.0);
                    assert(greeter_candidate(s[n - 1], player) == Some(cv));
                    assert forall|j: int|
                        0 <= j < n && #[trigger] greeter_candidate(s[j], player) is Some implies (j <= n - 1
                            && greeter_candidate(s[j], player)->Some_0.0 <= cv.0) || (j > n - 1 && greeter_candidate(
                            s[j],
                            player,
                        )->Some_0.0 < cv.0) by {
                        if j < n - 1 {
                            assert(greeter_candidate(s[i], player) is Some);
                        }
                    }
                }
            } else {
                assert(greeter_candidate(s[n - 1], player) == Some(cv));
                assert forall|j: int|
                    0 <= j < n && #[trigger] greeter_candidate(s[j], player) is Some implies (j <= n - 1
                        && greeter_candidate(s[j], player)->Some_0.0 <= cv.0) || (j > n - 1 && greeter_candidate(
                        s[j],
                        player,
                    )->Some_0.0 < cv.0) by {
                    if j < n - 1 {
                        assert(greeter_candidate(s[j], player) is None);
                    }
                }
            }
        } else {
            if let Some(b) = before {
                let i = choose|i: int|
                    0 <= i < n - 1 && greeter_candidate(#[trigger] s[i], player) == Some(b) && forall|j: int|
                        0 <= j < n - 1 && #[trigger] greeter_candidate(s[j], player) is Some ==> (j <= i
                            && greeter_candidate(s[j], player)->Some_0.0 <= b.0) || (j > i && greeter_candidate(
                            s[j],
                            player,
                        )->Some_0.0 < b.0);
                assert(greeter_candidate(s[i], player) == Some(b));
            }
        }
    }
}

// ---------------------------------------------------------------------------
// The viewport cache
// ---------------------------------------------------------------------------
/// The newest block seen for a column is the one the merged cache holds.
pub proof fn law_newest_block_wins(s: Seq<ViewportBlock>, out: Seq<ViewportBlock>, b: ViewportBlock)
    requires
        merged(s, out),
        last_for_column(s, b.x, b.z) == Some(b),
    ensures
        exists|i: int| 0 <= i < out.len() && out[i] == b,
{
    let i = choose|i: int| 0 <= i < out.len() && (#[trigger] out[i]).x == b.x && out[i].z == b.z;
    assert(last_for_column(s, out[i].x, out[i].z) == Some(out[i]));
}

/// Reading a rectangle back from the merged cache gives the newest block of
/// every column in the rectangle, each column once, sorted by column, and
/// nothing else.
pub proof fn law_read_back_newest(
    s: Seq<ViewportBlock>,
    out: Seq<ViewportBlock>,
    min_x: i32,
    max_x: i32,
    min_z: i32,
    max_z: i32,
)
    requires
        merged(s, out),
    ensures
        columns_sorted(out.filter(in_area_pred(min_x, max_x, min_z, max_z))),
        forall|i: int| 0 <= i < out.filter(in_area_pred(min_x, max_x, min_z, max_z)).len() ==> {
            let b = #[trigger] out.filter(in_area_pred(min_x, max_x, min_z, max_z))[i];
            in_area(b, min_x, max_x, min_z, max_z) && last_for_column(s, b.x, b.z) == Some(b)
        },
        forall|b: ViewportBlock| #[trigger] last_for_column(s, b.x, b.z) == Some(b) && in_area(b, min_x, max_x, min_z, max_z)
            ==> out.filter(in_area_pred(min_x, max_x, min_z, max_z)).contains(b),
{
    let pred = in_area_pred(min_x, max_x, min_z, max_z);
    let f = out.filter(pred);
    lemma_filter_sorted(out, pred);
    assert forall|i: int| 0 <= i < f.len() implies {
        let b = #[trigger] f[i];
        in_area(b, min_x, max_x, min_z, max_z) && last_for_column(s, b.x, b.z) == Some(b)
    } by {
        out.lemma_filter_pred(pred, i);
        assert(f.contains(f[i]));
        out.lemma_filter_contains_rev(pred, f[i]);
        let k = choose|k: int| 0 <= k < out.len() && out[k] == f[i];
        assert(last_for_column(s, out[k].x, out[k].z) == Some(out[k]));
    }
    assert forall|b: ViewportBlock| #[trigger] last_for_column(s, b.x, b.z) == Some(b) && in_area(b, min_x, max_x, min_z, max_z)
        implies f.contains(b) by {
        let k = choose|k: int| 0 <= k < out.len() && (#[trigger] out[k]).x == b.x && out[k].z == b.z;
        assert(last_for_column(s, out[k].x, out[k].z) == Some(out[k]));
        assert(out[k] == b);
        out.lemma_filter_contains(pred, k);
    }
}

// ---------------------------------------------------------------------------
// Walking a room
// ---------------------------------------------------------------------------
/// Every cell that a room search reached is joined to the start by the way
/// it was reached: a walk from the start through side-by-side open cells
/// that ends at that cell.
pub proof fn law_reached_cell_walks_back(
    w: int,
    pass: Seq<bool>,
    start: Cell,
    cells: Seq<Cell>,
    parent: Seq<usize>,
    i: int,
)
    requires
        room_reached(w, pass, start, cells, parent),
        0 <= i < cells.len(),
    ensures
        walk_from(w, pass, start, way_to(cells, parent, i)),
        way_to(cells, parent, i).last() == cells[i],
{
    lemma_way_walks(w, pass, start, cells, parent, i);
}

/// The way a room search gives to a reached cell is a shortest one: no walk
/// from the start through side-by-side open cells to that cell has fewer
/// cells.
pub proof fn law_room_way_is_shortest(
    w: int,
    pass: Seq<bool>,
    start: Cell,
    cells: Seq<Cell>,
    parent: Seq<usize>,
    walk: Seq<Cell>,
    i: int,
)
    requires
        room_reached(w, pass, start, cells, parent),
        0 <= i < cells.len(),
        walk_from(w, pass, start, walk),
        walk.last() == cells[i],
    ensures
        way_to(cells, parent, i).len() <= walk.len(),
{
    lemma_walk_depth(w, pass, start, cells, parent, walk, walk.len() - 1);
    let j = choose|j: int|
        0 <= j < cells.len() && #[trigger] cells[j] == walk[walk.len() - 1] && way_to(cells, parent, j).len()
            <= walk.len();
    if j != i {
        if j < i {
            assert(cells[j] != cells[i]);
        } else {
            assert(cells[i] != cells[j]);
        }
    }
}

} // verus!
