//! The casino as played from in-game chat ("!slots 10", "!credits", ...).
use vstd::prelude::*;
use crate::bank::Balances;
use crate::casino::{
    balance, blackjack_quick_spec, casino_help, casino_help_text, error_text, has_room, payout_room,
    play_blackjack_quick, play_roulette, play_slots, roulette_spec, slots_spec, standard_deck, valid_bet, CasinoError,
    credits_or_start, user_key,
};
use crate::chat::{sender_of};
use crate::models::{BlackjackResponse, RouletteResponse, SlotsResponse};
use crate::num::{int_decimal, i64_text, nat_digits, parse_i64, u64_text, parse_i64_seq};
use crate::text::{
    append, chars_of, find_char, find_char_seq, lit, lower_of, slice_vec, split_words, str_eq, string_of_all, to_lower,
    trim_chars, trim_seq, words,
};

verus! {

/// A casino command read from chat.
pub enum CasinoCommand {
    Help,
    Credits,
    Slots(Option<i64>),
    Roulette(Option<i64>, Option<String>),
    Blackjack(Option<i64>),
}

/// A casino command as plain values.
pub enum CommandView {
    Help,
    Credits,
    Slots(Option<i64>),
    Roulette(Option<i64>, Option<Seq<char>>),
    Blackjack(Option<i64>),
}

impl View for CasinoCommand {
    type V = CommandView;

    open spec fn view(&self) -> CommandView {
        match self {
            CasinoCommand::Help => CommandView::Help,
            CasinoCommand::Credits => CommandView::Credits,
            CasinoCommand::Slots(b) => CommandView::Slots(*b),
            CasinoCommand::Roulette(b, c) => CommandView::Roulette(
                *b,
                match c {
                    Some(s) => Some(s@),
                    None => None,
                },
            ),
            CasinoCommand::Blackjack(b) => CommandView::Blackjack(*b),
        }
    }
}

/// The command that a chat line carries: the text from the first '!' on,
/// whose first word names the command, said by the sender named before it.
pub open spec fn casino_command(line: Seq<char>) -> Option<(Seq<char>, CommandView)> {
    match find_char_seq(line, '!') {
        None => None,
        Some(start) => match sender_of(line.take(start)) {
            None => None,
            Some(sender) => {
                let parts = words(trim_seq(line.skip(start)));
                if parts.len() == 0 {
                    None
                } else {
                    let verb = lower_of(parts[0]);
                    let bet = if parts.len() > 1 { parse_i64_seq(parts[1]) } else { None };
                    if verb == "!casino"@ || verb == "!creditshelp"@ {
                        Some((sender, CommandView::Help))
                    } else if verb == "!credits"@ || verb == "!balance"@ {
                        Some((sender, CommandView::Credits))
                    } else if verb == "!slots"@ {
                        Some((sender, CommandView::Slots(bet)))
                    } else if verb == "!roulette"@ {
                        Some(
                            (
                                sender,
                                CommandView::Roulette(bet, if parts.len() > 2 { Some(parts[2]) } else { None }),
                            ),
                        )
                    } else if verb == "!blackjack"@ {
                        Some((sender, CommandView::Blackjack(bet)))
                    } else {
                        None
                    }
                }
            },
        },
    }
}

/// Reads a casino command from a chat line.
pub fn parse_casino_chat_command(line: &str) -> (r: Option<(String, CasinoCommand)>)
    ensures
        r matches Some(p) ==> casino_command(line@) == Some((p.0@, p.1@)),
        r is None ==> casino_command(line@) is None,
{
    let v = chars_of(line);
    let start = match find_char(&v, '!') {
        Some(s) => s,
        None => return None,
    };
    let p = crate::text::string_of(&v, 0, start);
    assert(p@ == v@.take(start as int));
    let sender = match crate::chat::infer_chat_sender(p.as_str()) {
        Some(s) => s,
        None => return None,
    };
    let tail = slice_vec(&v, start, v.len());
    assert(tail@ == v@.skip(start as int));
    let parts = split_words(&trim_chars(&tail));
    let ghost pv = parts.deep_view();
    if parts.len() == 0 {
        return None;
    }
    assert(pv[0] == parts@[0]@);
    let verb = to_lower(string_of_all(&parts[0]).as_str());
    let bet = if parts.len() > 1 {
        assert(pv[1] == parts@[1]@);
        parse_i64(&parts[1])
    } else {
        None
    };
    let vs = verb.as_str();
    if str_eq(vs, "!casino") || str_eq(vs, "!creditshelp") {
        Some((sender, CasinoCommand::Help))
    } else if str_eq(vs, "!credits") || str_eq(vs, "!balance") {
        Some((sender, CasinoCommand::Credits))
    } else if str_eq(vs, "!slots") {
        Some((sender, CasinoCommand::Slots(bet)))
    } else if str_eq(vs, "!roulette") {
        let choice = if parts.len() > 2 {
            assert(pv[2] == parts@[2]@);
            Some(string_of_all(&parts[2]))
        } else {
            None
        };
        Some((sender, CasinoCommand::Roulette(bet, choice)))
    } else if str_eq(vs, "!blackjack") {
        Some((sender, CasinoCommand::Blackjack(bet)))
    } else {
        None
    }
}

// ---------------------------------------------------------------------------
// Replies
// ---------------------------------------------------------------------------
/// The payout that command `cmd` of `user` can lead to fits in the user's
/// balance. Only games with a bet that they accept pay out; the other
/// commands move no Credits and need nothing.
pub open spec fn command_room(m: Map<Seq<char>, i64>, user: Seq<char>, cmd: CommandView) -> bool {
    match cmd {
        CommandView::Slots(Some(bet)) => valid_bet(bet) ==> has_room(m, user, 24 * bet),
        CommandView::Roulette(Some(bet), Some(_)) => valid_bet(bet) ==> has_room(m, user, 35 * bet),
        CommandView::Blackjack(Some(bet)) => valid_bet(bet) ==> has_room(m, user, 2 * bet),
        _ => true,
    }
}

/// The casino command in `line`, where there is one, can pay its sender out.
pub open spec fn sender_headroom(m: Map<Seq<char>, i64>, line: Seq<char>) -> bool {
    match casino_command(line) {
        Some((sender, cmd)) => command_room(m, sender, cmd),
        None => true,
    }
}

fn has_command_room(bank: &Balances, user: &str, cmd: &CasinoCommand) -> (r: bool)
    requires
        bank.wf(),
    ensures
        r == command_room(bank@, user@, cmd@),
{
    match cmd {
        CasinoCommand::Slots(Some(bet)) => payout_room(bank, user, *bet, 24),
        CasinoCommand::Roulette(Some(bet), Some(_)) => payout_room(bank, user, *bet, 35),
        CasinoCommand::Blackjack(Some(bet)) => payout_room(bank, user, *bet, 2),
        _ => true,
    }
}

/// Whether the casino command in `line` (if any) can pay its sender out.
pub fn sender_has_headroom(bank: &Balances, line: &str) -> (r: bool)
    requires
        bank.wf(),
    ensures
        r == sender_headroom(bank@, line@),
{
    match parse_casino_chat_command(line) {
        None => true,
        Some((sender, cmd)) => has_command_room(bank, sender.as_str(), &cmd),
    }
}

/// "name has n Credits in the Server Project treasury."
pub open spec fn credits_reply(user: Seq<char>, credits: i64) -> Seq<char> {
    user + " has "@ + int_decimal(credits as int) + " Credits in the Server Project treasury."@
}

/// "<message> Balance: n Credits."
pub open spec fn balance_reply(message: Seq<char>, credits: i64) -> Seq<char> {
    message + " Balance: "@ + int_decimal(credits as int) + " Credits."@
}

/// The chat reply to a slots pull.
pub open spec fn slots_reply(r: Result<SlotsResponse, CasinoError>) -> Seq<char> {
    match r {
        Ok(resp) => balance_reply(resp.mesadmin@, resp.balance.credits),
        Err(e) => "Slots failed: "@ + error_text(e),
    }
}

/// The chat reply to a roulette spin.
pub open spec fn roulette_reply(r: Result<RouletteResponse, CasinoError>) -> Seq<char> {
    match r {
        Ok(resp) => balance_reply(resp.mesadmin@, resp.balance.credits),
        Err(e) => "Roulette failed: "@ + error_text(e),
    }
}

/// Names joined by commas.
pub open spec fn join_commas(ws: Seq<Seq<char>>) -> Seq<char>
    decreases ws.len(),
{
    if ws.len() == 0 {
        Seq::empty()
    } else if ws.len() == 1 {
        ws[0]
    } else {
        join_commas(ws.drop_last()) + ","@ + ws.last()
    }
}

/// The chat reply to a quick game of blackjack.
pub open spec fn blackjack_reply(r: Result<BlackjackResponse, CasinoError>) -> Seq<char> {
    match r {
        Ok(resp) => "Blackjack: "@ + resp.mesadmin@ + " Player ["@ + join_commas(resp.player_cards.deep_view()) + "] = "@
            + nat_digits(resp.player_total as nat) + ", Dealer ["@ + join_commas(resp.dealer_cards.deep_view())
            + "] = "@ + match resp.dealer_total {
            Some(t) => nat_digits(t as nat),
            None => "?"@,
        } + ". Balance: "@ + int_decimal(resp.balance.credits as int) + " Credits."@,
        Err(e) => "Blackjack failed: "@ + error_text(e),
    }
}

/// A slots pull that showed faces `a`, `b`, `c` and was answered `reply`.
pub open spec fn slots_chat(
    old: Map<Seq<char>, i64>,
    new: Map<Seq<char>, i64>,
    user: Seq<char>,
    bet: i64,
    a: int,
    b: int,
    c: int,
    res: Result<SlotsResponse, CasinoError>,
    reply: Seq<char>,
) -> bool {
    0 <= a < 6 && 0 <= b < 6 && 0 <= c < 6 && slots_spec(old, user, bet, a, b, c, new, res) && reply == slots_reply(res)
}

/// A roulette spin that landed on `n` and was answered `reply`.
pub open spec fn roulette_chat(
    old: Map<Seq<char>, i64>,
    new: Map<Seq<char>, i64>,
    user: Seq<char>,
    bet: i64,
    choice: Seq<char>,
    n: u8,
    res: Result<RouletteResponse, CasinoError>,
    reply: Seq<char>,
) -> bool {
    n <= 36 && roulette_spec(old, user, bet, choice, n, new, res) && reply == roulette_reply(res)
}

/// Some spin of the wheel was answered `reply`.
pub open spec fn roulette_played(
    old: Map<Seq<char>, i64>,
    new: Map<Seq<char>, i64>,
    user: Seq<char>,
    bet: i64,
    choice: Seq<char>,
    reply: Seq<char>,
) -> bool {
    exists|n: u8, res: Result<RouletteResponse, CasinoError>|
        #[trigger] roulette_chat(old, new, user, bet, choice, n, res, reply)
}

/// A quick blackjack game dealt from `deck` and answered `reply`.
pub open spec fn blackjack_chat(
    old: Map<Seq<char>, i64>,
    new: Map<Seq<char>, i64>,
    user: Seq<char>,
    bet: i64,
    deck: Seq<u8>,
    res: Result<BlackjackResponse, CasinoError>,
    reply: Seq<char>,
) -> bool {
    deck.len() == 52 && deck.to_multiset() == standard_deck().to_multiset() && blackjack_quick_spec(
        old,
        user,
        bet,
        deck,
        new,
        res,
    ) && reply == blackjack_reply(res)
}

/// What answering command `cmd` of `user` leaves: the balances after and
/// the reply. Games depend on the draw, over which the clause quantifies.
pub open spec fn casino_reply_spec(
    old: Map<Seq<char>, i64>,
    new: Map<Seq<char>, i64>,
    user: Seq<char>,
    cmd: CommandView,
    reply: Seq<char>,
) -> bool {
    match cmd {
        CommandView::Help => new == old && reply == casino_help_text(),
        CommandView::Credits => {
            let key = user_key(user);
            let credits = credits_or_start(old, key);
            new == old.insert(key, credits) && reply == credits_reply(key, credits)
        },
        CommandView::Slots(None) => new == old && reply == "Uadmin: !slots <bet>"@,
        CommandView::Slots(Some(bet)) => exists|a: int, b: int, c: int, res: Result<SlotsResponse, CasinoError>|
            #[trigger] slots_chat(old, new, user, bet, a, b, c, res, reply),
        CommandView::Roulette(Some(bet), Some(choice)) => roulette_played(old, new, user, bet, choice, reply),
        CommandView::Roulette(_, _) => new == old && reply == "Uadmin: !roulette <bet> <red|black|green|odd|even|0-36>"@,
        CommandView::Blackjack(None) => new == old && reply == "Uadmin: !blackjack <bet>"@,
        CommandView::Blackjack(Some(bet)) => exists|deck: Seq<u8>, res: Result<BlackjackResponse, CasinoError>|
            #[trigger] blackjack_chat(old, new, user, bet, deck, res, reply),
    }
}

fn join_names(v: &Vec<String>) -> (r: String)
    ensures
        r@ == join_commas(v.deep_view()),
{
    let mut out = String::new();
    let mut i: usize = 0;
    while i < v.len()
        invariant
            i <= v.len(),
            out@ == join_commas(v.deep_view().take(i as int)),
        decreases v.len() - i,
    {
        let ghost before = out@;
        if i > 0 {
            append(&mut out, ",");
        }
        append(&mut out, v[i].as_str());
        proof {
            let s = v.deep_view().take(i + 1);
            assert(s.drop_last() == v.deep_view().take(i as int));
            assert(s.last() == v@[i as int]@);
            if i == 0 {
                assert(s.len() == 1);
                assert(out@ =~= s[0]);
            }
        }
        i += 1;
    }
    assert(v.deep_view().take(v.len() as int) == v.deep_view());
    out
}

fn with_balance(message: &str, credits: i64) -> (r: String)
    ensures
        r@ == balance_reply(message@, credits),
{
    let mut s = lit(message);
    append(&mut s, " Balance: ");
    append(&mut s, i64_text(credits).as_str());
    append(&mut s, " Credits.");
    s
}

fn failed(prefix: &str, e: &CasinoError) -> (r: String)
    ensures
        r@ == prefix@ + error_text(*e),
{
    let mut s = lit(prefix);
    append(&mut s, e.message().as_str());
    s
}

fn blackjack_text(r: &Result<BlackjackResponse, CasinoError>) -> (s: String)
    ensures
        s@ == blackjack_reply(*r),
{
    match r {
        Ok(resp) => {
            let mut s = lit("Blackjack: ");
            append(&mut s, resp.mesadmin.as_str());
            append(&mut s, " Player [");
            append(&mut s, join_names(&resp.player_cards).as_str());
            append(&mut s, "] = ");
            append(&mut s, u64_text(resp.player_total as u64).as_str());
            append(&mut s, ", Dealer [");
            append(&mut s, join_names(&resp.dealer_cards).as_str());
            append(&mut s, "] = ");
            match resp.dealer_total {
                Some(t) => append(&mut s, u64_text(t as u64).as_str()),
                None => append(&mut s, "?"),
            }
            append(&mut s, ". Balance: ");
            append(&mut s, i64_text(resp.balance.credits).as_str());
            append(&mut s, " Credits.");
            s
        },
        Err(e) => failed("Blackjack failed: ", e),
    }
}

/// Answers a casino command of `user`.
pub fn casino_reply(bank: &mut Balances, user: &str, cmd: &CasinoCommand) -> (r: String)
    requires
        old(bank).wf(),
        command_room(old(bank)@, user@, cmd@),
    ensures
        final(bank).wf(),
        casino_reply_spec(old(bank)@, final(bank)@, user@, cmd@, r@),
{
    let ghost old_bank = bank@;
    match cmd {
        CasinoCommand::Help => lit(casino_help()),
        CasinoCommand::Credits => {
            let b = balance(bank, user);
            let mut s = lit(b.username.as_str());
            append(&mut s, " has ");
            append(&mut s, i64_text(b.credits).as_str());
            append(&mut s, " Credits in the Server Project treasury.");
            assert(casino_reply_spec(old_bank, bank@, user@, cmd@, s@));
            s
        },
        CasinoCommand::Slots(None) => lit("Uadmin: !slots <bet>"),
        CasinoCommand::Slots(Some(bet)) => {
            let res = play_slots(bank, user, *bet);
            let reply = match &res {
                Ok(resp) => with_balance(resp.mesadmin.as_str(), resp.balance.credits),
                Err(e) => failed("Slots failed: ", e),
            };
            proof {
                let (a, b, c) = choose|a: int, b: int, c: int|
                    0 <= a < 6 && 0 <= b < 6 && 0 <= c < 6 && #[trigger] slots_spec(old_bank, user@, *bet, a, b, c, bank@, res);
                assert(slots_chat(old_bank, bank@, user@, *bet, a, b, c, res, reply@));
                assert(casino_reply_spec(old_bank, bank@, user@, cmd@, reply@));
            }
            reply
        },
        CasinoCommand::Roulette(Some(bet), Some(choice)) => {
            let res = play_roulette(bank, user, *bet, choice.as_str());
            let reply = match &res {
                Ok(resp) => with_balance(resp.mesadmin.as_str(), resp.balance.credits),
                Err(e) => failed("Roulette failed: ", e),
            };
            proof {
                let n = choose|n: u8| n <= 36 && #[trigger] roulette_spec(old_bank, user@, *bet, choice@, n, bank@, res);
                assert(roulette_chat(old_bank, bank@, user@, *bet, choice@, n, res, reply@));
                assert(cmd@ == CommandView::Roulette(Some(*bet), Some(choice@)));
                assert(roulette_played(old_bank, bank@, user@, *bet, choice@, reply@));
                assert(casino_reply_spec(old_bank, bank@, user@, cmd@, reply@));
            }
            reply
        },
        CasinoCommand::Roulette(_, _) => lit("Uadmin: !roulette <bet> <red|black|green|odd|even|0-36>"),
        CasinoCommand::Blackjack(None) => lit("Uadmin: !blackjack <bet>"),
        CasinoCommand::Blackjack(Some(bet)) => {
            let res = play_blackjack_quick(bank, user, *bet);
            let reply = blackjack_text(&res);
            proof {
                let deck = choose|deck: Seq<u8>|
                    deck.len() == 52 && deck.to_multiset() == standard_deck().to_multiset()
                        && #[trigger] blackjack_quick_spec(old_bank, user@, *bet, deck, bank@, res);
                assert(blackjack_chat(old_bank, bank@, user@, *bet, deck, res, reply@));
                assert(casino_reply_spec(old_bank, bank@, user@, cmd@, reply@));
            }
            reply
        },
    }
}

/// Answers a casino command in a chat line: the sender and the reply, or
/// `None` when the line carries no casino command.
pub fn handle_casino_chat_command(bank: &mut Balances, line: &str) -> (r: Option<(String, String)>)
    requires
        old(bank).wf(),
        sender_headroom(old(bank)@, line@),
    ensures
        final(bank).wf(),
        match casino_command(line@) {
            None => r is None && final(bank)@ == old(bank)@,
            Some((sender, cmd)) => r matches Some(p) && p.0@ == sender && casino_reply_spec(
                old(bank)@,
                final(bank)@,
                sender,
                cmd,
                p.1@,
            ),
        },
{
    match parse_casino_chat_command(line) {
        None => None,
        Some((sender, cmd)) => {
            let reply = casino_reply(bank, sender.as_str(), &cmd);
            Some((sender, reply))
        },
    }
}

/// Answers a casino command in a chat line as `handle_casino_chat_command`
/// does, once it has tested that a game's payout fits in the sender's
/// balance: `None`, with nothing changed, when it would not.
pub fn handle_casino_chat_checked(bank: &mut Balances, line: &str) -> (r: Option<(String, String)>)
    requires
        old(bank).wf(),
    ensures
        final(bank).wf(),
        !sender_headroom(old(bank)@, line@) ==> r is None && final(bank)@ == old(bank)@,
        sender_headroom(old(bank)@, line@) ==> match casino_command(line@) {
            None => r is None && final(bank)@ == old(bank)@,
            Some((sender, cmd)) => r matches Some(p) && p.0@ == sender && casino_reply_spec(
                old(bank)@,
                final(bank)@,
                sender,
                cmd,
                p.1@,
            ),
        },
{
    if !sender_has_headroom(bank, line) {
        return None;
    }
    handle_casino_chat_command(bank, line)
}

} // verus!
