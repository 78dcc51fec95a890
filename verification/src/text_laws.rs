//! What texts, addresses, names and reports of pairs say.
use crate::analyzer::{setting_decimal, setting_number};
use crate::api::{
    configured_statuses, status_text, statuses, url_pair, with_disabled, PairStatusView,
};
use crate::bot::{engine_pair_state, pair_report, pair_reports, quote_word};
use crate::collections::{
    keyed, lemma_keyed, lemma_slot, lookup, slot, stored, stored_then_lookup, Entries,
};
use crate::decimal::{assembled, parsed_decimal, Decimal};
use crate::engine::Engine;
use crate::history::mapping_of;
use crate::market::AssetPairRecord;
use crate::net::ws_base;
use crate::pairs::ManagedPair;
use crate::pnl::PnlView;
use crate::position::Position;
use crate::quoter::QuoteState;
use crate::state::BotStateView;
use crate::text::{
    before_char, begins_with, digit_char, digits, digits_value, number_in, pieces, replaced,
    replaced_first, trimmed_end,
};
use crate::trade_log::{data_lines, last_lines, row, CsvTradeLogger};
use crate::types::{FillView, TradeRecordView};
use vstd::prelude::*;

verus! {

/// The digits of a number stand for it.
proof fn lemma_digits_read_back(n: nat)
    ensures
        digits_value(digits(n)) == Some(n),
        digits(n).len() > 0,
        '0' <= digits(n)[0] <= '9',
    decreases n,
{
    let d = (n % 10) as int;
    let c = digit_char(d);
    assert('0' <= c <= '9' && c as u32 - '0' as u32 == d);
    if n < 10 {
        let s = digits(n);
        assert(s.drop_last() =~= Seq::<char>::empty());
        assert(digits_value(Seq::<char>::empty()) == Some(0nat));
        assert(s.last() == c);
    } else {
        lemma_digits_read_back(n / 10);
        let s = digits(n);
        assert(s.drop_last() =~= digits(n / 10));
        assert(s.last() == c);
        assert(s[0] == digits(n / 10)[0]);
        assert(10 * (n / 10) + n % 10 == n);
    }
}

/// A number that is written is read back as the same number.
pub proof fn numbers_are_read_back(n: u64)
    ensures
        number_in(digits(n as nat)) == Some(n),
{
    lemma_digits_read_back(n as nat);
}

/// Some pieces with a character between each two of them.
pub open spec fn joined_by(parts: Seq<Seq<char>>, c: char) -> Seq<char>
    decreases parts.len(),
{
    if parts.len() == 0 {
        Seq::empty()
    } else if parts.len() == 1 {
        parts[0]
    } else {
        parts[0].push(c) + joined_by(parts.drop_first(), c)
    }
}

proof fn lemma_head(s: Seq<char>, c: char)
    ensures
        ({
            let h = before_char(s, c);
            &&& h.len() <= s.len()
            &&& s.take(h.len() as int) == h
            &&& !h.contains(c)
            &&& h.len() < s.len() ==> s[h.len() as int] == c
        }),
    decreases s.len(),
{
    let h = before_char(s, c);
    if s.len() > 0 && s[0] != c {
        let t = s.drop_first();
        lemma_head(t, c);
        let g = before_char(t, c);
        assert(s.take(h.len() as int) =~= seq![s[0]] + t.take(g.len() as int));
        assert forall|i: int| 0 <= i < h.len() implies h[i] != c by {
            if i > 0 {
                assert(h[i] == g[i - 1]);
            }
        }
    } else {
        assert(s.take(0) =~= Seq::<char>::empty());
    }
}

/// The pieces of a text make it up again, with the character that parts them in between, and none of
/// them holds that character.
pub proof fn pieces_make_up_the_text(s: Seq<char>, c: char)
    ensures
        joined_by(pieces(s, c), c) == s,
        pieces(s, c).len() > 0,
        forall|i: int| 0 <= i < pieces(s, c).len() ==> !(#[trigger] pieces(s, c)[i]).contains(c),
    decreases s.len(),
{
    let head = before_char(s, c);
    let all = pieces(s, c);
    lemma_head(s, c);
    if head.len() >= s.len() {
        assert(s.take(head.len() as int) =~= s);
        assert(all[0] == s);
    } else {
        let rest = s.skip(head.len() as int + 1);
        pieces_make_up_the_text(rest, c);
        assert(all.drop_first() =~= pieces(rest, c));
        assert(all[0] == head);
        assert(head.push(c) + rest =~= s) by {
            assert forall|i: int| 0 <= i < head.len() implies s[i] == head[i] by {
                assert(s.take(head.len() as int)[i] == head[i]);
            }
        }
        assert forall|i: int| 0 <= i < all.len() implies !(#[trigger] all[i]).contains(c) by {
            if i > 0 {
                assert(all[i] == pieces(rest, c)[i - 1]);
            }
        }
    }
}

/// An address of a web page becomes the WebSocket address of the same host and path, secure if it
/// was; a WebSocket address stays, and anything else is taken for a host.
pub proof fn addresses_keep_their_host(rest: Seq<char>)
    ensures
        ws_base("https://"@ + rest) == "wss://"@ + rest,
        ws_base("http://"@ + rest) == "ws://"@ + rest,
        ws_base("wss://"@ + rest) == "wss://"@ + rest,
        ws_base("ws://"@ + rest) == "ws://"@ + rest,
{
    reveal_strlit("https://");
    reveal_strlit("http://");
    reveal_strlit("wss://");
    reveal_strlit("ws://");
    lemma_first_replaced("https://"@, "wss://"@, rest);
    lemma_first_replaced("http://"@, "ws://"@, rest);
    let a = "http://"@ + rest;
    assert(!begins_with(a, "https://"@)) by {
        if begins_with(a, "https://"@) {
            assert(a.subrange(0, 8)[4] == "https://"@[4]);
            assert(a[4] == ':');
        }
    }
    let b = "wss://"@ + rest;
    assert(b[0] == 'w');
    assert(!begins_with(b, "https://"@) && !begins_with(b, "http://"@)) by {
        if begins_with(b, "https://"@) {
            assert(b.subrange(0, 8)[0] == "https://"@[0]);
        }
        if begins_with(b, "http://"@) {
            assert(b.subrange(0, 7)[0] == "http://"@[0]);
        }
    }
    assert(b.subrange(0, 6) =~= "wss://"@);
    let d = "ws://"@ + rest;
    assert(d[0] == 'w');
    assert(!begins_with(d, "https://"@) && !begins_with(d, "http://"@)) by {
        if begins_with(d, "https://"@) {
            assert(d.subrange(0, 8)[0] == "https://"@[0]);
        }
        if begins_with(d, "http://"@) {
            assert(d.subrange(0, 7)[0] == "http://"@[0]);
        }
    }
    assert(d.subrange(0, 5) =~= "ws://"@);
}

proof fn lemma_first_replaced(p: Seq<char>, t: Seq<char>, rest: Seq<char>)
    requires
        p.len() > 0,
    ensures
        begins_with(p + rest, p),
        replaced_first(p + rest, p, t) == t + rest,
{
    let s = p + rest;
    assert(s.subrange(0, p.len() as int) =~= p);
    assert(s.skip(p.len() as int) =~= rest);
}

/// Dropping a character at the end of a text leaves the part before it, and no such character at the
/// end.
pub proof fn ends_are_trimmed(s: Seq<char>, c: char)
    ensures
        ({
            let t = trimmed_end(s, c);
            &&& t.len() <= s.len()
            &&& s.take(t.len() as int) == t
            &&& t.len() > 0 ==> t.last() != c
            &&& forall|i: int| t.len() <= i < s.len() ==> s[i] == c
        }),
    decreases s.len(),
{
    if s.len() > 0 && s.last() == c {
        let f = s.drop_last();
        ends_are_trimmed(f, c);
        let t = trimmed_end(f, c);
        assert(s.take(t.len() as int) =~= f.take(t.len() as int));
        assert forall|i: int| t.len() <= i < s.len() implies s[i] == c by {
            if i < f.len() {
                assert(f[i] == c);
            }
        }
    } else {
        assert(s.take(s.len() as int) =~= s);
    }
}

/// In the history a pair may go by the key or by the other name of its record, and both stand for the
/// name of the pair in that record; what other names stand for stays.
pub proof fn names_stand_for_pairs(records: Seq<AssetPairRecord>, r: AssetPairRecord, name: Seq<char>)
    requires
        r.wsname is Some,
    ensures
        ({
            let m = mapping_of(records.push(r));
            let w = r.wsname.unwrap()@;
            &&& lookup(m, r.rest_key@) == Some(w)
            &&& r.altname matches Some(alt) ==> lookup(m, alt@) == Some(w)
            &&& name != r.rest_key@ && (r.altname matches Some(alt) ==> name != alt@) ==> lookup(
                m,
                name,
            ) == lookup(mapping_of(records), name)
        }),
{
    let all = records.push(r);
    assert(all.drop_last() =~= records);
    assert(all.last() == r);
    let w = r.wsname.unwrap()@;
    let rest = mapping_of(records);
    let with_key = stored(rest, r.rest_key@, w);
    stored_then_lookup(rest, r.rest_key@, w, r.rest_key@);
    stored_then_lookup(rest, r.rest_key@, w, name);
    if let Some(alt) = r.altname {
        stored_then_lookup(with_key, alt@, w, alt@);
        stored_then_lookup(with_key, alt@, w, r.rest_key@);
        stored_then_lookup(with_key, alt@, w, name);
    }
}

/// The status of a pair that does not cool down: disabled if it is, otherwise sell-only while the bot
/// is paused, otherwise active.
pub proof fn statuses_go_by_the_books(s: BotStateView, pair: Seq<char>)
    requires
        lookup(s.cooldown_until, pair) is None,
    ensures
        keyed(s.disabled_pairs, pair) ==> status_text(s, pair) == Some("disabled"@),
        !keyed(s.disabled_pairs, pair) && s.paused ==> status_text(s, pair) == Some("sell_only"@),
        !keyed(s.disabled_pairs, pair) && !s.paused ==> status_text(s, pair) == Some("active"@),
{
}

/// The status of a pair that cools down says until when, whatever else is the matter with it.
pub proof fn cooling_pairs_say_so(s: BotStateView, pair: Seq<char>)
    requires
        lookup(s.cooldown_until, pair) is Some,
    ensures
        status_text(s, pair) matches Some(t) ==> begins_with(t, "cooldown_until:"@),
{
    if let Some(t) = status_text(s, pair) {
        let head = "cooldown_until:"@;
        assert(t.subrange(0, head.len() as int) =~= head);
    }
}

/// Whether what is told of a pair agrees with the books.
pub open spec fn tells(s: BotStateView, pair: Seq<char>, t: PairStatusView) -> bool {
    &&& t.disabled == keyed(s.disabled_pairs, pair)
    &&& t.cooldown_until == lookup(s.cooldown_until, pair)
    &&& t.position == lookup(s.positions, pair)
}

proof fn lemma_configured(s: BotStateView, pairs: Seq<Seq<char>>, pair: Seq<char>)
    ensures
        configured_statuses(s, pairs) matches Some(m) ==> {
            &&& pairs.contains(pair) ==> (lookup(m, pair) matches Some(t) && tells(s, pair, t) && Some(
                t.status,
            ) == status_text(s, pair))
            &&& !pairs.contains(pair) ==> lookup(m, pair) is None
        },
    decreases pairs.len(),
{
    if pairs.len() > 0 {
        let front = pairs.drop_last();
        let last = pairs.last();
        lemma_configured(s, front, pair);
        if let (Some(rest), Some(status)) = (configured_statuses(s, front), status_text(s, last)) {
            stored_then_lookup(rest, last, crate::api::status_with(s, last, status), pair);
        }
        assert(pairs[pairs.len() - 1] == last);
        if front.contains(pair) {
            let i = choose|i: int| 0 <= i < front.len() && front[i] == pair;
            assert(pairs[i] == pair);
        }
        if pairs.contains(pair) && pair != last {
            let i = choose|i: int| 0 <= i < pairs.len() && pairs[i] == pair;
            assert(front[i] == pair);
        }
    }
}

proof fn lemma_with_disabled(
    s: BotStateView,
    known: Entries<PairStatusView>,
    disabled: Entries<()>,
    pair: Seq<char>,
)
    ensures
        keyed(known, pair) ==> lookup(with_disabled(s, known, disabled), pair) == lookup(known, pair),
        !keyed(known, pair) && keyed(disabled, pair) ==> (lookup(
            with_disabled(s, known, disabled),
            pair,
        ) matches Some(t) && tells(s, pair, t) && t.status == "disabled"@),
        !keyed(known, pair) && !keyed(disabled, pair) ==> lookup(
            with_disabled(s, known, disabled),
            pair,
        ) is None,
    decreases disabled.len(),
{
    lemma_slot(disabled, pair);
    if disabled.len() > 0 {
        let front = disabled.drop_last();
        let p = disabled.last().0;
        let last = disabled.len() - 1;
        lemma_with_disabled(s, known, front, pair);
        let rest = with_disabled(s, known, front);
        stored_then_lookup(rest, p, crate::api::status_with(s, p, "disabled"@), pair);
        lemma_slot(front, pair);
        assert(disabled[last].0 == p);
        if keyed(front, pair) {
            assert(disabled[slot(front, pair)] == front[slot(front, pair)]);
            lemma_keyed(disabled, pair, slot(front, pair));
        } else if p == pair {
            lemma_keyed(disabled, pair, last);
        } else if keyed(disabled, pair) {
            assert(front[slot(disabled, pair)].0 != pair);
        }
    }
}

/// What is told of all pairs agrees with the books: of each configured pair with its status, of each
/// other disabled one as disabled, and of no other pair.
pub proof fn all_pairs_are_told_of(s: BotStateView, pairs: Seq<Seq<char>>, pair: Seq<char>)
    ensures
        statuses(s, pairs) matches Some(m) ==> {
            &&& pairs.contains(pair) ==> (lookup(m, pair) matches Some(t) && tells(s, pair, t) && Some(
                t.status,
            ) == status_text(s, pair))
            &&& !pairs.contains(pair) && keyed(s.disabled_pairs, pair) ==> (lookup(
                m,
                pair,
            ) matches Some(t) && tells(s, pair, t) && t.status == "disabled"@)
            &&& !pairs.contains(pair) && !keyed(s.disabled_pairs, pair) ==> lookup(m, pair) is None
        },
{
    lemma_configured(s, pairs, pair);
    if let Some(known) = configured_statuses(s, pairs) {
        lemma_with_disabled(s, known, s.disabled_pairs, pair);
    }
}

/// The tail of a trade log holds its last lines, in order, without the header and no more than asked
/// for.
pub proof fn tails_hold_the_last_lines(lines: Seq<Seq<char>>, limit: nat)
    requires
        lines.len() > 0,
    ensures
        ({
            let tail = last_lines(data_lines(lines), limit);
            &&& tail.len() <= limit
            &&& tail.len() == limit || tail.len() == lines.len() - 1
            &&& forall|i: int|
                0 <= i < tail.len() ==> tail[i] == #[trigger] lines[lines.len() - tail.len() + i]
        }),
{
}

/// A setting that is given as a number is that number; one that is not given, or is no number, has its
/// default. No other setting matters.
pub proof fn settings_are_read_by_name(
    settings: Entries<Seq<char>>,
    key: Seq<char>,
    n: u64,
    default: u64,
    other: Seq<char>,
    value: Seq<char>,
)
    requires
        other != key,
    ensures
        setting_number(stored(settings, key, digits(n as nat)), key, default) == n,
        lookup(settings, key) is None ==> setting_number(settings, key, default) == default,
        setting_number(stored(settings, other, value), key, default) == setting_number(
            settings,
            key,
            default,
        ),
{
    numbers_are_read_back(n);
    stored_then_lookup(settings, key, digits(n as nat), key);
    stored_then_lookup(settings, other, value, key);
}

/// The same goes for settings that are amounts.
pub proof fn amounts_are_read_by_name(
    settings: Entries<Seq<char>>,
    key: Seq<char>,
    text: Seq<char>,
    default: Decimal,
    other: Seq<char>,
)
    requires
        other != key,
    ensures
        assembled(parsed_decimal(text)) matches Some(d) ==> setting_decimal(
            stored(settings, key, text),
            key,
            default,
        ) == d,
        assembled(parsed_decimal(text)) is None ==> setting_decimal(
            stored(settings, key, text),
            key,
            default,
        ) == default,
        lookup(settings, key) is None ==> setting_decimal(settings, key, default) == default,
        setting_decimal(stored(settings, other, text), key, default) == setting_decimal(
            settings,
            key,
            default,
        ),
{
    stored_then_lookup(settings, key, text, key);
    stored_then_lookup(settings, other, text, key);
}

proof fn lemma_replaced_joins(a: Seq<char>, b: Seq<char>, c: char, t: Seq<char>)
    ensures
        replaced(a + b, c, t) == replaced(a, c, t) + replaced(b, c, t),
    decreases b.len(),
{
    if b.len() == 0 {
        assert(a + b =~= a);
        assert(replaced(a, c, t) + b =~= replaced(a, c, t));
    } else {
        let s = a + b;
        assert(s.drop_last() =~= a + b.drop_last());
        assert(s.last() == b.last());
        lemma_replaced_joins(a, b.drop_last(), c, t);
        let x = replaced(a, c, t);
        let y = replaced(b.drop_last(), c, t);
        assert((x + y) + t =~= x + (y + t));
        assert((x + y).push(b.last()) =~= x + y.push(b.last()));
    }
}

proof fn lemma_replaced_nothing(a: Seq<char>, c: char, t: Seq<char>)
    requires
        !a.contains(c),
    ensures
        replaced(a, c, t) == a,
    decreases a.len(),
{
    if a.len() > 0 {
        let f = a.drop_last();
        assert(a[a.len() - 1] != c);
        assert forall|i: int| 0 <= i < f.len() implies f[i] != c by {
            assert(a[i] != c);
        }
        lemma_replaced_nothing(f, c, t);
        assert(f.push(a.last()) =~= a);
    }
}

/// A pair that a URL names by base and quote with an underscore between them is the pair of that base
/// and quote.
pub proof fn urls_name_pairs(base: Seq<char>, quote: Seq<char>)
    requires
        !base.contains('_') && !quote.contains('_'),
    ensures
        url_pair(base + seq!['_'] + quote) == base + seq!['/'] + quote,
{
    let mid: Seq<char> = seq!['_'];
    let t = "/"@;
    reveal_strlit("/");
    lemma_replaced_joins(base + mid, quote, '_', t);
    lemma_replaced_joins(base, mid, '_', t);
    lemma_replaced_nothing(base, '_', t);
    lemma_replaced_nothing(quote, '_', t);
    let none = Seq::<char>::empty();
    assert(mid.drop_last() =~= none);
    assert(mid.last() == '_');
    assert(replaced(none, '_', t) == none);
    assert(replaced(mid, '_', t) =~= none + t);
    assert(none + t =~= t);
    assert(t =~= seq!['/']);
}

/// The engine's sets give a pair one state: being liquidated goes before being disabled, that before
/// being sell-only; a pair in none of them is active.
pub proof fn states_go_by_the_sets(e: Engine, pair: Seq<char>)
    ensures
        ({
            let s = engine_pair_state(e, pair);
            let off = keyed(e.disabled_pairs@, pair) || keyed(e.state@.disabled_pairs, pair);
            &&& s is Liquidating <==> keyed(e.pending_liquidation@, pair)
            &&& s is Disabled <==> off && !keyed(e.pending_liquidation@, pair)
            &&& s is WindDown <==> keyed(e.sell_only_pairs@, pair) && !off && !keyed(
                e.pending_liquidation@,
                pair,
            )
            &&& s is Active <==> !keyed(e.sell_only_pairs@, pair) && !off && !keyed(
                e.pending_liquidation@,
                pair,
            )
        }),
{
}

/// A snapshot reports on each pair, in order.
pub proof fn every_pair_is_reported_on(
    pairs: Seq<ManagedPair>,
    positions: Entries<Position>,
    i: int,
)
    requires
        0 <= i < pairs.len(),
    ensures
        pair_reports(pairs, positions) matches Some(r) ==> r.len() == pairs.len() && pair_report(
            pairs[i],
            positions,
        ) == Some(r[i]),
    decreases pairs.len(),
{
    let front = pairs.drop_last();
    if i < front.len() {
        every_pair_is_reported_on(front, positions, i);
        assert(front[i] == pairs[i]);
    } else if front.len() > 0 {
        every_pair_is_reported_on(front, positions, 0);
    }
}

/// The log gets its header once, before the first line, and one line for each trade.
pub proof fn headers_come_first(logger: CsvTradeLogger, t: TradeRecordView)
    ensures
        logger.lines_for(t) matches Some(lines) ==> {
            &&& lines.len() == (if logger.header_written {
                1int
            } else {
                2
            })
            &&& Some(lines.last()) == row(t)
            &&& !logger.header_written ==> lines[0]
                == "timestamp,symbol,side,price,qty,value_usd,fee,pnl,cumulative_pnl"@
        },
{
}

/// A history is taken in one fill after the other, from the oldest on.
pub proof fn histories_are_taken_in_order(t: PnlView, fills: Seq<FillView>, fill: FillView)
    ensures
        t.after_history(fills.push(fill)) == (match t.after_history(fills) {
            Some(u) => u.after_seeded(fill),
            None => None,
        }),
        t.after_history(Seq::empty()) == Some(t),
{
    let all = fills.push(fill);
    assert(all.drop_last() =~= fills);
    assert(all.last() == fill);
}

/// The words for the states of quotes differ.
pub proof fn quote_words_are_distinct(a: QuoteState, b: QuoteState)
    requires
        quote_word(a) == quote_word(b),
    ensures
        a == b,
{
    reveal_strlit("idle");
    reveal_strlit("pending");
    reveal_strlit("quoting");
    reveal_strlit("bid_filled");
    reveal_strlit("ask_filled");
    assert("pending"@[0] == 'p' && "quoting"@[0] == 'q');
    assert("bid_filled"@[0] == 'b' && "ask_filled"@[0] == 'a');
    assert("idle"@.len() == 4);
    assert("pending"@.len() == 7 && "quoting"@.len() == 7);
    assert("bid_filled"@.len() == 10 && "ask_filled"@.len() == 10);
}

} // verus!
