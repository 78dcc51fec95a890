//! The control API: what requests ask of the engine and what is told of its pairs.
use crate::collections::{keyed, lookup, stored, texts, Entries, StrMap};
use crate::events::ApiAction;
use crate::position::Position;
use crate::state::{BotState, BotStateView};
use crate::text::{opt_text, replace, replaced};
use crate::time::{formatted_time, Timestamp};
use vstd::prelude::*;

verus! {

/// What a request can ask for a pair.
#[derive(Clone, Copy, Debug, PartialEq, Eq, Structural)]
pub enum PairVerb {
    Liquidate,
    Disable,
    Enable,
    Add,
    Remove,
}

/// The name of the pair in a URL, where `_` stands for `/`.
pub open spec fn url_pair(symbol: Seq<char>) -> Seq<char> {
    replaced(symbol, '_', "/"@)
}

/// The action that a request for a pair stands for.
pub fn pair_action(verb: PairVerb, symbol: &str) -> (r: ApiAction)
    ensures
        match verb {
            PairVerb::Liquidate => r matches ApiAction::Liquidate { pair } && pair@ == url_pair(
                symbol@,
            ),
            PairVerb::Disable => r matches ApiAction::DisablePair { pair } && pair@ == url_pair(
                symbol@,
            ),
            PairVerb::Enable => r matches ApiAction::EnablePair { pair } && pair@ == url_pair(
                symbol@,
            ),
            PairVerb::Add => r matches ApiAction::AddPair { pair } && pair@ == url_pair(symbol@),
            PairVerb::Remove => r matches ApiAction::RemovePair { pair } && pair@ == url_pair(
                symbol@,
            ),
        },
{
    let pair = replace(symbol, '_', "/");
    match verb {
        PairVerb::Liquidate => ApiAction::Liquidate { pair },
        PairVerb::Disable => ApiAction::DisablePair { pair },
        PairVerb::Enable => ApiAction::EnablePair { pair },
        PairVerb::Add => ApiAction::AddPair { pair },
        PairVerb::Remove => ApiAction::RemovePair { pair },
    }
}

/// What is told of a pair.
#[derive(Debug)]
pub struct PairStatus {
    pub status: String,
    pub disabled: bool,
    pub cooldown_until: Option<Timestamp>,
    pub position: Option<Position>,
}

/// Model of [`PairStatus`].
#[verifier::ext_equal]
pub struct PairStatusView {
    pub status: Seq<char>,
    pub disabled: bool,
    pub cooldown_until: Option<Timestamp>,
    pub position: Option<Position>,
}

impl View for PairStatus {
    type V = PairStatusView;

    open spec fn view(&self) -> PairStatusView {
        PairStatusView {
            status: self.status@,
            disabled: self.disabled,
            cooldown_until: self.cooldown_until,
            position: self.position,
        }
    }
}

/// The status of a pair: a cooldown goes before being disabled, that before a paused bot. `None` if
/// the end of the cooldown cannot be written.
pub open spec fn status_text(s: BotStateView, pair: Seq<char>) -> Option<Seq<char>> {
    match lookup(s.cooldown_until, pair) {
        Some(until) => match formatted_time(
            until.secs(),
            until.subsec_nanos(),
            "%H:%M:%S UTC"@,
        ) {
            Some(time) => Some("cooldown_until:"@ + time),
            None => None,
        },
        None => if keyed(s.disabled_pairs, pair) {
            Some("disabled"@)
        } else if s.paused {
            Some("sell_only"@)
        } else {
            Some("active"@)
        },
    }
}

/// What is told of a pair under a given status.
pub open spec fn status_with(s: BotStateView, pair: Seq<char>, status: Seq<char>) -> PairStatusView {
    PairStatusView {
        status,
        disabled: keyed(s.disabled_pairs, pair),
        cooldown_until: lookup(s.cooldown_until, pair),
        position: lookup(s.positions, pair),
    }
}

/// What is told of the configured pairs. `None` if a time cannot be written.
pub open spec fn configured_statuses(s: BotStateView, pairs: Seq<Seq<char>>) -> Option<
    Entries<PairStatusView>,
>
    decreases pairs.len(),
{
    if pairs.len() == 0 {
        Some(Seq::empty())
    } else {
        match (configured_statuses(s, pairs.drop_last()), status_text(s, pairs.last())) {
            (Some(rest), Some(status)) => Some(
                stored(rest, pairs.last(), status_with(s, pairs.last(), status)),
            ),
            _ => None,
        }
    }
}

/// What is told of the pairs so far and of some disabled ones that are not among them.
pub open spec fn with_disabled(
    s: BotStateView,
    known: Entries<PairStatusView>,
    disabled: Entries<()>,
) -> Entries<PairStatusView>
    decreases disabled.len(),
{
    if disabled.len() == 0 {
        known
    } else {
        let rest = with_disabled(s, known, disabled.drop_last());
        let pair = disabled.last().0;
        if keyed(rest, pair) {
            rest
        } else {
            stored(rest, pair, status_with(s, pair, "disabled"@))
        }
    }
}

/// What is told of all pairs: those configured, and disabled ones that are not.
pub open spec fn statuses(s: BotStateView, pairs: Seq<Seq<char>>) -> Option<
    Entries<PairStatusView>,
> {
    match configured_statuses(s, pairs) {
        Some(known) => Some(with_disabled(s, known, s.disabled_pairs)),
        None => None,
    }
}

fn read_status(state: &BotState, pair: &str, status: String) -> (r: PairStatus)
    ensures
        r@ == status_with(state@, pair@, status@),
{
    PairStatus {
        status,
        disabled: state.disabled_pairs.contains_key(pair),
        cooldown_until: match state.cooldown_until.get(pair) {
            Some(t) => Some(*t),
            None => None,
        },
        position: match state.positions.get(pair) {
            Some(p) => Some(*p),
            None => None,
        },
    }
}

/// The status of a pair in a word. `None` if the end of its cooldown cannot be written.
pub fn status_word(state: &BotState, pair: &str) -> (r: Option<String>)
    ensures
        opt_text(r) == status_text(state@, pair@),
{
    match state.cooldown_until.get(pair) {
        Some(until) => match until.format("%H:%M:%S UTC") {
            Some(time) => Some(String::from_str("cooldown_until:").concat(time.as_str())),
            None => None,
        },
        None => if state.disabled_pairs.contains_key(pair) {
            Some("disabled".to_owned())
        } else if state.paused {
            Some("sell_only".to_owned())
        } else {
            Some("active".to_owned())
        },
    }
}

proof fn lemma_statuses_stop(s: BotStateView, pairs: Seq<Seq<char>>, i: int)
    requires
        0 <= i <= pairs.len(),
        configured_statuses(s, pairs.take(i)) is None,
    ensures
        configured_statuses(s, pairs) is None,
    decreases pairs.len() - i,
{
    if i == pairs.len() {
        assert(pairs.take(i) =~= pairs);
    } else {
        assert(pairs.take(i + 1).drop_last() =~= pairs.take(i));
        lemma_statuses_stop(s, pairs, i + 1);
    }
}

/// What is told of all pairs. `None` if a time cannot be written.
pub fn pair_statuses(state: &BotState, pairs: &Vec<String>) -> (r: Option<StrMap<PairStatus>>)
    ensures
        match statuses(state@, texts(pairs@)) {
            Some(s) => r is Some && r.unwrap()@ == s,
            None => r is None,
        },
{
    let ghost s = state@;
    let ghost all = texts(pairs@);
    let mut r: StrMap<PairStatus> = StrMap::new();
    let mut i: usize = 0;
    while i < pairs.len()
        invariant
            i <= pairs.len(),
            s == state@,
            all == texts(pairs@),
            configured_statuses(s, all.take(i as int)) == Some(r@),
        decreases pairs.len() - i,
    {
        proof {
            assert(all.take(i + 1).drop_last() =~= all.take(i as int));
            assert(all.take(i + 1).last() == all[i as int]);
        }
        let pair = pairs[i].as_str();
        match status_word(state, pair) {
            Some(status) => {
                r.insert(pairs[i].clone(), read_status(state, pair, status));
            },
            None => {
                proof {
                    lemma_statuses_stop(s, all, i + 1);
                }
                return None;
            },
        }
        i = i + 1;
    }
    assert(all.take(i as int) =~= all);
    let ghost known = r@;
    let ghost disabled = s.disabled_pairs;
    let n: usize = state.disabled_pairs.len();
    let mut k: usize = 0;
    while k < n
        invariant
            k <= n == disabled.len(),
            s == state@,
            disabled == state.disabled_pairs@,
            r@ == with_disabled(s, known, disabled.take(k as int)),
        decreases n - k,
    {
        proof {
            assert(disabled.take(k + 1).drop_last() =~= disabled.take(k as int));
            assert(disabled.take(k + 1).last() == disabled[k as int]);
        }
        let pair = state.disabled_pairs.key_at(k);
        if !r.contains_key(pair.as_str()) {
            let status = read_status(state, pair.as_str(), "disabled".to_owned());
            r.insert(pair.clone(), status);
        }
        k = k + 1;
    }
    assert(disabled.take(k as int) =~= disabled);
    Some(r)
}

} // verus!
