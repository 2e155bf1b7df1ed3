//! What bounded histories promise: a pair is taken once while it is remembered, and the oldest is
//! forgotten first.

use vstd::prelude::*;

use crate::pair_history::PairHistory;
use crate::replay::PacketReplayWindow;

verus! {

/// The pair joins at the end. The pairs before it are those that were there, without the oldest where
/// there is no room for one more.
pub open spec fn joins_at_the_end(
    most: nat,
    before: Seq<(u64, u64)>,
    after: Seq<(u64, u64)>,
    pair: (u64, u64),
) -> bool {
    let dropped: int = if before.len() < most {
        0
    } else {
        1
    };
    &&& after.len() == before.len() + 1 - dropped
    &&& after.last() == pair
    &&& forall|i: int|
        0 <= i < after.len() - 1 ==> #[trigger] after[i] == before[i + dropped]
}

/// A pair that is remembered is refused and changes nothing. Any other is taken and remembered, and
/// only the oldest pair is forgotten for it. A history without room takes every pair and remembers
/// none.
pub proof fn law_remembered_pairs_are_refused(source: u64, number: u64)
    ensures
        forall|history: &mut PairHistory, accepted: bool|
            #[trigger] call_ensures(PairHistory::accept, (history, source, number), accepted)
                && history.wf() ==> {
                let known = exists|i: int|
                    0 <= i < history@.len() && #[trigger] history@[i] == (source, number);
                &&& history.max_pairs == 0 ==> accepted && final(history)@ == history@
                &&& history.max_pairs > 0 ==> (accepted <==> !known)
                &&& !accepted ==> final(history)@ == history@
                &&& history.max_pairs > 0 && accepted ==> joins_at_the_end(
                    history.max_pairs as nat,
                    history@,
                    final(history)@,
                    (source, number),
                )
                &&& final(history)@.len() <= history.max_pairs
                &&& final(history).max_pairs == history.max_pairs
            },
        forall|history: &PairHistory, found: bool|
            #[trigger] call_ensures(PairHistory::contains, (history, source, number), found)
                && history.wf() ==> (found <==> exists|i: int|
                0 <= i < history@.len() && #[trigger] history@[i] == (source, number)),
{
}

/// A nonce is taken once under each key while it is remembered, and only the oldest is forgotten for
/// it. The same nonce under another key is another matter.
pub proof fn law_nonces_are_taken_once(key_id: u32, nonce: u64)
    ensures
        forall|window: &mut PacketReplayWindow, accepted: bool|
            #[trigger] call_ensures(PacketReplayWindow::accept, (window, key_id, nonce), accepted)
                && window.wf() ==> {
                let known = exists|i: int|
                    0 <= i < window@.len() && #[trigger] window@[i] == (key_id as u64, nonce);
                &&& window.max_seen() == 0 ==> accepted && final(window)@ == window@
                &&& window.max_seen() > 0 ==> (accepted <==> !known)
                &&& !accepted ==> final(window)@ == window@
                &&& window.max_seen() > 0 && accepted ==> joins_at_the_end(
                    window.max_seen(),
                    window@,
                    final(window)@,
                    (key_id as u64, nonce),
                )
                &&& final(window).max_seen() == window.max_seen()
            },
        forall|window: &PacketReplayWindow, found: bool|
            #[trigger] call_ensures(PacketReplayWindow::contains, (window, key_id, nonce), found)
                && window.wf() ==> (found <==> exists|i: int|
                0 <= i < window@.len() && #[trigger] window@[i] == (key_id as u64, nonce)),
{
}

} // verus!
