use crate::communication_bridge::{Channel, CommunicationBridge};
use crate::events::MapSwitchEvent;
use crate::messages::Message;
use crate::model::{fresh_map, EditorMap};
use crate::shared_state::{
    first_match, has_id, keys_unique, lemma_first_match_of_unique_keys, lemma_first_match_unique,
    position_of, SharedState, SharedStateView,
};
use vstd::prelude::*;

verus! {

/// The catalog after an upload of `id` with locator `url`: a new key is
/// appended as a fresh map; a known key is left alone, or, when `overwrite`
/// is set, its entry is replaced by a fresh map.
pub open spec fn upload_step(s: SharedStateView, id: Seq<char>, url: Seq<char>, overwrite: bool) -> SharedStateView {
    if !has_id(s.all_maps, id) {
        SharedStateView { current_map: s.current_map, all_maps: s.all_maps.push(fresh_map(id, url)) }
    } else if !overwrite {
        s
    } else {
        SharedStateView {
            current_map: s.current_map,
            all_maps: s.all_maps.update(first_match(s.all_maps, id), fresh_map(id, url)),
        }
    }
}

/// The state after a request to display `id`, and whether the switch
/// notification goes out. Nothing changes when `id` is already current or is
/// not in the catalog. Otherwise the current map, if any, is written back to
/// its catalog entry (appended when it has none), and a copy of the catalog's
/// entry for `id` becomes current.
pub open spec fn display_step(s: SharedStateView, id: Seq<char>) -> (SharedStateView, bool) {
    if s.current_map is Some && s.current_map->0.id == id {
        (s, false)
    } else if !has_id(s.all_maps, id) {
        (s, false)
    } else {
        let target = s.all_maps[first_match(s.all_maps, id)];
        let saved = match s.current_map {
            None => s.all_maps,
            Some(c) => if has_id(s.all_maps, c.id) {
                s.all_maps.update(first_match(s.all_maps, c.id), c)
            } else {
                s.all_maps.push(c)
            },
        };
        (SharedStateView { current_map: Some(target), all_maps: saved }, true)
    }
}

/// The state after applying `m`, and whether the switch notification goes out.
pub open spec fn message_step(s: SharedStateView, m: Message) -> (SharedStateView, bool) {
    match m {
        Message::UploadMapInformation { id, url, overwrite } => (
            upload_step(s, id@, url@, overwrite),
            false,
        ),
        Message::DisplayMap { id } => display_step(s, id@),
    }
}

/// What one tick of reconciliation did.
#[derive(Debug, Clone, Copy, PartialEq, Eq, Structural)]
pub enum Outcome {
    /// No message was pending.
    NothingPending,
    /// An upload registered a new map.
    MapAdded,
    /// An upload named a known map without asking to overwrite it.
    UploadIgnored,
    /// An upload replaced the entry of a known map.
    MapReplaced,
    /// The requested map was already current.
    AlreadyCurrent,
    /// The requested map is not in the catalog; the request was dropped.
    UnknownMapId,
    /// The requested map became current.
    Switched,
    /// The requested map became current, and the previous current map, which
    /// the catalog lacked, was appended to it.
    SwitchedAfterRepair,
}

impl Outcome {
    /// The current map changed, so the switch notification goes out.
    pub open spec fn is_switch(self) -> bool {
        self is Switched || self is SwitchedAfterRepair
    }

    /// The switch notification this outcome calls for, if any.
    pub fn notification(&self) -> (r: Option<MapSwitchEvent>)
        ensures
            r is Some <==> self.is_switch(),
    {
        match self {
            Outcome::Switched | Outcome::SwitchedAfterRepair => Some(MapSwitchEvent()),
            _ => None,
        }
    }
}

/// What an upload of `id` does to the state `s`.
pub open spec fn upload_outcome(s: SharedStateView, id: Seq<char>, overwrite: bool) -> Outcome {
    if !has_id(s.all_maps, id) {
        Outcome::MapAdded
    } else if !overwrite {
        Outcome::UploadIgnored
    } else {
        Outcome::MapReplaced
    }
}

/// What a request to display `id` does to the state `s`.
pub open spec fn display_outcome(s: SharedStateView, id: Seq<char>) -> Outcome {
    if s.current_map is Some && s.current_map->0.id == id {
        Outcome::AlreadyCurrent
    } else if !has_id(s.all_maps, id) {
        Outcome::UnknownMapId
    } else if s.current_map is Some && !has_id(s.all_maps, s.current_map->0.id) {
        Outcome::SwitchedAfterRepair
    } else {
        Outcome::Switched
    }
}

/// What applying `m` does to the state `s`.
pub open spec fn message_outcome(s: SharedStateView, m: Message) -> Outcome {
    match m {
        Message::UploadMapInformation { id, url, overwrite } => upload_outcome(s, id@, overwrite),
        Message::DisplayMap { id } => display_outcome(s, id@),
    }
}

/// A current map that the catalog lacks is never lost: after any display
/// request it is still current or stands in the catalog. A request for a map
/// of the catalog appends it to the catalog, reports the repair, sends the
/// switch notification and makes the catalog's first entry with the requested
/// key current; where keys are unique, that is the one entry with the key.
pub proof fn lemma_display_recovers_current(s: SharedStateView, id: Seq<char>)
    requires
        s.current_map is Some,
        !has_id(s.all_maps, s.current_map->0.id),
    ensures
        display_step(s, id).0.current_map == s.current_map || display_step(s, id).0.all_maps.contains(
            s.current_map->0,
        ),
        has_id(s.all_maps, id) ==> {
            &&& display_step(s, id).1
            &&& display_outcome(s, id) == Outcome::SwitchedAfterRepair
            &&& display_step(s, id).0.all_maps == s.all_maps.push(s.current_map->0)
            &&& display_step(s, id).0.current_map == Some(s.all_maps[first_match(s.all_maps, id)])
        },
        forall|i: int|
            keys_unique(s.all_maps) && 0 <= i < s.all_maps.len() && #[trigger] s.all_maps[i].id
                == id ==> display_step(s, id).0.current_map == Some(s.all_maps[i]),
{
    let c = s.current_map->0;
    if has_id(s.all_maps, id) {
        assert(c.id != id);
        let saved = s.all_maps.push(c);
        assert(saved[s.all_maps.len() as int] == c);
    }
    assert forall|i: int|
        keys_unique(s.all_maps) && 0 <= i < s.all_maps.len() && #[trigger] s.all_maps[i].id
            == id implies display_step(s, id).0.current_map == Some(s.all_maps[i]) by {
        lemma_first_match_of_unique_keys(s.all_maps, id);
        let k = first_match(s.all_maps, id);
        if k != i {
            assert(s.all_maps[k].id != s.all_maps[i].id);
        }
    }
}

/// Applying any message to a catalog without repeated keys leaves it without
/// repeated keys.
pub proof fn lemma_step_keeps_keys_unique(s: SharedStateView, m: Message)
    requires
        keys_unique(s.all_maps),
    ensures
        keys_unique(message_step(s, m).0.all_maps),
{
    let maps = s.all_maps;
    match m {
        Message::UploadMapInformation { id, url, overwrite } => {
            let n = upload_step(s, id@, url@, overwrite).all_maps;
            if !has_id(maps, id@) {
                assert forall|i: int, j: int|
                    0 <= i < n.len() && 0 <= j < n.len() && i != j implies #[trigger] n[i].id
                    != #[trigger] n[j].id by {
                    if i < maps.len() && j < maps.len() {
                        assert(n[i] == maps[i] && n[j] == maps[j]);
                    } else if i < maps.len() {
                        assert(n[i] == maps[i]);
                    } else {
                        assert(n[j] == maps[j]);
                    }
                }
            } else if overwrite {
                lemma_first_match_of_unique_keys(maps, id@);
                assert forall|i: int, j: int|
                    0 <= i < n.len() && 0 <= j < n.len() && i != j implies #[trigger] n[i].id
                    != #[trigger] n[j].id by {
                    assert(n[i].id == maps[i].id);
                    assert(n[j].id == maps[j].id);
                }
            }
        },
        Message::DisplayMap { id } => {
            let n = display_step(s, id@).0.all_maps;
            if !(s.current_map is Some && s.current_map->0.id == id@) && has_id(maps, id@) {
                if let Some(c) = s.current_map {
                    if has_id(maps, c.id) {
                        lemma_first_match_of_unique_keys(maps, c.id);
                        assert forall|i: int, j: int|
                            0 <= i < n.len() && 0 <= j < n.len() && i != j implies #[trigger] n[i].id
                            != #[trigger] n[j].id by {
                            assert(n[i].id == maps[i].id);
                            assert(n[j].id == maps[j].id);
                        }
                    } else {
                        assert forall|i: int, j: int|
                            0 <= i < n.len() && 0 <= j < n.len() && i != j implies #[trigger] n[i].id
                            != #[trigger] n[j].id by {
                            if i < maps.len() && j < maps.len() {
                                assert(n[i] == maps[i] && n[j] == maps[j]);
                            } else if i < maps.len() {
                                assert(n[i] == maps[i]);
                            } else {
                                assert(n[j] == maps[j]);
                            }
                        }
                    }
                }
            }
        },
    }
}

fn apply_upload(state: &mut SharedState, id: String, url: String, overwrite: bool) -> (r: Outcome)
    ensures
        final(state)@ == upload_step(old(state)@, id@, url@, overwrite),
        r == upload_outcome(old(state)@, id@, overwrite),
{
    match position_of(&state.all_maps, &id) {
        None => {
            state.all_maps.push(EditorMap::new(id, url));
            assert(final(state)@.all_maps =~= old(state)@.all_maps.push(fresh_map(id@, url@)));
            Outcome::MapAdded
        },
        Some(k) => {
            if !overwrite {
                Outcome::UploadIgnored
            } else {
                proof {
                    lemma_first_match_unique(old(state)@.all_maps, id@, k as int);
                }
                state.all_maps[k] = EditorMap::new(id, url);
                assert(final(state)@.all_maps =~= old(state)@.all_maps.update(
                    k as int,
                    fresh_map(id@, url@),
                ));
                Outcome::MapReplaced
            }
        },
    }
}

fn apply_display(state: &mut SharedState, id: String) -> (r: Outcome)
    ensures
        final(state)@ == display_step(old(state)@, id@).0,
        r == display_outcome(old(state)@, id@),
{
    if let Some(current) = &state.current_map {
        if current.id == id {
            return Outcome::AlreadyCurrent;
        }
    }
    let target = match position_of(&state.all_maps, &id) {
        Some(t) => t,
        None => return Outcome::UnknownMapId,
    };
    let mut outcome = Outcome::Switched;
    proof {
        lemma_first_match_unique(old(state)@.all_maps, id@, target as int);
    }
    let new_map = state.all_maps[target].clone();
    if let Some(current) = &state.current_map {
        let saved = current.clone();
        match position_of(&state.all_maps, &current.id) {
            Some(k) => {
                proof {
                    lemma_first_match_unique(old(state)@.all_maps, current.id@, k as int);
                }
                state.all_maps[k] = saved;
                assert(state@.all_maps =~= old(state)@.all_maps.update(k as int, current@));
            },
            None => {
                state.all_maps.push(saved);
                assert(state@.all_maps =~= old(state)@.all_maps.push(current@));
                outcome = Outcome::SwitchedAfterRepair;
            },
        }
    }
    state.current_map = Some(new_map);
    outcome
}

/// Applies one host command to the state, and says what it did; the outcome
/// is a switch exactly when the switch notification goes out.
pub fn apply_message(state: &mut SharedState, message: Message) -> (r: Outcome)
    ensures
        final(state)@ == message_step(old(state)@, message).0,
        r == message_outcome(old(state)@, message),
        r.is_switch() == message_step(old(state)@, message).1,
        keys_unique(old(state)@.all_maps) ==> keys_unique(final(state)@.all_maps),
{
    proof {
        if keys_unique(old(state)@.all_maps) {
            lemma_step_keeps_keys_unique(old(state)@, message);
        }
    }
    match message {
        Message::UploadMapInformation { id, url, overwrite } => apply_upload(
            state,
            id,
            url,
            overwrite,
        ),
        Message::DisplayMap { id } => apply_display(state, id),
    }
}

/// One tick of reconciliation: takes at most one pending message from the
/// bridge and applies it, and says what it did.
pub fn handle_incoming_messages(
    state: &mut SharedState,
    bridge: &mut CommunicationBridge<Message>,
) -> (r: Outcome)
    ensures
        old(bridge).pending().len() == 0 ==> {
            &&& final(bridge).pending() == old(bridge).pending()
            &&& final(state)@ == old(state)@
            &&& r == Outcome::NothingPending
        },
        old(bridge).pending().len() > 0 ==> {
            &&& final(bridge).pending() == old(bridge).pending().drop_first()
            &&& final(state)@ == message_step(old(state)@, old(bridge).pending()[0]).0
            &&& r == message_outcome(old(state)@, old(bridge).pending()[0])
            &&& r.is_switch() == message_step(old(state)@, old(bridge).pending()[0]).1
        },
        keys_unique(old(state)@.all_maps) ==> keys_unique(final(state)@.all_maps),
{
    match bridge.receive() {
        Ok(message) => apply_message(state, message),
        Err(_) => Outcome::NothingPending,
    }
}

} // verus!
