use crate::model::{EditorMap, EditorMapView};
use vstd::prelude::*;

verus! {

/// The editor's catalog of maps and the one, if any, being edited.
pub struct SharedState {
    pub current_map: Option<EditorMap>,
    pub all_maps: Vec<EditorMap>,
}

/// The mathematical value of a `SharedState`.
pub struct SharedStateView {
    pub current_map: Option<EditorMapView>,
    pub all_maps: Seq<EditorMapView>,
}

/// The values of the maps of a catalog, in order.
pub open spec fn catalog_view(maps: Seq<EditorMap>) -> Seq<EditorMapView> {
    maps.map_values(|m: EditorMap| m@)
}

impl View for SharedState {
    type V = SharedStateView;

    open spec fn view(&self) -> SharedStateView {
        SharedStateView {
            current_map: match self.current_map {
                Some(m) => Some(m@),
                None => None,
            },
            all_maps: catalog_view(self.all_maps@),
        }
    }
}

/// Some map of `maps` has the key `id`.
pub open spec fn has_id(maps: Seq<EditorMapView>, id: Seq<char>) -> bool {
    exists|i: int| 0 <= i < maps.len() && #[trigger] maps[i].id == id
}

/// `i` is the first position of `maps` holding the key `id`.
pub open spec fn is_first_match(maps: Seq<EditorMapView>, id: Seq<char>, i: int) -> bool {
    &&& 0 <= i < maps.len()
    &&& maps[i].id == id
    &&& forall|j: int| 0 <= j < i ==> #[trigger] maps[j].id != id
}

/// The first position of `maps` holding the key `id`, where there is one.
pub open spec fn first_match(maps: Seq<EditorMapView>, id: Seq<char>) -> int {
    choose|i: int| is_first_match(maps, id, i)
}

/// No two maps of `maps` share a key.
pub open spec fn keys_unique(maps: Seq<EditorMapView>) -> bool {
    forall|i: int, j: int|
        0 <= i < maps.len() && 0 <= j < maps.len() && i != j ==> #[trigger] maps[i].id
            != #[trigger] maps[j].id
}

/// There is only one first position of a key.
pub proof fn lemma_first_match_unique(maps: Seq<EditorMapView>, id: Seq<char>, k: int)
    requires
        is_first_match(maps, id, k),
    ensures
        first_match(maps, id) == k,
{
    let c = first_match(maps, id);
    assert(is_first_match(maps, id, c));
    if c < k {
        assert(maps[c].id == id);
    } else if c > k {
        assert(maps[k].id == id);
    }
}

/// In a catalog without repeated keys, any key it holds has a first position.
pub proof fn lemma_first_match_of_unique_keys(maps: Seq<EditorMapView>, id: Seq<char>)
    requires
        keys_unique(maps),
        has_id(maps, id),
    ensures
        is_first_match(maps, id, first_match(maps, id)),
{
    let w = choose|w: int| 0 <= w < maps.len() && #[trigger] maps[w].id == id;
    assert forall|j: int| 0 <= j < w implies #[trigger] maps[j].id != id by {
        assert(maps[j].id != maps[w].id);
    }
    assert(is_first_match(maps, id, w));
}

impl SharedState {
    /// An empty catalog with no current map.
    pub fn new() -> (r: SharedState)
        ensures
            r@.current_map is None,
            r@.all_maps == Seq::<EditorMapView>::empty(),
            keys_unique(r@.all_maps),
    {
        let r = SharedState { current_map: None, all_maps: Vec::new() };
        assert(r@.all_maps =~= Seq::<EditorMapView>::empty());
        r
    }
}

/// The first position of `maps` whose map has the key `id`.
pub(crate) fn position_of(maps: &Vec<EditorMap>, id: &String) -> (r: Option<usize>)
    ensures
        match r {
            Some(i) => is_first_match(catalog_view(maps@), id@, i as int),
            None => !has_id(catalog_view(maps@), id@),
        },
{
    let ghost cat = catalog_view(maps@);
    let mut i: usize = 0;
    while i < maps.len()
        invariant
            i <= maps@.len(),
            cat == catalog_view(maps@),
            forall|j: int| 0 <= j < i ==> #[trigger] cat[j].id != id@,
        decreases maps@.len() - i,
    {
        if maps[i].id == *id {
            return Some(i);
        }
        i = i + 1;
    }
    None
}

} // verus!
