use vstd::prelude::*;

verus! {

/// A point of the editor's plane, each coordinate held as the bit pattern of
/// a single-precision float. The core copies positions and never computes
/// with them, so the bits are carried through exactly.
#[derive(Debug, Clone, Copy, PartialEq, Eq, Structural)]
pub struct Position {
    pub x_bits: u32,
    pub y_bits: u32,
}

/// A wall placed on a map.
#[derive(Debug, Clone, Copy, PartialEq, Eq, Structural)]
pub struct WallObject {
    pub position: Position,
    pub width: i32,
    pub height: i32,
}

/// A map of the catalog: its key, the locator of its image, and its walls.
pub struct EditorMap {
    pub walls: Vec<WallObject>,
    pub url: String,
    pub id: String,
}

/// The mathematical value of an `EditorMap`.
pub struct EditorMapView {
    pub id: Seq<char>,
    pub url: Seq<char>,
    pub walls: Seq<WallObject>,
}

impl View for EditorMap {
    type V = EditorMapView;

    open spec fn view(&self) -> EditorMapView {
        EditorMapView { id: self.id@, url: self.url@, walls: self.walls@ }
    }
}

/// A map freshly registered under `id`, with no walls yet.
pub open spec fn fresh_map(id: Seq<char>, url: Seq<char>) -> EditorMapView {
    EditorMapView { id, url, walls: Seq::empty() }
}

impl EditorMap {
    /// A map with the given key and locator and no walls.
    pub fn new(id: String, url: String) -> (r: EditorMap)
        ensures
            r@ == fresh_map(id@, url@),
    {
        EditorMap { walls: Vec::new(), url, id }
    }
}

impl Clone for EditorMap {
    fn clone(&self) -> (r: Self)
        ensures
            r@ == self@,
    {
        let mut walls: Vec<WallObject> = Vec::new();
        let mut i: usize = 0;
        while i < self.walls.len()
            invariant
                i <= self.walls@.len(),
                walls@ == self.walls@.take(i as int),
            decreases self.walls@.len() - i,
        {
            walls.push(self.walls[i]);
            i = i + 1;
            assert(walls@ =~= self.walls@.take(i as int));
        }
        assert(walls@ =~= self.walls@);
        EditorMap { walls, url: self.url.clone(), id: self.id.clone() }
    }
}

} // verus!
