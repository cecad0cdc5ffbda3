//! The set of occupied cells, kept in an `FxHashMap`.

use vstd::prelude::*;
use rustc_hash::{FxBuildHasher, FxHashMap};
use crate::game::{hex::Hex, player::Player};

verus! {

#[verifier::external_type_specification]
#[verifier::external_body]
pub struct ExFxBuildHasher(FxBuildHasher);

/// What an `FxHashMap<Hex, Player>` holds: the stone on each occupied cell.
pub uninterp spec fn cell_map(m: FxHashMap<Hex, Player>) -> Map<Hex, Player>;

/// `v` lists each entry of `cells` exactly once, in some order.
pub open spec fn lists_entries(cells: Map<Hex, Player>, v: Seq<(Hex, Player)>) -> bool {
    &&& forall|i: int|
        #![trigger v[i]]
        0 <= i < v.len() ==> cells.contains_key(v[i].0) && cells[v[i].0] == v[i].1
    &&& forall|h: Hex|
        #[trigger] cells.contains_key(h) ==> exists|i: int| 0 <= i < v.len() && v[i].0 == h
    &&& forall|i: int, j: int|
        #![trigger v[i], v[j]]
        0 <= i < j < v.len() ==> v[i].0 != v[j].0
}

/// `FxHashMap::default`: an empty map.
#[verifier::external_body]
fn cells_new() -> (fresh: FxHashMap<Hex, Player>)
    ensures
        cell_map(fresh) =~= Map::empty(),
{
    FxHashMap::default()
}

/// `FxHashMap::contains_key`: whether the cell is occupied.
#[verifier::external_body]
fn cells_contains(m: &FxHashMap<Hex, Player>, hex: &Hex) -> (b: bool)
    ensures
        b == cell_map(*m).contains_key(*hex),
{
    m.contains_key(hex)
}

/// `FxHashMap::get`: the stone on the cell, if any.
#[verifier::external_body]
fn cells_get<'a>(m: &'a FxHashMap<Hex, Player>, hex: &Hex) -> (r: Option<&'a Player>)
    ensures
        match r {
            Some(p) => cell_map(*m).contains_key(*hex) && cell_map(*m)[*hex] == *p,
            None => !cell_map(*m).contains_key(*hex),
        },
{
    m.get(hex)
}

/// `FxHashMap::insert`: puts the stone on the cell, replacing any stone there.
#[verifier::external_body]
fn cells_insert(m: &mut FxHashMap<Hex, Player>, hex: Hex, player: Player)
    ensures
        cell_map(*final(m)) == cell_map(*old(m)).insert(hex, player),
{
    m.insert(hex, player);
}

/// `FxHashMap::remove`: clears the cell.
#[verifier::external_body]
pub(crate) fn cells_remove(m: &mut FxHashMap<Hex, Player>, hex: &Hex)
    ensures
        cell_map(*final(m)) == cell_map(*old(m)).remove(*hex),
{
    m.remove(hex);
}

/// `FxHashMap::iter`: every entry, each once, in the map's own order, which
/// nothing here states.
#[verifier::external_body]
pub(crate) fn cells_entries(m: &FxHashMap<Hex, Player>) -> (v: Vec<(Hex, Player)>)
    ensures
        lists_entries(cell_map(*m), v@),
{
    m.iter().map(|(h, p)| (*h, *p)).collect()
}

/// The occupied cells of a game and who occupies them.
pub struct Board {
    pub cells: FxHashMap<Hex, Player>,
}

impl View for Board {
    type V = Map<Hex, Player>;

    open spec fn view(&self) -> Map<Hex, Player> {
        cell_map(self.cells)
    }
}

impl Board {
    /// An empty board.
    pub fn new() -> (b: Self)
        ensures
            b@ == Map::<Hex, Player>::empty(),
    {
        Self { cells: cells_new() }
    }

    /// Whether no stone is on `hex`.
    pub fn is_empty(&self, hex: &Hex) -> (b: bool)
        ensures
            b == !self@.contains_key(*hex),
    {
        !cells_contains(&self.cells, hex)
    }

    /// The stone on `hex`, if any.
    pub fn get(&self, hex: &Hex) -> (r: Option<&Player>)
        ensures
            match r {
                Some(p) => self@.contains_key(*hex) && self@[*hex] == *p,
                None => !self@.contains_key(*hex),
            },
    {
        cells_get(&self.cells, hex)
    }

    /// Puts `player`'s stone on `hex`, replacing whatever was there.
    pub fn place(&mut self, hex: Hex, player: Player)
        ensures
            final(self)@ == old(self)@.insert(hex, player),
    {
        cells_insert(&mut self.cells, hex, player);
    }

    /// Every occupied cell, each once, in no stated order.
    pub fn keys(&self) -> (v: Vec<Hex>)
        ensures
            v@.no_duplicates(),
            v@.to_set() == self@.dom(),
    {
        let entries = self.entries();
        let mut out: Vec<Hex> = Vec::new();
        let mut n: usize = 0;
        while n < entries.len()
            invariant
                lists_entries(self@, entries@),
                0 <= n <= entries.len(),
                out@.len() == n,
                forall|k: int| 0 <= k < n ==> #[trigger] out@[k] == entries@[k].0,
            decreases entries.len() - n,
        {
            out.push(entries[n].0);
            n += 1;
        }
        proof {
            assert forall|i: int, j: int| 0 <= i < j < out@.len() implies out@[i] != out@[j] by {
                assert(entries@[i].0 != entries@[j].0);
            }
            assert forall|h: Hex| #[trigger] out@.to_set().contains(h) <==> self@.dom().contains(h) by {
                if out@.to_set().contains(h) {
                    let k = choose|k: int| 0 <= k < out@.len() && out@[k] == h;
                    assert(self@.contains_key(entries@[k].0));
                }
                if self@.dom().contains(h) {
                    assert(self@.contains_key(h));
                    let j = choose|j: int| 0 <= j < entries@.len() && entries@[j].0 == h;
                    assert(out@[j] == h);
                }
            }
            assert(out@.to_set() =~= self@.dom());
        }
        out
    }

    /// Every occupied cell with its stone, each once, in no stated order.
    pub fn entries(&self) -> (v: Vec<(Hex, Player)>)
        ensures
            lists_entries(self@, v@),
    {
        cells_entries(&self.cells)
    }
}

} // verus!
