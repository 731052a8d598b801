//! Conversion of tile-local positions into the single global frame.
//!
//! A tile-adjacency table maps a tile to a reference ("anchor") tile and a
//! translation between the two frames. Conversion takes the first row of
//! the table that matches the tile — an explicit, fixed tie-break for tiles
//! with duplicate legacy mappings — and follows anchors, accumulating
//! translations, until it reaches a tile with no row of its own, whose
//! frame is the global frame. Iteration is bounded by the table's row
//! count, so a cyclic table fails instead of looping. The altitude axis
//! passes through unchanged: it is frame-independent in this world model.
//!
//! Coordinates and translations are fixed-point integers in thousandths of
//! a world unit.

use vstd::prelude::*;
use crate::textfmt::{append_pad2, pad2_chars};

verus! {

broadcast use vstd::set::group_set_axioms;

/// Largest magnitude a table translation may have, in thousandths.
pub const TRANS_LIMIT: i64 = 2147483648;

/// Largest magnitude a local coordinate may have, in thousandths.
pub const COORD_LIMIT: i64 = 2147483648;

/// Largest number of rows a table may hold.
pub const ROW_LIMIT: usize = 65536;

/// One row of the tile-adjacency table: this tile's position is the
/// anchor tile's position displaced by (dx, dz).
#[derive(Clone, Copy, PartialEq, Eq, Structural, Debug)]
pub struct MapAnchorRow {
    pub map_id: u32,
    pub anchor_id: u32,
    pub dx: i64,
    pub dz: i64,
}

/// A row's translation is within the table limit.
pub open spec fn row_ok(r: MapAnchorRow) -> bool {
    &&& -TRANS_LIMIT <= r.dx <= TRANS_LIMIT
    &&& -TRANS_LIMIT <= r.dz <= TRANS_LIMIT
}

/// The first row of the table that matches a tile, in source order.
pub open spec fn first_row(rows: Seq<MapAnchorRow>, map_id: u32) -> Option<MapAnchorRow>
    decreases rows.len(),
{
    if rows.len() == 0 {
        None
    } else if rows[0].map_id == map_id {
        Some(rows[0])
    } else {
        first_row(rows.skip(1), map_id)
    }
}

/// The accumulated displacement between a tile's frame and the global
/// frame, following first-matching anchor rows. A tile with no row is in the
/// global frame already; `fuel` bounds the number of rows followed, so a
/// cycle yields nothing instead of descending forever.
pub open spec fn chain_offset(rows: Seq<MapAnchorRow>, map_id: u32, fuel: nat) -> Option<
    (int, int),
>
    decreases fuel,
{
    match first_row(rows, map_id) {
        None => Some((0int, 0int)),
        Some(r) => if fuel == 0 {
            None
        } else {
            match chain_offset(rows, r.anchor_id, (fuel - 1) as nat) {
                None => None,
                Some((ax, az)) => Some((r.dx + ax, r.dz + az)),
            }
        },
    }
}

/// The translation the table assigns to a tile: nothing when the tile has
/// no row at all, or when its anchor chain cannot be resolved within the
/// table's row count.
pub open spec fn world_offset(rows: Seq<MapAnchorRow>, map_id: u32) -> Option<(int, int)> {
    if first_row(rows, map_id) is None {
        None
    } else {
        chain_offset(rows, map_id, rows.len() as nat)
    }
}

/// A translation shifted by an accumulated displacement.
pub open spec fn shift_offset(o: Option<(int, int)>, tx: int, tz: int) -> Option<(int, int)> {
    match o {
        None => None,
        Some((a, b)) => Some((a + tx, b + tz)),
    }
}

/// Where a sample ends up in the global frame: the table's translation
/// applied to the planar axes, or the local coordinates themselves when
/// the table offers no conversion (the defined, degraded fallback).
pub open spec fn global_of(
    rows: Seq<MapAnchorRow>,
    map_id: u32,
    x: int,
    y: int,
    z: int,
) -> (int, int, int) {
    match world_offset(rows, map_id) {
        Some((ox, oz)) => (x + ox, y, z + oz),
        None => (x, y, z),
    }
}

/// The distinct tiles the table keys.
pub open spec fn tiles(rows: Seq<MapAnchorRow>) -> Set<u32>
    decreases rows.len(),
{
    if rows.len() == 0 {
        Set::empty()
    } else {
        tiles(rows.drop_last()).insert(rows.last().map_id)
    }
}

proof fn lemma_tiles_contains(rows: Seq<MapAnchorRow>, t: u32)
    ensures
        tiles(rows).contains(t) <==> exists|i: int|
            0 <= i < rows.len() && (#[trigger] rows[i]).map_id == t,
    decreases rows.len(),
{
    if rows.len() > 0 {
        let prefix = rows.drop_last();
        lemma_tiles_contains(prefix, t);
        if rows.last().map_id == t {
            assert((rows[rows.len() - 1]).map_id == t);
        } else {
            if tiles(rows).contains(t) {
                let i = choose|i: int| 0 <= i < prefix.len() && (#[trigger] prefix[i]).map_id == t;
                assert((rows[i]).map_id == t);
            }
            if exists|i: int| 0 <= i < rows.len() && (#[trigger] rows[i]).map_id == t {
                let i = choose|i: int| 0 <= i < rows.len() && (#[trigger] rows[i]).map_id == t;
                assert(i != rows.len() - 1);
                assert((prefix[i]).map_id == t);
            }
        }
    }
}

proof fn lemma_tiles_finite(rows: Seq<MapAnchorRow>)
    ensures
        tiles(rows).finite(),
    decreases rows.len(),
{
    if rows.len() > 0 {
        lemma_tiles_finite(rows.drop_last());
    }
}

/// The first matching row is the earliest matching row: rows behind it,
/// duplicates of the same tile included, never influence a lookup.
pub proof fn lemma_first_row_wins(rows: Seq<MapAnchorRow>, map_id: u32, i: int)
    requires
        0 <= i < rows.len(),
        (rows[i]).map_id == map_id,
        forall|j: int| 0 <= j < i ==> (#[trigger] rows[j]).map_id != map_id,
    ensures
        first_row(rows, map_id) == Some(rows[i]),
    decreases i,
{
    if i == 0 {
    } else {
        assert((rows[0]).map_id != map_id);
        lemma_first_row_wins(rows.skip(1), map_id, i - 1);
        assert(rows.skip(1)[i - 1] == rows[i]);
        assert forall|j: int| 0 <= j < i - 1 implies (#[trigger] rows.skip(1)[j]).map_id
            != map_id by {
            assert(rows.skip(1)[j] == rows[j + 1]);
        }
    }
}

/// An empty table converts nothing: every lookup fails and every sample
/// falls back to its local coordinates.
pub proof fn lemma_empty_table_is_local(
    rows: Seq<MapAnchorRow>,
    map_id: u32,
    x: int,
    y: int,
    z: int,
)
    requires
        rows.len() == 0,
    ensures
        world_offset(rows, map_id) is None,
        global_of(rows, map_id, x, y, z) == (x, y, z),
{
}

/// The tile-adjacency lookup table, loaded once at startup and read-only
/// for the lifetime of the engine.
pub struct WorldPositionTransformer {
    pub rows: Vec<MapAnchorRow>,
}

impl WorldPositionTransformer {
    /// The table is within its limits: row count capped, translations
    /// bounded, so that accumulating a whole chain cannot overflow.
    pub open spec fn wf(&self) -> bool {
        &&& self.rows@.len() <= ROW_LIMIT
        &&& forall|i: int| 0 <= i < self.rows@.len() ==> row_ok(#[trigger] self.rows@[i])
    }

    /// The explicit empty-construction mode for environments where the
    /// table is missing: conversion degrades (always fails) but nothing
    /// crashes.
    pub fn empty() -> (r: Self)
        ensures
            r.wf(),
            r.rows@.len() == 0,
    {
        WorldPositionTransformer { rows: Vec::new() }
    }

    /// Build a table from rows, refusing one that exceeds the limits.
    pub fn from_rows(rows: Vec<MapAnchorRow>) -> (r: Option<Self>)
        ensures
            r is Some <==> (rows@.len() <= ROW_LIMIT && forall|i: int|
                0 <= i < rows@.len() ==> row_ok(#[trigger] rows@[i])),
            r matches Some(t) ==> t.rows@ == rows@ && t.wf(),
    {
        if rows.len() > ROW_LIMIT {
            return None;
        }
        let mut i: usize = 0;
        while i < rows.len()
            invariant
                0 <= i <= rows@.len(),
                forall|j: int| 0 <= j < i ==> row_ok(#[trigger] rows@[j]),
            decreases rows@.len() - i,
        {
            let row = rows[i];
            if row.dx < -TRANS_LIMIT || row.dx > TRANS_LIMIT || row.dz < -TRANS_LIMIT || row.dz
                > TRANS_LIMIT {
                return None;
            }
            i += 1;
        }
        Some(WorldPositionTransformer { rows })
    }

    /// The first row matching a tile, in source order.
    pub fn first_matching(&self, map_id: u32) -> (r: Option<MapAnchorRow>)
        ensures
            r == first_row(self.rows@, map_id),
            r matches Some(row) ==> exists|i: int|
                0 <= i < self.rows@.len() && self.rows@[i] == row,
    {
        let mut i: usize = 0;
        proof {
            assert(self.rows@.skip(0) =~= self.rows@);
        }
        while i < self.rows.len()
            invariant
                0 <= i <= self.rows@.len(),
                first_row(self.rows@, map_id) == first_row(self.rows@.skip(i as int), map_id),
            decreases self.rows@.len() - i,
        {
            proof {
                assert(self.rows@.skip(i as int)[0] == self.rows@[i as int]);
            }
            if self.rows[i].map_id == map_id {
                return Some(self.rows[i]);
            }
            proof {
                assert(self.rows@.skip(i as int).skip(1) =~= self.rows@.skip(i as int + 1));
            }
            i += 1;
        }
        proof {
            assert(self.rows@.skip(self.rows@.len() as int) =~= Seq::<MapAnchorRow>::empty());
        }
        None
    }

    /// Convert a tile-local position to the global frame, taking the first
    /// matching row of each tile and following anchors until reaching a
    /// tile in the global frame. Fails when the tile has no row, or when
    /// its anchor chain cannot be resolved within the table's row count
    /// (a cycle); the altitude axis passes through unchanged.
    pub fn local_to_world_first(&self, map_id: u32, x: i64, y: i64, z: i64) -> (r: Option<
        (i64, i64, i64),
    >)
        requires
            self.wf(),
            -COORD_LIMIT <= x <= COORD_LIMIT,
            -COORD_LIMIT <= z <= COORD_LIMIT,
        ensures
            r is Some <==> world_offset(self.rows@, map_id) is Some,
            r matches Some(g) ==> (g.0 as int, g.1 as int, g.2 as int) == global_of(
                self.rows@,
                map_id,
                x as int,
                y as int,
                z as int,
            ),
    {
        if self.first_matching(map_id).is_none() {
            return None;
        }
        let n = self.rows.len();
        let mut cur: u32 = map_id;
        let mut tx: i64 = 0;
        let mut tz: i64 = 0;
        let mut steps: usize = 0;
        loop
            invariant
                self.wf(),
                n == self.rows@.len(),
                -COORD_LIMIT <= x <= COORD_LIMIT,
                -COORD_LIMIT <= z <= COORD_LIMIT,
                0 <= steps <= n,
                -(steps as int) * TRANS_LIMIT <= tx as int <= (steps as int) * TRANS_LIMIT,
                -(steps as int) * TRANS_LIMIT <= tz as int <= (steps as int) * TRANS_LIMIT,
                first_row(self.rows@, map_id) is Some,
                chain_offset(self.rows@, map_id, n as nat) == shift_offset(
                    chain_offset(self.rows@, cur, (n - steps) as nat),
                    tx as int,
                    tz as int,
                ),
            decreases n - steps,
        {
            match self.first_matching(cur) {
                None => {
                    return Some((x + tx, y, z + tz));
                },
                Some(row) => {
                    if steps == n {
                        return None;
                    }
                    proof {
                        let i = choose|i: int|
                            0 <= i < self.rows@.len() && self.rows@[i] == row;
                        assert(row_ok(row));
                        assert((steps + 1) as int * TRANS_LIMIT == (steps as int) * TRANS_LIMIT
                            + TRANS_LIMIT);
                        assert((n as int) * TRANS_LIMIT <= (ROW_LIMIT as int) * TRANS_LIMIT) by (nonlinear_arith)
                            requires
                                0 <= n <= ROW_LIMIT,
                        ;
                        assert((steps as int) * TRANS_LIMIT <= (n as int) * TRANS_LIMIT) by (nonlinear_arith)
                            requires
                                0 <= steps <= n,
                        ;
                        assert(-((n as int) * TRANS_LIMIT) <= -((steps as int) * TRANS_LIMIT));
                    }
                    tx = tx + row.dx;
                    tz = tz + row.dz;
                    cur = row.anchor_id;
                    steps = steps + 1;
                    proof {
                        assert((steps as int) * TRANS_LIMIT == ((steps - 1) as int) * TRANS_LIMIT
                            + TRANS_LIMIT);
                    }
                },
            }
        }
    }

    /// The number of distinct tiles the table keys.
    pub fn map_count(&self) -> (r: usize)
        ensures
            r == tiles(self.rows@).len(),
    {
        let mut count: usize = 0;
        let mut i: usize = 0;
        proof {
            assert(self.rows@.take(0) =~= Seq::<MapAnchorRow>::empty());
        }
        while i < self.rows.len()
            invariant
                0 <= i <= self.rows@.len(),
                count <= i,
                tiles(self.rows@.take(i as int)).finite(),
                count == tiles(self.rows@.take(i as int)).len(),
            decreases self.rows@.len() - i,
        {
            let t = self.rows[i].map_id;
            let mut seen = false;
            let mut j: usize = 0;
            while j < i
                invariant
                    0 <= j <= i <= self.rows@.len(),
                    seen <==> exists|k: int|
                        0 <= k < j && (#[trigger] self.rows@[k]).map_id == t,
                decreases i - j,
            {
                if self.rows[j].map_id == t {
                    proof {
                        assert((self.rows@[j as int]).map_id == t);
                    }
                    seen = true;
                }
                j += 1;
            }
            proof {
                lemma_tiles_contains(self.rows@.take(i as int), t);
                if seen {
                    let k = choose|k: int| 0 <= k < i && (#[trigger] self.rows@[k]).map_id == t;
                    assert((self.rows@.take(i as int)[k]).map_id == t);
                    assert(tiles(self.rows@.take(i as int)).contains(t));
                } else {
                    if tiles(self.rows@.take(i as int)).contains(t) {
                        let k = choose|k: int|
                            0 <= k < i && (#[trigger] self.rows@.take(i as int)[k]).map_id == t;
                        assert((self.rows@[k]).map_id == t);
                    }
                }
                assert(self.rows@.take(i as int + 1).drop_last() =~= self.rows@.take(i as int));
                assert(self.rows@.take(i as int + 1).last() == self.rows@[i as int]);
                assert(tiles(self.rows@.take(i as int + 1)) == tiles(
                    self.rows@.take(i as int),
                ).insert(t));
            }
            if !seen {
                count += 1;
            }
            i += 1;
        }
        proof {
            assert(self.rows@.take(self.rows@.len() as int) =~= self.rows@);
        }
        count
    }

    /// The number of rows loaded, duplicates included.
    pub fn anchor_count(&self) -> (r: usize)
        ensures
            r == self.rows@.len(),
    {
        self.rows.len()
    }
}

/// The rendering of a packed tile identifier: its four 8-bit fields, most
/// significant first, each at least two digits, joined as m.._.._.._..
pub open spec fn map_id_chars(map_id: u32) -> Seq<char> {
    seq!['m'] + pad2_chars((map_id / 0x1000000) as nat) + seq!['_'] + pad2_chars(
        (map_id / 0x10000 % 0x100) as nat,
    ) + seq!['_'] + pad2_chars((map_id / 0x100 % 0x100) as nat) + seq!['_'] + pad2_chars(
        (map_id % 0x100) as nat,
    )
}

/// Render a packed tile identifier human-readably, independent of whether
/// the tile has anchor data.
pub fn format_map_id(map_id: u32) -> (r: String)
    ensures
        r@ == map_id_chars(map_id),
{
    let mut out = String::new();
    out.append("m");
    append_pad2(&mut out, (map_id / 0x1000000) as u64);
    out.append("_");
    append_pad2(&mut out, (map_id / 0x10000 % 0x100) as u64);
    out.append("_");
    append_pad2(&mut out, (map_id / 0x100 % 0x100) as u64);
    out.append("_");
    append_pad2(&mut out, (map_id % 0x100) as u64);
    proof {
        reveal_strlit("m");
        reveal_strlit("_");
        assert(out@ =~= map_id_chars(map_id));
    }
    out
}

} // verus!
