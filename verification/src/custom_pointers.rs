//! Pointer chains for the auxiliary telemetry values (mount state, death
//! count) and the version-dependent offset of the active player's data
//! block.
//!
//! Every value lives behind a chain rooted at one of two module-static
//! addresses; only the player-block offset differs across software
//! releases, so supporting a new release is a table-entry change.

use vstd::prelude::*;
use crate::memory::{chain_value, MemorySnapshot, PointerChain};

verus! {

/// A detected software version. Releases that are newer than the last
/// known layout fall into the `Later` bucket, which is assumed to keep
/// the most recent known layout.
#[derive(Clone, Copy, PartialEq, Eq, Structural, Debug)]
pub enum GameVersion {
    V1_02_0,
    V1_02_1,
    V1_02_2,
    V1_02_3,
    V1_03_0,
    V1_03_1,
    V1_03_2,
    V1_04_0,
    V1_04_1,
    V1_05_0,
    V1_06_0,
    Later,
}

/// The structural offset of the active player's data block for a version.
pub open spec fn spec_player_ins_offset(version: GameVersion) -> u64 {
    match version {
        GameVersion::V1_02_0 => 0x18468,
        GameVersion::V1_02_1 => 0x18468,
        GameVersion::V1_02_2 => 0x18468,
        GameVersion::V1_02_3 => 0x18468,
        GameVersion::V1_03_0 => 0x18468,
        GameVersion::V1_03_1 => 0x18468,
        GameVersion::V1_03_2 => 0x18468,
        GameVersion::V1_04_0 => 0x18468,
        GameVersion::V1_04_1 => 0x18468,
        GameVersion::V1_05_0 => 0x18468,
        GameVersion::V1_06_0 => 0x18468,
        GameVersion::Later => 0x1E508,
    }
}

/// Select the player-block offset for a version. Selection always
/// succeeds: unrecognized versions take the latest known layout.
pub fn player_ins_offset(version: GameVersion) -> (r: u64)
    ensures
        r == spec_player_ins_offset(version),
{
    match version {
        GameVersion::V1_02_0 => 0x18468,
        GameVersion::V1_02_1 => 0x18468,
        GameVersion::V1_02_2 => 0x18468,
        GameVersion::V1_02_3 => 0x18468,
        GameVersion::V1_03_0 => 0x18468,
        GameVersion::V1_03_1 => 0x18468,
        GameVersion::V1_03_2 => 0x18468,
        GameVersion::V1_04_0 => 0x18468,
        GameVersion::V1_04_1 => 0x18468,
        GameVersion::V1_05_0 => 0x18468,
        GameVersion::V1_06_0 => 0x18468,
        GameVersion::Later => 0x1E508,
    }
}

/// Diagnostic snapshot of the mount-related telemetry. Each field is
/// independently absent when its chain did not resolve; the values are the
/// raw machine words cut to the field's width. Used only for diagnostics,
/// never for control flow.
#[derive(Clone, Debug)]
pub struct TorrentDebugInfo {
    pub ride_param_id: Option<u32>,
    pub is_riding_enabled: Option<u8>,
    pub riding: Option<u8>,
    pub is_it_a_horse: Option<u8>,
    pub horse_state: Option<u32>,
    pub horse_hp: Option<u32>,
    pub is_inside_no_ride_area: Option<u8>,
}

impl Default for TorrentDebugInfo {
    /// The all-absent snapshot.
    fn default() -> (r: Self)
        ensures
            r.ride_param_id is None,
            r.is_riding_enabled is None,
            r.riding is None,
            r.is_it_a_horse is None,
            r.horse_state is None,
            r.horse_hp is None,
            r.is_inside_no_ride_area is None,
    {
        TorrentDebugInfo {
            ride_param_id: None,
            is_riding_enabled: None,
            riding: None,
            is_it_a_horse: None,
            horse_state: None,
            horse_hp: None,
            is_inside_no_ride_area: None,
        }
    }
}

/// A resolved word cut to its declared 4-byte width.
pub open spec fn opt_u32(v: Option<u64>) -> Option<u32> {
    match v {
        None => None,
        Some(w) => Some((w % 0x1_0000_0000) as u32),
    }
}

/// A resolved word cut to its declared 1-byte width.
pub open spec fn opt_u8(v: Option<u64>) -> Option<u8> {
    match v {
        None => None,
        Some(w) => Some((w % 0x100) as u8),
    }
}

/// The value a chain denotes in a snapshot.
pub open spec fn resolved(mem: MemorySnapshot, c: PointerChain) -> Option<u64> {
    chain_value(mem.as_map(), c.base, c.offsets@)
}

/// The pointer chains for the telemetry values that the base layout does
/// not expose directly: the ride module's fields under the active player's
/// data block, and the death counter.
pub struct CustomPointers {
    pub ride_param_id: PointerChain,
    pub is_riding_enabled: PointerChain,
    pub riding: PointerChain,
    pub is_it_a_horse: PointerChain,
    pub horse_state: PointerChain,
    pub horse_hp: PointerChain,
    pub is_inside_no_ride_area: PointerChain,
    pub death_count: PointerChain,
}

impl CustomPointers {
    /// Build the chains from the two module-static root addresses and the
    /// detected version. The first hop (offset 0) dereferences the root
    /// pointer itself; the player-block hop is the version-dependent one.
    pub fn new(version: GameVersion, world_chr_man: u64, game_data_man: u64) -> (r: Self)
        ensures
            r.ride_param_id.base == world_chr_man,
            r.ride_param_id.offsets@ =~= seq![
                0u64,
                spec_player_ins_offset(version),
                0x190u64,
                0xE8u64,
                0x20u64,
            ],
            r.is_riding_enabled.base == world_chr_man,
            r.is_riding_enabled.offsets@ =~= seq![
                0u64,
                spec_player_ins_offset(version),
                0x190u64,
                0xE8u64,
                0x31u64,
            ],
            r.riding.base == world_chr_man,
            r.riding.offsets@ =~= seq![
                0u64,
                spec_player_ins_offset(version),
                0x190u64,
                0xE8u64,
                0x32u64,
            ],
            r.is_it_a_horse.base == world_chr_man,
            r.is_it_a_horse.offsets@ =~= seq![
                0u64,
                spec_player_ins_offset(version),
                0x190u64,
                0xE8u64,
                0x33u64,
            ],
            r.horse_state.base == world_chr_man,
            r.horse_state.offsets@ =~= seq![
                0u64,
                spec_player_ins_offset(version),
                0x190u64,
                0xE8u64,
                0x10u64,
                0x50u64,
            ],
            r.horse_hp.base == world_chr_man,
            r.horse_hp.offsets@ =~= seq![
                0u64,
                spec_player_ins_offset(version),
                0x190u64,
                0xE8u64,
                0x12Cu64,
            ],
            r.is_inside_no_ride_area.base == world_chr_man,
            r.is_inside_no_ride_area.offsets@ =~= seq![
                0u64,
                spec_player_ins_offset(version),
                0x190u64,
                0xE8u64,
                0x164u64,
            ],
            r.death_count.base == game_data_man,
            r.death_count.offsets@ =~= seq![0u64, 0x94u64],
    {
        let player_ins = player_ins_offset(version);
        CustomPointers {
            ride_param_id: PointerChain::new(world_chr_man, vec![0, player_ins, 0x190, 0xE8, 0x20]),
            is_riding_enabled: PointerChain::new(
                world_chr_man,
                vec![0, player_ins, 0x190, 0xE8, 0x31],
            ),
            riding: PointerChain::new(world_chr_man, vec![0, player_ins, 0x190, 0xE8, 0x32]),
            is_it_a_horse: PointerChain::new(world_chr_man, vec![0, player_ins, 0x190, 0xE8, 0x33]),
            horse_state: PointerChain::new(
                world_chr_man,
                vec![0, player_ins, 0x190, 0xE8, 0x10, 0x50],
            ),
            horse_hp: PointerChain::new(world_chr_man, vec![0, player_ins, 0x190, 0xE8, 0x12C]),
            is_inside_no_ride_area: PointerChain::new(
                world_chr_man,
                vec![0, player_ins, 0x190, 0xE8, 0x164],
            ),
            death_count: PointerChain::new(game_data_man, vec![0, 0x94]),
        }
    }

    /// Read all mount-related debug values; each field is absent exactly
    /// when its own chain fails to resolve in the snapshot.
    pub fn read_torrent_debug(&self, mem: &MemorySnapshot) -> (r: TorrentDebugInfo)
        requires
            mem.wf(),
        ensures
            r.ride_param_id == opt_u32(resolved(*mem, self.ride_param_id)),
            r.is_riding_enabled == opt_u8(resolved(*mem, self.is_riding_enabled)),
            r.riding == opt_u8(resolved(*mem, self.riding)),
            r.is_it_a_horse == opt_u8(resolved(*mem, self.is_it_a_horse)),
            r.horse_state == opt_u32(resolved(*mem, self.horse_state)),
            r.horse_hp == opt_u32(resolved(*mem, self.horse_hp)),
            r.is_inside_no_ride_area == opt_u8(resolved(*mem, self.is_inside_no_ride_area)),
    {
        TorrentDebugInfo {
            ride_param_id: cut_u32(self.ride_param_id.resolve(mem)),
            is_riding_enabled: cut_u8(self.is_riding_enabled.resolve(mem)),
            riding: cut_u8(self.riding.resolve(mem)),
            is_it_a_horse: cut_u8(self.is_it_a_horse.resolve(mem)),
            horse_state: cut_u32(self.horse_state.resolve(mem)),
            horse_hp: cut_u32(self.horse_hp.resolve(mem)),
            is_inside_no_ride_area: cut_u8(self.is_inside_no_ride_area.resolve(mem)),
        }
    }

    /// Whether the player is currently riding the mount: the mount-state
    /// word resolved and is non-zero; absent defaults to not riding.
    pub fn is_on_torrent(&self, mem: &MemorySnapshot) -> (r: bool)
        requires
            mem.wf(),
        ensures
            r == match resolved(*mem, self.horse_state) {
                Some(v) => v % 0x1_0000_0000 != 0,
                None => false,
            },
    {
        match self.horse_state.resolve(mem) {
            Some(v) => v % 0x1_0000_0000 != 0,
            None => false,
        }
    }

    /// Read the current death count, absent when the chain fails.
    pub fn read_death_count(&self, mem: &MemorySnapshot) -> (r: Option<u32>)
        requires
            mem.wf(),
        ensures
            r == opt_u32(resolved(*mem, self.death_count)),
    {
        cut_u32(self.death_count.resolve(mem))
    }
}

/// Cut a resolved word to 4 bytes.
fn cut_u32(v: Option<u64>) -> (r: Option<u32>)
    ensures
        r == opt_u32(v),
{
    match v {
        None => None,
        Some(w) => Some((w % 0x1_0000_0000) as u32),
    }
}

/// Cut a resolved word to 1 byte.
fn cut_u8(v: Option<u64>) -> (r: Option<u8>)
    ensures
        r == opt_u8(v),
{
    match v {
        None => None,
        Some(w) => Some((w % 0x100) as u8),
    }
}

} // verus!
