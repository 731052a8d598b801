use route_tracker::custom_pointers::{CustomPointers, GameVersion, player_ins_offset};
use route_tracker::memory::{MemorySnapshot, PointerChain};

fn snapshot(cells: &[(u64, u64)]) -> MemorySnapshot {
    let mut mem = MemorySnapshot::new();
    for &(a, v) in cells {
        mem.record(a, v);
    }
    mem
}

#[test]
fn resolve_returns_value_at_final_address() {
    // base 100 -> pointer 1000 stored at 100+0; value 42 stored at 1000+8
    let mem = snapshot(&[(100, 1000), (1008, 42)]);
    let chain = PointerChain::new(100, vec![0, 8]);
    assert_eq!(chain.resolve(&mem), Some(42));
}

#[test]
fn resolve_three_hops() {
    let mem = snapshot(&[(0x10, 0x200), (0x210, 0x300), (0x304, 7)]);
    let chain = PointerChain::new(0x10, vec![0, 0x10, 4]);
    assert_eq!(chain.resolve(&mem), Some(7));
}

#[test]
fn resolve_fails_when_one_hop_is_unmapped() {
    // Later hops would be valid, but the middle hop is not mapped.
    let mem = snapshot(&[(100, 1000), (2008, 42)]);
    assert!(mem.contains(100));
    assert!(!mem.contains(1008));
    let chain = PointerChain::new(100, vec![0, 8]);
    assert_eq!(chain.resolve(&mem), None);
}

#[test]
fn resolve_fails_on_unmapped_base() {
    let mem = snapshot(&[(1008, 42)]);
    let chain = PointerChain::new(100, vec![0, 8]);
    assert_eq!(chain.resolve(&mem), None);
}

#[test]
fn resolve_fails_on_address_overflow() {
    let mem = snapshot(&[(u64::MAX, 5)]);
    let chain = PointerChain::new(u64::MAX, vec![1]);
    assert_eq!(chain.resolve(&mem), None);
}

#[test]
fn empty_chain_resolves_nothing() {
    let mem = snapshot(&[(100, 1000)]);
    let chain = PointerChain::new(100, vec![]);
    assert_eq!(chain.resolve(&mem), None);
}

#[test]
fn player_ins_offset_table() {
    assert_eq!(player_ins_offset(GameVersion::V1_02_0), 0x18468);
    assert_eq!(player_ins_offset(GameVersion::V1_06_0), 0x18468);
    assert_eq!(player_ins_offset(GameVersion::Later), 0x1E508);
}

/// Builds a snapshot where the horse-state chain of `cp` resolves to `value`.
fn mem_with_horse_state(world_chr_man: u64, player_ins: u64, value: u64) -> MemorySnapshot {
    snapshot(&[
        (world_chr_man, 0x10000),
        (0x10000 + player_ins, 0x20000),
        (0x20000 + 0x190, 0x30000),
        (0x30000 + 0xE8, 0x40000),
        (0x40000 + 0x10, 0x50000),
        (0x50000 + 0x50, value),
    ])
}

#[test]
fn is_on_torrent_nonzero_state() {
    let cp = CustomPointers::new(GameVersion::Later, 0x1111, 0x2222);
    let mem = mem_with_horse_state(0x1111, 0x1E508, 5);
    assert!(cp.is_on_torrent(&mem));
}

#[test]
fn is_on_torrent_zero_state() {
    let cp = CustomPointers::new(GameVersion::Later, 0x1111, 0x2222);
    let mem = mem_with_horse_state(0x1111, 0x1E508, 0);
    assert!(!cp.is_on_torrent(&mem));
}

#[test]
fn is_on_torrent_defaults_to_false_when_unavailable() {
    let cp = CustomPointers::new(GameVersion::Later, 0x1111, 0x2222);
    let mem = MemorySnapshot::new();
    assert!(!cp.is_on_torrent(&mem));
}

#[test]
fn death_count_reads_through_game_data_man() {
    let cp = CustomPointers::new(GameVersion::V1_05_0, 0x1111, 0x2222);
    let mem = snapshot(&[(0x2222, 0x9000), (0x9000 + 0x94, 13)]);
    assert_eq!(cp.read_death_count(&mem), Some(13));
    assert_eq!(cp.read_death_count(&MemorySnapshot::new()), None);
}

#[test]
fn torrent_debug_fields_are_independently_nullable() {
    let cp = CustomPointers::new(GameVersion::Later, 0x1111, 0x2222);
    let mem = mem_with_horse_state(0x1111, 0x1E508, 3);
    let dbg = cp.read_torrent_debug(&mem);
    assert_eq!(dbg.horse_state, Some(3));
    // The other chains read different final offsets that are not mapped.
    assert_eq!(dbg.horse_hp, None);
    assert_eq!(dbg.ride_param_id, None);
}
