use worldedit::pattern::{PatternParseError, WorldEditPattern, WorldEditPatternPart};
use worldedit::registry::{BlockRegistry, BlockState};

fn state(name: &str, props: &[(&str, &str)], id: u32) -> BlockState {
    BlockState {
        name: name.to_string(),
        properties: props.iter().map(|(k, v)| (k.to_string(), v.to_string())).collect(),
        id,
    }
}

fn registry() -> BlockRegistry {
    BlockRegistry {
        block_entity_kinds: vec!["minecraft:sign".to_string()],
        states: vec![
            state("air", &[], 0),
            state("stone", &[], 1),
            state("dirt", &[], 2),
            state("lever", &[("facing", "north")], 3),
            state("lever", &[("facing", "south")], 4),
        ],
    }
}

fn parts(p: &WorldEditPattern) -> Vec<(u64, u32)> {
    p.parts.iter().map(|part| (part.weight, part.block_id)).collect()
}

#[test]
fn two_weighted_parts() {
    let p = WorldEditPattern::from_str("50%stone,50%dirt", &registry()).ok().unwrap();
    assert_eq!(parts(&p), vec![(500000, 1), (500000, 2)]);
}

#[test]
fn raw_id_needs_no_registry() {
    let empty = BlockRegistry { states: vec![], block_entity_kinds: vec![] };
    let p = WorldEditPattern::from_str("=5", &empty).ok().unwrap();
    assert_eq!(parts(&p), vec![(1000000, 5)]);
}

#[test]
fn unknown_block_is_reported_with_its_part() {
    match WorldEditPattern::from_str("minecraft:unknown_block_xyz", &registry()) {
        Err(PatternParseError::UnknownBlock(t)) => assert_eq!(t, "minecraft:unknown_block_xyz"),
        _ => panic!("expected an unknown-block error"),
    }
}

#[test]
fn malformed_part_is_invalid() {
    match WorldEditPattern::from_str("??", &registry()) {
        Err(PatternParseError::InvalidPattern(t)) => assert_eq!(t, "??"),
        _ => panic!("expected an invalid-pattern error"),
    }
}

#[test]
fn first_failing_part_decides_the_error() {
    match WorldEditPattern::from_str("stone,??,nothing", &registry()) {
        Err(PatternParseError::InvalidPattern(t)) => assert_eq!(t, "??"),
        _ => panic!("expected an invalid-pattern error"),
    }
    match WorldEditPattern::from_str("stone,nothing,??", &registry()) {
        Err(PatternParseError::UnknownBlock(t)) => assert_eq!(t, "nothing"),
        _ => panic!("expected an unknown-block error"),
    }
}

#[test]
fn grammar_variants() {
    let reg = registry();
    let p = WorldEditPattern::from_str("minecraft:stone", &reg).ok().unwrap();
    assert_eq!(parts(&p), vec![(1000000, 1)]);
    let p = WorldEditPattern::from_str("12.5%dirt", &reg).ok().unwrap();
    assert_eq!(parts(&p), vec![(125000, 2)]);
    let p = WorldEditPattern::from_str("0.123456%dirt", &reg).ok().unwrap();
    assert_eq!(parts(&p), vec![(1234, 2)]);
    let p = WorldEditPattern::from_str("stone:3", &reg).ok().unwrap();
    assert_eq!(parts(&p), vec![(1000000, 1)]);
    let p = WorldEditPattern::from_str("lever[facing=south]", &reg).ok().unwrap();
    assert_eq!(parts(&p), vec![(1000000, 3)]);
    let p = WorldEditPattern::from_str("stone|a|b", &reg).ok().unwrap();
    assert_eq!(parts(&p), vec![(1000000, 1)]);
    assert!(WorldEditPattern::from_str("stone|a|b|c|d|e", &reg).is_err());
    assert!(WorldEditPattern::from_str("=stone", &reg).is_err());
    assert!(WorldEditPattern::from_str("=99999999999", &reg).is_err());
    assert!(WorldEditPattern::from_str("", &reg).is_err());
    assert!(WorldEditPattern::from_str("5.%stone", &reg).is_err());
    assert!(matches!(
        WorldEditPattern::from_str("5", &reg),
        Err(PatternParseError::UnknownBlock(_))
    ));
}

#[test]
fn matches_ignores_weights() {
    let p = WorldEditPattern::from_str("0%stone,100%dirt", &registry()).ok().unwrap();
    assert!(p.matches(1));
    assert!(p.matches(2));
    assert!(!p.matches(0));
    assert!(!p.matches(3));
}

#[test]
fn pick_with_walks_running_weights() {
    let p = WorldEditPattern {
        parts: vec![
            WorldEditPatternPart { weight: 500000, block_id: 1 },
            WorldEditPatternPart { weight: 250000, block_id: 2 },
            WorldEditPatternPart { weight: 250000, block_id: 7 },
        ],
    };
    assert_eq!(p.total_weight(), 1000000);
    assert_eq!(p.pick_with(1), 1);
    assert_eq!(p.pick_with(500000), 1);
    assert_eq!(p.pick_with(500001), 2);
    assert_eq!(p.pick_with(750000), 2);
    assert_eq!(p.pick_with(750001), 7);
    assert_eq!(p.pick_with(1000000), 7);
}

#[test]
fn zero_total_picks_first_part() {
    let p = WorldEditPattern::from_str("0%dirt,0%stone", &registry()).ok().unwrap();
    for _ in 0..100 {
        assert_eq!(p.pick(), 2);
    }
}

#[test]
fn pick_follows_weight_shares() {
    let p = WorldEditPattern::from_str("25%stone,75%dirt", &registry()).ok().unwrap();
    let draws = 100000;
    let mut stone = 0;
    for _ in 0..draws {
        match p.pick() {
            1 => stone += 1,
            2 => {}
            other => panic!("unexpected block {}", other),
        }
    }
    let share = stone as f64 / draws as f64;
    assert!((share - 0.25).abs() < 0.02, "share {}", share);
}

#[test]
fn three_way_pick_shares() {
    let p = WorldEditPattern::from_str("20%stone,30%dirt,50%=9", &registry()).ok().unwrap();
    let draws = 100000;
    let mut counts = [0u32; 3];
    for _ in 0..draws {
        match p.pick() {
            1 => counts[0] += 1,
            2 => counts[1] += 1,
            9 => counts[2] += 1,
            other => panic!("unexpected block {}", other),
        }
    }
    for (count, want) in counts.iter().zip([0.2, 0.3, 0.5]) {
        let share = *count as f64 / draws as f64;
        assert!((share - want).abs() < 0.02, "share {} want {}", share, want);
    }
}
