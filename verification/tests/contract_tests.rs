use plato_forge_bridge::bridge::{BridgeConfig, BridgeStats, ForgeBridge};
use plato_forge_bridge::mapper::{
    millis_to_timestamp, now_ms, MapperError, PayloadValue, TickToTileMapper, TileToTickMapper,
    NULL_CONFIDENCE,
};
use plato_forge_bridge::room::ForgeRoom;
use plato_forge_bridge::types::{ForgeTickKind, Tile, TileMetadata, FULL_CONFIDENCE};
use uuid::Uuid;

fn sample(domain: &str) -> Tile {
    Tile::new(domain, "q", "a").with_tags(["t1", "t2"]).with_source("src")
}

fn config(capacity: usize, keep_rejected: bool) -> BridgeConfig {
    BridgeConfig { pipeline_id: 7, buffer_capacity: capacity, keep_rejected }
}

#[test]
fn new_tile_defaults() {
    let t = Tile::new("d", "q", "a");
    assert_eq!(t.domain, "d");
    assert_eq!(t.question, "q");
    assert_eq!(t.answer, "a");
    assert_eq!(t.source, "");
    assert_eq!(t.confidence, 1.0f32.to_bits());
    assert_eq!(FULL_CONFIDENCE, 1.0f32.to_bits());
    assert!(t.tags.is_empty());
    assert!(t.provenance.is_empty());
    assert_eq!(t.metadata, TileMetadata::default());
    assert_eq!(t.metadata.pipeline_id, None);
    assert_eq!(Uuid::from_u128(t.id).get_version_num(), 4);
}

#[test]
fn builders_set_their_field_only() {
    let t = Tile::new("d", "q", "a")
        .with_source("s")
        .with_tags(["x", "y"])
        .with_confidence_bits(0.5f32.to_bits());
    assert_eq!(t.source, "s");
    assert_eq!(t.tags, vec!["x".to_string(), "y".to_string()]);
    assert_eq!(f32::from_bits(t.confidence), 0.5);
    assert_eq!(t.domain, "d");
}

#[test]
fn fresh_ids_are_version_four_and_distinct() {
    let a = Tile::new("d", "q", "a").id;
    let b = BridgeConfig::default().pipeline_id;
    let mut m = TileToTickMapper::new(b);
    let c = m.ingest(&sample("d")).unwrap().tick_id;
    assert_ne!(a, b);
    assert_ne!(a, c);
    for id in [a, b, c] {
        assert_eq!((id >> 76) & 0xf, 4);
        assert_eq!((id >> 62) & 3, 2);
    }
}

#[test]
fn id_field_is_hyphenated_lowercase() {
    let mut m = TileToTickMapper::new(1);
    let f = TickToTileMapper::new();
    let mut tile = sample("d");
    tile.id = 0xa1a2a3a4_b1b2_c1c2_d1d2_d3d4d5d6d7d8;
    let tick = m.ingest(&tile).unwrap();
    let id = f.field(&tick, "id").unwrap();
    assert_eq!(id.as_str(), Some("a1a2a3a4-b1b2-c1c2-d1d2-d3d4d5d6d7d8"));
    tile.id = 0;
    let tick = m.ingest(&tile).unwrap();
    let id = f.field(&tick, "id").unwrap();
    assert_eq!(id.as_str(), Some("00000000-0000-0000-0000-000000000000"));
}

#[test]
fn mapper_ticks_carry_pipeline_and_numbers() {
    let mut m = TileToTickMapper::new(42);
    let tile = sample("d");
    let a = m.ingest(&tile).unwrap();
    let b = m.verify(&tile, "validator-bot").unwrap();
    let c = m.assemble(&tile).unwrap();
    assert_eq!((a.seq, b.seq, c.seq), (0, 1, 2));
    assert_eq!(a.pipeline_id, 42);
    assert!(matches!(b.kind, ForgeTickKind::Verified));
    assert_eq!(b.agent_path, vec!["validator-bot".to_string()]);
    assert!(a.agent_path.is_empty());
    assert_eq!(a.payload, tile);
    assert!(!a.is_terminal());
    assert!(!b.is_terminal());
    assert_ne!(a.tick_id, b.tick_id);
}

#[test]
fn roundtrip_records_pipeline_and_keeps_content() {
    let mut m = TileToTickMapper::new(99);
    let tile = sample("d");
    let tick = m.ingest(&tile).unwrap();
    let back = TickToTileMapper::new().from_tick(&tick).unwrap();
    let mut expected = tile.clone();
    expected.metadata.pipeline_id = Some(99);
    assert_eq!(back, expected);
}

#[test]
fn rejected_tick_reports_its_reason() {
    let mut m = TileToTickMapper::new(1);
    let tick = m.reject(&sample("d"), "bad").unwrap();
    match TickToTileMapper::default().from_tick(&tick) {
        Err(MapperError::NonAssemblable(r)) => assert_eq!(r, "bad"),
        other => panic!("unexpected {:?}", other),
    }
}

#[test]
fn non_finite_confidence_cannot_be_read_back() {
    let mut m = TileToTickMapper::new(1);
    let tile = sample("d").with_confidence_bits(f32::NAN.to_bits());
    let tick = m.ingest(&tile).unwrap();
    match TickToTileMapper::new().from_tick(&tick) {
        Err(MapperError::Serialize(msg)) => assert_eq!(msg, NULL_CONFIDENCE),
        other => panic!("unexpected {:?}", other),
    }
    assert_eq!(TickToTileMapper::new().field(&tick, "confidence"), Some(PayloadValue::Null));
    let inf = m.ingest(&sample("d").with_confidence_bits(f32::INFINITY.to_bits())).unwrap();
    assert!(TickToTileMapper::new().from_tick(&inf).is_err());
}

#[test]
fn payload_fields() {
    let mut m = TileToTickMapper::new(1);
    let tile = sample("d").with_confidence_bits(0.25f32.to_bits());
    let tick = m.ingest(&tile).unwrap();
    let f = TickToTileMapper::new();
    let id = f.field(&tick, "id").unwrap();
    assert_eq!(id.as_str().unwrap(), Uuid::from_u128(tile.id).to_string());
    assert_eq!(f.field(&tick, "confidence"), Some(PayloadValue::Number(0.25f32.to_bits())));
    assert_eq!(
        f.field(&tick, "tags"),
        Some(PayloadValue::List(vec!["t1".to_string(), "t2".to_string()]))
    );
    assert_eq!(f.field(&tick, "source").unwrap().as_str(), Some("src"));
    assert_eq!(f.field(&tick, "metadata"), Some(PayloadValue::Object(TileMetadata::default())));
    assert_eq!(f.field(&tick, "tags").unwrap().as_str(), None);
    assert_eq!(f.field(&tick, "nope"), None);
    assert_eq!(f.field(&tick, "Domain"), None);
}

#[test]
fn provenance_is_not_duplicated() {
    let mut bridge = ForgeBridge::new(config(16, true));
    let t0 = bridge.ingest(&sample("d")).unwrap().clone();
    let t1 = bridge.transform(&t0, "a", |t| t).unwrap().clone();
    let t2 = bridge.transform(&t1, "a", |t| t).unwrap().clone();
    let t3 = bridge.transform(&t2, "b", |t| t).unwrap().clone();
    let out = bridge.assemble(&t3).unwrap();
    assert_eq!(out.provenance, vec!["a".to_string(), "b".to_string()]);
    assert_eq!(out.metadata.pipeline_id, Some(7));
}

#[test]
fn buffer_drops_oldest_when_full() {
    let mut bridge = ForgeBridge::new(config(2, true));
    let tile = sample("d");
    for _ in 0..3 {
        bridge.ingest(&tile).unwrap();
    }
    let seqs: Vec<u64> = bridge.buffer().iter().map(|t| t.seq).collect();
    assert_eq!(seqs, vec![1, 2]);
    assert_eq!(bridge.stats.ticks_ingested, 3);
}

#[test]
fn rejection_without_dead_letters() {
    let mut bridge = ForgeBridge::new(config(4, false));
    let tick = bridge.ingest(&sample("d")).unwrap().clone();
    bridge.reject(&tick, "no").unwrap();
    assert_eq!(bridge.stats.ticks_rejected, 1);
    assert!(bridge.rejected().is_empty());
    assert!(bridge.buffer().is_empty());
}

#[test]
fn reject_moves_only_that_tick_out_of_the_buffer() {
    let mut bridge = ForgeBridge::new(config(8, true));
    let a = bridge.ingest(&sample("a")).unwrap().clone();
    let b = bridge.ingest(&sample("b")).unwrap().clone();
    let c = bridge.ingest(&sample("c")).unwrap().clone();
    bridge.reject(&b, "drop").unwrap();
    let left: Vec<u128> = bridge.buffer().iter().map(|t| t.tick_id).collect();
    assert_eq!(left, vec![a.tick_id, c.tick_id]);
    assert_eq!(bridge.rejected().len(), 1);
    assert_eq!(bridge.rejected()[0].seq, 3);
    // a tick that is not buffered leaves the buffer as it is
    let mut m = TileToTickMapper::new(7);
    let outside = m.ingest(&sample("z")).unwrap();
    bridge.reject(&outside, "other").unwrap();
    assert_eq!(bridge.buffer().len(), 2);
}

#[test]
fn buffer_stays_ordered_over_a_run() {
    let mut bridge = ForgeBridge::new(config(3, true));
    bridge.register_room(ForgeRoom::new("all"));
    let t0 = bridge.ingest(&sample("d")).unwrap().clone();
    let t1 = bridge.transform(&t0, "x", |t| t).unwrap().clone();
    bridge.reject(&t0, "r").unwrap();
    bridge.assemble(&t1).unwrap();
    bridge.ingest(&sample("e")).unwrap();
    bridge.ingest(&sample("f")).unwrap();
    let buf = bridge.buffer();
    assert!(buf.len() <= 3);
    for w in buf.windows(2) {
        assert!(w[0].seq < w[1].seq);
    }
    for t in buf {
        assert_eq!(t.pipeline_id, 7);
        assert!(!matches!(t.kind, ForgeTickKind::Rejected { .. }));
    }
}

#[test]
fn dead_letter_tick_carries_reason() {
    let mut bridge = ForgeBridge::new(config(4, true));
    let tick = bridge.ingest(&sample("d")).unwrap().clone();
    bridge.reject(&tick, "why").unwrap();
    let dead = &bridge.rejected()[0];
    assert_eq!(dead.kind, ForgeTickKind::Rejected { reason: "why".to_string() });
    assert_eq!(dead.seq, 1);
    assert_eq!(dead.payload.metadata.pipeline_id, Some(7));
}

#[test]
fn rejected_tick_cannot_be_assembled_or_transformed() {
    let mut bridge = ForgeBridge::new(config(4, true));
    let mut m = TileToTickMapper::new(3);
    let tick = m.reject(&sample("d"), "r").unwrap();
    assert!(matches!(bridge.assemble(&tick), Err(MapperError::NonAssemblable(_))));
    assert!(bridge.transform(&tick, "x", |t| t).is_err());
    assert!(bridge.reject(&tick, "again").is_err());
    assert_eq!(bridge.stats.ticks_assembled, 0);
    assert_eq!(bridge.stats.ticks_rejected, 0);
    assert!(bridge.buffer().is_empty());
}

#[test]
fn routing_counts_accepting_rooms() {
    let mut bridge = ForgeBridge::new(config(8, true));
    bridge.register_room(ForgeRoom::new("all"));
    bridge.register_room(ForgeRoom::new("m").with_domain("bio").with_domain("math"));
    bridge.register_room(ForgeRoom::new("b").with_domain("bio"));
    let tick = bridge.ingest(&sample("math")).unwrap().clone();
    bridge.assemble(&tick).unwrap();
    let counts: Vec<usize> = bridge.rooms().iter().map(|r| r.tile_count()).collect();
    assert_eq!(counts, vec![1, 1, 0]);
    assert_eq!(bridge.stats.tiles_routed, 2);
    assert_eq!(bridge.stats.ticks_assembled, 1);
    let last = bridge.buffer().last().unwrap();
    assert!(last.is_terminal());
    assert_eq!(last.kind, ForgeTickKind::Assembled);
}

#[test]
fn stats_default_is_zero() {
    let s = BridgeStats::default();
    assert_eq!((s.ticks_ingested, s.ticks_assembled, s.ticks_rejected, s.tiles_routed), (0, 0, 0, 0));
    let c = BridgeConfig::default();
    assert_eq!(c.buffer_capacity, 1024);
    assert!(c.keep_rejected);
}

#[test]
fn room_log_and_tags() {
    let mut room = ForgeRoom::new("r");
    assert_eq!(room.name, "r");
    let a = Tile::new("x", "1", "a").with_tags(["k"]);
    let b = Tile::new("x", "2", "a").with_tags(["j"]);
    let c = Tile::new("x", "3", "a").with_tags(["j", "k"]);
    room.receive(a);
    room.receive(b);
    room.receive(c);
    let found: Vec<String> = room.tiles_with_tag("k").iter().map(|t| t.question.clone()).collect();
    assert_eq!(found, vec!["1".to_string(), "3".to_string()]);
    assert!(room.tiles_with_tag("z").is_empty());
    let mut m = TileToTickMapper::new(1);
    let tick = m.ingest(&room.tiles()[0]).unwrap();
    room.log_tick(tick.clone());
    assert_eq!(room.tick_log().len(), 1);
    assert_eq!(room.tick_log()[0], tick);
}

#[test]
fn clock_millis() {
    assert_eq!(millis_to_timestamp(None), 0);
    assert_eq!(millis_to_timestamp(Some(1234)), 1234);
    assert_eq!(millis_to_timestamp(Some((1u128 << 64) + 5)), 5);
    assert!(now_ms() > 1_600_000_000_000);
}
