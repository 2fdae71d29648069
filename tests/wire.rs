use cpu_panel::ingest::Ingestor;
use cpu_panel::snapshot::{CPUUsage, Packet, MAX_CORES};
use cpu_panel::wire::{decode_packet, DecodeError};

fn encode(cores: &[(u8, f32)]) -> Vec<u8> {
    postcard::to_allocvec(&cores.to_vec()).unwrap()
}

fn usage(id: u8, u: f32) -> CPUUsage {
    CPUUsage { id, usage_bits: u.to_bits() }
}

#[test]
fn decodes_what_postcard_encodes() {
    let bytes = encode(&[(0, 12.5), (1, 100.0), (7, 0.0)]);
    let (p, n) = decode_packet(&bytes).unwrap();
    assert_eq!(n, bytes.len());
    assert_eq!(p.cores.to_vec(), vec![usage(0, 12.5), usage(1, 100.0), usage(7, 0.0)]);
}

#[test]
fn decodes_the_empty_snapshot() {
    let (p, n) = decode_packet(&[0x00, 0xAA]).unwrap();
    assert_eq!(n, 1);
    assert_eq!(p, Packet::new());
}

#[test]
fn decodes_a_full_snapshot() {
    let cores: Vec<(u8, f32)> = (0..MAX_CORES as u8).map(|i| (i, i as f32)).collect();
    let bytes = encode(&cores);
    let (p, n) = decode_packet(&bytes).unwrap();
    assert_eq!(n, 1 + 5 * MAX_CORES);
    assert_eq!(p.len(), MAX_CORES);
    assert_eq!(p.get(31), usage(31, 31.0));
}

#[test]
fn long_form_header_is_read_by_value() {
    let mut bytes = vec![0x81, 0x00];
    bytes.extend_from_slice(&[3, 0x00, 0x00, 0xC8, 0x42]);
    let (p, n) = decode_packet(&bytes).unwrap();
    assert_eq!(n, 7);
    assert_eq!(p.cores.to_vec(), vec![usage(3, 100.0)]);
}

#[test]
fn truncated_frame_is_incomplete() {
    let bytes = encode(&[(0, 50.0), (1, 25.0)]);
    for k in 0..bytes.len() {
        assert_eq!(decode_packet(&bytes[..k]), Err(DecodeError::Incomplete));
    }
}

#[test]
fn oversized_header_is_rejected() {
    assert_eq!(decode_packet(&[33]), Err(DecodeError::CapacityExceeded));
    assert_eq!(decode_packet(&[0x80, 0x01]), Err(DecodeError::CapacityExceeded));
    let cores: Vec<(u8, f32)> = (0..40u8).map(|i| (i, 1.0)).collect();
    assert_eq!(decode_packet(&encode(&cores)), Err(DecodeError::CapacityExceeded));
}

#[test]
fn endless_varint_is_malformed() {
    assert_eq!(decode_packet(&[0x80; 10]), Err(DecodeError::BadVarint));
    assert_eq!(decode_packet(&[0x80; 9]), Err(DecodeError::Incomplete));
}

#[test]
fn ingestor_starts_empty() {
    let ing = Ingestor::new();
    assert_eq!(ing.current().len(), 0);
}

#[test]
fn frame_split_across_chunks() {
    let bytes = encode(&[(0, 50.0), (1, 25.0)]);
    for k in 0..bytes.len() {
        let mut ing = Ingestor::new();
        assert!(!ing.feed(&bytes[..k]));
        assert_eq!(ing.current().len(), 0);
        assert!(ing.feed(&bytes[k..]));
        assert_eq!(ing.current().cores.to_vec(), vec![usage(0, 50.0), usage(1, 25.0)]);
    }
}

#[test]
fn newest_frame_wins() {
    let mut bytes = encode(&[(0, 10.0)]);
    bytes.extend(encode(&[(1, 20.0), (2, 30.0)]));
    let mut ing = Ingestor::new();
    assert!(ing.feed(&bytes));
    assert_eq!(ing.current().cores.to_vec(), vec![usage(1, 20.0), usage(2, 30.0)]);
}

#[test]
fn oversized_frame_keeps_current_snapshot() {
    let mut ing = Ingestor::new();
    assert!(ing.feed(&encode(&[(4, 75.0)])));
    let cores: Vec<(u8, f32)> = (0..40u8).map(|i| (i, 1.0)).collect();
    assert!(!ing.feed(&encode(&cores)));
    assert_eq!(ing.current().cores.to_vec(), vec![usage(4, 75.0)]);
    assert!(ing.feed(&encode(&[(5, 5.0)])));
    assert_eq!(ing.current().cores.to_vec(), vec![usage(5, 5.0)]);
}

#[test]
fn malformed_frame_does_not_block_later_frames() {
    let mut ing = Ingestor::new();
    assert!(!ing.feed(&[0x80; 10]));
    assert_eq!(ing.current().len(), 0);
    assert!(ing.feed(&encode(&[(2, 60.0)])));
    assert_eq!(ing.current().cores.to_vec(), vec![usage(2, 60.0)]);
}

#[test]
fn chunk_over_capacity_is_dropped() {
    let mut ing = Ingestor::new();
    assert!(ing.feed(&encode(&[(1, 1.0)])));
    assert!(!ing.feed(&vec![0u8; 1025]));
    assert_eq!(ing.current().cores.to_vec(), vec![usage(1, 1.0)]);
}

#[test]
fn snapshot_push_stops_at_capacity() {
    let mut p = Packet::new();
    for i in 0..MAX_CORES as u8 {
        assert!(p.push(usage(i, 1.0)));
    }
    assert!(!p.push(usage(99, 1.0)));
    assert_eq!(p.len(), MAX_CORES);
    assert_eq!(p.get(MAX_CORES - 1), usage(31, 1.0));
}
