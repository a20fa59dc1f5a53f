use lib::election::{ElectionParams, ElectionParamsV2};
use lib::sync::{ChanEncoding, ChannelSequence, SyncParams, TU_US};

fn election_v1(flags: u8, distance: u8, extra: &[u8]) -> Vec<u8> {
    let mut v = vec![flags, 0x34, 0x12, distance, 0xee];
    v.extend_from_slice(&[1, 2, 3, 4, 5, 6]);
    v.extend_from_slice(&500u32.to_le_bytes());
    v.extend_from_slice(&60u32.to_le_bytes());
    v.extend_from_slice(extra);
    v
}

fn election_v2(counter: u32, metric: u32, distance: u32) -> ElectionParamsV2 {
    let mut v = Vec::new();
    v.extend_from_slice(&[0xa, 0xb, 0xc, 0xd, 0xe, 0xf]);
    v.extend_from_slice(&[1, 1, 2, 2, 3, 3]);
    v.extend_from_slice(&7u32.to_le_bytes());
    v.extend_from_slice(&distance.to_le_bytes());
    v.extend_from_slice(&99u32.to_le_bytes());
    v.extend_from_slice(&metric.to_le_bytes());
    v.extend_from_slice(&[0xff; 8]);
    v.extend_from_slice(&counter.to_le_bytes());
    ElectionParamsV2::parse(&v).unwrap()
}

#[test]
fn election_v1_public() {
    let v = election_v1(0, 2, &[]);
    assert_eq!(v.len(), ElectionParams::MIN_LEN);
    let p = ElectionParams::parse(&v).unwrap();
    assert_eq!(p.flags, 0);
    assert_eq!(p.id, 0x1234);
    assert_eq!(p.distance, 2);
    assert_eq!(p.master, [1, 2, 3, 4, 5, 6]);
    assert_eq!(p.master_metric, 500);
    assert_eq!(p.self_metric, 60);
    assert_eq!(p.private_master, None);
    assert!(!p.claims_mastership());
}

#[test]
fn election_v1_private_carries_a_second_address() {
    let v = election_v1(1, 0, &[0, 0, 9, 8, 7, 6, 5, 4]);
    let p = ElectionParams::parse(&v).unwrap();
    assert_eq!(p.private_master, Some([9, 8, 7, 6, 5, 4]));
    assert!(p.claims_mastership());
}

#[test]
fn election_v1_private_but_truncated_has_no_second_address() {
    let v = election_v1(1, 0, &[0, 0, 9, 8, 7]);
    let p = ElectionParams::parse(&v).unwrap();
    assert_eq!(p.private_master, None);
}

#[test]
fn election_v1_public_ignores_trailing_address() {
    let v = election_v1(0, 0, &[0, 0, 9, 8, 7, 6, 5, 4]);
    assert_eq!(ElectionParams::parse(&v).unwrap().private_master, None);
}

#[test]
fn election_v1_too_short() {
    let v = election_v1(0, 0, &[]);
    assert!(ElectionParams::parse(&v[..18]).is_none());
    assert!(ElectionParams::parse(&[]).is_none());
}

#[test]
fn election_v2_fields() {
    let p = election_v2(0x0102_0304, 300, 0);
    assert_eq!(p.master, [0xa, 0xb, 0xc, 0xd, 0xe, 0xf]);
    assert_eq!(p.other, [1, 1, 2, 2, 3, 3]);
    assert_eq!(p.master_counter, 7);
    assert_eq!(p.distance, 0);
    assert_eq!(p.master_metric, 99);
    assert_eq!(p.self_metric, 300);
    assert_eq!(p.self_counter, 0x0102_0304);
    assert!(p.claims_mastership());
    assert!(!election_v2(1, 1, 3).claims_mastership());
}

#[test]
fn election_v2_too_short() {
    assert!(ElectionParamsV2::parse(&[0u8; 39]).is_none());
    assert!(ElectionParamsV2::parse(&[0u8; ElectionParamsV2::MIN_LEN]).is_some());
}

#[test]
fn counter_beats_metric() {
    let veteran = election_v2(10, 1, 1);
    let newcomer = election_v2(9, 1000, 1);
    let a = [2, 0, 0, 0, 0, 0];
    let b = [1, 0, 0, 0, 0, 0];
    assert!(veteran.beats(&newcomer, b, a));
    assert!(!newcomer.beats(&veteran, a, b));
}

#[test]
fn metric_decides_equal_counters() {
    let strong = election_v2(5, 400, 1);
    let weak = election_v2(5, 300, 1);
    let a = [0; 6];
    let b = [0xff; 6];
    assert!(strong.beats(&weak, a, b));
    assert!(!weak.beats(&strong, b, a));
}

#[test]
fn address_breaks_the_last_tie() {
    let x = election_v2(5, 400, 1);
    let y = election_v2(5, 400, 1);
    let hi = [0x12, 0x34, 0x56, 0x78, 0x9a, 0xbd];
    let lo = [0x12, 0x34, 0x56, 0x78, 0x9a, 0xbc];
    assert!(x.beats(&y, hi, lo));
    assert!(!y.beats(&x, lo, hi));
    assert!(!x.beats(&y, hi, hi));
}

fn opclass_16() -> Vec<u8> {
    // count 15 means 16 slots; encoding 3 is OpClass; (channel, opclass) per slot.
    let slots = [0, 0, 149, 0, 0, 149, 0, 0, 6, 0, 149, 0, 0, 149, 0, 0];
    let mut v = vec![15, 3, 0, 1, 0xff, 0xff];
    for c in slots {
        let class = if c == 6 { 0x51 } else if c == 0 { 0 } else { 0x80 };
        v.extend([c, class]);
    }
    v
}

fn legacy_16() -> Vec<u8> {
    // Legacy puts the flags byte first and the channel second.
    let slots = [0, 0, 151, 0, 0, 151, 0, 0, 6, 0, 151, 0, 0, 151, 0, 0];
    let mut v = vec![15, 1, 0, 1, 0xff, 0xff];
    for c in slots {
        v.extend([0x46, c]);
    }
    v
}

#[test]
fn channel_sequence_count_is_stored_minus_one() {
    let cs = ChannelSequence::parse(&opclass_16()).unwrap();
    assert_eq!(cs.encoding, ChanEncoding::OpClass);
    assert_eq!(cs.channels.len(), 16);
    assert_eq!(cs.qualifiers.len(), 16);
    assert_eq!(cs.channels, vec![0, 0, 149, 0, 0, 149, 0, 0, 6, 0, 149, 0, 0, 149, 0, 0]);
    assert_eq!(cs.qualifiers[8], 0x51);
    assert_eq!(cs.qualifiers[2], 0x80);
    assert_eq!(cs.duplicate, 0);
    assert_eq!(cs.step_count, 1);
    assert_eq!(cs.fill_channel, 0xffff);
}

#[test]
fn channel_sequence_occupancy() {
    let cs = ChannelSequence::parse(&opclass_16()).unwrap();
    assert_eq!(cs.occupied_slots(), 5);
    assert_eq!(cs.slots_on(149), 4);
    assert_eq!(cs.slots_on(6), 1);
    assert_eq!(cs.slots_on(0), 11);
    assert_eq!(cs.slots_on(44), 0);
    assert_eq!(cs.distinct(), vec![6, 149]);
    assert_eq!(cs.occupied_slots() + cs.slots_on(0), cs.channels.len());
    let total: usize = cs.distinct().iter().map(|c| cs.slots_on(*c)).sum();
    assert_eq!(total, cs.occupied_slots());
}

#[test]
fn legacy_reads_channel_second() {
    let cs = ChannelSequence::parse(&legacy_16()).unwrap();
    assert_eq!(cs.encoding, ChanEncoding::Legacy);
    assert_eq!(cs.channels, vec![0, 0, 151, 0, 0, 151, 0, 0, 6, 0, 151, 0, 0, 151, 0, 0]);
    assert!(cs.qualifiers.iter().all(|q| *q == 0x46));
    assert_eq!(cs.distinct(), vec![6, 151]);
    // The same schedule as the OpClass encoding, slot for slot.
    let other = ChannelSequence::parse(&opclass_16()).unwrap();
    for i in 0..16 {
        assert_eq!(cs.channels[i] == 0, other.channels[i] == 0);
    }
}

#[test]
fn channel_number_encoding_has_zero_qualifiers() {
    let v = [2, 0, 0, 0, 0, 0, 6, 0, 44, 99];
    let cs = ChannelSequence::parse(&v).unwrap();
    assert_eq!(cs.encoding, ChanEncoding::ChannelNumber);
    assert_eq!(cs.channels, vec![6, 0, 44]);
    assert_eq!(cs.qualifiers, vec![0, 0, 0]);
    assert_eq!(cs.distinct(), vec![6, 44]);
}

#[test]
fn channel_sequence_rejects_unknown_encoding() {
    let v = [0, 2, 0, 0, 0, 0, 6, 0];
    assert!(ChannelSequence::parse(&v).is_none());
}

#[test]
fn channel_sequence_rejects_truncated_slots() {
    let v = opclass_16();
    assert!(ChannelSequence::parse(&v[..v.len() - 1]).is_none());
    assert!(ChannelSequence::parse(&v[..5]).is_none());
    assert!(ChannelSequence::parse(&[]).is_none());
}

fn sync_fixed(master: [u8; 6]) -> Vec<u8> {
    let mut v = vec![149];
    v.extend(0x0203u16.to_le_bytes());
    v.extend([149, 3]);
    v.extend(16u16.to_le_bytes());
    v.extend(110u16.to_le_bytes());
    v.extend(0x1800u16.to_le_bytes());
    v.extend(16u16.to_le_bytes());
    v.extend(16u16.to_le_bytes());
    v.extend(12u16.to_le_bytes());
    v.extend([3, 16, 16, 16]);
    v.extend(master);
    v.extend([4, 0x55]);
    v.extend(0x1234u16.to_le_bytes());
    v.extend(0u16.to_le_bytes());
    v
}

#[test]
fn sync_params_fixed_fields() {
    let v = sync_fixed([0; 6]);
    assert_eq!(v.len(), SyncParams::MIN_LEN);
    let p = SyncParams::parse(&v).unwrap();
    assert_eq!(p.tx_channel, 149);
    assert_eq!(p.tx_counter, 0x0203);
    assert_eq!(p.master_channel, 149);
    assert_eq!(p.guard_time, 3);
    assert_eq!(p.aw_period, 16);
    assert_eq!(p.action_frame_period, 110);
    assert_eq!(p.flags, 0x1800);
    assert_eq!(p.aw_ext_length, 16);
    assert_eq!(p.aw_common_length, 16);
    assert_eq!(p.aw_remaining, 12);
    assert_eq!((p.ext_min, p.ext_max_multicast, p.ext_max_unicast, p.ext_max_af), (3, 16, 16, 16));
    assert_eq!(p.presence_mode, 4);
    assert_eq!(p.aw_counter, 0x1234);
    assert_eq!(p.ap_beacon_alignment_delta, 0);
    assert!(p.channel_sequence.is_none());
    assert!(p.is_self_master());
}

#[test]
fn sync_params_availability_window_in_microseconds() {
    let p = SyncParams::parse(&sync_fixed([0; 6])).unwrap();
    assert_eq!(p.aw_period_us(), 16384);
    assert_eq!(p.aw_period_us(), u32::from(p.aw_period) * TU_US);
}

#[test]
fn sync_params_following_a_master() {
    let p = SyncParams::parse(&sync_fixed([0x1a, 0x90, 0x37, 0x31, 0xe6, 0x58])).unwrap();
    assert_eq!(p.master, [0x1a, 0x90, 0x37, 0x31, 0xe6, 0x58]);
    assert!(!p.is_self_master());
    let p = SyncParams::parse(&sync_fixed([0, 0, 0, 0, 0, 1])).unwrap();
    assert!(!p.is_self_master());
}

#[test]
fn sync_params_embeds_a_channel_sequence() {
    let mut v = sync_fixed([0; 6]);
    v.extend(legacy_16());
    let p = SyncParams::parse(&v).unwrap();
    let cs = p.channel_sequence.expect("embedded sequence");
    assert_eq!(cs, ChannelSequence::parse(&legacy_16()).unwrap());
    assert_eq!(cs.occupied_slots(), 5);
}

#[test]
fn sync_params_with_bad_embedded_sequence_still_parses() {
    let mut v = sync_fixed([0; 6]);
    v.extend([15, 3, 0, 0]);
    let p = SyncParams::parse(&v).unwrap();
    assert!(p.channel_sequence.is_none());
}

#[test]
fn sync_params_too_short() {
    let v = sync_fixed([0; 6]);
    assert!(SyncParams::parse(&v[..32]).is_none());
}
