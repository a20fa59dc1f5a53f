use lib::action::{subtype_name, ActionFrame, Fixed, SUBTYPE_MIF, SUBTYPE_PSF};
use lib::tlv::{tag_name, Stop};

/// A frame body: vendor category, Apple OUI, AWDL type, then the rest of the fixed
/// header and whatever tagged region follows.
fn body(version: u8, subtype: u8, phy: u32, target: u32, tagged: &[u8]) -> Vec<u8> {
    let mut b = vec![0x7f, 0x00, 0x17, 0xf2, 0x08, version, subtype, 0x00];
    b.extend_from_slice(&phy.to_le_bytes());
    b.extend_from_slice(&target.to_le_bytes());
    b.extend_from_slice(tagged);
    b
}

fn tlv(tag: u8, value: &[u8]) -> Vec<u8> {
    let mut t = vec![tag];
    t.extend_from_slice(&(value.len() as u16).to_le_bytes());
    t.extend_from_slice(value);
    t
}

#[test]
fn subtype_names() {
    assert_eq!(subtype_name(SUBTYPE_PSF), "PSF");
    assert_eq!(subtype_name(SUBTYPE_MIF), "MIF");
    assert_eq!(subtype_name(1), "unknown");
    assert_eq!(subtype_name(255), "unknown");
}

#[test]
fn tx_delay_is_phy_minus_target() {
    let f = Fixed { version_major: 1, version_minor: 0, subtype: 3, phy_tx_time: 1000, target_tx_time: 900 };
    assert_eq!(f.tx_delay(), 100);
}

#[test]
fn tx_delay_wraps_with_the_counters() {
    let f = Fixed { version_major: 1, version_minor: 0, subtype: 3, phy_tx_time: 5, target_tx_time: 0xffff_fffb };
    assert_eq!(f.tx_delay(), 10);
    assert_eq!(f.target_tx_time.wrapping_add(f.tx_delay()), f.phy_tx_time);
}

#[test]
fn parses_an_awdl_frame() {
    let tagged = tlv(21, &[0x3f, 0x03]);
    let b = body(0x10, SUBTYPE_MIF, 0x0102_0304, 0x0102_0300, &tagged);
    let af = ActionFrame::parse(&b).expect("is AWDL");
    assert_eq!(af.fixed.version_major, 1);
    assert_eq!(af.fixed.version_minor, 0);
    assert_eq!(af.fixed.subtype, SUBTYPE_MIF);
    assert_eq!(af.fixed.phy_tx_time, 0x0102_0304);
    assert_eq!(af.fixed.target_tx_time, 0x0102_0300);
    assert_eq!(af.fixed.tx_delay(), 4);
    assert_eq!(af.tagged, &tagged[..]);
}

#[test]
fn version_is_a_pair_of_nibbles() {
    let b = body(0x2a, SUBTYPE_PSF, 0, 0, &[]);
    let af = ActionFrame::parse(&b).unwrap();
    assert_eq!((af.fixed.version_major, af.fixed.version_minor), (2, 10));
}

#[test]
fn bare_fixed_header_has_an_empty_tagged_region() {
    let b = body(0x10, SUBTYPE_PSF, 0, 0, &[]);
    assert_eq!(b.len(), 16);
    let af = ActionFrame::parse(&b).unwrap();
    assert!(af.tagged.is_empty());
    let mut walk = af.tlvs();
    assert!(walk.next().is_none());
    assert_eq!(walk.stop(), Some(Stop::Clean));
}

#[test]
fn rejects_other_category() {
    let mut b = body(0x10, 0, 0, 0, &[]);
    b[0] = 0x04;
    assert!(ActionFrame::parse(&b).is_none());
}

#[test]
fn rejects_other_oui() {
    let mut b = body(0x10, 0, 0, 0, &[]);
    b[3] = 0xf3;
    assert!(ActionFrame::parse(&b).is_none());
}

#[test]
fn rejects_apple_frames_that_are_not_awdl() {
    let mut b = body(0x10, 0, 0, 0, &[]);
    b[4] = 0x09;
    assert!(ActionFrame::parse(&b).is_none());
}

#[test]
fn rejects_truncated_fixed_header() {
    let b = body(0x10, 0, 0, 0, &[]);
    assert!(ActionFrame::parse(&b[..15]).is_none());
    assert!(ActionFrame::parse(&b[..1]).is_none());
    assert!(ActionFrame::parse(&[]).is_none());
}

#[test]
fn walks_the_tagged_region_and_ends_clean() {
    let mut tagged = tlv(4, &[1, 2, 3]);
    tagged.extend(tlv(5, &[]));
    tagged.extend(tlv(32, &[9]));
    tagged.extend(tlv(33, &[8, 7]));
    let b = body(0x10, SUBTYPE_MIF, 0, 0, &tagged);
    let af = ActionFrame::parse(&b).unwrap();
    let mut walk = af.tlvs();
    let mut seen: Vec<(u8, Vec<u8>)> = Vec::new();
    assert_eq!(walk.stop(), None);
    while let Some(t) = walk.next() {
        assert_eq!(walk.stop(), None);
        seen.push((t.tag, t.value.to_vec()));
    }
    assert_eq!(
        seen,
        vec![(4, vec![1, 2, 3]), (5, vec![]), (32, vec![9]), (33, vec![8, 7])]
    );
    assert_eq!(walk.stop(), Some(Stop::Clean));
    assert!(walk.next().is_none());
    assert_eq!(walk.stop(), Some(Stop::Clean));
}

#[test]
fn undocumented_tags_are_kept_and_unnamed() {
    let mut tagged = tlv(24, &[0; 40]);
    tagged.extend(tlv(32, &[1]));
    tagged.extend(tlv(33, &[2]));
    let mut walk = lib::tlv::Tlvs::new(&tagged);
    let mut tags = Vec::new();
    while let Some(t) = walk.next() {
        tags.push((t.tag, t.name()));
    }
    assert_eq!(
        tags,
        vec![(24, "Election Parameters v2"), (32, "unrecognised"), (33, "unrecognised")]
    );
}

#[test]
fn trailing_bytes_are_reported() {
    let mut tagged = tlv(4, &[1]);
    tagged.extend([7, 0]);
    let mut walk = lib::tlv::Tlvs::new(&tagged);
    assert_eq!(walk.next().map(|t| t.tag), Some(4));
    assert!(walk.next().is_none());
    assert_eq!(walk.stop(), Some(Stop::Trailing(2)));
}

#[test]
fn overrun_is_reported() {
    let mut tagged = tlv(18, &[1, 2]);
    tagged.extend([6, 10, 0, 1, 2, 3]);
    let mut walk = lib::tlv::Tlvs::new(&tagged);
    assert_eq!(walk.next().map(|t| t.tag), Some(18));
    assert!(walk.next().is_none());
    assert_eq!(walk.stop(), Some(Stop::Overrun { tag: 6, claimed: 10, available: 3 }));
}

#[test]
fn tag_names() {
    assert_eq!(tag_name(4), "Sync Parameters");
    assert_eq!(tag_name(5), "Election Parameters");
    assert_eq!(tag_name(18), "Channel Sequence");
    assert_eq!(tag_name(21), "Version");
    assert_eq!(tag_name(24), "Election Parameters v2");
    assert_eq!(tag_name(32), "unrecognised");
    assert_eq!(tag_name(255), "unrecognised");
}
