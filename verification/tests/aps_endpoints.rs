use mocktioneer::aps::{build_aps_response, ApsBidRequest, ApsSlot};
use mocktioneer::codec::decode_price;

fn slot(id: &str, sizes: Vec<[u32; 2]>) -> ApsSlot {
    ApsSlot {
        slot_id: id.to_string(),
        sizes,
        slot_name: Some(id.to_string()),
    }
}

#[test]
fn test_build_aps_response_single_slot() {
    let req = ApsBidRequest {
        pub_id: "5555".to_string(),
        slots: vec![slot("header-banner", vec![[300, 250]])],
        page_url: Some("https://example.com".to_string()),
        user_agent: Some("Mozilla/5.0".to_string()),
        timeout: Some(800),
    };

    let resp = build_aps_response(&req, "mocktioneer.test");

    assert_eq!(resp.contextual.status, Some("ok".to_string()));
    assert_eq!(resp.contextual.slots.len(), 1);

    let slot = &resp.contextual.slots[0];
    assert_eq!(slot.slot_id, "header-banner");
    assert_eq!(slot.size, "300x250");
    assert_eq!(slot.media_type, Some("d".to_string()));
    assert_eq!(slot.fif, Some("1".to_string()));
    assert!(slot.crid.is_some());

    assert!(slot.amzniid.is_some());
    assert!(slot.amznbid.is_some());
    assert!(slot.amznp.is_some());
    assert_eq!(slot.amznsz, Some("300x250".to_string()));
    assert_eq!(slot.amznactt, Some("OPEN".to_string()));

    assert!(slot.targeting.contains(&"amzniid".to_string()));
    assert!(slot.targeting.contains(&"amznbid".to_string()));
    assert!(slot.targeting.contains(&"amznsz".to_string()));

    assert!(slot.meta.contains(&"slotID".to_string()));
    assert!(slot.meta.contains(&"mediaType".to_string()));
    assert!(slot.meta.contains(&"size".to_string()));
}

#[test]
fn test_build_aps_response_multiple_slots() {
    let req = ApsBidRequest {
        pub_id: "5555".to_string(),
        slots: vec![
            slot("header", vec![[728, 90]]),
            slot("sidebar", vec![[300, 250]]),
            slot("footer", vec![[970, 250]]),
        ],
        page_url: None,
        user_agent: None,
        timeout: None,
    };

    let resp = build_aps_response(&req, "mocktioneer.test");

    assert_eq!(resp.contextual.slots.len(), 3);
    assert_eq!(resp.contextual.slots[0].slot_id, "header");
    assert_eq!(resp.contextual.slots[0].size, "728x90");
    assert_eq!(resp.contextual.slots[1].slot_id, "sidebar");
    assert_eq!(resp.contextual.slots[1].size, "300x250");
    assert_eq!(resp.contextual.slots[2].slot_id, "footer");
    assert_eq!(resp.contextual.slots[2].size, "970x250");

    for slot in &resp.contextual.slots {
        assert!(slot.amznbid.is_some());
        assert!(slot.amznp.is_some());
    }
}

#[test]
fn test_build_aps_response_nonstandard_size_skipped() {
    let req = ApsBidRequest {
        pub_id: "5555".to_string(),
        slots: vec![slot("custom-slot", vec![[333, 222]])],
        page_url: None,
        user_agent: None,
        timeout: None,
    };

    let resp = build_aps_response(&req, "mocktioneer.test");

    assert_eq!(resp.contextual.slots.len(), 0);
}

#[test]
fn test_build_aps_response_mixed_sizes() {
    let req = ApsBidRequest {
        pub_id: "5555".to_string(),
        slots: vec![
            slot("standard", vec![[300, 250]]),
            slot("nonstandard", vec![[333, 222]]),
        ],
        page_url: None,
        user_agent: None,
        timeout: None,
    };

    let resp = build_aps_response(&req, "mocktioneer.test");

    assert_eq!(resp.contextual.slots.len(), 1);
    assert_eq!(resp.contextual.slots[0].slot_id, "standard");
}

#[test]
fn test_aps_targeting_structure() {
    let req = ApsBidRequest {
        pub_id: "test".to_string(),
        slots: vec![ApsSlot {
            slot_id: "slot1".to_string(),
            sizes: vec![[728, 90]],
            slot_name: None,
        }],
        page_url: None,
        user_agent: None,
        timeout: None,
    };

    let resp = build_aps_response(&req, "test.host");

    assert_eq!(resp.contextual.slots.len(), 1);
    let slot = &resp.contextual.slots[0];

    assert!(slot.amzniid.is_some());
    assert!(slot.amznbid.is_some());
    assert!(slot.amznp.is_some());
    assert!(slot.amznsz.is_some());
    assert!(slot.amznactt.is_some());

    let impression_id = slot.amzniid.as_ref().unwrap();
    assert!(!impression_id.is_empty());

    let encoded_price = slot.amznbid.as_ref().unwrap();
    assert!(!encoded_price.is_empty());

    assert_eq!(slot.amznsz.as_ref().unwrap(), "728x90");
    assert_eq!(slot.amznactt.as_ref().unwrap(), "OPEN");
}

#[test]
fn test_aps_bid_multiple_sizes_per_slot() {
    let req = ApsBidRequest {
        pub_id: "5555".to_string(),
        slots: vec![slot("multi-size", vec![[728, 90], [970, 250]])],
        page_url: None,
        user_agent: None,
        timeout: None,
    };

    let resp = build_aps_response(&req, "mocktioneer.test");

    // the highest CPM size wins: 970x250 at 4.20 over 728x90 at 3.00
    assert_eq!(resp.contextual.slots.len(), 1);
    assert_eq!(resp.contextual.slots[0].size, "970x250");
}

#[test]
fn test_aps_bid_non_standard_first_then_standard() {
    let req = ApsBidRequest {
        pub_id: "5555".to_string(),
        slots: vec![slot("mixed-slot", vec![[999, 999], [300, 250]])],
        page_url: None,
        user_agent: None,
        timeout: None,
    };

    let resp = build_aps_response(&req, "mocktioneer.test");

    assert_eq!(resp.contextual.slots.len(), 1);
    assert_eq!(resp.contextual.slots[0].size, "300x250");
}

#[test]
fn test_aps_bid_selects_highest_cpm_from_multiple_standard_sizes() {
    let req = ApsBidRequest {
        pub_id: "5555".to_string(),
        slots: vec![slot(
            "multi-standard",
            vec![[320, 50], [300, 250], [970, 250]],
        )],
        page_url: None,
        user_agent: None,
        timeout: None,
    };

    let resp = build_aps_response(&req, "mocktioneer.test");

    assert_eq!(resp.contextual.slots.len(), 1);
    assert_eq!(resp.contextual.slots[0].size, "970x250");
}

#[test]
fn test_aps_bid_all_non_standard_sizes_skips_slot() {
    let req = ApsBidRequest {
        pub_id: "5555".to_string(),
        slots: vec![slot(
            "all-non-standard",
            vec![[999, 999], [888, 888], [777, 777]],
        )],
        page_url: None,
        user_agent: None,
        timeout: None,
    };

    let resp = build_aps_response(&req, "mocktioneer.test");

    assert_eq!(resp.contextual.slots.len(), 0);
}

#[test]
fn test_aps_response_empty_slots() {
    let req = ApsBidRequest {
        pub_id: "5555".to_string(),
        slots: vec![],
        page_url: None,
        user_agent: None,
        timeout: None,
    };

    let resp = build_aps_response(&req, "mocktioneer.test");

    assert_eq!(resp.contextual.slots.len(), 0);
    assert_eq!(resp.contextual.status, Some("ok".to_string()));
}

#[test]
fn test_aps_contextual_metadata() {
    let req = ApsBidRequest {
        pub_id: "5555".to_string(),
        slots: vec![ApsSlot {
            slot_id: "test-slot".to_string(),
            sizes: vec![[300, 250]],
            slot_name: None,
        }],
        page_url: None,
        user_agent: None,
        timeout: None,
    };

    let resp = build_aps_response(&req, "mocktioneer.test");

    let contextual = &resp.contextual;
    assert_eq!(contextual.status, Some("ok".to_string()));
    assert_eq!(contextual.cfe, Some(true));
    assert_eq!(contextual.ev, Some(true));
    assert!(contextual.host.is_some());
    assert!(contextual.host.as_ref().unwrap().contains("mocktioneer.test"));
    assert_eq!(contextual.cb, Some("6".to_string()));
    assert_eq!(
        contextual.cfn,
        Some("bao-csm/direct/csm_othersv6.js".to_string())
    );
}

#[test]
fn test_aps_response_no_adm_field() {
    let req = ApsBidRequest {
        pub_id: "5555".to_string(),
        slots: vec![ApsSlot {
            slot_id: "test-slot".to_string(),
            sizes: vec![[300, 250]],
            slot_name: None,
        }],
        page_url: None,
        user_agent: None,
        timeout: None,
    };

    let resp = build_aps_response(&req, "mocktioneer.test");

    // an APS response carries no creative markup; it is rendered
    // client-side by the publisher
    assert_eq!(resp.contextual.slots.len(), 1);
}

#[test]
fn aps_encoded_price_decodes_to_table_cpm() {
    let req = ApsBidRequest {
        pub_id: "5555".to_string(),
        slots: vec![slot("s", vec![[300, 250]])],
        page_url: None,
        user_agent: None,
        timeout: None,
    };
    let resp = build_aps_response(&req, "h");
    let s = &resp.contextual.slots[0];
    assert_eq!(decode_price(s.amznbid.as_ref().unwrap()), Some(250));
    assert_eq!(decode_price(s.amznp.as_ref().unwrap()), Some(250));
}
