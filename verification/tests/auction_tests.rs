use mocktioneer::auction::{build_openrtb_response_typed, build_openrtb_response_with_base_typed};
use mocktioneer::openrtb::{
    size_from_imp, Banner, ExtMocktioneer, Format, Imp, ImpExt, MediaType, OpenRTBRequest,
    ValidationFault,
};

fn imp_with_banner(id: &str, banner: Banner) -> Imp {
    Imp {
        id: id.to_string(),
        banner: Some(banner),
        ..Default::default()
    }
}

#[test]
fn test_size_from_imp_defaults_and_format() {
    let imp = imp_with_banner("1", Banner::default());
    assert_eq!(size_from_imp(&imp), (300, 250));

    let imp = imp_with_banner(
        "1",
        Banner {
            format: Some(vec![Format { w: 320, h: 50 }]),
            ..Default::default()
        },
    );
    assert_eq!(size_from_imp(&imp), (320, 50));

    let imp = imp_with_banner(
        "1",
        Banner {
            w: Some(728),
            h: Some(90),
            ..Default::default()
        },
    );
    assert_eq!(size_from_imp(&imp), (728, 90));
}

#[test]
fn test_build_openrtb_response_structure() {
    let req = OpenRTBRequest {
        id: "r1".to_string(),
        imp: vec![imp_with_banner(
            "1",
            Banner {
                w: Some(300),
                h: Some(250),
                ..Default::default()
            },
        )],
    };
    let resp = build_openrtb_response_typed(&req, "host.test");
    assert_eq!(resp.id, "r1");
    assert_eq!(resp.cur.as_deref(), Some("USD"));
    assert_eq!(resp.seatbid.len(), 1);
    assert!(!resp.seatbid[0].bid.is_empty());
    let bid = &resp.seatbid[0].bid[0];
    assert_eq!(bid.impid, "1");
    assert_eq!(bid.w, Some(300));
    assert_eq!(bid.h, Some(250));
    assert_eq!(bid.mtype, Some(MediaType::Banner));
    assert!(bid.adm.as_ref().is_some());
}

#[test]
fn test_build_openrtb_response_with_base_enforces_standard_sizes() {
    let req = OpenRTBRequest {
        id: "r2".to_string(),
        imp: vec![imp_with_banner(
            "1",
            Banner {
                w: Some(333),
                h: Some(222),
                ..Default::default()
            },
        )],
    };
    let resp = build_openrtb_response_with_base_typed(&req, "host.test");
    let bid = &resp.seatbid[0].bid[0];
    assert_eq!(bid.w, Some(300));
    assert_eq!(bid.h, Some(250));
}

#[test]
fn test_bid_id_is_hex_like_uuid() {
    let req = OpenRTBRequest {
        id: "r3".to_string(),
        imp: vec![imp_with_banner(
            "1",
            Banner {
                w: Some(300),
                h: Some(250),
                ..Default::default()
            },
        )],
    };
    let resp = build_openrtb_response_typed(&req, "host.test");
    let bid_id = &resp.seatbid[0].bid[0].id;
    assert_eq!(bid_id.len(), 32);
    assert!(
        bid_id
            .chars()
            .all(|c| c.is_ascii_digit() || ('a'..='f').contains(&c)),
        "bid id not lower-hex32: {}",
        bid_id
    );
}

#[test]
fn test_price_from_ext_and_iframe_bid_param() {
    let req = OpenRTBRequest {
        id: "r4".to_string(),
        imp: vec![Imp {
            id: "1".to_string(),
            banner: Some(Banner {
                w: Some(300),
                h: Some(250),
                ..Default::default()
            }),
            ext: Some(ImpExt {
                mocktioneer: Some(ExtMocktioneer { bid: Some(250) }),
            }),
            ..Default::default()
        }],
    };
    let resp = build_openrtb_response_with_base_typed(&req, "host.test");
    let bid = &resp.seatbid[0].bid[0];
    assert_eq!(bid.price, 250);
    let ext_bid = bid
        .ext
        .as_ref()
        .and_then(|e| e.mocktioneer.as_ref())
        .and_then(|m| m.bid)
        .unwrap();
    assert_eq!(ext_bid, 250);
    let adm = bid.adm.as_ref().unwrap();
    assert!(adm.contains("bid=2.50"));
}

#[test]
fn test_bid_ext_echo_present_and_absent() {
    let with_override = OpenRTBRequest {
        id: "r5".to_string(),
        imp: vec![Imp {
            id: "1".to_string(),
            banner: Some(Banner {
                w: Some(300),
                h: Some(250),
                ..Default::default()
            }),
            ext: Some(ImpExt {
                mocktioneer: Some(ExtMocktioneer { bid: Some(777) }),
            }),
            ..Default::default()
        }],
    };
    let resp = build_openrtb_response_with_base_typed(&with_override, "host.test");
    assert!(resp.seatbid[0].bid[0].ext.is_some());

    let without_override = OpenRTBRequest {
        id: "r6".to_string(),
        imp: vec![imp_with_banner(
            "1",
            Banner {
                w: Some(300),
                h: Some(250),
                ..Default::default()
            },
        )],
    };
    let resp = build_openrtb_response_with_base_typed(&without_override, "host.test");
    assert!(resp.seatbid[0].bid[0].ext.is_none());
}

#[test]
fn builder_prices_default_size_from_table() {
    // no override: the snapped 300x250 slot takes the table CPM
    let req = OpenRTBRequest {
        id: "r7".to_string(),
        imp: vec![imp_with_banner(
            "1",
            Banner {
                w: Some(333),
                h: Some(222),
                ..Default::default()
            },
        )],
    };
    let resp = build_openrtb_response_with_base_typed(&req, "host.test");
    assert_eq!(resp.seatbid[0].bid[0].price, 250);

    // the unsnapped variant keeps the size and prices it by area
    let resp2 = build_openrtb_response_typed(&req, "host.test");
    assert_eq!(resp2.seatbid[0].bid[0].w, Some(333));
    assert_eq!(resp2.seatbid[0].bid[0].price, 224);
}

#[test]
fn builder_defaults_blank_ids() {
    let req = OpenRTBRequest {
        id: "".to_string(),
        imp: vec![Imp::default()],
    };
    let resp = build_openrtb_response_typed(&req, "host.test");
    assert_eq!(resp.id, "req");
    assert_eq!(resp.seatbid[0].bid[0].impid, "1");
    assert_eq!(resp.seatbid[0].bid[0].crid.as_deref(), Some("mocktioneer-1"));
    assert_eq!(resp.seatbid[0].seat.as_deref(), Some("mocktioneer"));
    assert_eq!(
        resp.seatbid[0].bid[0].adomain,
        Some(vec!["example.com".to_string()])
    );
}

#[test]
fn request_validation_checks_shape() {
    let good = OpenRTBRequest {
        id: "r".to_string(),
        imp: vec![imp_with_banner("i1", Banner::default())],
    };
    assert!(good.validate().is_ok());

    let no_id = OpenRTBRequest {
        id: "".to_string(),
        imp: vec![imp_with_banner("i1", Banner::default())],
    };
    assert_eq!(no_id.validate(), Err(ValidationFault::EmptyId));

    let no_imps = OpenRTBRequest {
        id: "r".to_string(),
        imp: vec![],
    };
    assert_eq!(no_imps.validate(), Err(ValidationFault::NoImpressions));

    let blank_imp_id = OpenRTBRequest {
        id: "r".to_string(),
        imp: vec![imp_with_banner("  ", Banner::default())],
    };
    assert_eq!(blank_imp_id.validate(), Err(ValidationFault::ImpMissingId));

    let no_media = OpenRTBRequest {
        id: "r".to_string(),
        imp: vec![Imp {
            id: "i1".to_string(),
            ..Default::default()
        }],
    };
    assert_eq!(no_media.validate(), Err(ValidationFault::ImpMissingMedia));

    let has_video = OpenRTBRequest {
        id: "r".to_string(),
        imp: vec![Imp {
            id: "i1".to_string(),
            has_video: true,
            ..Default::default()
        }],
    };
    assert!(has_video.validate().is_ok());
}
