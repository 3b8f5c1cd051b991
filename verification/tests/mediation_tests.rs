use mocktioneer::codec::encode_price;
use mocktioneer::mediation::{
    mediate_auction, BidderResponse, MediationBid, MediationConfig, MediationExt, MediationRequest,
};
use mocktioneer::openrtb::Imp;

fn bid(imp_id: &str, price: Option<i64>, encoded: Option<String>, adm: Option<&str>) -> MediationBid {
    MediationBid {
        imp_id: imp_id.to_string(),
        price,
        encoded_price: encoded,
        adm: adm.map(|s| s.to_string()),
        w: 300,
        h: 250,
        crid: None,
        adomain: None,
    }
}

fn request(id: &str, imps: Vec<&str>, responses: Vec<BidderResponse>, floor: Option<i64>) -> MediationRequest {
    MediationRequest {
        id: id.to_string(),
        imp: imps
            .into_iter()
            .map(|i| Imp {
                id: i.to_string(),
                ..Default::default()
            })
            .collect(),
        ext: MediationExt {
            bidder_responses: responses,
            config: floor.map(|f| MediationConfig {
                price_floor: Some(f),
            }),
        },
    }
}

#[test]
fn test_mediate_single_bidder_single_impression() {
    let request = MediationRequest {
        id: "test-auction-1".to_string(),
        imp: vec![Imp {
            id: "imp1".to_string(),
            ..Default::default()
        }],
        ext: MediationExt {
            bidder_responses: vec![BidderResponse {
                bidder: "bidder-a".to_string(),
                bids: vec![MediationBid {
                    imp_id: "imp1".to_string(),
                    price: Some(250),
                    encoded_price: None,
                    adm: Some("<div>Ad A</div>".to_string()),
                    w: 300,
                    h: 250,
                    crid: Some("creative-a".to_string()),
                    adomain: Some(vec!["example.com".to_string()]),
                }],
            }],
            config: None,
        },
    };

    let response = mediate_auction(request, "test.host").unwrap();

    assert_eq!(response.id, "test-auction-1");
    assert_eq!(response.seatbid.len(), 1);
    assert_eq!(response.seatbid[0].seat, Some("bidder-a".to_string()));
    assert_eq!(response.seatbid[0].bid.len(), 1);

    let bid = &response.seatbid[0].bid[0];
    assert_eq!(bid.impid, "imp1");
    assert_eq!(bid.price, 250);
    assert_eq!(bid.w, Some(300));
    assert_eq!(bid.h, Some(250));
}

#[test]
fn test_mediate_multiple_bidders_highest_price_wins() {
    let request = request(
        "test-auction-2",
        vec!["imp1"],
        vec![
            BidderResponse {
                bidder: "bidder-a".to_string(),
                bids: vec![bid("imp1", Some(250), None, Some("<div>Ad A</div>"))],
            },
            BidderResponse {
                bidder: "bidder-b".to_string(),
                bids: vec![bid("imp1", Some(350), None, Some("<div>Ad B</div>"))],
            },
        ],
        None,
    );

    let response = mediate_auction(request, "test.host").unwrap();

    assert_eq!(response.seatbid.len(), 1);
    assert_eq!(response.seatbid[0].seat, Some("bidder-b".to_string()));
    assert_eq!(response.seatbid[0].bid[0].price, 350);
}

#[test]
fn test_mediate_price_tie_first_bidder_wins() {
    let request = request(
        "test-auction-3",
        vec!["imp1"],
        vec![
            BidderResponse {
                bidder: "bidder-a".to_string(),
                bids: vec![bid("imp1", Some(250), None, Some("<div>Ad A</div>"))],
            },
            BidderResponse {
                bidder: "bidder-b".to_string(),
                bids: vec![bid("imp1", Some(250), None, Some("<div>Ad B</div>"))],
            },
        ],
        None,
    );

    let response = mediate_auction(request, "test.host").unwrap();

    // the first bidder wins the tie
    assert_eq!(response.seatbid.len(), 1);
    assert_eq!(response.seatbid[0].seat, Some("bidder-a".to_string()));
}

#[test]
fn test_mediate_with_price_floor() {
    let request = request(
        "test-auction-4",
        vec!["imp1"],
        vec![
            BidderResponse {
                bidder: "bidder-a".to_string(),
                bids: vec![bid("imp1", Some(50), None, Some("<div>Ad A</div>"))],
            },
            BidderResponse {
                bidder: "bidder-b".to_string(),
                bids: vec![bid("imp1", Some(200), None, Some("<div>Ad B</div>"))],
            },
        ],
        Some(100),
    );

    let response = mediate_auction(request, "test.host").unwrap();

    assert_eq!(response.seatbid.len(), 1);
    assert_eq!(response.seatbid[0].seat, Some("bidder-b".to_string()));
    assert_eq!(response.seatbid[0].bid[0].price, 200);
}

#[test]
fn test_mediate_all_bids_below_floor() {
    let request = request(
        "test-auction-5",
        vec!["imp1"],
        vec![BidderResponse {
            bidder: "bidder-a".to_string(),
            bids: vec![bid("imp1", Some(50), None, Some("<div>Ad A</div>"))],
        }],
        Some(100),
    );

    let response = mediate_auction(request, "test.host").unwrap();

    assert_eq!(response.seatbid.len(), 0);
}

#[test]
fn mediate_keeps_bid_exactly_at_floor() {
    let request = request(
        "floor-edge",
        vec!["imp1"],
        vec![BidderResponse {
            bidder: "bidder-a".to_string(),
            bids: vec![bid("imp1", Some(100), None, Some("<div>Ad</div>"))],
        }],
        Some(100),
    );
    let response = mediate_auction(request, "test.host").unwrap();
    assert_eq!(response.seatbid.len(), 1);
    assert_eq!(response.seatbid[0].bid[0].price, 100);
}

#[test]
fn test_mediate_multiple_impressions() {
    let request = request(
        "test-auction-6",
        vec!["imp1", "imp2"],
        vec![
            BidderResponse {
                bidder: "bidder-a".to_string(),
                bids: vec![
                    bid("imp1", Some(250), None, Some("<div>Ad A1</div>")),
                    MediationBid {
                        imp_id: "imp2".to_string(),
                        price: Some(300),
                        encoded_price: None,
                        adm: Some("<div>Ad A2</div>".to_string()),
                        w: 728,
                        h: 90,
                        crid: None,
                        adomain: None,
                    },
                ],
            },
            BidderResponse {
                bidder: "bidder-b".to_string(),
                bids: vec![
                    bid("imp1", Some(350), None, Some("<div>Ad B1</div>")),
                    MediationBid {
                        imp_id: "imp2".to_string(),
                        price: Some(200),
                        encoded_price: None,
                        adm: Some("<div>Ad B2</div>".to_string()),
                        w: 728,
                        h: 90,
                        crid: None,
                        adomain: None,
                    },
                ],
            },
        ],
        None,
    );

    let response = mediate_auction(request, "test.host").unwrap();

    assert_eq!(response.seatbid.len(), 2);

    let bidder_b_seat = response
        .seatbid
        .iter()
        .find(|s| s.seat == Some("bidder-b".to_string()))
        .unwrap();
    assert_eq!(bidder_b_seat.bid.len(), 1);
    assert_eq!(bidder_b_seat.bid[0].impid, "imp1");
    assert_eq!(bidder_b_seat.bid[0].price, 350);

    let bidder_a_seat = response
        .seatbid
        .iter()
        .find(|s| s.seat == Some("bidder-a".to_string()))
        .unwrap();
    assert_eq!(bidder_a_seat.bid.len(), 1);
    assert_eq!(bidder_a_seat.bid[0].impid, "imp2");
    assert_eq!(bidder_a_seat.bid[0].price, 300);
}

#[test]
fn test_mediate_no_bidder_responses() {
    let request = request("test-auction-7", vec!["imp1"], vec![], None);

    let response = mediate_auction(request, "test.host").unwrap();

    assert_eq!(response.seatbid.len(), 0);
}

#[test]
fn test_mediate_missing_adm_generates_creative() {
    let request = request(
        "test-auction-8",
        vec!["imp1"],
        vec![BidderResponse {
            bidder: "amazon-aps".to_string(),
            bids: vec![MediationBid {
                imp_id: "imp1".to_string(),
                price: None,
                encoded_price: Some(encode_price(300)),
                adm: None,
                w: 300,
                h: 250,
                crid: Some("aps-creative-123".to_string()),
                adomain: None,
            }],
        }],
        None,
    );

    let response = mediate_auction(request, "mocktioneer.test").unwrap();

    assert_eq!(response.seatbid.len(), 1);
    assert_eq!(response.seatbid[0].seat, Some("amazon-aps".to_string()));
    assert_eq!(response.seatbid[0].bid.len(), 1);

    let bid = &response.seatbid[0].bid[0];
    assert_eq!(bid.impid, "imp1");
    assert_eq!(bid.price, 300);
    assert_eq!(bid.w, Some(300));
    assert_eq!(bid.h, Some(250));

    assert!(bid.adm.is_some());
    let adm = bid.adm.as_ref().unwrap();

    assert!(adm.contains("<iframe"));
    assert!(adm.contains("//mocktioneer.test/static/creatives/300x250.html"));
    assert!(adm.contains("crid=aps-creative-123"));
    assert!(adm.contains("bid=3"));
}

#[test]
fn test_mediate_mixed_bids_with_and_without_adm() {
    let request = request(
        "test-auction-9",
        vec!["imp1", "imp2"],
        vec![
            BidderResponse {
                bidder: "amazon-aps".to_string(),
                bids: vec![
                    MediationBid {
                        imp_id: "imp1".to_string(),
                        price: None,
                        encoded_price: Some(encode_price(350)),
                        adm: None,
                        w: 300,
                        h: 250,
                        crid: Some("aps-1".to_string()),
                        adomain: None,
                    },
                    MediationBid {
                        imp_id: "imp2".to_string(),
                        price: None,
                        encoded_price: Some(encode_price(200)),
                        adm: None,
                        w: 728,
                        h: 90,
                        crid: Some("aps-2".to_string()),
                        adomain: None,
                    },
                ],
            },
            BidderResponse {
                bidder: "prebid".to_string(),
                bids: vec![
                    bid("imp1", Some(250), None, Some("<div>Prebid Ad 1</div>")),
                    MediationBid {
                        imp_id: "imp2".to_string(),
                        price: Some(300),
                        encoded_price: None,
                        adm: Some("<div>Prebid Ad 2</div>".to_string()),
                        w: 728,
                        h: 90,
                        crid: None,
                        adomain: None,
                    },
                ],
            },
        ],
        None,
    );

    let response = mediate_auction(request, "test.example.com").unwrap();

    assert_eq!(response.seatbid.len(), 2);

    let aps_seat = response
        .seatbid
        .iter()
        .find(|s| s.seat == Some("amazon-aps".to_string()))
        .unwrap();
    assert_eq!(aps_seat.bid.len(), 1);
    assert_eq!(aps_seat.bid[0].impid, "imp1");
    assert_eq!(aps_seat.bid[0].price, 350);

    let aps_adm = aps_seat.bid[0].adm.as_ref().unwrap();
    assert!(aps_adm.contains("<iframe"));
    assert!(aps_adm.contains("//test.example.com/static/creatives/300x250.html"));
    assert!(aps_adm.contains("crid=aps-1"));

    let prebid_seat = response
        .seatbid
        .iter()
        .find(|s| s.seat == Some("prebid".to_string()))
        .unwrap();
    assert_eq!(prebid_seat.bid.len(), 1);
    assert_eq!(prebid_seat.bid[0].impid, "imp2");
    assert_eq!(prebid_seat.bid[0].price, 300);

    let prebid_adm = prebid_seat.bid[0].adm.as_ref().unwrap();
    assert_eq!(prebid_adm, "<div>Prebid Ad 2</div>");
}

#[test]
fn test_validation_empty_auction_id() {
    let request = request(
        "",
        vec!["imp1"],
        vec![BidderResponse {
            bidder: "bidder-a".to_string(),
            bids: vec![bid("imp1", Some(250), None, Some("<div>Ad</div>"))],
        }],
        None,
    );

    assert!(request.validate().is_err());
}

#[test]
fn test_validation_empty_impressions() {
    let request = request(
        "test-auction",
        vec![],
        vec![BidderResponse {
            bidder: "bidder-a".to_string(),
            bids: vec![],
        }],
        None,
    );

    assert!(request.validate().is_err());
}

#[test]
fn test_validation_empty_bidder_responses() {
    let request = request("test-auction", vec!["imp1"], vec![], None);

    assert!(request.validate().is_err());
}

#[test]
fn test_validation_negative_price() {
    let request = request(
        "test-auction",
        vec!["imp1"],
        vec![BidderResponse {
            bidder: "bidder-a".to_string(),
            bids: vec![bid("imp1", Some(-100), None, Some("<div>Ad</div>"))],
        }],
        None,
    );

    assert!(request.validate().is_err());
}

#[test]
fn test_validation_negative_price_floor() {
    let request = request(
        "test-auction",
        vec!["imp1"],
        vec![BidderResponse {
            bidder: "bidder-a".to_string(),
            bids: vec![bid("imp1", Some(250), None, Some("<div>Ad</div>"))],
        }],
        Some(-100),
    );

    assert!(request.validate().is_err());
}

#[test]
fn test_validation_invalid_dimensions() {
    let request = request(
        "test-auction",
        vec!["imp1"],
        vec![BidderResponse {
            bidder: "bidder-a".to_string(),
            bids: vec![MediationBid {
                imp_id: "imp1".to_string(),
                price: Some(250),
                encoded_price: None,
                adm: Some("<div>Ad</div>".to_string()),
                w: 0,
                h: 250,
                crid: None,
                adomain: None,
            }],
        }],
        None,
    );

    assert!(request.validate().is_err());
}

#[test]
fn test_validation_valid_request() {
    let request = request(
        "test-auction",
        vec!["imp1"],
        vec![BidderResponse {
            bidder: "bidder-a".to_string(),
            bids: vec![bid("imp1", Some(250), None, Some("<div>Ad</div>"))],
        }],
        Some(100),
    );

    assert!(request.validate().is_ok());
}

#[test]
fn validation_rejects_blank_bidder_and_bid_ids() {
    let empty_bidder = request(
        "test-auction",
        vec!["imp1"],
        vec![BidderResponse {
            bidder: "".to_string(),
            bids: vec![bid("imp1", Some(250), None, None)],
        }],
        None,
    );
    assert!(empty_bidder.validate().is_err());

    let empty_imp_id = request(
        "test-auction",
        vec!["imp1"],
        vec![BidderResponse {
            bidder: "bidder-a".to_string(),
            bids: vec![bid("", Some(250), None, None)],
        }],
        None,
    );
    assert!(empty_imp_id.validate().is_err());
}

#[test]
fn test_mediate_encoded_price_decoding_error() {
    let request = request(
        "test-auction",
        vec!["imp1"],
        vec![BidderResponse {
            bidder: "amazon-aps".to_string(),
            bids: vec![bid("imp1", None, Some("invalid!!!".to_string()), None)],
        }],
        None,
    );

    let result = mediate_auction(request, "test.host");
    assert!(result.is_err());
    assert!(result
        .unwrap_err()
        .message()
        .contains("Failed to decode price"));
}

#[test]
fn test_mediate_bid_without_any_price_returns_error() {
    let request = request(
        "test-auction",
        vec!["imp1"],
        vec![BidderResponse {
            bidder: "broken-bidder".to_string(),
            bids: vec![bid("imp1", None, None, Some("<div>Ad</div>"))],
        }],
        None,
    );

    let result = mediate_auction(request, "test.host");
    assert!(result.is_err());
    assert!(result.unwrap_err().message().contains("has no price"));
}

#[test]
fn mediate_decode_failure_aborts_despite_other_winners() {
    // a corrupt encoded price on one impression fails the whole call,
    // even though the other impression has a clean winning bid
    let request = request(
        "fail-fast",
        vec!["imp1", "imp2"],
        vec![
            BidderResponse {
                bidder: "clean".to_string(),
                bids: vec![bid("imp1", Some(350), None, Some("<div>OK</div>"))],
            },
            BidderResponse {
                bidder: "corrupt".to_string(),
                bids: vec![bid("imp2", None, Some("!!!".to_string()), None)],
            },
        ],
        None,
    );
    assert!(mediate_auction(request, "h").is_err());
}

#[test]
fn mediate_fresh_ids_assigned_to_output_bids() {
    let request = request(
        "ids",
        vec!["imp1"],
        vec![BidderResponse {
            bidder: "bidder-a".to_string(),
            bids: vec![bid("imp1", Some(250), None, Some("<div>Ad</div>"))],
        }],
        None,
    );
    let response = mediate_auction(request, "h").unwrap();
    let id = &response.seatbid[0].bid[0].id;
    assert_eq!(id.len(), 32);
    assert!(id
        .chars()
        .all(|c| c.is_ascii_digit() || ('a'..='f').contains(&c)));
}
