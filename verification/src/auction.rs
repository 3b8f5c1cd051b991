//! Synthetic bid generation for the mock auction.
//!
//! For every impression of a request one bid is synthesised: its size is
//! resolved from the impression (and, on the canonical path, snapped to
//! 300x250 when non-standard), its price comes from an explicit override
//! or the size table, and its markup is the generated iframe creative.

use vstd::prelude::*;

use crate::ids::{new_id, spec_is_fresh_id};
use crate::openrtb::{
    ext_bid, size_from_imp, spec_ext_bid, spec_size_from_imp, Bid, ExtMocktioneer, Imp, ImpExt,
    MediaType, OpenRTBRequest, OpenRTBResponse, SeatBid,
};
use crate::render::{banner_adm_iframe, spec_iframe_html};
use crate::sizes::{price_for_size, spec_is_standard, spec_price_for, standard_or_default};

verus! {

/// The impression id a synthesised bid answers to: "1" for a blank id.
pub open spec fn spec_impid(imp: Imp) -> Seq<char> {
    if imp.id@.len() == 0 {
        "1"@
    } else {
        imp.id@
    }
}

/// The deterministic creative id derived from the impression id.
pub open spec fn spec_synth_crid(imp: Imp) -> Seq<char> {
    "mocktioneer-"@ + spec_impid(imp)
}

/// The size a synthesised bid uses: the impression's resolved size,
/// snapped to 300x250 when `snap` is set and the size is non-standard.
pub open spec fn spec_synth_size(imp: Imp, snap: bool) -> (i64, i64) {
    let rsz = spec_size_from_imp(imp);
    if snap && !spec_is_standard(rsz.0 as int, rsz.1 as int) {
        (300i64, 250i64)
    } else {
        rsz
    }
}

/// The price of a synthesised bid: the explicit override when present,
/// else the table price for the bid's size.
pub open spec fn spec_synth_price(imp: Imp, snap: bool) -> int {
    match spec_ext_bid(imp) {
        Some(p) => p as int,
        None => spec_price_for(
            spec_synth_size(imp, snap).0 as int,
            spec_synth_size(imp, snap).1 as int,
        ),
    }
}

/// Everything a synthesised bid promises about itself, except its fresh
/// id, which is only promised to be well-formed.
pub open spec fn spec_synth_bid_ok(imp: Imp, b: Bid, host: Seq<char>, snap: bool) -> bool {
    let sz = spec_synth_size(imp, snap);
    let bid_param: Option<int> = match spec_ext_bid(imp) {
        Some(p) => Some(p as int),
        None => None,
    };
    &&& spec_is_fresh_id(b.id@)
    &&& b.impid@ == spec_impid(imp)
    &&& b.price == spec_synth_price(imp, snap)
    &&& match b.adm {
        Some(a) => a@ == spec_iframe_html(
            host,
            spec_synth_crid(imp),
            sz.0 as int,
            sz.1 as int,
            bid_param,
        ),
        None => false,
    }
    &&& match b.crid {
        Some(c) => c@ == spec_synth_crid(imp),
        None => false,
    }
    &&& b.w == Some(sz.0)
    &&& b.h == Some(sz.1)
    &&& match b.adomain {
        Some(d) => d@.len() == 1 && d@[0]@ == "example.com"@,
        None => false,
    }
    &&& b.mtype == Some(MediaType::Banner)
    &&& b.ext == (match spec_ext_bid(imp) {
        Some(p) => Some(ImpExt { mocktioneer: Some(ExtMocktioneer { bid: Some(p) }) }),
        None => None::<ImpExt>,
    })
}

/// Synthesises one bid for an impression.
fn synth_bid(imp: &Imp, base_host: &str, snap: bool) -> (b: Bid)
    ensures
        spec_synth_bid_ok(*imp, b, base_host@, snap),
{
    let impid_str: &str = if imp.id.as_str().is_empty() {
        "1"
    } else {
        imp.id.as_str()
    };
    let mut crid = String::new();
    crid.append("mocktioneer-");
    crid.append(impid_str);
    assert(crid@ =~= spec_synth_crid(*imp));
    let (rw, rh) = size_from_imp(imp);
    let (w, h) = if snap {
        standard_or_default(rw, rh)
    } else {
        (rw, rh)
    };
    let override_opt = ext_bid(imp);
    let (price, bid_param, bext): (i64, Option<i64>, Option<ImpExt>) = match override_opt {
        Some(p) => (
            p,
            Some(p),
            Some(ImpExt { mocktioneer: Some(ExtMocktioneer { bid: Some(p) }) }),
        ),
        None => (price_for_size(w, h), None, None),
    };
    let adm = banner_adm_iframe(base_host, crid.as_str(), w, h, bid_param);
    let mut adomain: Vec<String> = Vec::new();
    adomain.push(String::from_str("example.com"));
    let mut impid = String::new();
    impid.append(impid_str);
    assert(impid@ =~= spec_impid(*imp));
    Bid {
        id: new_id(),
        impid,
        price,
        adm: Some(adm),
        crid: Some(crid),
        w: Some(w),
        h: Some(h),
        adomain: Some(adomain),
        mtype: Some(MediaType::Banner),
        ext: bext,
    }
}

/// The id a response answers with: "req" for a blank request id.
pub open spec fn spec_response_id(req: OpenRTBRequest) -> Seq<char> {
    if req.id@.len() == 0 {
        "req"@
    } else {
        req.id@
    }
}

/// Everything both response builders promise: one seat named
/// "mocktioneer" holding one synthesised bid per impression, in order,
/// priced in USD.
pub open spec fn spec_synth_response_ok(
    req: OpenRTBRequest,
    r: OpenRTBResponse,
    host: Seq<char>,
    snap: bool,
) -> bool {
    &&& r.id@ == spec_response_id(req)
    &&& match r.cur {
        Some(c) => c@ == "USD"@,
        None => false,
    }
    &&& r.seatbid@.len() == 1
    &&& match r.seatbid@[0].seat {
        Some(s) => s@ == "mocktioneer"@,
        None => false,
    }
    &&& r.seatbid@[0].bid@.len() == req.imp@.len()
    &&& forall|i: int|
        0 <= i < req.imp@.len() ==> spec_synth_bid_ok(
            req.imp@[i],
            #[trigger] r.seatbid@[0].bid@[i],
            host,
            snap,
        )
}

fn build_synth_response(req: &OpenRTBRequest, base_host: &str, snap: bool) -> (r: OpenRTBResponse)
    ensures
        spec_synth_response_ok(*req, r, base_host@, snap),
{
    let mut bids: Vec<Bid> = Vec::new();
    let mut i: usize = 0;
    while i < req.imp.len()
        invariant
            0 <= i <= req.imp@.len(),
            bids@.len() == i,
            forall|k: int|
                0 <= k < i ==> spec_synth_bid_ok(
                    req.imp@[k],
                    #[trigger] bids@[k],
                    base_host@,
                    snap,
                ),
        decreases req.imp@.len() - i,
    {
        let b = synth_bid(&req.imp[i], base_host, snap);
        bids.push(b);
        i = i + 1;
    }
    let id = if req.id.as_str().is_empty() {
        String::from_str("req")
    } else {
        req.id.clone()
    };
    let seat = SeatBid { seat: Some(String::from_str("mocktioneer")), bid: bids };
    let mut seatbid: Vec<SeatBid> = Vec::new();
    seatbid.push(seat);
    OpenRTBResponse { id, cur: Some(String::from_str("USD")), seatbid }
}

/// Builds the mock auction response, keeping each impression's resolved
/// size as requested (the legacy, unsnapped variant).
pub fn build_openrtb_response_typed(req: &OpenRTBRequest, base_host: &str) -> (r: OpenRTBResponse)
    ensures
        spec_synth_response_ok(*req, r, base_host@, false),
{
    build_synth_response(req, base_host, false)
}

/// Builds the mock auction response, snapping non-standard sizes to the
/// 300x250 default (the canonical variant).
pub fn build_openrtb_response_with_base_typed(req: &OpenRTBRequest, base_host: &str) -> (r:
    OpenRTBResponse)
    ensures
        spec_synth_response_ok(*req, r, base_host@, true),
{
    build_synth_response(req, base_host, true)
}

} // verus!
