//! Mediation: deterministic winner selection over pre-computed bids.
//!
//! Every bid's price is resolved first (decoding encoded prices; any
//! failure aborts the whole call).  Per impression, bids below the floor
//! are dropped and the highest-priced survivor wins, the earliest seen
//! winning ties.  Winners are grouped into seats by bidder, in the order
//! the bidders first won.

use vstd::prelude::*;

use crate::codec::{decode_price, spec_decode_price};
use crate::ids::{new_id, spec_is_fresh_id};
use crate::openrtb::{Bid, Imp, MediaType, OpenRTBResponse, SeatBid};
use crate::render::{banner_adm_iframe, spec_iframe_html};

verus! {

/// A single bid from a bidder: the price is either plain cents or an
/// encoded token, and markup is optional.
#[derive(Debug)]
pub struct MediationBid {
    pub imp_id: String,
    pub price: Option<i64>,
    pub encoded_price: Option<String>,
    pub adm: Option<String>,
    pub w: i64,
    pub h: i64,
    pub crid: Option<String>,
    pub adomain: Option<Vec<String>>,
}

/// A bidder's name and its ordered bids; the order is the tie-break order.
#[derive(Debug)]
pub struct BidderResponse {
    pub bidder: String,
    pub bids: Vec<MediationBid>,
}

#[derive(Debug)]
pub struct MediationConfig {
    pub price_floor: Option<i64>,
}

#[derive(Debug)]
pub struct MediationExt {
    pub bidder_responses: Vec<BidderResponse>,
    pub config: Option<MediationConfig>,
}

#[derive(Debug)]
pub struct MediationRequest {
    pub id: String,
    pub imp: Vec<Imp>,
    pub ext: MediationExt,
}

/// Why a mediation call failed: prices are the only fatal condition.
#[derive(Debug)]
pub enum MediationError {
    /// An encoded price did not decode; names the impression.
    PriceDecodeFailed { imp_id: String },
    /// A bid carried neither a plain nor an encoded price.
    MissingPrice { imp_id: String, bidder: String },
}

/// The message `MediationError::message` renders.
pub open spec fn spec_med_err_message(e: MediationError) -> Seq<char> {
    match e {
        MediationError::PriceDecodeFailed { imp_id } => "Failed to decode price for impression '"@
            + imp_id@ + "'"@,
        MediationError::MissingPrice { imp_id, bidder } => "Bid for impression '"@ + imp_id@
            + "' from '"@ + bidder@ + "' has no price"@,
    }
}

impl MediationError {
    /// A human-readable description of the failure.
    pub fn message(&self) -> (r: String)
        ensures
            r@ == spec_med_err_message(*self),
    {
        let mut s = String::new();
        match self {
            MediationError::PriceDecodeFailed { imp_id } => {
                s.append("Failed to decode price for impression '");
                s.append(imp_id.as_str());
                s.append("'");
            },
            MediationError::MissingPrice { imp_id, bidder } => {
                s.append("Bid for impression '");
                s.append(imp_id.as_str());
                s.append("' from '");
                s.append(bidder.as_str());
                s.append("' has no price");
            },
        }
        assert(s@ =~= spec_med_err_message(*self));
        s
    }
}

/// Why a mediation request failed shape validation.
#[derive(Clone, Copy, Debug, PartialEq, Eq, Structural)]
pub enum MediationFault {
    EmptyId,
    NoImpressions,
    NoBidderResponses,
    EmptyBidderName,
    EmptyBidImpId,
    NegativePrice,
    InvalidDimensions,
    NegativeFloor,
}

/// A bid is well-shaped when it names an impression, any plain price is
/// non-negative and its dimensions are at least one pixel.
pub open spec fn spec_med_bid_valid(b: MediationBid) -> bool {
    &&& b.imp_id@.len() >= 1
    &&& match b.price {
        Some(p) => p >= 0,
        None => true,
    }
    &&& b.w >= 1
    &&& b.h >= 1
}

pub open spec fn spec_bidder_response_valid(r: BidderResponse) -> bool {
    &&& r.bidder@.len() >= 1
    &&& forall|i: int| 0 <= i < r.bids@.len() ==> spec_med_bid_valid(#[trigger] r.bids@[i])
}

/// A mediation request is well-shaped when it has an id, at least one
/// impression and one bidder response, every bid is well-shaped, and any
/// floor is non-negative.
pub open spec fn spec_med_request_valid(req: MediationRequest) -> bool {
    &&& req.id@.len() >= 1
    &&& req.imp@.len() >= 1
    &&& req.ext.bidder_responses@.len() >= 1
    &&& forall|j: int|
        0 <= j < req.ext.bidder_responses@.len() ==> spec_bidder_response_valid(
            #[trigger] req.ext.bidder_responses@[j],
        )
    &&& match req.ext.config {
        Some(c) => match c.price_floor {
            Some(f) => f >= 0,
            None => true,
        },
        None => true,
    }
}

impl MediationBid {
    fn validate(&self) -> (r: Result<(), MediationFault>)
        ensures
            r is Ok <==> spec_med_bid_valid(*self),
    {
        if self.imp_id.as_str().is_empty() {
            return Err(MediationFault::EmptyBidImpId);
        }
        if let Some(p) = self.price {
            if p < 0 {
                return Err(MediationFault::NegativePrice);
            }
        }
        if self.w < 1 || self.h < 1 {
            return Err(MediationFault::InvalidDimensions);
        }
        Ok(())
    }
}

impl MediationRequest {
    /// Checks the request's shape; reports the first fault found, in
    /// field order.
    pub fn validate(&self) -> (r: Result<(), MediationFault>)
        ensures
            r is Ok <==> spec_med_request_valid(*self),
    {
        if self.id.as_str().is_empty() {
            return Err(MediationFault::EmptyId);
        }
        if self.imp.len() == 0 {
            return Err(MediationFault::NoImpressions);
        }
        if self.ext.bidder_responses.len() == 0 {
            return Err(MediationFault::NoBidderResponses);
        }
        let mut j: usize = 0;
        while j < self.ext.bidder_responses.len()
            invariant
                0 <= j <= self.ext.bidder_responses@.len(),
                forall|k: int|
                    0 <= k < j ==> spec_bidder_response_valid(
                        #[trigger] self.ext.bidder_responses@[k],
                    ),
            decreases self.ext.bidder_responses@.len() - j,
        {
            let resp = &self.ext.bidder_responses[j];
            if resp.bidder.as_str().is_empty() {
                return Err(MediationFault::EmptyBidderName);
            }
            let mut i: usize = 0;
            while i < resp.bids.len()
                invariant
                    0 <= i <= resp.bids@.len(),
                    0 <= j < self.ext.bidder_responses@.len(),
                    *resp == self.ext.bidder_responses@[j as int],
                    forall|k: int| 0 <= k < i ==> spec_med_bid_valid(#[trigger] resp.bids@[k]),
                decreases resp.bids@.len() - i,
            {
                match resp.bids[i].validate() {
                    Ok(()) => (),
                    Err(f) => {
                        proof {
                            assert(!spec_med_bid_valid(resp.bids@[i as int]));
                            assert(!spec_bidder_response_valid(
                                self.ext.bidder_responses@[j as int],
                            ));
                        }
                        return Err(f);
                    },
                }
                i = i + 1;
            }
            j = j + 1;
        }
        if let Some(c) = &self.ext.config {
            if let Some(f) = c.price_floor {
                if f < 0 {
                    return Err(MediationFault::NegativeFloor);
                }
            }
        }
        Ok(())
    }
}

/// The price a bid resolves to: its encoded price decoded when present,
/// else its plain price; `None` when neither resolves.
pub open spec fn spec_bid_price(b: MediationBid) -> Option<int> {
    match b.encoded_price {
        Some(e) => spec_decode_price(e@),
        None => match b.price {
            Some(p) => Some(p as int),
            None => None,
        },
    }
}

pub open spec fn spec_bids_ok(bids: Seq<MediationBid>) -> bool {
    forall|i: int| 0 <= i < bids.len() ==> spec_bid_price(#[trigger] bids[i]) is Some
}

/// Every bid of every bidder resolves to a price.
pub open spec fn spec_all_prices_ok(rs: Seq<BidderResponse>) -> bool {
    forall|j: int| 0 <= j < rs.len() ==> spec_bids_ok(#[trigger] rs[j].bids@)
}

/// The error reported for one unresolvable bid.
pub open spec fn spec_error_for(e: MediationError, bidder: Seq<char>, b: MediationBid) -> bool {
    match b.encoded_price {
        Some(enc) => {
            &&& spec_decode_price(enc@) is None
            &&& e matches MediationError::PriceDecodeFailed { imp_id } && imp_id@ == b.imp_id@
        },
        None => {
            &&& b.price is None
            &&& e matches MediationError::MissingPrice { imp_id, bidder: bd } && imp_id@
                == b.imp_id@ && bd@ == bidder
        },
    }
}

/// `e` reports the first bid, in bidder order then bid order, whose
/// price does not resolve.
pub open spec fn spec_error_at(
    rs: Seq<BidderResponse>,
    j: int,
    i: int,
    e: MediationError,
) -> bool {
    &&& 0 <= j < rs.len()
    &&& 0 <= i < rs[j].bids@.len()
    &&& forall|j2: int| 0 <= j2 < j ==> spec_bids_ok(#[trigger] rs[j2].bids@)
    &&& forall|i2: int| 0 <= i2 < i ==> spec_bid_price(#[trigger] rs[j].bids@[i2]) is Some
    &&& spec_bid_price(rs[j].bids@[i]) is None
    &&& spec_error_for(e, rs[j].bidder@, rs[j].bids@[i])
}

pub open spec fn spec_first_error_ok(rs: Seq<BidderResponse>, e: MediationError) -> bool {
    exists|j: int, i: int| #[trigger] spec_error_at(rs, j, i, e)
}

/// A resolved bid: the bidder it came from, the bid itself, and its
/// resolved price in cents.  Exists only inside one mediation call.
#[derive(Debug)]
pub struct ResolvedBid {
    pub bidder: String,
    pub bid: MediationBid,
    pub resolved_price: i64,
}

/// A resolved bid at the specification level: bidder name, the bid as
/// it came in, and its resolved price.
pub open spec fn spec_resolve_list(bidder: Seq<char>, bids: Seq<MediationBid>) -> Seq<
    (Seq<char>, MediationBid, int),
>
    decreases bids.len(),
{
    if bids.len() == 0 {
        Seq::empty()
    } else {
        spec_resolve_list(bidder, bids.drop_last()) + (match spec_bid_price(bids.last()) {
            Some(p) => seq![(bidder, bids.last(), p)],
            None => Seq::empty(),
        })
    }
}

/// All resolved bids, in bidder order then bid order; unresolvable bids
/// are omitted (they only occur when the whole call fails anyway).
pub open spec fn spec_resolve_bids(rs: Seq<BidderResponse>) -> Seq<(Seq<char>, MediationBid, int)>
    decreases rs.len(),
{
    if rs.len() == 0 {
        Seq::empty()
    } else {
        spec_resolve_bids(rs.drop_last()) + spec_resolve_list(
            rs.last().bidder@,
            rs.last().bids@,
        )
    }
}

/// Two bids carry the same content.
pub open spec fn spec_same_opt_str(a: Option<String>, b: Option<String>) -> bool {
    match a {
        Some(x) => match b {
            Some(y) => x@ == y@,
            None => false,
        },
        None => b is None,
    }
}

pub open spec fn spec_same_opt_vec_str(a: Option<Vec<String>>, b: Option<Vec<String>>) -> bool {
    match a {
        Some(x) => match b {
            Some(y) => x@.len() == y@.len() && forall|i: int|
                0 <= i < x@.len() ==> x@[i]@ == #[trigger] y@[i]@,
            None => false,
        },
        None => b is None,
    }
}

pub open spec fn spec_same_bid(a: MediationBid, b: MediationBid) -> bool {
    &&& a.imp_id@ == b.imp_id@
    &&& a.price == b.price
    &&& spec_same_opt_str(a.encoded_price, b.encoded_price)
    &&& spec_same_opt_str(a.adm, b.adm)
    &&& a.w == b.w
    &&& a.h == b.h
    &&& spec_same_opt_str(a.crid, b.crid)
    &&& spec_same_opt_vec_str(a.adomain, b.adomain)
}

/// An executable resolved bid stands for a specification-level one.
pub open spec fn spec_rb_matches(rb: ResolvedBid, t: (Seq<char>, MediationBid, int)) -> bool {
    &&& rb.bidder@ == t.0
    &&& spec_same_bid(rb.bid, t.1)
    &&& rb.resolved_price == t.2
}

fn clone_opt_string(o: &Option<String>) -> (r: Option<String>)
    ensures
        spec_same_opt_str(r, *o),
        spec_same_opt_str(*o, r),
{
    match o {
        Some(s) => Some(s.clone()),
        None => None,
    }
}

fn clone_opt_vec_string(o: &Option<Vec<String>>) -> (r: Option<Vec<String>>)
    ensures
        spec_same_opt_vec_str(r, *o),
        spec_same_opt_vec_str(*o, r),
{
    match o {
        Some(v) => {
            let mut out: Vec<String> = Vec::new();
            let mut i: usize = 0;
            while i < v.len()
                invariant
                    0 <= i <= v@.len(),
                    out@.len() == i,
                    forall|k: int| 0 <= k < i ==> #[trigger] out@[k]@ == v@[k]@,
                decreases v@.len() - i,
            {
                out.push(v[i].clone());
                i = i + 1;
            }
            Some(out)
        },
        None => None,
    }
}

fn clone_med_bid(b: &MediationBid) -> (r: MediationBid)
    ensures
        spec_same_bid(r, *b),
        spec_same_bid(*b, r),
{
    MediationBid {
        imp_id: b.imp_id.clone(),
        price: b.price,
        encoded_price: clone_opt_string(&b.encoded_price),
        adm: clone_opt_string(&b.adm),
        w: b.w,
        h: b.h,
        crid: clone_opt_string(&b.crid),
        adomain: clone_opt_vec_string(&b.adomain),
    }
}

/// Two bids with the same content resolve to the same price.
proof fn lemma_same_bid_same_price(a: MediationBid, b: MediationBid)
    requires
        spec_same_bid(a, b),
    ensures
        spec_bid_price(a) == spec_bid_price(b),
{
}

/// Resolves the price of one bid, cloning it into a `ResolvedBid`.
fn resolve_bid(bidder: &String, b: &MediationBid) -> (r: Result<ResolvedBid, MediationError>)
    ensures
        match r {
            Ok(rb) => spec_bid_price(*b) is Some && spec_rb_matches(
                rb,
                (bidder@, *b, spec_bid_price(*b)->Some_0),
            ),
            Err(e) => spec_bid_price(*b) is None && spec_error_for(e, bidder@, *b),
        },
{
    let price: i64 = match &b.encoded_price {
        Some(enc) => {
            match decode_price(enc.as_str()) {
                Some(p) => p,
                None => {
                    return Err(
                        MediationError::PriceDecodeFailed { imp_id: b.imp_id.clone() },
                    );
                },
            }
        },
        None => {
            match b.price {
                Some(p) => p,
                None => {
                    return Err(
                        MediationError::MissingPrice {
                            imp_id: b.imp_id.clone(),
                            bidder: bidder.clone(),
                        },
                    );
                },
            }
        },
    };
    Ok(ResolvedBid { bidder: bidder.clone(), bid: clone_med_bid(b), resolved_price: price })
}

/// Resolves every bid of every bidder, in order.  The first bid whose
/// price does not resolve fails the whole call.
fn resolve_all_bids(rs: &Vec<BidderResponse>) -> (r: Result<Vec<ResolvedBid>, MediationError>)
    ensures
        match r {
            Ok(resolved) => {
                &&& spec_all_prices_ok(rs@)
                &&& resolved@.len() == spec_resolve_bids(rs@).len()
                &&& forall|i: int|
                    0 <= i < resolved@.len() ==> spec_rb_matches(
                        #[trigger] resolved@[i],
                        spec_resolve_bids(rs@)[i],
                    )
            },
            Err(e) => !spec_all_prices_ok(rs@) && spec_first_error_ok(rs@, e),
        },
{
    let mut resolved: Vec<ResolvedBid> = Vec::new();
    let mut j: usize = 0;
    while j < rs.len()
        invariant
            0 <= j <= rs@.len(),
            forall|j2: int| 0 <= j2 < j ==> spec_bids_ok(#[trigger] rs@[j2].bids@),
            resolved@.len() == spec_resolve_bids(rs@.take(j as int)).len(),
            forall|i: int|
                0 <= i < resolved@.len() ==> spec_rb_matches(
                    #[trigger] resolved@[i],
                    spec_resolve_bids(rs@.take(j as int))[i],
                ),
        decreases rs@.len() - j,
    {
        let resp = &rs[j];
        let ghost pre = spec_resolve_bids(rs@.take(j as int));
        let mut i: usize = 0;
        while i < resp.bids.len()
            invariant
                0 <= i <= resp.bids@.len(),
                0 <= j < rs@.len(),
                *resp == rs@[j as int],
                forall|j2: int| 0 <= j2 < j ==> spec_bids_ok(#[trigger] rs@[j2].bids@),
                forall|i2: int|
                    0 <= i2 < i ==> spec_bid_price(#[trigger] resp.bids@[i2]) is Some,
                pre == spec_resolve_bids(rs@.take(j as int)),
                resolved@.len() == pre.len() + spec_resolve_list(
                    resp.bidder@,
                    resp.bids@.take(i as int),
                ).len(),
                forall|k: int|
                    0 <= k < resolved@.len() ==> spec_rb_matches(
                        #[trigger] resolved@[k],
                        (pre + spec_resolve_list(resp.bidder@, resp.bids@.take(i as int)))[k],
                    ),
            decreases resp.bids@.len() - i,
        {
            let b = &resp.bids[i];
            proof {
                assert(resp.bids@.take(i + 1).drop_last() =~= resp.bids@.take(i as int));
                assert(resp.bids@.take(i + 1).last() == resp.bids@[i as int]);
            }
            match resolve_bid(&resp.bidder, b) {
                Ok(rb) => {
                    resolved.push(rb);
                },
                Err(e) => {
                    proof {
                        assert(spec_error_at(rs@, j as int, i as int, e));
                        assert(!spec_bids_ok(rs@[j as int].bids@));
                    }
                    return Err(e);
                },
            }
            i = i + 1;
        }
        proof {
            assert(resp.bids@.take(resp.bids@.len() as int) =~= resp.bids@);
            assert(rs@.take(j + 1).drop_last() =~= rs@.take(j as int));
            assert(rs@.take(j + 1).last() == rs@[j as int]);
            assert(spec_resolve_bids(rs@.take(j + 1)) == pre + spec_resolve_list(
                resp.bidder@,
                resp.bids@,
            ));
        }
        j = j + 1;
    }
    proof {
        assert(rs@.take(rs@.len() as int) =~= rs@);
    }
    Ok(resolved)
}

/// The configured price floor; zero when absent.
pub open spec fn spec_floor(ext: MediationExt) -> int {
    match ext.config {
        Some(c) => match c.price_floor {
            Some(f) => f as int,
            None => 0,
        },
        None => 0,
    }
}

/// The leader after scanning the first `n` resolved bids for `imp`:
/// bids below the floor are dropped (a bid at the floor is kept), and the
/// leader is only replaced on a strictly greater price, so the earliest
/// bid wins ties.
pub open spec fn spec_winner_upto(
    r: Seq<(Seq<char>, MediationBid, int)>,
    imp: Seq<char>,
    floor: int,
    n: int,
) -> Option<int>
    decreases n,
{
    if n <= 0 || n > r.len() {
        None
    } else {
        let prev = spec_winner_upto(r, imp, floor, n - 1);
        let cand = r[n - 1];
        if cand.1.imp_id@ == imp && cand.2 >= floor {
            match prev {
                None => Some(n - 1),
                Some(p) => {
                    if cand.2 > r[p].2 {
                        Some(n - 1)
                    } else {
                        prev
                    }
                },
            }
        } else {
            prev
        }
    }
}

/// The winning resolved bid for an impression, if any.
pub open spec fn spec_winner(
    r: Seq<(Seq<char>, MediationBid, int)>,
    imp: Seq<char>,
    floor: int,
) -> Option<int> {
    spec_winner_upto(r, imp, floor, r.len() as int)
}

/// What winner selection guarantees for one impression.  A winner bids on
/// the impression at or above the floor; no candidate beats its price;
/// and every earlier candidate is strictly cheaper, so on a tie the
/// earliest bid in encounter order wins.  When there is no winner, every
/// candidate for the impression is below the floor.
pub proof fn lemma_winner_characterization(
    r: Seq<(Seq<char>, MediationBid, int)>,
    imp: Seq<char>,
    floor: int,
    n: int,
)
    requires
        0 <= n <= r.len(),
    ensures
        match spec_winner_upto(r, imp, floor, n) {
            Some(i) => {
                &&& 0 <= i < n
                &&& r[i].1.imp_id@ == imp
                &&& r[i].2 >= floor
                &&& forall|k: int|
                    0 <= k < n ==> (((#[trigger] r[k]).1.imp_id@ == imp && r[k].2 >= floor)
                        ==> r[k].2 <= r[i].2)
                &&& forall|k: int|
                    0 <= k < i ==> (((#[trigger] r[k]).1.imp_id@ == imp && r[k].2 >= floor)
                        ==> r[k].2 < r[i].2)
            },
            None => forall|k: int|
                0 <= k < n ==> ((#[trigger] r[k]).1.imp_id@ == imp ==> r[k].2 < floor),
        },
    decreases n,
{
    if n > 0 {
        lemma_winner_characterization(r, imp, floor, n - 1);
    }
}

/// The impression ids of resolved bids, in first-encounter order,
/// without repetition.
pub open spec fn spec_imp_order(r: Seq<(Seq<char>, MediationBid, int)>) -> Seq<Seq<char>>
    decreases r.len(),
{
    if r.len() == 0 {
        Seq::empty()
    } else {
        let prev = spec_imp_order(r.drop_last());
        if prev.contains(r.last().1.imp_id@) {
            prev
        } else {
            prev.push(r.last().1.imp_id@)
        }
    }
}

/// Every resolved impression stands in the impression order exactly
/// once, so at most one winner is ever selected per impression.
pub proof fn lemma_imp_order_complete(r: Seq<(Seq<char>, MediationBid, int)>)
    ensures
        forall|k1: int, k2: int|
            0 <= k1 < k2 < spec_imp_order(r).len() ==> spec_imp_order(r)[k1] != spec_imp_order(
                r,
            )[k2],
        forall|i: int|
            0 <= i < r.len() ==> spec_imp_order(r).contains((#[trigger] r[i]).1.imp_id@),
    decreases r.len(),
{
    if r.len() > 0 {
        lemma_imp_order_complete(r.drop_last());
        let prev = spec_imp_order(r.drop_last());
        let whole = spec_imp_order(r);
        let last_id = r.last().1.imp_id@;
        assert forall|i: int| 0 <= i < r.len() implies whole.contains(
            (#[trigger] r[i]).1.imp_id@,
        ) by {
            if i < r.len() - 1 {
                assert(r.drop_last()[i] == r[i]);
                let id = r[i].1.imp_id@;
                let w = choose|k: int| 0 <= k < prev.len() && prev[k] == id;
                assert(whole[w] == id);
            } else {
                if prev.contains(last_id) {
                    let w = choose|k: int| 0 <= k < prev.len() && prev[k] == last_id;
                    assert(whole[w] == last_id);
                } else {
                    assert(whole[whole.len() - 1] == last_id);
                }
            }
        }
        assert forall|k1: int, k2: int| 0 <= k1 < k2 < whole.len() implies whole[k1]
            != whole[k2] by {
            if k2 < prev.len() {
                assert(whole[k1] == prev[k1] && whole[k2] == prev[k2]);
            } else if !prev.contains(last_id) {
                assert(whole[k1] == prev[k1]);
                assert(whole[k2] == last_id);
            }
        }
    }
}

/// The seat order names every winning bidder exactly once: no bidder
/// gets two seats.
pub proof fn lemma_seat_order_distinct(r: Seq<(Seq<char>, MediationBid, int)>, ws: Seq<int>)
    ensures
        forall|k1: int, k2: int|
            0 <= k1 < k2 < spec_seat_order(r, ws).len() ==> spec_seat_order(r, ws)[k1]
                != spec_seat_order(r, ws)[k2],
    decreases ws.len(),
{
    if ws.len() > 0 {
        lemma_seat_order_distinct(r, ws.drop_last());
        let prev = spec_seat_order(r, ws.drop_last());
        let whole = spec_seat_order(r, ws);
        let nm = r[ws.last()].0;
        assert forall|k1: int, k2: int| 0 <= k1 < k2 < whole.len() implies whole[k1]
            != whole[k2] by {
            if k2 < prev.len() {
                assert(whole[k1] == prev[k1] && whole[k2] == prev[k2]);
            } else if !prev.contains(nm) {
                assert(whole[k1] == prev[k1]);
                assert(whole[k2] == nm);
            }
        }
    }
}

/// The winning resolved-bid indices for the given impressions, in that
/// order; impressions without a winner are skipped.
pub open spec fn spec_winners_of(
    r: Seq<(Seq<char>, MediationBid, int)>,
    floor: int,
    imps: Seq<Seq<char>>,
) -> Seq<int>
    decreases imps.len(),
{
    if imps.len() == 0 {
        Seq::empty()
    } else {
        spec_winners_of(r, floor, imps.drop_last()) + (match spec_winner(r, imps.last(), floor) {
            Some(i) => seq![i],
            None => Seq::empty(),
        })
    }
}

/// All winning resolved-bid indices, one per impression that has a
/// winner, in impression first-encounter order.
pub open spec fn spec_winner_idxs(r: Seq<(Seq<char>, MediationBid, int)>, floor: int) -> Seq<
    int,
> {
    spec_winners_of(r, floor, spec_imp_order(r))
}

/// Every selected winner index refers to a resolved bid priced at or
/// above the floor; no impression below the floor ever reaches a seat.
pub proof fn lemma_winner_idxs_sound(
    r: Seq<(Seq<char>, MediationBid, int)>,
    floor: int,
    imps: Seq<Seq<char>>,
)
    ensures
        forall|k: int|
            0 <= k < spec_winners_of(r, floor, imps).len() ==> 0 <= #[trigger] spec_winners_of(
                r,
                floor,
                imps,
            )[k] < r.len() && r[spec_winners_of(r, floor, imps)[k]].2 >= floor,
    decreases imps.len(),
{
    if imps.len() > 0 {
        lemma_winner_idxs_sound(r, floor, imps.drop_last());
        lemma_winner_characterization(r, imps.last(), floor, r.len() as int);
        let prev = spec_winners_of(r, floor, imps.drop_last());
        let whole = spec_winners_of(r, floor, imps);
        assert forall|k: int| 0 <= k < whole.len() implies 0 <= #[trigger] whole[k] < r.len()
            && r[whole[k]].2 >= floor by {
            if k < prev.len() {
                assert(whole[k] == prev[k]);
            }
        }
    }
}

/// The winning bidders, in the order they first won.
pub open spec fn spec_seat_order(
    r: Seq<(Seq<char>, MediationBid, int)>,
    ws: Seq<int>,
) -> Seq<Seq<char>>
    decreases ws.len(),
{
    if ws.len() == 0 {
        Seq::empty()
    } else {
        let prev = spec_seat_order(r, ws.drop_last());
        if prev.contains(r[ws.last()].0) {
            prev
        } else {
            prev.push(r[ws.last()].0)
        }
    }
}

/// The winning indices belonging to one seat, in winning order.
pub open spec fn spec_seat_bids(
    r: Seq<(Seq<char>, MediationBid, int)>,
    ws: Seq<int>,
    seat: Seq<char>,
) -> Seq<int>
    decreases ws.len(),
{
    if ws.len() == 0 {
        Seq::empty()
    } else {
        spec_seat_bids(r, ws.drop_last(), seat) + (if r[ws.last()].0 == seat {
            seq![ws.last()]
        } else {
            Seq::empty()
        })
    }
}

/// The creative id used for fallback markup: the bid's own, else its
/// impression id.
pub open spec fn spec_crid_or(m: MediationBid) -> Seq<char> {
    match m.crid {
        Some(c) => c@,
        None => m.imp_id@,
    }
}

/// Everything one output bid promises about the winning resolved bid it
/// was built from: a fresh id, the winner's impression and price, its
/// markup kept verbatim or generated when absent, and its geometry and
/// advertiser domains carried over.
pub open spec fn spec_out_bid_ok(
    t: (Seq<char>, MediationBid, int),
    b: Bid,
    host: Seq<char>,
) -> bool {
    let m = t.1;
    &&& spec_is_fresh_id(b.id@)
    &&& b.impid@ == m.imp_id@
    &&& b.price == t.2
    &&& match m.adm {
        Some(a) => match b.adm {
            Some(o) => o@ == a@,
            None => false,
        },
        None => match b.adm {
            Some(o) => o@ == spec_iframe_html(
                host,
                spec_crid_or(m),
                m.w as int,
                m.h as int,
                Some(t.2),
            ),
            None => false,
        },
    }
    &&& spec_same_opt_str(b.crid, m.crid)
    &&& b.w == Some(m.w)
    &&& b.h == Some(m.h)
    &&& spec_same_opt_vec_str(b.adomain, m.adomain)
    &&& b.mtype == Some(MediaType::Banner)
    &&& b.ext is None
}

/// One output seat: named after its bidder, holding one output bid per
/// winning index of that bidder, in winning order.
/// The output bids answer for the winning indices, pairwise.
pub open spec fn spec_bids_match_seat(
    r: Seq<(Seq<char>, MediationBid, int)>,
    idxs: Seq<int>,
    bids: Seq<Bid>,
    host: Seq<char>,
) -> bool {
    &&& bids.len() == idxs.len()
    &&& forall|k: int|
        0 <= k < idxs.len() ==> 0 <= #[trigger] idxs[k] < r.len() && spec_out_bid_ok(
            r[idxs[k]],
            bids[k],
            host,
        )
}

proof fn lemma_bids_match_push(
    r: Seq<(Seq<char>, MediationBid, int)>,
    idxs: Seq<int>,
    bids: Seq<Bid>,
    idx: int,
    b: Bid,
    host: Seq<char>,
)
    requires
        spec_bids_match_seat(r, idxs, bids, host),
        0 <= idx < r.len(),
        spec_out_bid_ok(r[idx], b, host),
    ensures
        spec_bids_match_seat(r, idxs.push(idx), bids.push(b), host),
{
    let ni = idxs.push(idx);
    let nb = bids.push(b);
    assert(nb.len() == ni.len());
    assert forall|k: int| 0 <= k < ni.len() implies 0 <= #[trigger] ni[k] < r.len()
        && spec_out_bid_ok(r[ni[k]], nb[k], host) by {
        if k < idxs.len() {
            assert(ni[k] == idxs[k]);
            assert(nb[k] == bids[k]);
        } else {
            assert(ni[k] == idx);
            assert(nb[k] == b);
        }
    }
    assert(spec_bids_match_seat(r, ni, nb, host));
}

pub open spec fn spec_seat_ok(
    r: Seq<(Seq<char>, MediationBid, int)>,
    ws: Seq<int>,
    name: Seq<char>,
    sb: SeatBid,
    host: Seq<char>,
) -> bool {
    &&& match sb.seat {
        Some(s) => s@ == name,
        None => false,
    }
    &&& spec_bids_match_seat(r, spec_seat_bids(r, ws, name), sb.bid@, host)
}

/// The whole mediation output: one seat per winning bidder, in the order
/// the bidders first won.
pub open spec fn spec_mediation_output_ok(
    r: Seq<(Seq<char>, MediationBid, int)>,
    floor: int,
    resp: OpenRTBResponse,
    host: Seq<char>,
) -> bool {
    let ws = spec_winner_idxs(r, floor);
    let seats = spec_seat_order(r, ws);
    &&& resp.seatbid@.len() == seats.len()
    &&& forall|m: int|
        0 <= m < seats.len() ==> spec_seat_ok(r, ws, seats[m], #[trigger] resp.seatbid@[m], host)
}

/// The executable resolved bids stand for the specification-level ones,
/// element by element.
pub open spec fn spec_all_match(
    resolved: Seq<ResolvedBid>,
    r: Seq<(Seq<char>, MediationBid, int)>,
) -> bool {
    resolved.len() == r.len() && forall|i: int|
        0 <= i < r.len() ==> spec_rb_matches(#[trigger] resolved[i], r[i])
}

/// Collects the impression ids of the resolved bids in first-encounter
/// order.
fn collect_imp_order(resolved: &Vec<ResolvedBid>, Ghost(r): Ghost<
    Seq<(Seq<char>, MediationBid, int)>,
>) -> (imps: Vec<String>)
    requires
        spec_all_match(resolved@, r),
    ensures
        imps@.len() == spec_imp_order(r).len(),
        forall|k: int| 0 <= k < imps@.len() ==> #[trigger] imps@[k]@ == spec_imp_order(r)[k],
{
    let mut imps: Vec<String> = Vec::new();
    let mut i: usize = 0;
    while i < resolved.len()
        invariant
            0 <= i <= resolved@.len(),
            spec_all_match(resolved@, r),
            imps@.len() == spec_imp_order(r.take(i as int)).len(),
            forall|k: int|
                0 <= k < imps@.len() ==> #[trigger] imps@[k]@ == spec_imp_order(
                    r.take(i as int),
                )[k],
        decreases resolved@.len() - i,
    {
        let ghost prev = spec_imp_order(r.take(i as int));
        proof {
            assert(r.take(i + 1).drop_last() =~= r.take(i as int));
            assert(r.take(i + 1).last() == r[i as int]);
        }
        let id = &resolved[i].bid.imp_id;
        let mut seen = false;
        let mut k: usize = 0;
        while k < imps.len()
            invariant
                0 <= k <= imps@.len(),
                imps@.len() == prev.len(),
                forall|k2: int| 0 <= k2 < imps@.len() ==> #[trigger] imps@[k2]@ == prev[k2],
                seen ==> prev.contains(id@),
                !seen ==> forall|k2: int| 0 <= k2 < k ==> prev[k2] != id@,
            decreases imps@.len() - k,
        {
            if !seen && imps[k].eq(id) {
                seen = true;
                proof {
                    assert(prev[k as int] == id@);
                }
            }
            k = k + 1;
        }
        proof {
            if !seen {
                assert(forall|k2: int| 0 <= k2 < prev.len() ==> prev[k2] != id@);
                assert(!prev.contains(id@));
            }
            assert(id@ == r[i as int].1.imp_id@);
        }
        if !seen {
            imps.push(id.clone());
        }
        i = i + 1;
    }
    proof {
        assert(r.take(r.len() as int) =~= r);
    }
    imps
}

/// Finds the winning resolved bid for one impression: the highest price
/// at or above the floor, the earliest seen winning ties.
fn find_winner(
    resolved: &Vec<ResolvedBid>,
    imp: &String,
    floor: i64,
    Ghost(r): Ghost<Seq<(Seq<char>, MediationBid, int)>>,
) -> (w: Option<usize>)
    requires
        spec_all_match(resolved@, r),
    ensures
        match w {
            Some(i) => spec_winner(r, imp@, floor as int) == Some(i as int) && i < resolved@.len(),
            None => spec_winner(r, imp@, floor as int) is None,
        },
{
    let mut best: Option<usize> = None;
    let mut n: usize = 0;
    while n < resolved.len()
        invariant
            0 <= n <= resolved@.len(),
            spec_all_match(resolved@, r),
            match best {
                Some(i) => spec_winner_upto(r, imp@, floor as int, n as int) == Some(i as int)
                    && i < resolved@.len(),
                None => spec_winner_upto(r, imp@, floor as int, n as int) is None,
            },
        decreases resolved@.len() - n,
    {
        let cand = &resolved[n];
        if cand.bid.imp_id.eq(imp) && cand.resolved_price >= floor {
            match best {
                None => {
                    best = Some(n);
                },
                Some(p) => {
                    if cand.resolved_price > resolved[p].resolved_price {
                        best = Some(n);
                    }
                },
            }
        }
        n = n + 1;
    }
    best
}

/// Collects the winning resolved-bid index for each impression, in
/// impression order, skipping impressions without a winner.
fn collect_winners(
    resolved: &Vec<ResolvedBid>,
    imps: &Vec<String>,
    floor: i64,
    Ghost(r): Ghost<Seq<(Seq<char>, MediationBid, int)>>,
) -> (winners: Vec<usize>)
    requires
        spec_all_match(resolved@, r),
        imps@.len() == spec_imp_order(r).len(),
        forall|k: int| 0 <= k < imps@.len() ==> #[trigger] imps@[k]@ == spec_imp_order(r)[k],
    ensures
        winners@.len() == spec_winner_idxs(r, floor as int).len(),
        forall|k: int|
            0 <= k < winners@.len() ==> winners@[k] as int == #[trigger] spec_winner_idxs(
                r,
                floor as int,
            )[k] && winners@[k] < resolved@.len(),
{
    let ghost io = spec_imp_order(r);
    let mut winners: Vec<usize> = Vec::new();
    let mut m: usize = 0;
    while m < imps.len()
        invariant
            0 <= m <= imps@.len(),
            spec_all_match(resolved@, r),
            io == spec_imp_order(r),
            imps@.len() == io.len(),
            forall|k: int| 0 <= k < imps@.len() ==> #[trigger] imps@[k]@ == io[k],
            winners@.len() == spec_winners_of(r, floor as int, io.take(m as int)).len(),
            forall|k: int|
                0 <= k < winners@.len() ==> winners@[k] as int == #[trigger] spec_winners_of(
                    r,
                    floor as int,
                    io.take(m as int),
                )[k] && winners@[k] < resolved@.len(),
        decreases imps@.len() - m,
    {
        proof {
            assert(io.take(m + 1).drop_last() =~= io.take(m as int));
            assert(io.take(m + 1).last() == io[m as int]);
        }
        let ghost oldw = winners@;
        let ghost next = spec_winners_of(r, floor as int, io.take(m + 1));
        match find_winner(resolved, &imps[m], floor, Ghost(r)) {
            Some(i) => {
                proof {
                    assert(next == spec_winners_of(r, floor as int, io.take(m as int)) + seq![
                        i as int,
                    ]);
                }
                winners.push(i);
                proof {
                    assert forall|k: int| 0 <= k < winners@.len() implies winners@[k] as int
                        == next[k] && winners@[k] < resolved@.len() by {
                        if k < oldw.len() {
                            assert(winners@[k] == oldw[k]);
                        } else {
                            assert(winners@[k] == i);
                            assert(next[k] == i as int);
                        }
                    }
                }
            },
            None => {
                proof {
                    assert(next =~= spec_winners_of(r, floor as int, io.take(m as int)));
                }
            },
        }
        m = m + 1;
    }
    proof {
        assert(io.take(io.len() as int) =~= io);
    }
    winners
}

/// Collects the winning bidders' names in the order they first won.
fn collect_seat_order(
    resolved: &Vec<ResolvedBid>,
    winners: &Vec<usize>,
    Ghost(r): Ghost<Seq<(Seq<char>, MediationBid, int)>>,
    Ghost(ws): Ghost<Seq<int>>,
) -> (names: Vec<String>)
    requires
        spec_all_match(resolved@, r),
        winners@.len() == ws.len(),
        forall|k: int|
            0 <= k < ws.len() ==> winners@[k] as int == #[trigger] ws[k] && 0 <= ws[k]
                < r.len(),
    ensures
        names@.len() == spec_seat_order(r, ws).len(),
        forall|k: int| 0 <= k < names@.len() ==> #[trigger] names@[k]@ == spec_seat_order(r, ws)[k],
{
    let mut names: Vec<String> = Vec::new();
    let mut m: usize = 0;
    while m < winners.len()
        invariant
            0 <= m <= winners@.len(),
            spec_all_match(resolved@, r),
            winners@.len() == ws.len(),
            forall|k: int|
                0 <= k < ws.len() ==> winners@[k] as int == #[trigger] ws[k] && 0 <= ws[k]
                    < r.len(),
            names@.len() == spec_seat_order(r, ws.take(m as int)).len(),
            forall|k: int|
                0 <= k < names@.len() ==> #[trigger] names@[k]@ == spec_seat_order(
                    r,
                    ws.take(m as int),
                )[k],
        decreases winners@.len() - m,
    {
        let ghost prev = spec_seat_order(r, ws.take(m as int));
        proof {
            assert(ws.take(m + 1).drop_last() =~= ws.take(m as int));
            assert(ws.take(m + 1).last() == ws[m as int]);
        }
        let idx = winners[m];
        let nm = &resolved[idx].bidder;
        proof {
            assert(nm@ == r[ws[m as int]].0);
        }
        let mut seen = false;
        let mut k: usize = 0;
        while k < names.len()
            invariant
                0 <= k <= names@.len(),
                names@.len() == prev.len(),
                forall|k2: int| 0 <= k2 < names@.len() ==> #[trigger] names@[k2]@ == prev[k2],
                seen ==> prev.contains(nm@),
                !seen ==> forall|k2: int| 0 <= k2 < k ==> prev[k2] != nm@,
            decreases names@.len() - k,
        {
            if !seen && names[k].eq(nm) {
                seen = true;
                proof {
                    assert(prev[k as int] == nm@);
                }
            }
            k = k + 1;
        }
        proof {
            if !seen {
                assert(forall|k2: int| 0 <= k2 < prev.len() ==> prev[k2] != nm@);
                assert(!prev.contains(nm@));
            }
        }
        if !seen {
            names.push(nm.clone());
        }
        m = m + 1;
    }
    proof {
        assert(ws.take(ws.len() as int) =~= ws);
    }
    names
}

/// Builds the output bid for one winning resolved bid: markup is kept
/// verbatim when present, else the iframe creative is generated; a fresh
/// id is assigned regardless of any id carried on the input.
fn build_out_bid(rb: &ResolvedBid, base_host: &str) -> (b: Bid)
    ensures
        spec_out_bid_ok((rb.bidder@, rb.bid, rb.resolved_price as int), b, base_host@),
{
    let price = rb.resolved_price;
    let adm: String = match &rb.bid.adm {
        Some(a) => a.clone(),
        None => {
            let crid_ref: &str = match &rb.bid.crid {
                Some(c) => c.as_str(),
                None => rb.bid.imp_id.as_str(),
            };
            banner_adm_iframe(base_host, crid_ref, rb.bid.w, rb.bid.h, Some(price))
        },
    };
    Bid {
        id: new_id(),
        impid: rb.bid.imp_id.clone(),
        price,
        adm: Some(adm),
        crid: clone_opt_string(&rb.bid.crid),
        w: Some(rb.bid.w),
        h: Some(rb.bid.h),
        adomain: clone_opt_vec_string(&rb.bid.adomain),
        mtype: Some(MediaType::Banner),
        ext: None,
    }
}

/// An output bid built from a stand-in resolved bid answers for the
/// specification-level resolved bid it stands for.
proof fn lemma_out_bid_congruence(
    rb: ResolvedBid,
    t: (Seq<char>, MediationBid, int),
    b: Bid,
    host: Seq<char>,
)
    requires
        spec_rb_matches(rb, t),
        spec_out_bid_ok((rb.bidder@, rb.bid, rb.resolved_price as int), b, host),
    ensures
        spec_out_bid_ok(t, b, host),
{
}

/// Builds the output seats: one per winning bidder, holding that
/// bidder's winning bids in order.
fn build_seats(
    resolved: &Vec<ResolvedBid>,
    winners: &Vec<usize>,
    names: &Vec<String>,
    base_host: &str,
    Ghost(r): Ghost<Seq<(Seq<char>, MediationBid, int)>>,
    Ghost(ws): Ghost<Seq<int>>,
) -> (seatbid: Vec<SeatBid>)
    requires
        spec_all_match(resolved@, r),
        winners@.len() == ws.len(),
        forall|k: int|
            0 <= k < ws.len() ==> winners@[k] as int == #[trigger] ws[k] && 0 <= ws[k]
                < r.len(),
        names@.len() == spec_seat_order(r, ws).len(),
        forall|k: int| 0 <= k < names@.len() ==> #[trigger] names@[k]@ == spec_seat_order(r, ws)[k],
    ensures
        seatbid@.len() == spec_seat_order(r, ws).len(),
        forall|m: int|
            0 <= m < seatbid@.len() ==> spec_seat_ok(
                r,
                ws,
                spec_seat_order(r, ws)[m],
                #[trigger] seatbid@[m],
                base_host@,
            ),
{
    let mut seatbid: Vec<SeatBid> = Vec::new();
    let mut m: usize = 0;
    while m < names.len()
        invariant
            0 <= m <= names@.len(),
            spec_all_match(resolved@, r),
            winners@.len() == ws.len(),
            forall|k: int|
                0 <= k < ws.len() ==> winners@[k] as int == #[trigger] ws[k] && 0 <= ws[k]
                    < r.len(),
            names@.len() == spec_seat_order(r, ws).len(),
            forall|k: int|
                0 <= k < names@.len() ==> #[trigger] names@[k]@ == spec_seat_order(r, ws)[k],
            seatbid@.len() == m,
            forall|m2: int|
                0 <= m2 < m ==> spec_seat_ok(
                    r,
                    ws,
                    spec_seat_order(r, ws)[m2],
                    #[trigger] seatbid@[m2],
                    base_host@,
                ),
        decreases names@.len() - m,
    {
        let name = &names[m];
        let ghost nmv = spec_seat_order(r, ws)[m as int];
        let mut bids: Vec<Bid> = Vec::new();
        let mut k: usize = 0;
        while k < winners.len()
            invariant
                0 <= k <= winners@.len(),
                spec_all_match(resolved@, r),
                winners@.len() == ws.len(),
                forall|k2: int|
                    0 <= k2 < ws.len() ==> winners@[k2] as int == #[trigger] ws[k2] && 0 <= ws[k2]
                        < r.len(),
                name@ == nmv,
                spec_bids_match_seat(
                    r,
                    spec_seat_bids(r, ws.take(k as int), nmv),
                    bids@,
                    base_host@,
                ),
            decreases winners@.len() - k,
        {
            let ghost prevb = spec_seat_bids(r, ws.take(k as int), nmv);
            proof {
                assert(ws.take(k + 1).drop_last() =~= ws.take(k as int));
                assert(ws.take(k + 1).last() == ws[k as int]);
                assert(spec_seat_bids(r, ws.take(k + 1), nmv) == prevb + (if r[ws[k as int]].0
                    == nmv {
                    seq![ws[k as int]]
                } else {
                    Seq::<int>::empty()
                }));
            }
            let idx = winners[k];
            let rb = &resolved[idx];
            proof {
                assert(rb.bidder@ == r[ws[k as int]].0);
            }
            if rb.bidder.eq(name) {
                let b = build_out_bid(rb, base_host);
                proof {
                    lemma_out_bid_congruence(*rb, r[ws[k as int]], b, base_host@);
                    lemma_bids_match_push(r, prevb, bids@, ws[k as int], b, base_host@);
                    assert(prevb + seq![ws[k as int]] =~= prevb.push(ws[k as int]));
                }
                bids.push(b);
            } else {
                proof {
                    assert(prevb + Seq::<int>::empty() =~= prevb);
                }
            }
            k = k + 1;
        }
        proof {
            assert(ws.take(ws.len() as int) =~= ws);
        }
        let sb = SeatBid { seat: Some(name.clone()), bid: bids };
        proof {
            assert(spec_seat_ok(r, ws, nmv, sb, base_host@));
        }
        seatbid.push(sb);
        m = m + 1;
    }
    seatbid
}

/// Runs the mediation call: resolves every price (any failure aborting
/// the whole call), selects one winner per impression above the floor
/// with the earliest bid winning ties, and groups the winners into seats
/// by bidder, pricing the response in USD.
pub fn mediate_auction(request: MediationRequest, base_host: &str) -> (r: Result<
    OpenRTBResponse,
    MediationError,
>)
    ensures
        match r {
            Ok(resp) => {
                &&& spec_all_prices_ok(request.ext.bidder_responses@)
                &&& resp.id@ == request.id@
                &&& match resp.cur {
                    Some(c) => c@ == "USD"@,
                    None => false,
                }
                &&& spec_mediation_output_ok(
                    spec_resolve_bids(request.ext.bidder_responses@),
                    spec_floor(request.ext),
                    resp,
                    base_host@,
                )
            },
            Err(e) => !spec_all_prices_ok(request.ext.bidder_responses@) && spec_first_error_ok(
                request.ext.bidder_responses@,
                e,
            ),
        },
{
    let floor: i64 = match &request.ext.config {
        Some(c) => match c.price_floor {
            Some(f) => f,
            None => 0,
        },
        None => 0,
    };
    let resolved = match resolve_all_bids(&request.ext.bidder_responses) {
        Ok(v) => v,
        Err(e) => {
            return Err(e);
        },
    };
    let ghost r = spec_resolve_bids(request.ext.bidder_responses@);
    let imps = collect_imp_order(&resolved, Ghost(r));
    let winners = collect_winners(&resolved, &imps, floor, Ghost(r));
    let ghost ws = spec_winner_idxs(r, floor as int);
    let names = collect_seat_order(&resolved, &winners, Ghost(r), Ghost(ws));
    let seatbid = build_seats(&resolved, &winners, &names, base_host, Ghost(r), Ghost(ws));
    Ok(OpenRTBResponse { id: request.id, cur: Some(String::from_str("USD")), seatbid })
}

} // verus!
