//! APS-style bidding: typed request/response shapes and the bid builder.
//!
//! Each requested slot lists candidate sizes; the builder bids on the
//! standard size with the highest CPM and skips slots that offer no
//! standard size.  Prices travel encoded, as a real APS response's do.

use vstd::prelude::*;

use crate::codec::{b64_of, encode_price, spec_decode_price};
use crate::ids::{new_id, spec_is_fresh_id};
use crate::sizes::{is_standard_size, price_for_size, spec_is_standard, spec_price_for};
use crate::strutil::{append_u64_chars, spec_price_bytes, spec_u64_chars};

verus! {

/// An APS bid request: a publisher id and the slots to bid on.
#[derive(Debug)]
pub struct ApsBidRequest {
    pub pub_id: String,
    pub slots: Vec<ApsSlot>,
    pub page_url: Option<String>,
    pub user_agent: Option<String>,
    pub timeout: Option<u32>,
}

/// One requested slot with its candidate sizes.
#[derive(Debug)]
pub struct ApsSlot {
    pub slot_id: String,
    pub sizes: Vec<[u32; 2]>,
    pub slot_name: Option<String>,
}

#[derive(Debug)]
pub struct ApsBidResponse {
    pub contextual: ApsContextual,
}

/// The contextual wrapper of an APS response: slot bids plus metadata.
#[derive(Debug)]
pub struct ApsContextual {
    pub slots: Vec<ApsSlotResponse>,
    pub host: Option<String>,
    pub status: Option<String>,
    pub cfe: Option<bool>,
    pub ev: Option<bool>,
    pub cfn: Option<String>,
    pub cb: Option<String>,
    pub cmp: Option<String>,
}

/// One slot bid, with its targeting keys as flat fields.
#[derive(Debug)]
pub struct ApsSlotResponse {
    pub slot_id: String,
    pub size: String,
    pub crid: Option<String>,
    pub media_type: Option<String>,
    pub fif: Option<String>,
    pub targeting: Vec<String>,
    pub meta: Vec<String>,
    pub amzniid: Option<String>,
    pub amznbid: Option<String>,
    pub amznp: Option<String>,
    pub amznsz: Option<String>,
    pub amznactt: Option<String>,
}

/// A size rendered as "WxH".
pub open spec fn spec_size_chars(w: int, h: int) -> Seq<char> {
    spec_u64_chars(w as nat) + "x"@ + spec_u64_chars(h as nat)
}

/// The best size among the first `n` candidates: the standard size with
/// the highest CPM, the earliest listed winning a tie.  `None` when no
/// candidate is standard.
pub open spec fn spec_best_size(sizes: Seq<[u32; 2]>, n: int) -> Option<(i64, i64)>
    decreases n,
{
    if n <= 0 || n > sizes.len() {
        None
    } else {
        let prev = spec_best_size(sizes, n - 1);
        let w = sizes[n - 1]@[0] as i64;
        let h = sizes[n - 1]@[1] as i64;
        if spec_is_standard(w as int, h as int) {
            match prev {
                None => Some((w, h)),
                Some(p) => {
                    if spec_price_for(w as int, h as int) > spec_price_for(
                        p.0 as int,
                        p.1 as int,
                    ) {
                        Some((w, h))
                    } else {
                        prev
                    }
                },
            }
        } else {
            prev
        }
    }
}

/// A best size, when there is one, is always a standard size.
proof fn lemma_best_size_standard(sizes: Seq<[u32; 2]>, n: int)
    ensures
        match spec_best_size(sizes, n) {
            Some(sz) => spec_is_standard(sz.0 as int, sz.1 as int),
            None => true,
        },
    decreases n,
{
    if n > 0 && n <= sizes.len() {
        lemma_best_size_standard(sizes, n - 1);
    }
}

/// Picks the standard size with the highest CPM from the candidates.
fn best_standard_size(sizes: &Vec<[u32; 2]>) -> (r: Option<(i64, i64)>)
    ensures
        r == spec_best_size(sizes@, sizes@.len() as int),
{
    let mut best: Option<(i64, i64)> = None;
    let mut i: usize = 0;
    while i < sizes.len()
        invariant
            0 <= i <= sizes@.len(),
            best == spec_best_size(sizes@, i as int),
        decreases sizes@.len() - i,
    {
        let sz = &sizes[i];
        let w = sz[0] as i64;
        let h = sz[1] as i64;
        if is_standard_size(w, h) {
            match best {
                None => {
                    best = Some((w, h));
                },
                Some((bw, bh)) => {
                    if price_for_size(w, h) > price_for_size(bw, bh) {
                        best = Some((w, h));
                    }
                },
            }
        }
        i = i + 1;
    }
    best
}

/// The slots that get a bid, in request order: each is the slot's index
/// paired with its winning size.
pub open spec fn spec_aps_selections(slots: Seq<ApsSlot>) -> Seq<(int, (i64, i64))>
    decreases slots.len(),
{
    if slots.len() == 0 {
        Seq::empty()
    } else {
        spec_aps_selections(slots.drop_last()) + (match spec_best_size(
            slots.last().sizes@,
            slots.last().sizes@.len() as int,
        ) {
            Some(sz) => seq![(slots.len() - 1, sz)],
            None => Seq::empty(),
        })
    }
}

/// Everything one slot bid promises: the slot's id, the winning size,
/// its encoded CPM, and the fixed targeting and metadata keys.
pub open spec fn spec_aps_slot_ok(slot: ApsSlot, sz: (i64, i64), out: ApsSlotResponse) -> bool {
    let cpm = spec_price_for(sz.0 as int, sz.1 as int);
    &&& out.slot_id@ == slot.slot_id@
    &&& out.size@ == spec_size_chars(sz.0 as int, sz.1 as int)
    &&& match out.crid {
        Some(c) => spec_is_fresh_id(c@),
        None => false,
    }
    &&& match out.media_type {
        Some(m) => m@ == "d"@,
        None => false,
    }
    &&& match out.fif {
        Some(f) => f@ == "1"@,
        None => false,
    }
    &&& match out.amzniid {
        Some(iid) => spec_is_fresh_id(iid@),
        None => false,
    }
    &&& match out.amznbid {
        Some(e) => e@ == b64_of(spec_price_bytes(cpm as nat)) && spec_decode_price(e@) == Some(
            cpm,
        ),
        None => false,
    }
    &&& match out.amznp {
        Some(e) => e@ == b64_of(spec_price_bytes(cpm as nat)),
        None => false,
    }
    &&& match out.amznsz {
        Some(s) => s@ == spec_size_chars(sz.0 as int, sz.1 as int),
        None => false,
    }
    &&& match out.amznactt {
        Some(a) => a@ == "OPEN"@,
        None => false,
    }
    &&& out.targeting@.len() == 5
    &&& out.targeting@[0]@ == "amzniid"@
    &&& out.targeting@[1]@ == "amznbid"@
    &&& out.targeting@[2]@ == "amznp"@
    &&& out.targeting@[3]@ == "amznsz"@
    &&& out.targeting@[4]@ == "amznactt"@
    &&& out.meta@.len() == 3
    &&& out.meta@[0]@ == "slotID"@
    &&& out.meta@[1]@ == "mediaType"@
    &&& out.meta@[2]@ == "size"@
}

/// The fixed contextual metadata of every APS response.
pub open spec fn spec_aps_contextual_ok(ctx: ApsContextual, host: Seq<char>) -> bool {
    &&& match ctx.host {
        Some(hv) => hv@ == host,
        None => false,
    }
    &&& match ctx.status {
        Some(s) => s@ == "ok"@,
        None => false,
    }
    &&& ctx.cfe == Some(true)
    &&& ctx.ev == Some(true)
    &&& match ctx.cfn {
        Some(c) => c@ == "bao-csm/direct/csm_othersv6.js"@,
        None => false,
    }
    &&& match ctx.cb {
        Some(c) => c@ == "6"@,
        None => false,
    }
    &&& ctx.cmp is None
}

/// Renders a size as the "WxH" string used in slot responses.
fn size_string(w: i64, h: i64) -> (r: String)
    requires
        0 <= w,
        0 <= h,
    ensures
        r@ == spec_size_chars(w as int, h as int),
{
    let mut s = String::new();
    append_u64_chars(&mut s, w as u64);
    s.append("x");
    append_u64_chars(&mut s, h as u64);
    assert(s@ =~= spec_size_chars(w as int, h as int));
    s
}

/// Builds one slot bid for a winning size.
fn build_slot_response(slot: &ApsSlot, w: i64, h: i64) -> (out: ApsSlotResponse)
    requires
        spec_is_standard(w as int, h as int),
    ensures
        spec_aps_slot_ok(*slot, (w, h), out),
{
    let cpm = price_for_size(w, h);
    assert(cpm >= 0);
    let size = size_string(w, h);
    let size2 = size_string(w, h);
    let encoded = encode_price(cpm);
    let encoded2 = encode_price(cpm);
    let mut targeting: Vec<String> = Vec::new();
    targeting.push(String::from_str("amzniid"));
    targeting.push(String::from_str("amznbid"));
    targeting.push(String::from_str("amznp"));
    targeting.push(String::from_str("amznsz"));
    targeting.push(String::from_str("amznactt"));
    let mut meta: Vec<String> = Vec::new();
    meta.push(String::from_str("slotID"));
    meta.push(String::from_str("mediaType"));
    meta.push(String::from_str("size"));
    ApsSlotResponse {
        slot_id: slot.slot_id.clone(),
        size,
        crid: Some(new_id()),
        media_type: Some(String::from_str("d")),
        fif: Some(String::from_str("1")),
        targeting,
        meta,
        amzniid: Some(new_id()),
        amznbid: Some(encoded),
        amznp: Some(encoded2),
        amznsz: Some(size2),
        amznactt: Some(String::from_str("OPEN")),
    }
}

/// Builds the APS response: one slot bid per slot that offers at least
/// one standard size, in request order, with fixed contextual metadata.
pub fn build_aps_response(req: &ApsBidRequest, base_host: &str) -> (r: ApsBidResponse)
    ensures
        spec_aps_contextual_ok(r.contextual, base_host@),
        r.contextual.slots@.len() == spec_aps_selections(req.slots@).len(),
        forall|i: int|
            0 <= i < r.contextual.slots@.len() ==> spec_aps_slot_ok(
                req.slots@[spec_aps_selections(req.slots@)[i].0],
                spec_aps_selections(req.slots@)[i].1,
                #[trigger] r.contextual.slots@[i],
            ),
{
    let mut out: Vec<ApsSlotResponse> = Vec::new();
    let mut j: usize = 0;
    while j < req.slots.len()
        invariant
            0 <= j <= req.slots@.len(),
            out@.len() == spec_aps_selections(req.slots@.take(j as int)).len(),
            forall|i: int|
                0 <= i < out@.len() ==> spec_aps_slot_ok(
                    req.slots@[spec_aps_selections(req.slots@.take(j as int))[i].0],
                    spec_aps_selections(req.slots@.take(j as int))[i].1,
                    #[trigger] out@[i],
                ),
        decreases req.slots@.len() - j,
    {
        let slot = &req.slots[j];
        proof {
            assert(req.slots@.take(j + 1).drop_last() =~= req.slots@.take(j as int));
            assert(req.slots@.take(j + 1).last() == req.slots@[j as int]);
        }
        match best_standard_size(&slot.sizes) {
            Some((w, h)) => {
                proof {
                    lemma_best_size_standard(slot.sizes@, slot.sizes@.len() as int);
                }
                let sr = build_slot_response(slot, w, h);
                out.push(sr);
            },
            None => (),
        }
        j = j + 1;
    }
    proof {
        assert(req.slots@.take(req.slots@.len() as int) =~= req.slots@);
    }
    ApsBidResponse {
        contextual: ApsContextual {
            slots: out,
            host: Some(String::from_str(base_host)),
            status: Some(String::from_str("ok")),
            cfe: Some(true),
            ev: Some(true),
            cfn: Some(String::from_str("bao-csm/direct/csm_othersv6.js")),
            cb: Some(String::from_str("6")),
            cmp: None,
        },
    }
}

} // verus!
