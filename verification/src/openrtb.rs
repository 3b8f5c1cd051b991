//! Typed model of the OpenRTB requests and responses the exchange handles.
//!
//! Only the fields the core logic reads are modelled; prices are integer
//! cents throughout.  Presence of non-banner media objects is carried as
//! flags, since only their presence matters to validation.

use vstd::prelude::*;

verus! {

#[derive(Clone, Copy, Debug, PartialEq, Eq, Structural)]
pub enum MediaType {
    Banner,
    Video,
    Audio,
    Native,
}

#[derive(Clone, Copy, Debug, PartialEq, Eq, Structural)]
pub struct Format {
    pub w: i64,
    pub h: i64,
}

#[derive(Debug)]
pub struct Banner {
    pub w: Option<i64>,
    pub h: Option<i64>,
    pub format: Option<Vec<Format>>,
}

/// Exchange-specific extension carried on an impression: an explicit bid
/// override in cents.
#[derive(Clone, Copy, Debug, PartialEq, Eq, Structural)]
pub struct ExtMocktioneer {
    pub bid: Option<i64>,
}

#[derive(Clone, Copy, Debug, PartialEq, Eq, Structural)]
pub struct ImpExt {
    pub mocktioneer: Option<ExtMocktioneer>,
}

/// One biddable ad placement within a request.
#[derive(Debug)]
pub struct Imp {
    pub id: String,
    pub banner: Option<Banner>,
    pub has_video: bool,
    pub has_audio: bool,
    pub has_native: bool,
    pub ext: Option<ImpExt>,
}

impl Default for Banner {
    fn default() -> (r: Banner)
        ensures
            r.w is None,
            r.h is None,
            r.format is None,
    {
        Banner { w: None, h: None, format: None }
    }
}

impl Default for Imp {
    fn default() -> (r: Imp)
        ensures
            r.id@ == Seq::<char>::empty(),
            r.banner is None,
            !r.has_video,
            !r.has_audio,
            !r.has_native,
            r.ext is None,
    {
        Imp {
            id: String::new(),
            banner: None,
            has_video: false,
            has_audio: false,
            has_native: false,
            ext: None,
        }
    }
}

#[derive(Debug)]
pub struct OpenRTBRequest {
    pub id: String,
    pub imp: Vec<Imp>,
}

/// One bid inside a seat of a response.
#[derive(Debug)]
pub struct Bid {
    pub id: String,
    pub impid: String,
    pub price: i64,
    pub adm: Option<String>,
    pub crid: Option<String>,
    pub w: Option<i64>,
    pub h: Option<i64>,
    pub adomain: Option<Vec<String>>,
    pub mtype: Option<MediaType>,
    pub ext: Option<ImpExt>,
}

#[derive(Debug)]
pub struct SeatBid {
    pub seat: Option<String>,
    pub bid: Vec<Bid>,
}

#[derive(Debug)]
pub struct OpenRTBResponse {
    pub id: String,
    pub cur: Option<String>,
    pub seatbid: Vec<SeatBid>,
}

/// ASCII whitespace; identifiers made only of these count as blank.
pub open spec fn is_space_char(c: char) -> bool {
    c == ' ' || c == '\t' || c == '\n' || c == '\r'
}

pub open spec fn spec_is_blank(s: Seq<char>) -> bool {
    forall|i: int| 0 <= i < s.len() ==> is_space_char(#[trigger] s[i])
}

/// True when every character of `s` is ASCII whitespace (an empty string
/// is blank).
pub fn is_blank(s: &str) -> (r: bool)
    ensures
        r == spec_is_blank(s@),
{
    let n = s.unicode_len();
    let mut i: usize = 0;
    while i < n
        invariant
            0 <= i <= n,
            n == s@.len(),
            forall|k: int| 0 <= k < i ==> is_space_char(#[trigger] s@[k]),
        decreases n - i,
    {
        let c = s.get_char(i);
        if !(c == ' ' || c == '\t' || c == '\n' || c == '\r') {
            return false;
        }
        i = i + 1;
    }
    true
}

/// Why a request failed shape validation.
#[derive(Clone, Copy, Debug, PartialEq, Eq, Structural)]
pub enum ValidationFault {
    EmptyId,
    NoImpressions,
    ImpMissingId,
    ImpMissingMedia,
}

/// An impression is well-shaped when its id is not blank and it carries
/// at least one creative object.
pub open spec fn spec_imp_valid(imp: Imp) -> bool {
    !spec_is_blank(imp.id@) && (imp.banner is Some || imp.has_video || imp.has_audio
        || imp.has_native)
}

impl Imp {
    /// Checks the impression's shape: a non-blank id and at least one
    /// creative object.  Reports the first fault found, id first.
    pub fn validate(&self) -> (r: Result<(), ValidationFault>)
        ensures
            r is Ok <==> spec_imp_valid(*self),
            r == Err::<(), ValidationFault>(ValidationFault::ImpMissingId) <==> spec_is_blank(
                self.id@,
            ),
    {
        if is_blank(self.id.as_str()) {
            return Err(ValidationFault::ImpMissingId);
        }
        let has_media = self.banner.is_some() || self.has_video || self.has_audio
            || self.has_native;
        if !has_media {
            return Err(ValidationFault::ImpMissingMedia);
        }
        Ok(())
    }
}

/// A request is well-shaped when its id is non-empty, it holds at least
/// one impression, and every impression is well-shaped.
pub open spec fn spec_request_valid(req: OpenRTBRequest) -> bool {
    req.id@.len() >= 1 && req.imp@.len() >= 1 && forall|i: int|
        0 <= i < req.imp@.len() ==> spec_imp_valid(#[trigger] req.imp@[i])
}

impl OpenRTBRequest {
    /// Checks the request's shape; reports the first fault found, in
    /// field order: id, impression list, then each impression in turn.
    pub fn validate(&self) -> (r: Result<(), ValidationFault>)
        ensures
            r is Ok <==> spec_request_valid(*self),
    {
        if self.id.as_str().is_empty() {
            return Err(ValidationFault::EmptyId);
        }
        if self.imp.len() == 0 {
            return Err(ValidationFault::NoImpressions);
        }
        let mut i: usize = 0;
        while i < self.imp.len()
            invariant
                0 <= i <= self.imp@.len(),
                forall|k: int| 0 <= k < i ==> spec_imp_valid(#[trigger] self.imp@[k]),
            decreases self.imp@.len() - i,
        {
            match self.imp[i].validate() {
                Ok(()) => (),
                Err(f) => {
                    return Err(f);
                },
            }
            i = i + 1;
        }
        Ok(())
    }
}

/// The size an impression asks for: the banner's explicit geometry,
/// else its first declared format, else the 300x250 default.
pub open spec fn spec_size_from_imp(imp: Imp) -> (i64, i64) {
    match imp.banner {
        Some(b) => {
            if b.w is Some && b.h is Some {
                (b.w->0, b.h->0)
            } else {
                match b.format {
                    Some(f) => {
                        if f@.len() > 0 {
                            (f@[0].w, f@[0].h)
                        } else {
                            (300i64, 250i64)
                        }
                    },
                    None => (300i64, 250i64),
                }
            }
        },
        None => (300i64, 250i64),
    }
}

/// Resolves the requested size of an impression.
pub fn size_from_imp(imp: &Imp) -> (r: (i64, i64))
    ensures
        r == spec_size_from_imp(*imp),
{
    if let Some(banner) = &imp.banner {
        if let (Some(w), Some(h)) = (banner.w, banner.h) {
            return (w, h);
        }
        if let Some(fmt) = &banner.format {
            if fmt.len() > 0 {
                let f0 = &fmt[0];
                return (f0.w, f0.h);
            }
        }
    }
    (300, 250)
}

/// The explicit bid override an impression carries, if any.
pub open spec fn spec_ext_bid(imp: Imp) -> Option<i64> {
    match imp.ext {
        Some(e) => match e.mocktioneer {
            Some(m) => m.bid,
            None => None,
        },
        None => None,
    }
}

/// Reads the explicit bid override from an impression's extension.
pub fn ext_bid(imp: &Imp) -> (r: Option<i64>)
    ensures
        r == spec_ext_bid(*imp),
{
    match &imp.ext {
        Some(e) => match &e.mocktioneer {
            Some(m) => m.bid,
            None => None,
        },
        None => None,
    }
}

} // verus!
