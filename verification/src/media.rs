//! Clipboard image attachments: mime-type selection and wire encoding.
//!
//! The surrounding program reads the clipboard's offered mime types and
//! raw image bytes; which type to prefer, how to normalize it, and how the
//! bytes appear on the wire are decided here.

use vstd::prelude::*;

use crate::handler::{EventHandler, sp_trim};
use crate::types::RpcImageAttachment;

verus! {

broadcast use vstd::seq::group_seq_axioms;

/// ASCII lower case, byte for byte.
pub open spec fn ascii_lower(s: Seq<u8>) -> Seq<u8> {
    s.map_values(|b: u8| if 0x41 <= b <= 0x5a { (b + 0x20) as u8 } else { b })
}

/// The first semicolon-separated field of a mime type, trimmed and lower
/// cased: `image/PNG; q=1` normalizes to `image/png`.
pub open spec fn sp_normalize_mime(s: Seq<u8>) -> Seq<u8> {
    let head = match crate::handler::sp_find(s, 0, 0x3b) {
        Some(d) => s.take(d as int),
        None => s,
    };
    ascii_lower(sp_trim(head))
}

/// The normalized type starts with `image/`.
pub open spec fn is_image_mime(s: Seq<u8>) -> bool {
    sp_normalize_mime(s).take(6) == seq![0x69u8, 0x6d, 0x61, 0x67, 0x65, 0x2f]
        && sp_normalize_mime(s).len() >= 6
}

/// Normalizes a mime type for comparison and for the wire.
pub fn normalize_image_mime_type(s: &[u8]) -> (r: Vec<u8>)
    ensures
        r@ == sp_normalize_mime(s@),
{
    let head = match EventHandler::find_byte(s, 0, 0x3b) {
        Some(d) => crate::json::copy_range(s, 0, d),
        None => crate::json::copy_range(s, 0, s.len()),
    };
    proof {
        if crate::handler::sp_find(s@, 0, 0x3b) is None {
            assert(head@ =~= s@);
        }
    }
    let trimmed = EventHandler::trim(head.as_slice());
    let mut out: Vec<u8> = Vec::new();
    let mut i: usize = 0;
    assert(out@ =~= ascii_lower(trimmed@.take(0)));
    while i < trimmed.len()
        invariant
            i <= trimmed@.len(),
            out@ == ascii_lower(trimmed@.take(i as int)),
        decreases trimmed@.len() - i,
    {
        let b = trimmed[i];
        out.push(if 0x41 <= b && b <= 0x5a { b + 0x20 } else { b });
        i += 1;
        assert(out@ =~= ascii_lower(trimmed@.take(i as int)));
    }
    assert(trimmed@.take(trimmed@.len() as int) =~= trimmed@);
    out
}

/// What `hex` of the attachment data looks like is not at issue here; the
/// base64 transfer encoding of the image bytes is named, a function of the
/// bytes alone.
pub uninterp spec fn b64_of(data: Seq<u8>) -> Seq<u8>;

/// Relies on base64's standard engine (`Engine::encode` with the standard
/// alphabet, padded): four output characters for every three input bytes,
/// rounded up, determined by the input alone.
#[verifier::external_body]
fn b64_encode(data: &[u8]) -> (r: Vec<u8>)
    ensures
        r@ == b64_of(data@),
        r@.len() == ((data@.len() + 2) / 3) * 4,
{
    base64::Engine::encode(&base64::engine::general_purpose::STANDARD, data).into_bytes()
}

/// The attachment for one clipboard image: the fixed discriminator, the
/// base64 of the bytes, and the normalized mime type.
pub fn attachment_from_clipboard(mime: &[u8], bytes: &[u8]) -> (r: RpcImageAttachment)
    ensures
        r.kind@ == seq![0x69u8, 0x6d, 0x61, 0x67, 0x65],
        r.data@ == b64_of(bytes@),
        r.mime_type@ == sp_normalize_mime(mime@),
{
    let kind = vec![0x69u8, 0x6d, 0x61, 0x67, 0x65];
    RpcImageAttachment {
        kind,
        data: b64_encode(bytes),
        mime_type: normalize_image_mime_type(mime),
    }
}

/// The fixed preference order for clipboard image types.
pub open spec fn preferred_mimes() -> Seq<Seq<u8>> {
    seq![
        // image/png
        seq![0x69u8, 0x6d, 0x61, 0x67, 0x65, 0x2f, 0x70, 0x6e, 0x67],
        // image/jpeg
        seq![0x69u8, 0x6d, 0x61, 0x67, 0x65, 0x2f, 0x6a, 0x70, 0x65, 0x67],
        // image/webp
        seq![0x69u8, 0x6d, 0x61, 0x67, 0x65, 0x2f, 0x77, 0x65, 0x62, 0x70],
        // image/gif
        seq![0x69u8, 0x6d, 0x61, 0x67, 0x65, 0x2f, 0x67, 0x69, 0x66],
        // image/bmp
        seq![0x69u8, 0x6d, 0x61, 0x67, 0x65, 0x2f, 0x62, 0x6d, 0x70],
        // image/x-ms-bmp
        seq![0x69u8, 0x6d, 0x61, 0x67, 0x65, 0x2f, 0x78, 0x2d, 0x6d, 0x73, 0x2d, 0x62, 0x6d, 0x70],
    ]
}

/// The first offered type that normalizes to the preferred entry.
pub open spec fn first_matching(types: Seq<Seq<u8>>, preferred: Seq<u8>) -> Option<Seq<u8>>
    decreases types.len(),
{
    if types.len() == 0 {
        None
    } else if sp_normalize_mime(types[0]) == preferred {
        Some(types[0])
    } else {
        first_matching(types.drop_first(), preferred)
    }
}

/// The first offered type that is an image type at all.
pub open spec fn first_image(types: Seq<Seq<u8>>) -> Option<Seq<u8>>
    decreases types.len(),
{
    if types.len() == 0 {
        None
    } else if is_image_mime(types[0]) {
        Some(types[0])
    } else {
        first_image(types.drop_first())
    }
}

/// The offered type to read: the first preferred match in preference
/// order, else the first image type of any kind.
pub open spec fn sp_pick_mime(types: Seq<Seq<u8>>) -> Option<Seq<u8>>
    decreases preferred_mimes().len(),
{
    sp_pick_from(types, 0)
}

pub open spec fn sp_pick_from(types: Seq<Seq<u8>>, p: nat) -> Option<Seq<u8>>
    decreases preferred_mimes().len() - p,
{
    if p >= preferred_mimes().len() {
        first_image(types)
    } else {
        match first_matching(types, preferred_mimes()[p as int]) {
            Some(t) => Some(t),
            None => sp_pick_from(types, p + 1),
        }
    }
}

/// Picks the clipboard type to read.
pub fn pick_preferred_image_mime_type(types: &Vec<Vec<u8>>) -> (r: Option<Vec<u8>>)
    ensures
        match r {
            Some(t) => sp_pick_mime(types.deep_view()) == Some(t@),
            None => sp_pick_mime(types.deep_view()) is None,
        },
{
    let mut preferred: Vec<Vec<u8>> = Vec::new();
    preferred.push(vec![0x69u8, 0x6d, 0x61, 0x67, 0x65, 0x2f, 0x70, 0x6e, 0x67]);
    preferred.push(vec![0x69u8, 0x6d, 0x61, 0x67, 0x65, 0x2f, 0x6a, 0x70, 0x65, 0x67]);
    preferred.push(vec![0x69u8, 0x6d, 0x61, 0x67, 0x65, 0x2f, 0x77, 0x65, 0x62, 0x70]);
    preferred.push(vec![0x69u8, 0x6d, 0x61, 0x67, 0x65, 0x2f, 0x67, 0x69, 0x66]);
    preferred.push(vec![0x69u8, 0x6d, 0x61, 0x67, 0x65, 0x2f, 0x62, 0x6d, 0x70]);
    preferred.push(
        vec![0x69u8, 0x6d, 0x61, 0x67, 0x65, 0x2f, 0x78, 0x2d, 0x6d, 0x73, 0x2d, 0x62, 0x6d, 0x70],
    );
    assert(preferred.deep_view() =~~= preferred_mimes());
    let mut p: usize = 0;
    while p < preferred.len()
        invariant
            p <= preferred@.len(),
            preferred.deep_view() == preferred_mimes(),
            preferred.deep_view().len() == preferred@.len(),
            forall|k: int| 0 <= k < preferred@.len()
                ==> preferred.deep_view()[k] == #[trigger] preferred@[k]@,
            sp_pick_mime(types.deep_view()) == sp_pick_from(types.deep_view(), p as nat),
        decreases preferred@.len() - p,
    {
        match find_matching(types, preferred[p].as_slice()) {
            Some(t) => {
                return Some(t);
            },
            None => {},
        }
        p += 1;
    }
    find_first_image(types)
}

fn find_matching(types: &Vec<Vec<u8>>, preferred: &[u8]) -> (r: Option<Vec<u8>>)
    ensures
        match r {
            Some(t) => first_matching(types.deep_view(), preferred@) == Some(t@),
            None => first_matching(types.deep_view(), preferred@) is None,
        },
{
    let mut i: usize = 0;
    assert(types.deep_view().skip(0) =~= types.deep_view());
    while i < types.len()
        invariant
            i <= types@.len(),
            types.deep_view().len() == types@.len(),
            forall|k: int| 0 <= k < types@.len()
                ==> types.deep_view()[k] == #[trigger] types@[k]@,
            first_matching(types.deep_view(), preferred@) == first_matching(
                types.deep_view().skip(i as int),
                preferred@,
            ),
        decreases types@.len() - i,
    {
        proof {
            assert(types.deep_view().skip(i as int)[0] == types@[i as int]@);
            assert(types.deep_view().skip(i as int).drop_first() =~= types.deep_view().skip(
                i + 1,
            ));
        }
        let norm = normalize_image_mime_type(types[i].as_slice());
        if crate::json::bytes_eq(norm.as_slice(), preferred) {
            return Some(crate::handler::EventHandler::clone_bytes(&types[i]));
        }
        i += 1;
    }
    assert(types.deep_view().skip(types@.len() as int) =~= Seq::<Seq<u8>>::empty());
    None
}

fn find_first_image(types: &Vec<Vec<u8>>) -> (r: Option<Vec<u8>>)
    ensures
        match r {
            Some(t) => first_image(types.deep_view()) == Some(t@),
            None => first_image(types.deep_view()) is None,
        },
{
    let prefix = vec![0x69u8, 0x6d, 0x61, 0x67, 0x65, 0x2f];
    let mut i: usize = 0;
    assert(types.deep_view().skip(0) =~= types.deep_view());
    while i < types.len()
        invariant
            prefix@ == seq![0x69u8, 0x6d, 0x61, 0x67, 0x65, 0x2f],
            i <= types@.len(),
            types.deep_view().len() == types@.len(),
            forall|k: int| 0 <= k < types@.len()
                ==> types.deep_view()[k] == #[trigger] types@[k]@,
            first_image(types.deep_view()) == first_image(types.deep_view().skip(i as int)),
        decreases types@.len() - i,
    {
        proof {
            assert(types.deep_view().skip(i as int)[0] == types@[i as int]@);
            assert(types.deep_view().skip(i as int).drop_first() =~= types.deep_view().skip(
                i + 1,
            ));
        }
        let norm = normalize_image_mime_type(types[i].as_slice());
        if norm.len() >= 6 {
            let head = crate::json::copy_range(norm.as_slice(), 0, 6);
            if crate::json::bytes_eq(head.as_slice(), prefix.as_slice()) {
                assert(sp_normalize_mime(types@[i as int]@).take(6) =~= head@);
                return Some(crate::handler::EventHandler::clone_bytes(&types[i]));
            }
            assert(!is_image_mime(types@[i as int]@)) by {
                assert(sp_normalize_mime(types@[i as int]@).take(6) =~= head@);
            }
        } else {
            assert(!is_image_mime(types@[i as int]@));
        }
        i += 1;
    }
    assert(types.deep_view().skip(types@.len() as int) =~= Seq::<Seq<u8>>::empty());
    None
}

} // verus!
