use vstd::prelude::*;
use vstd::string::StrSliceExecFns;
use vstd::utf8::decode_utf8;
use vstd::utf8::encode_utf8;

verus! {

/// One tag of a zap-request event, reduced to what the game reads: event
/// references, relay lists and single relays. Everything else is opaque.
pub enum RequestTag {
    Event { event_id: String },
    Relays { urls: Vec<String> },
    Relay { url: String },
    Other,
}

/// A player-supplied zap-request event, reduced to plain values: the
/// author's npub, the event kind, the memo text, the signed serialized
/// form, and the tags.
pub struct ZapRequest {
    /// The author of the request, as a bech32 npub.
    pub pubkey: String,
    /// The event kind; a zap request has kind 9734.
    pub kind: u32,
    /// The memo text of the request.
    pub content: String,
    /// The serialized form of the signed event.
    pub json: String,
    /// The tags of the request.
    pub tags: Vec<RequestTag>,
}

/// The event kind of a zap request.
pub const ZAP_REQUEST_KIND: u32 = 9734;

/// Compares two strings: equal exactly when their characters are equal.
pub fn str_eq(a: &str, b: &str) -> (r: bool)
    ensures
        r == (a@ == b@),
{
    let va = a.as_bytes_vec();
    let vb = b.as_bytes_vec();
    let r = va == vb;
    proof {
        broadcast use vstd::utf8::encode_utf8_decode_utf8;

        if r {
            assert(va@ =~= vb@);
            assert(decode_utf8(encode_utf8(a@)) == a@);
            assert(decode_utf8(encode_utf8(b@)) == b@);
        } else {
            if a@ == b@ {
                assert(va@ =~= vb@);
            }
        }
    }
    r
}

/// The id carried by the first event-reference tag, if any.
pub open spec fn first_event_ref(tags: Seq<RequestTag>) -> Option<Seq<char>>
    decreases tags.len(),
{
    if tags.len() == 0 {
        None
    } else if tags[0] is Event {
        Some(tags[0]->Event_event_id@)
    } else {
        first_event_ref(tags.drop_first())
    }
}

/// Returns the note that the request zaps: the id carried by the first
/// event-reference tag, or nothing when the request references no note.
pub fn get_zapped_note_id(zap_request: &ZapRequest) -> (r: Option<String>)
    ensures
        match r {
            Some(id) => first_event_ref(zap_request.tags@) == Some(id@),
            None => first_event_ref(zap_request.tags@) is None,
        },
{
    let tags = &zap_request.tags;
    proof {
        assert(tags@.skip(0) =~= tags@);
    }
    let mut i: usize = 0;
    while i < tags.len()
        invariant
            i <= tags.len(),
            tags@ == zap_request.tags@,
            first_event_ref(tags@) == first_event_ref(tags@.skip(i as int)),
        decreases tags.len() - i,
    {
        match &tags[i] {
            RequestTag::Event { event_id } => {
                proof {
                    assert(tags@.skip(i as int)[0] == tags@[i as int]);
                    assert(tags@[i as int] is Event);
                    assert(first_event_ref(tags@.skip(i as int)) == Some(
                        tags@[i as int]->Event_event_id@,
                    ));
                }
                let id = event_id.clone();
                proof {
                    assert(first_event_ref(tags@) == Some(id@));
                }
                return Some(id);
            },
            _ => {
                proof {
                    assert(tags@.skip(i as int)[0] == tags@[i as int]);
                    assert(tags@.skip(i as int).drop_first() =~= tags@.skip(i + 1));
                }
                i = i + 1;
            },
        }
    }
    proof {
        assert(tags@.skip(tags@.len() as int).len() == 0);
    }
    None
}

/// The relay URLs named by the tags, in order of appearance, with relay
/// lists flattened.
pub open spec fn relays_of(tags: Seq<RequestTag>) -> Seq<Seq<char>>
    decreases tags.len(),
{
    if tags.len() == 0 {
        Seq::empty()
    } else {
        relays_of(tags.drop_last()) + (match tags.last() {
            RequestTag::Relays { urls } => urls@.map_values(|u: String| u@),
            RequestTag::Relay { url } => seq![url@],
            _ => Seq::empty(),
        })
    }
}

/// Collects the relay URLs that the request names in its tags, in order.
pub fn get_relays(zap_request: &ZapRequest) -> (r: Vec<String>)
    ensures
        r@.map_values(|u: String| u@) =~= relays_of(zap_request.tags@),
{
    let tags = &zap_request.tags;
    let mut r: Vec<String> = Vec::new();
    let mut i: usize = 0;
    while i < tags.len()
        invariant
            i <= tags.len(),
            r@.map_values(|u: String| u@) =~= relays_of(tags@.take(i as int)),
        decreases tags.len() - i,
    {
        proof {
            assert(tags@.take(i + 1).drop_last() =~= tags@.take(i as int));
            assert(tags@.take(i + 1).last() == tags@[i as int]);
        }
        match &tags[i] {
            RequestTag::Relays { urls } => {
                let mut j: usize = 0;
                while j < urls.len()
                    invariant
                        j <= urls.len(),
                        r@.map_values(|u: String| u@) =~= relays_of(tags@.take(i as int))
                            + urls@.take(j as int).map_values(|u: String| u@),
                    decreases urls.len() - j,
                {
                    let ghost r_prev = r@;
                    r.push(urls[j].clone());
                    proof {
                        assert(r@ =~= r_prev.push(urls@[j as int]));
                        assert(r@.map_values(|u: String| u@) =~= r_prev.map_values(
                            |u: String| u@,
                        ).push(urls@[j as int]@));
                        assert(urls@.take(j + 1).map_values(|u: String| u@) =~= urls@.take(
                            j as int,
                        ).map_values(|u: String| u@).push(urls@[j as int]@));
                    }
                    j = j + 1;
                }
                proof {
                    assert(urls@.take(urls@.len() as int) =~= urls@);
                }
            },
            RequestTag::Relay { url } => {
                let ghost r_prev = r@;
                r.push(url.clone());
                proof {
                    assert(r@ =~= r_prev.push(tags@[i as int]->Relay_url));
                    assert(r@.map_values(|u: String| u@) =~= r_prev.map_values(
                        |u: String| u@,
                    ).push(tags@[i as int]->Relay_url@));
                }
            },
            _ => {},
        }
        proof {
            assert(r@.map_values(|u: String| u@) =~= relays_of(tags@.take(i + 1)));
        }
        i = i + 1;
    }
    proof {
        assert(tags@.take(tags@.len() as int) =~= tags@);
    }
    r
}

} // verus!
