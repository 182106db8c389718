use vstd::prelude::*;
use vstd::string::StrSliceExecFns;
use vstd::string::StringSliceAdditionalSpecFns;
use vstd::utf8::encode_utf8;
use crate::request::str_eq;
use crate::roll::hex_encode;
use crate::roll::hex_of;
use crate::roll::sha256;
use crate::roll::sha256_of;

verus! {

/// The name of the account that posts the multiplier notes.
pub const MAIN_KEY_NAME: &'static str = "main";

/// The name of the account that posts the nonce notes.
pub const NONCE_KEY_NAME: &'static str = "nonce";

/// The name of the account that posts game-unrelated updates.
pub const SOCIAL_KEY_NAME: &'static str = "social";

/// The LNURL-pay descriptor served for a name: where to ask for an
/// invoice, the sendable bounds in millisatoshis, and the metadata the
/// invoice commits to. The descriptor's tag is always `payRequest`.
pub struct PayResponse {
    /// The callback URL.
    pub callback: Vec<u8>,
    /// The least amount accepted, in millisatoshis.
    pub min_sendable: u64,
    /// The largest amount accepted, in millisatoshis.
    pub max_sendable: u64,
    /// The LNURL metadata array.
    pub metadata: Vec<u8>,
    /// Whether zap requests are accepted.
    pub allows_nostr: bool,
    /// The public key that signs the zap receipts for this name.
    pub nostr_pubkey: String,
}

/// The LNURL metadata for a name under a domain.
pub open spec fn lnurl_metadata(name: Seq<char>, domain: Seq<char>) -> Seq<u8> {
    "[[\"text/identifier\",\"".spec_bytes() + encode_utf8(name) + "@".spec_bytes() + encode_utf8(
        domain,
    ) + "\"],[\"text/plain\",\"Sats for ".spec_bytes() + encode_utf8(name) + "\"]]".spec_bytes()
}

/// The invoice path for a name: the game path for the main account, the
/// donation path for every other name.
pub open spec fn lnurl_callback_path(name: Seq<char>) -> Seq<u8> {
    if name == "main"@ {
        "get-invoice-for-game".spec_bytes()
    } else {
        "get-invoice-for-zap".spec_bytes()
    }
}

/// The callback URL for a name: the domain, the invoice path, and the
/// hash of the metadata.
pub open spec fn lnurl_callback(name: Seq<char>, domain: Seq<char>) -> Seq<u8> {
    "https://".spec_bytes() + encode_utf8(domain) + "/".spec_bytes() + lnurl_callback_path(name)
        + "/".spec_bytes() + hex_of(sha256_of(lnurl_metadata(name, domain)))
}

/// Builds the LNURL-pay descriptor for a name.
pub fn get_lnurl_pay(
    name: &str,
    domain: &str,
    main_pk: &String,
    nonce_pk: &String,
    social_pk: &String,
) -> (r: PayResponse)
    ensures
        r.min_sendable == 1000,
        r.max_sendable == 11000000000u64,
        r.allows_nostr == true,
        r.metadata@ == lnurl_metadata(name@, domain@),
        r.callback@ == lnurl_callback(name@, domain@),
        name@ == "main"@ ==> r.nostr_pubkey@ == main_pk@,
        name@ == "nonce"@ ==> r.nostr_pubkey@ == nonce_pk@,
        (name@ != "main"@ && name@ != "nonce"@) ==> r.nostr_pubkey@ == social_pk@,
{
    let mut metadata: Vec<u8> = "[[\"text/identifier\",\"".as_bytes_vec();
    let mut name_bytes = name.as_bytes_vec();
    metadata.append(&mut name_bytes);
    let mut at = "@".as_bytes_vec();
    metadata.append(&mut at);
    let mut domain_bytes = domain.as_bytes_vec();
    metadata.append(&mut domain_bytes);
    let mut mid = "\"],[\"text/plain\",\"Sats for ".as_bytes_vec();
    metadata.append(&mut mid);
    let mut name_bytes2 = name.as_bytes_vec();
    metadata.append(&mut name_bytes2);
    let mut tail = "\"]]".as_bytes_vec();
    metadata.append(&mut tail);
    proof {
        assert(metadata@ =~= lnurl_metadata(name@, domain@));
    }
    let hash = sha256(metadata.as_slice());

    let is_main = str_eq(name, MAIN_KEY_NAME);
    let is_nonce = str_eq(name, NONCE_KEY_NAME);
    proof {
        reveal_strlit("main");
        reveal_strlit("nonce");
    }
    let pubkey: String = if is_main {
        main_pk.clone()
    } else if is_nonce {
        nonce_pk.clone()
    } else {
        social_pk.clone()
    };
    let path: &str = if is_main {
        "get-invoice-for-game"
    } else {
        "get-invoice-for-zap"
    };

    let mut callback: Vec<u8> = "https://".as_bytes_vec();
    let mut domain_bytes2 = domain.as_bytes_vec();
    callback.append(&mut domain_bytes2);
    let mut slash = "/".as_bytes_vec();
    callback.append(&mut slash);
    let mut path_bytes = path.as_bytes_vec();
    callback.append(&mut path_bytes);
    let mut slash2 = "/".as_bytes_vec();
    callback.append(&mut slash2);
    let mut hash_hex = hex_encode(hash.as_slice());
    callback.append(&mut hash_hex);
    proof {
        assert(callback@ =~= lnurl_callback(name@, domain@));
    }

    PayResponse {
        callback,
        min_sendable: 1000,
        max_sendable: 11000000000,
        metadata,
        allows_nostr: true,
        nostr_pubkey: pubkey,
    }
}

/// The query of a NIP-05 lookup: the name asked for, if any.
pub struct Nip05QueryParams {
    /// The name to resolve; an empty query asks for every name.
    pub name: Option<String>,
}

/// The NIP-05 response: the names with their public keys, and for each
/// public key the relays it can be found on.
pub struct Nip05Response {
    /// Pairs of name and public key, in hex form.
    pub names: Vec<(String, String)>,
    /// Pairs of public key and the relays it can be found on.
    pub relays: Vec<(String, Vec<String>)>,
}

/// One name resolves to one key and its relays.
pub open spec fn nip05_single(
    r: Nip05Response,
    name: Seq<char>,
    pk: Seq<char>,
    relays: Seq<String>,
) -> bool {
    &&& r.names@.len() == 1
    &&& r.names@[0].0@ == name
    &&& r.names@[0].1@ == pk
    &&& r.relays@.len() == 1
    &&& r.relays@[0].0@ == pk
    &&& r.relays@[0].1@ =~= relays
}

/// An unconstrained lookup resolves all three names.
pub open spec fn nip05_all(
    r: Nip05Response,
    main_pk: Seq<char>,
    nonce_pk: Seq<char>,
    social_pk: Seq<char>,
    relays: Seq<String>,
) -> bool {
    &&& r.names@.len() == 3
    &&& r.names@[0].0@ == "main"@ && r.names@[0].1@ == main_pk
    &&& r.names@[1].0@ == "nonce"@ && r.names@[1].1@ == nonce_pk
    &&& r.names@[2].0@ == "social"@ && r.names@[2].1@ == social_pk
    &&& r.relays@.len() == 3
    &&& r.relays@[0].0@ == main_pk && r.relays@[0].1@ =~= relays
    &&& r.relays@[1].0@ == nonce_pk && r.relays@[1].1@ =~= relays
    &&& r.relays@[2].0@ == social_pk && r.relays@[2].1@ =~= relays
}

/// Resolves a NIP-05 lookup: a known name alone, anything else all three
/// names.
pub fn get_nip05(
    params: &Nip05QueryParams,
    main_pk: &String,
    nonce_pk: &String,
    social_pk: &String,
    relays: &Vec<String>,
) -> (r: Nip05Response)
    ensures
        params.name is None ==> nip05_all(r, main_pk@, nonce_pk@, social_pk@, relays@),
        params.name matches Some(n) ==> {
            &&& (n@ == "main"@ ==> nip05_single(r, "main"@, main_pk@, relays@))
            &&& (n@ == "nonce"@ ==> nip05_single(r, "nonce"@, nonce_pk@, relays@))
            &&& (n@ == "social"@ ==> nip05_single(r, "social"@, social_pk@, relays@))
            &&& ((n@ != "main"@ && n@ != "nonce"@ && n@ != "social"@) ==> nip05_all(
                r,
                main_pk@,
                nonce_pk@,
                social_pk@,
                relays@,
            ))
        },
{
    proof {
        reveal_strlit("main");
        reveal_strlit("nonce");
        reveal_strlit("social");
        assert("main"@.len() == 4);
        assert("nonce"@.len() == 5);
        assert("social"@.len() == 6);
        assert("main"@ != "nonce"@ && "main"@ != "social"@ && "nonce"@ != "social"@);
    }
    match &params.name {
        Some(n) => {
            if str_eq(n.as_str(), MAIN_KEY_NAME) {
                return single_entry("main", main_pk, relays);
            }
            if str_eq(n.as_str(), NONCE_KEY_NAME) {
                return single_entry("nonce", nonce_pk, relays);
            }
            if str_eq(n.as_str(), SOCIAL_KEY_NAME) {
                return single_entry("social", social_pk, relays);
            }
            all_entries(main_pk, nonce_pk, social_pk, relays)
        },
        None => all_entries(main_pk, nonce_pk, social_pk, relays),
    }
}

/// Copies a list of relay URLs, element for element.
fn clone_strings(v: &Vec<String>) -> (r: Vec<String>)
    ensures
        r@ =~= v@,
{
    let mut r: Vec<String> = Vec::new();
    let mut i: usize = 0;
    while i < v.len()
        invariant
            i <= v.len(),
            r@ =~= v@.take(i as int),
        decreases v.len() - i,
    {
        r.push(v[i].clone());
        proof {
            assert(r@ =~= v@.take(i + 1));
        }
        i = i + 1;
    }
    proof {
        assert(v@.take(v@.len() as int) =~= v@);
    }
    r
}

/// Builds the response for one resolved name.
fn single_entry(name: &str, pk: &String, relays: &Vec<String>) -> (r: Nip05Response)
    ensures
        nip05_single(r, name@, pk@, relays@),
{
    let mut names: Vec<(String, String)> = Vec::new();
    names.push((name.to_owned(), pk.clone()));
    let mut relay_pairs: Vec<(String, Vec<String>)> = Vec::new();
    relay_pairs.push((pk.clone(), clone_strings(relays)));
    Nip05Response { names, relays: relay_pairs }
}

/// Builds the response resolving all three names.
fn all_entries(main_pk: &String, nonce_pk: &String, social_pk: &String, relays: &Vec<String>) -> (r:
    Nip05Response)
    ensures
        nip05_all(r, main_pk@, nonce_pk@, social_pk@, relays@),
{
    let mut names: Vec<(String, String)> = Vec::new();
    names.push(("main".to_owned(), main_pk.clone()));
    names.push(("nonce".to_owned(), nonce_pk.clone()));
    names.push(("social".to_owned(), social_pk.clone()));
    let mut relay_pairs: Vec<(String, Vec<String>)> = Vec::new();
    relay_pairs.push((main_pk.clone(), clone_strings(relays)));
    relay_pairs.push((nonce_pk.clone(), clone_strings(relays)));
    relay_pairs.push((social_pk.clone(), clone_strings(relays)));
    Nip05Response { names, relays: relay_pairs }
}

} // verus!
