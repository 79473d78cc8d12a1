//! The handshake processor: collecting header fields reported by the
//! external tokenizer, computing the accept token, and building the
//! switching-protocols response.

use rustc_serialize::base64::{STANDARD, ToBase64};
use sha1::{Digest, Sha1};
use vstd::prelude::*;
use vstd::string::StrSliceExecFns;
use vstd::string::StringExecFns;
use vstd::utf8::encode_utf8;

verus! {

/// The SHA-1 digest of a byte string.
pub uninterp spec fn sha1_of(data: Seq<u8>) -> Seq<u8>;

/// The base64 text of a byte string, in the standard padded alphabet.
pub uninterp spec fn base64_of(data: Seq<u8>) -> Seq<char>;

/// Relies on sha1::Sha1 through the digest interface: the SHA-1 digest of
/// the input bytes alone, 160 bits (20 bytes) long.
#[verifier::external_body]
fn sha1_digest(data: &Vec<u8>) -> (r: Vec<u8>)
    ensures
        r@ == sha1_of(data@),
        r@.len() == 20,
{
    let mut h = Sha1::new();
    h.update(data.as_slice());
    h.finalize().to_vec()
}

/// Relies on rustc_serialize::base64::ToBase64 with the STANDARD config:
/// RFC 4648 base64 text of the input bytes alone, padded and on one line
/// (the config names no line length).
#[verifier::external_body]
fn base64_encode(data: &Vec<u8>) -> (r: String)
    ensures
        r@ == base64_of(data@),
{
    data.as_slice().to_base64(STANDARD)
}

/// The fixed protocol GUID appended to the client key before hashing.
pub open spec fn guid_chars() -> Seq<char> {
    "258EAFA5-E914-47DA-95CA-C5AB0DC85B11"@
}

/// The accept token owed for a client key: base64 of the SHA-1 digest of the
/// UTF-8 bytes of the key with the protocol GUID appended.
pub open spec fn accept_token(key: Seq<char>) -> Seq<char> {
    base64_of(sha1_of(encode_utf8(key) + encode_utf8(guid_chars())))
}

/// Computes the handshake accept token for the client's key. This is the
/// handshake's only cryptographic step and must match byte for byte, or the
/// client rejects the upgrade.
pub fn compute_accept(key: &String) -> (r: String)
    ensures
        r@ == accept_token(key@),
{
    let mut data: Vec<u8> = key.as_str().as_bytes_vec();
    let mut guid: Vec<u8> = "258EAFA5-E914-47DA-95CA-C5AB0DC85B11".as_bytes_vec();
    data.append(&mut guid);
    let digest = sha1_digest(&data);
    base64_encode(&digest)
}

/// The full upgrade response for an accept token: the fixed 101 status line
/// and headers, terminated by a blank line, no body.
pub open spec fn response_chars(token: Seq<char>) -> Seq<char> {
    "HTTP/1.1 101 Switching Protocols\r\nConnection: Upgrade\r\nUpgrade: websocket\r\nSec-WebSocket-Accept: "@
        + token + "\r\n\r\n"@
}

/// Builds the literal switching-protocols response around an accept token.
pub fn build_response(token: &String) -> (r: String)
    ensures
        r@ == response_chars(token@),
{
    let mut r = String::from_str(
        "HTTP/1.1 101 Switching Protocols\r\nConnection: Upgrade\r\nUpgrade: websocket\r\nSec-WebSocket-Accept: ",
    );
    r.append(token.as_str());
    r.append("\r\n\r\n");
    r
}

/// What a name resolves to among collected headers: the value of the last
/// entry carrying that name, as a later report of the same field replaces an
/// earlier one.
pub open spec fn header_lookup(entries: Seq<(String, String)>, name: Seq<char>) -> Option<
    Seq<char>,
>
    decreases entries.len(),
{
    if entries.len() == 0 {
        None
    } else if entries.last().0@ == name {
        Some(entries.last().1@)
    } else {
        header_lookup(entries.drop_last(), name)
    }
}

/// The header mapping a connection fills during the handshake, together with
/// the name of the field currently being reported.
pub struct HeaderMap {
    pub entries: Vec<(String, String)>,
    pub pending: Option<String>,
}

impl HeaderMap {
    /// An empty mapping with no field being reported.
    pub fn new() -> (r: HeaderMap)
        ensures
            r.entries@.len() == 0,
            r.pending is None,
    {
        HeaderMap { entries: Vec::new(), pending: None }
    }

    /// The tokenizer reported a field name: remember it until its value
    /// arrives.
    pub fn on_field(&mut self, name: String)
        ensures
            final(self).entries == old(self).entries,
            final(self).pending == Some(name),
    {
        self.pending = Some(name);
    }

    /// The tokenizer reported a value: store it under the remembered name,
    /// which stays remembered, as the tokenizer may split a long value over
    /// several reports of the same field.
    pub fn on_value(&mut self, value: String)
        requires
            old(self).pending is Some,
        ensures
            final(self).entries@ == old(self).entries@.push(
                (old(self).pending.unwrap(), value),
            ),
            final(self).pending == old(self).pending,
    {
        let name = match &self.pending {
            Some(n) => n.clone(),
            None => {
                proof {
                    assert(false);
                }
                String::new()
            },
        };
        self.entries.push((name, value));
    }

    /// Looks a name up, yielding the value the mapping holds for it.
    pub fn get(&self, name: &str) -> (r: Option<String>)
        ensures
            match r {
                Some(v) => header_lookup(self.entries@, name@) == Some(v@),
                None => header_lookup(self.entries@, name@) is None,
            },
    {
        let wanted = String::from_str(name);
        let mut i: usize = self.entries.len();
        proof {
            assert(self.entries@.take(i as int) =~= self.entries@);
        }
        while i > 0
            invariant
                i <= self.entries@.len(),
                wanted@ == name@,
                header_lookup(self.entries@, name@) == header_lookup(
                    self.entries@.take(i as int),
                    name@,
                ),
            decreases i,
        {
            i = i - 1;
            let entry = &self.entries[i];
            proof {
                assert(self.entries@.take(i + 1).last() == self.entries@[i as int]);
                assert(self.entries@.take(i + 1).drop_last() =~= self.entries@.take(i as int));
            }
            if entry.0 == wanted {
                return Some(entry.1.clone());
            }
        }
        proof {
            assert(self.entries@.take(0) =~= Seq::<(String, String)>::empty());
        }
        None
    }
}

} // verus!
