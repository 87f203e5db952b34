//! The first frame of a client: which backend it wants, the session key it
//! will be known by, and its signature over the two.

use crate::bytes::copy_bytes;
use crate::ident::{BackendAddress, BackendModel, ClientId};
use crate::keys::{ed25519_verifies, signature_verifies};
use crate::wire::{
    be_bytes, be_value, field, lemma_be_bytes_len, lemma_be_bytes_of_value, lemma_be_round_trip,
    lemma_be_value_bound, lemma_spans, put_field, read_number, MAX_FIELD_LEN,
};
use vstd::prelude::*;

verus! {

/// A handshake, as plain values.
pub struct HandshakeModel {
    pub backend: BackendModel,
    pub session_key: Seq<u8>,
    pub signature: Seq<u8>,
}

/// What a client sends first.
#[derive(Clone, Debug, PartialEq, Eq)]
pub struct Handshake {
    pub backend: BackendAddress,
    pub session_key: Vec<u8>,
    pub signature: Vec<u8>,
}

impl View for Handshake {
    type V = HandshakeModel;

    open spec fn view(&self) -> HandshakeModel {
        HandshakeModel {
            backend: self.backend@,
            session_key: self.session_key@,
            signature: self.signature@,
        }
    }
}

impl HandshakeModel {
    /// Whether each part is short enough for a field.
    pub open spec fn fits(self) -> bool {
        &&& self.backend.location.len() <= MAX_FIELD_LEN
        &&& self.backend.principal.len() <= MAX_FIELD_LEN
        &&& self.session_key.len() <= MAX_FIELD_LEN
        &&& self.signature.len() <= MAX_FIELD_LEN
    }

    /// The bytes that the client signs: the backend's location, its
    /// principal and the session key, each as a field.
    pub open spec fn signed_payload(self) -> Seq<u8> {
        field(self.backend.location) + field(self.backend.principal) + field(self.session_key)
    }

    /// The handshake as it stands on the stream: the signed bytes, then
    /// the signature as a field.
    pub open spec fn encoding(self) -> Seq<u8> {
        self.signed_payload() + field(self.signature)
    }

    /// Whether the signature is the client's own over the signed bytes.
    pub open spec fn signed(self) -> bool {
        ed25519_verifies(self.session_key, self.signed_payload(), self.signature)
    }

    /// Whether the handshake names a backend that can exist, in parts that
    /// fit their fields.
    pub open spec fn well_formed(self) -> bool {
        self.backend.well_formed() && self.fits()
    }

    /// The client that the handshake introduces.
    pub open spec fn client(self) -> Seq<u8> {
        self.session_key
    }
}

/// The field that starts at `at` in `bytes`, and where the next one
/// starts; nothing where `bytes` ends before the field does.
pub open spec fn field_at(bytes: Seq<u8>, at: int) -> Option<(Seq<u8>, int)> {
    if 0 <= at && at + 2 <= bytes.len() && at + 2 + be_value(bytes.subrange(at, at + 2))
        <= bytes.len() {
        let end = at + 2 + be_value(bytes.subrange(at, at + 2));
        Some((bytes.subrange(at + 2, end), end))
    } else {
        None
    }
}

/// The handshake that `bytes` hold: four fields and nothing behind them.
pub open spec fn parse_handshake(bytes: Seq<u8>) -> Option<HandshakeModel> {
    match field_at(bytes, 0) {
        Some((location, a)) => match field_at(bytes, a) {
            Some((principal, b)) => match field_at(bytes, b) {
                Some((session_key, c)) => match field_at(bytes, c) {
                    Some((signature, d)) => if d == bytes.len() {
                        Some(
                            HandshakeModel {
                                backend: BackendModel { location, principal },
                                session_key,
                                signature,
                            },
                        )
                    } else {
                        None
                    },
                    None => None,
                },
                None => None,
            },
            None => None,
        },
        None => None,
    }
}

/// A field that was written at `at` is read back from there.
pub proof fn lemma_field_at(before: Seq<u8>, content: Seq<u8>, behind: Seq<u8>)
    requires
        content.len() <= MAX_FIELD_LEN,
    ensures
        field_at(before + field(content) + behind, before.len() as int) == Some(
            (content, (before.len() + 2 + content.len()) as int),
        ),
{
    let bytes = before + field(content) + behind;
    let at = before.len() as int;
    lemma_be_bytes_len(content.len(), 2);
    lemma_spans();
    lemma_be_round_trip(content.len(), 2);
    assert(bytes.subrange(at, at + 2) =~= be_bytes(content.len(), 2));
    assert(bytes.subrange(at + 2, at + 2 + content.len()) =~= content);
}

/// A field that is read from `at` is the field of what was read.
pub proof fn lemma_field_at_is_field(bytes: Seq<u8>, at: int)
    requires
        field_at(bytes, at) is Some,
    ensures
        field_at(bytes, at)->Some_0.0.len() <= MAX_FIELD_LEN,
        at + 2 <= field_at(bytes, at)->Some_0.1 <= bytes.len(),
        bytes.subrange(at, field_at(bytes, at)->Some_0.1) == field(field_at(bytes, at)->Some_0.0),
{
    let head = bytes.subrange(at, at + 2);
    let (content, end) = field_at(bytes, at)->Some_0;
    lemma_be_value_bound(head);
    lemma_spans();
    lemma_be_bytes_of_value(head);
    assert(bytes.subrange(at, end) =~= field(content));
}

/// Round trip: a handshake whose parts fit is read back from its encoding.
pub proof fn lemma_handshake_round_trip(h: HandshakeModel)
    requires
        h.fits(),
    ensures
        parse_handshake(h.encoding()) == Some(h),
{
    let e = Seq::<u8>::empty();
    let f1 = field(h.backend.location);
    let f2 = field(h.backend.principal);
    let f3 = field(h.session_key);
    let f4 = field(h.signature);
    let bytes = h.encoding();
    lemma_be_bytes_len(h.backend.location.len(), 2);
    lemma_be_bytes_len(h.backend.principal.len(), 2);
    lemma_be_bytes_len(h.session_key.len(), 2);
    lemma_be_bytes_len(h.signature.len(), 2);
    assert(bytes =~= e + f1 + (f2 + f3 + f4));
    lemma_field_at(e, h.backend.location, f2 + f3 + f4);
    assert(bytes =~= f1 + f2 + (f3 + f4));
    lemma_field_at(f1, h.backend.principal, f3 + f4);
    assert(bytes =~= (f1 + f2) + f3 + f4);
    lemma_field_at(f1 + f2, h.session_key, f4);
    assert(bytes =~= (f1 + f2 + f3) + f4 + e);
    lemma_field_at(f1 + f2 + f3, h.signature, e);
}

/// Only one byte string holds a given handshake: what is read from bytes
/// fits and encodes to those bytes again.
pub proof fn lemma_handshake_canonical(bytes: Seq<u8>)
    requires
        parse_handshake(bytes) is Some,
    ensures
        parse_handshake(bytes)->Some_0.fits(),
        parse_handshake(bytes)->Some_0.encoding() == bytes,
{
    let h = parse_handshake(bytes)->Some_0;
    let a = field_at(bytes, 0)->Some_0.1;
    let b = field_at(bytes, a)->Some_0.1;
    let c = field_at(bytes, b)->Some_0.1;
    let d = field_at(bytes, c)->Some_0.1;
    lemma_field_at_is_field(bytes, 0);
    lemma_field_at_is_field(bytes, a);
    lemma_field_at_is_field(bytes, b);
    lemma_field_at_is_field(bytes, c);
    assert(bytes =~= bytes.subrange(0, a) + bytes.subrange(a, b) + bytes.subrange(b, c)
        + bytes.subrange(c, d));
}

/// Reads the field that starts at `at`.
pub fn read_field(bytes: &[u8], at: usize) -> (r: Option<(Vec<u8>, usize)>)
    ensures
        match r {
            Some((content, end)) => field_at(bytes@, at as int) == Some((content@, end as int)),
            None => field_at(bytes@, at as int) is None,
        },
{
    if at > bytes.len() || bytes.len() - at < 2 {
        return None;
    }
    let len = read_number(bytes, at, 2);
    proof {
        lemma_be_value_bound(bytes@.subrange(at as int, at + 2));
        lemma_spans();
    }
    let len: usize = len as usize;
    if bytes.len() - at - 2 < len {
        return None;
    }
    let start: usize = at + 2;
    let end: usize = start + len;
    let mut content: Vec<u8> = Vec::new();
    let mut i: usize = start;
    while i < end
        invariant
            start <= i <= end <= bytes.len(),
            content@ == bytes@.subrange(start as int, i as int),
        decreases end - i,
    {
        content.push(bytes[i]);
        i += 1;
        assert(content@ =~= bytes@.subrange(start as int, i as int));
    }
    Some((content, end))
}

impl Handshake {
    /// The client that the handshake introduces.
    pub fn client(&self) -> (client: ClientId)
        ensures
            client@ == self@.client(),
    {
        ClientId { key: copy_bytes(self.session_key.as_slice()) }
    }

    /// Whether the handshake names a backend that can exist, in parts that
    /// fit their fields.
    pub fn is_well_formed(&self) -> (ok: bool)
        ensures
            ok == self@.well_formed(),
    {
        self.backend.is_well_formed() && self.backend.location.len() <= MAX_FIELD_LEN
            && self.backend.principal.len() <= MAX_FIELD_LEN && self.session_key.len()
            <= MAX_FIELD_LEN && self.signature.len() <= MAX_FIELD_LEN
    }

    /// The bytes that the client signed, where the parts fit their fields.
    pub fn signed_payload(&self) -> (r: Option<Vec<u8>>)
        ensures
            self@.fits() ==> r is Some && r->Some_0@ == self@.signed_payload(),
            !self@.fits() ==> r is None,
    {
        if self.backend.location.len() > MAX_FIELD_LEN || self.backend.principal.len()
            > MAX_FIELD_LEN || self.session_key.len() > MAX_FIELD_LEN || self.signature.len()
            > MAX_FIELD_LEN {
            return None;
        }
        let mut out: Vec<u8> = Vec::new();
        put_field(&mut out, self.backend.location.as_slice());
        put_field(&mut out, self.backend.principal.as_slice());
        put_field(&mut out, self.session_key.as_slice());
        assert(out@ =~= self@.signed_payload());
        Some(out)
    }

    /// The handshake as it stands on the stream, where the parts fit
    /// their fields.
    pub fn encode(&self) -> (r: Option<Vec<u8>>)
        ensures
            self@.fits() ==> r is Some && r->Some_0@ == self@.encoding(),
            !self@.fits() ==> r is None,
    {
        match self.signed_payload() {
            Some(mut out) => {
                put_field(&mut out, self.signature.as_slice());
                Some(out)
            },
            None => None,
        }
    }

    /// Reads a handshake from the bytes of a client's first frame.
    pub fn decode(bytes: &[u8]) -> (r: Option<Handshake>)
        ensures
            match r {
                Some(h) => parse_handshake(bytes@) == Some(h@),
                None => parse_handshake(bytes@) is None,
            },
    {
        let (location, a) = match read_field(bytes, 0) {
            Some(found) => found,
            None => {
                return None;
            },
        };
        let (principal, b) = match read_field(bytes, a) {
            Some(found) => found,
            None => {
                return None;
            },
        };
        let (session_key, c) = match read_field(bytes, b) {
            Some(found) => found,
            None => {
                return None;
            },
        };
        let (signature, d) = match read_field(bytes, c) {
            Some(found) => found,
            None => {
                return None;
            },
        };
        if d != bytes.len() {
            return None;
        }
        Some(Handshake { backend: BackendAddress { location, principal }, session_key, signature })
    }

    /// Whether the signature is the client's own over the signed bytes.
    /// A handshake whose parts do not fit their fields has no signed
    /// bytes and is not checked.
    pub fn is_signed(&self) -> (ok: bool)
        ensures
            self@.fits() ==> ok == self@.signed(),
            !self@.fits() ==> !ok,
    {
        match self.signed_payload() {
            Some(payload) => signature_verifies(
                self.session_key.as_slice(),
                payload.as_slice(),
                self.signature.as_slice(),
            ),
            None => false,
        }
    }
}

} // verus!
