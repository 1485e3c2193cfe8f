//! The key store: the identity provider's signing keys by key identifier.

use crate::boundary::{rsa_components_accepted, rsa_key, rsa_key_from};
use vstd::prelude::*;

verus! {

/// One key descriptor of the provider's discovery document.
#[derive(Clone, Debug, PartialEq, Eq)]
pub struct KeyDescriptor {
    pub kid: String,
    pub use_: String,
    pub kty: String,
    pub e: String,
    pub n: String,
}

/// A key descriptor as plain text.
pub struct KeyDescriptorView {
    pub kid: Seq<char>,
    pub use_: Seq<char>,
    pub kty: Seq<char>,
    pub e: Seq<char>,
    pub n: Seq<char>,
}

impl View for KeyDescriptor {
    type V = KeyDescriptorView;

    open spec fn view(&self) -> KeyDescriptorView {
        KeyDescriptorView {
            kid: self.kid@,
            use_: self.use_@,
            kty: self.kty@,
            e: self.e@,
            n: self.n@,
        }
    }
}

impl KeyDescriptorView {
    /// Only RSA keys that are declared for signatures are kept.
    pub open spec fn is_signing_key(self) -> bool {
        self.use_ == "sig"@ && self.kty == "RSA"@
    }

    /// The modulus and the exponent that the descriptor gives.
    pub open spec fn components(self) -> RsaComponents {
        RsaComponents { modulus: self.n, exponent: self.e }
    }
}

/// The public components of an RSA key, as the discovery document spells
/// them.
pub struct RsaComponents {
    pub modulus: Seq<char>,
    pub exponent: Seq<char>,
}

/// The views of a list of descriptors.
pub open spec fn descriptor_views(descriptors: Seq<KeyDescriptor>) -> Seq<KeyDescriptorView> {
    Seq::new(descriptors.len(), |i: int| descriptors[i]@)
}

/// The key set that a discovery document describes: the signing keys among
/// its descriptors, a later descriptor replacing an earlier one of the same
/// key identifier.
pub open spec fn described_keys(descriptors: Seq<KeyDescriptorView>) -> Map<
    Seq<char>,
    RsaComponents,
>
    decreases descriptors.len(),
{
    if descriptors.len() == 0 {
        Map::empty()
    } else {
        let earlier = described_keys(descriptors.drop_last());
        let last = descriptors.last();
        if last.is_signing_key() {
            earlier.insert(last.kid, last.components())
        } else {
            earlier
        }
    }
}

/// Whether some descriptor of the document is a signing key of the
/// identifier.
pub open spec fn describes(descriptors: Seq<KeyDescriptorView>, kid: Seq<char>) -> bool {
    exists|i: int|
        0 <= i < descriptors.len() && (#[trigger] descriptors[i]).is_signing_key()
            && descriptors[i].kid == kid
}

/// Whether the descriptor at `i` is the last signing key of the identifier.
pub open spec fn is_last_describing(descriptors: Seq<KeyDescriptorView>, kid: Seq<char>, i: int)
    -> bool {
    &&& 0 <= i < descriptors.len()
    &&& descriptors[i].is_signing_key()
    &&& descriptors[i].kid == kid
    &&& forall|j: int|
        i < j < descriptors.len() ==> !((#[trigger] descriptors[j]).is_signing_key()
            && descriptors[j].kid == kid)
}

/// The index of the last descriptor that is a signing key of the identifier.
pub open spec fn last_describing(descriptors: Seq<KeyDescriptorView>, kid: Seq<char>) -> int {
    choose|i: int| is_last_describing(descriptors, kid, i)
}

/// Whether a document describes at least one signing key, and every signing
/// key in it has components that make a verification key.
pub open spec fn usable(descriptors: Seq<KeyDescriptorView>) -> bool {
    &&& exists|i: int| 0 <= i < descriptors.len() && (#[trigger] descriptors[i]).is_signing_key()
    &&& forall|i: int|
        0 <= i < descriptors.len() && (#[trigger] descriptors[i]).is_signing_key()
            ==> rsa_components_accepted(descriptors[i].n, descriptors[i].e)
}

/// A public verification key of the identity provider: an RSA key that the
/// provider declared for signatures, under its key identifier.
#[derive(Clone, Debug, PartialEq, Eq)]
pub struct SigningKey {
    pub kid: String,
    pub modulus: String,
    pub exponent: String,
}

impl SigningKey {
    /// The modulus and the exponent of the key.
    pub open spec fn components(&self) -> RsaComponents {
        RsaComponents { modulus: self.modulus@, exponent: self.exponent@ }
    }

    /// The key in the form in which signatures are verified under it: the
    /// verification key that its modulus and its exponent make.
    pub(crate) fn decoding_key(&self) -> (key: jsonwebtoken::DecodingKey)
        requires
            rsa_components_accepted(self.modulus@, self.exponent@),
        ensures
            rsa_key_from(self.modulus@, self.exponent@) == Some(key),
    {
        match rsa_key(self.modulus.as_str(), self.exponent.as_str()) {
            Some(key) => key,
            None => vstd::pervasive::unreached(),
        }
    }
}

/// The failure to build a key set: without one nobody can be authenticated.
#[derive(Clone, Copy, Debug, PartialEq, Eq)]
pub struct KeyStoreUnavailable;

/// The current signing keys, by key identifier. A key set is built whole and
/// never changed afterwards; a refresh builds a new one.
pub struct KeySet {
    entries: Vec<SigningKey>,
}

/// The map that a list of keys stands for; of two keys with one identifier
/// the later counts.
pub open spec fn entry_map(entries: Seq<SigningKey>) -> Map<Seq<char>, RsaComponents>
    decreases entries.len(),
{
    if entries.len() == 0 {
        Map::empty()
    } else {
        entry_map(entries.drop_last()).insert(entries.last().kid@, entries.last().components())
    }
}

proof fn lemma_entry_map_step(entries: Seq<SigningKey>, i: int)
    requires
        0 <= i < entries.len(),
    ensures
        entry_map(entries.take(i + 1)) == entry_map(entries.take(i)).insert(
            entries[i].kid@,
            entries[i].components(),
        ),
{
    assert(entries.take(i + 1).drop_last() =~= entries.take(i));
}

proof fn lemma_described_keys_step(descriptors: Seq<KeyDescriptorView>, i: int)
    requires
        0 <= i < descriptors.len(),
    ensures
        described_keys(descriptors.take(i + 1)) == if descriptors[i].is_signing_key() {
            described_keys(descriptors.take(i)).insert(
                descriptors[i].kid,
                descriptors[i].components(),
            )
        } else {
            described_keys(descriptors.take(i))
        },
{
    assert(descriptors.take(i + 1).drop_last() =~= descriptors.take(i));
}

/// The described key set holds an identifier exactly where a signing key of
/// the document has it, with the components of the last such key.
pub proof fn lemma_described_keys(descriptors: Seq<KeyDescriptorView>, kid: Seq<char>)
    ensures
        described_keys(descriptors).contains_key(kid) <==> describes(descriptors, kid),
        describes(descriptors, kid) ==> {
            &&& is_last_describing(descriptors, kid, last_describing(descriptors, kid))
            &&& described_keys(descriptors)[kid] == descriptors[last_describing(
                descriptors,
                kid,
            )].components()
        },
    decreases descriptors.len(),
{
    if descriptors.len() > 0 {
        let front = descriptors.drop_last();
        let last = descriptors.last();
        let n = descriptors.len() - 1;
        lemma_described_keys(front, kid);
        assert(forall|i: int| 0 <= i < front.len() ==> front[i] == descriptors[i]);
        if last.is_signing_key() && last.kid == kid {
            assert(descriptors[n].is_signing_key() && descriptors[n].kid == kid);
            assert(is_last_describing(descriptors, kid, n));
        } else if describes(front, kid) {
            let i = last_describing(front, kid);
            assert(descriptors[i].is_signing_key() && descriptors[i].kid == kid);
            assert(is_last_describing(descriptors, kid, i));
        } else if describes(descriptors, kid) {
            let i = choose|i: int|
                0 <= i < descriptors.len() && (#[trigger] descriptors[i]).is_signing_key()
                    && descriptors[i].kid == kid;
            assert(front[i].is_signing_key() && front[i].kid == kid);
        }
        if describes(descriptors, kid) {
            let chosen = last_describing(descriptors, kid);
            assert(is_last_describing(descriptors, kid, chosen));
            if last.is_signing_key() && last.kid == kid {
                assert(chosen == n);
            } else {
                let i = last_describing(front, kid);
                assert(is_last_describing(front, kid, i));
                if chosen < i {
                    assert(descriptors[i].is_signing_key() && descriptors[i].kid == kid);
                } else if i < chosen {
                    assert(front[chosen].is_signing_key() && front[chosen].kid == kid);
                }
            }
        }
    }
}

impl View for KeySet {
    type V = Map<Seq<char>, RsaComponents>;

    closed spec fn view(&self) -> Map<Seq<char>, RsaComponents> {
        entry_map(self.entries@)
    }
}

impl KeySet {
    /// Every key of a key set has components that make a verification key.
    #[verifier::type_invariant]
    spec fn keys_are_usable(self) -> bool {
        forall|i: int|
            0 <= i < self.entries@.len() ==> rsa_components_accepted(
                (#[trigger] self.entries@[i]).modulus@,
                self.entries@[i].exponent@,
            )
    }

    /// The key published under `kid`, if the set holds one.
    pub fn lookup(&self, kid: &str) -> (found: Option<&SigningKey>)
        ensures
            found is Some <==> self@.contains_key(kid@),
            found matches Some(key) ==> {
                &&& key.kid@ == kid@
                &&& key.components() == self@[kid@]
                &&& rsa_components_accepted(key.modulus@, key.exponent@)
            },
    {
        proof {
            use_type_invariant(self);
        }
        let wanted = kid.to_owned();
        let mut i: usize = self.entries.len();
        proof {
            assert(self.entries@.take(i as int) =~= self.entries@);
        }
        while i > 0
            invariant
                i <= self.entries.len(),
                wanted@ == kid@,
                self.keys_are_usable(),
                self@.contains_key(kid@) <==> entry_map(self.entries@.take(i as int)).contains_key(
                    kid@,
                ),
                self@.contains_key(kid@) ==> self@[kid@] == entry_map(
                    self.entries@.take(i as int),
                )[kid@],
            decreases i,
        {
            i = i - 1;
            proof {
                lemma_entry_map_step(self.entries@, i as int);
            }
            if self.entries[i].kid == wanted {
                return Some(&self.entries[i]);
            }
        }
        None
    }
}

fn is_signing_key(descriptor: &KeyDescriptor) -> (kept: bool)
    ensures
        kept == descriptor@.is_signing_key(),
{
    let sig = "sig".to_owned();
    let rsa = "RSA".to_owned();
    descriptor.use_ == sig && descriptor.kty == rsa
}

/// Builds the key set from the descriptors of a discovery document. Fails
/// where the document describes no signing key, or a signing key whose
/// components make no verification key.
pub fn load_auth_public_keys(descriptors: Vec<KeyDescriptor>) -> (loaded: Result<
    KeySet,
    KeyStoreUnavailable,
>)
    ensures
        loaded is Ok <==> usable(descriptor_views(descriptors@)),
        loaded matches Ok(keys) ==> {
            &&& keys@ == described_keys(descriptor_views(descriptors@))
            &&& forall|kid: Seq<char>| #[trigger]
                keys@.contains_key(kid) <==> describes(descriptor_views(descriptors@), kid)
        },
{
    let ghost all = descriptor_views(descriptors@);
    let mut entries: Vec<SigningKey> = Vec::new();
    let mut i: usize = 0;
    while i < descriptors.len()
        invariant
            i <= descriptors.len(),
            all == descriptor_views(descriptors@),
            entry_map(entries@) == described_keys(all.take(i as int)),
            entries.len() > 0 <==> exists|j: int|
                0 <= j < i && (#[trigger] all[j]).is_signing_key(),
            forall|j: int|
                0 <= j < entries.len() ==> rsa_components_accepted(
                    (#[trigger] entries[j]).modulus@,
                    entries[j].exponent@,
                ),
            forall|j: int|
                0 <= j < i && (#[trigger] all[j]).is_signing_key() ==> rsa_components_accepted(
                    all[j].n,
                    all[j].e,
                ),
        decreases descriptors.len() - i,
    {
        let descriptor = &descriptors[i];
        proof {
            lemma_described_keys_step(all, i as int);
            assert(all[i as int] == descriptor@);
        }
        if is_signing_key(descriptor) {
            match rsa_key(descriptor.n.as_str(), descriptor.e.as_str()) {
                Some(_) => {
                    // The components make a key; the set keeps them as text.
                    let ghost before = entries@;
                    entries.push(
                        SigningKey {
                            kid: descriptor.kid.clone(),
                            modulus: descriptor.n.clone(),
                            exponent: descriptor.e.clone(),
                        },
                    );
                    proof {
                        assert(entries@.drop_last() =~= before);
                    }
                },
                None => {
                    return Err(KeyStoreUnavailable);
                },
            }
        }
        i = i + 1;
    }
    proof {
        assert(all.take(i as int) =~= all);
        assert forall|kid: Seq<char>| #[trigger]
            described_keys(all).contains_key(kid) <==> describes(all, kid) by {
            lemma_described_keys(all, kid);
        }
    }
    if entries.len() == 0 {
        Err(KeyStoreUnavailable)
    } else {
        Ok(KeySet { entries })
    }
}

} // verus!
