//! Content certificates and the store that keeps one per artifact name.

use sha2::{Digest, Sha256};
use vstd::prelude::*;

verus! {

/// The lowercase hexadecimal SHA-256 digest of `bytes`.
pub uninterp spec fn sha256_hex(bytes: Seq<u8>) -> Seq<char>;

/// Relies on sha2's `Sha256::digest` and the `LowerHex` rendering of its
/// output: the digest of `bytes`, as lowercase hexadecimal text.
#[verifier::external_body]
fn digest_hex(bytes: &[u8]) -> (r: String)
    ensures
        r@ == sha256_hex(bytes@),
{
    format!("{:x}", Sha256::digest(bytes))
}

/// The digest of the bytes of a file, as recorded in its certificate.
pub fn hash_file(contents: &[u8]) -> (r: String)
    ensures
        r@ == sha256_hex(contents@),
{
    digest_hex(contents)
}

/// Hashing is a function of the bytes alone: equal contents give equal digests.
pub proof fn lemma_hash_stable(a: Seq<u8>, b: Seq<u8>)
    requires
        a == b,
    ensures
        sha256_hex(a) == sha256_hex(b),
{
}

/// What a certificate asserts: the file at `path` had the digest `hash`.
pub ghost struct CertificateView {
    pub hash: Seq<char>,
    pub path: Seq<char>,
}

/// A recorded digest of a file's contents together with the file's path.
#[derive(Clone, Debug)]
pub struct Certificate {
    pub hash: String,
    pub path: String,
}

impl View for Certificate {
    type V = CertificateView;

    open spec fn view(&self) -> CertificateView {
        CertificateView { hash: self.hash@, path: self.path@ }
    }
}

impl Certificate {
    pub fn new(hash: String, path: &String) -> (r: Certificate)
        ensures
            r@ == (CertificateView { hash: hash@, path: path@ }),
    {
        Certificate { hash, path: path.clone() }
    }
}

/// The certificate store seen as a map from artifact name to certificate.
pub open spec fn store_of(entries: Seq<(String, Certificate)>) -> Map<Seq<char>, CertificateView>
    decreases entries.len(),
{
    if entries.len() == 0 {
        Map::empty()
    } else {
        let last = entries.last();
        store_of(entries.drop_last()).insert(last.0@, last.1@)
    }
}

/// Every name in the store is the name of some entry, and conversely.
proof fn lemma_store_keys(entries: Seq<(String, Certificate)>, name: Seq<char>)
    ensures
        store_of(entries).contains_key(name) <==> exists|i: int|
            0 <= i < entries.len() && #[trigger] entries[i].0@ == name,
    decreases entries.len(),
{
    if entries.len() > 0 {
        let prefix = entries.drop_last();
        lemma_store_keys(prefix, name);
        if store_of(entries).contains_key(name) && entries.last().0@ != name {
            let i = choose|i: int| 0 <= i < prefix.len() && #[trigger] prefix[i].0@ == name;
            assert(entries[i].0@ == name);
        }
        if exists|i: int| 0 <= i < entries.len() && #[trigger] entries[i].0@ == name {
            let i = choose|i: int| 0 <= i < entries.len() && #[trigger] entries[i].0@ == name;
            if i < entries.len() - 1 {
                assert(prefix[i].0@ == name);
            }
        }
    }
}

/// Where names are unique, the store maps each entry's name to its certificate.
proof fn lemma_store_value(entries: Seq<(String, Certificate)>, i: int)
    requires
        0 <= i < entries.len(),
        forall|a: int, b: int|
            0 <= a < b < entries.len() ==> entries[a].0@ != entries[b].0@,
    ensures
        store_of(entries).contains_key(entries[i].0@),
        store_of(entries)[entries[i].0@] == entries[i].1@,
    decreases entries.len(),
{
    if i < entries.len() - 1 {
        let prefix = entries.drop_last();
        assert(prefix[i] == entries[i]);
        lemma_store_value(prefix, i);
    }
}

/// Replacing the certificate of an entry, under its own name, updates that name alone.
proof fn lemma_store_update(entries: Seq<(String, Certificate)>, i: int, entry: (String, Certificate))
    requires
        0 <= i < entries.len(),
        entries[i].0@ == entry.0@,
        forall|a: int, b: int|
            0 <= a < b < entries.len() ==> entries[a].0@ != entries[b].0@,
    ensures
        store_of(entries.update(i, entry)) == store_of(entries).insert(entry.0@, entry.1@),
{
    let updated = entries.update(i, entry);
    let before = store_of(entries);
    let after = store_of(updated);
    assert forall|k: Seq<char>| #[trigger] after.contains_key(k) == before.insert(entry.0@, entry.1@).contains_key(k) by {
        lemma_store_keys(entries, k);
        lemma_store_keys(updated, k);
        if k == entry.0@ {
            assert(updated[i].0@ == k);
        }
        if exists|j: int| 0 <= j < entries.len() && #[trigger] entries[j].0@ == k {
            let j = choose|j: int| 0 <= j < entries.len() && #[trigger] entries[j].0@ == k;
            assert(updated[j].0@ == k);
        }
        if exists|j: int| 0 <= j < updated.len() && #[trigger] updated[j].0@ == k {
            let j = choose|j: int| 0 <= j < updated.len() && #[trigger] updated[j].0@ == k;
            if j != i {
                assert(entries[j].0@ == k);
            }
        }
    }
    assert forall|k: Seq<char>| #[trigger] after.contains_key(k) implies after[k] == before.insert(entry.0@, entry.1@)[k] by {
        lemma_store_keys(updated, k);
        let j = choose|j: int| 0 <= j < updated.len() && #[trigger] updated[j].0@ == k;
        lemma_store_value(updated, j);
        if j != i {
            lemma_store_value(entries, j);
        }
    }
    assert(after =~= before.insert(entry.0@, entry.1@));
}

/// Whether a certificate is still borne out by what is on disk: the store has
/// one for `name`, its file exists with `on_disk` as contents, and those
/// contents have the recorded digest.
pub open spec fn certificate_holds(
    store: Map<Seq<char>, CertificateView>,
    name: Seq<char>,
    on_disk: Option<Seq<u8>>,
) -> bool {
    &&& store.contains_key(name)
    &&& on_disk is Some
    &&& sha256_hex(on_disk->0) == store[name].hash
}

/// Whether a certificate for `name` records exactly the digest `hash`.
pub open spec fn certificate_matches(
    store: Map<Seq<char>, CertificateView>,
    name: Seq<char>,
    hash: Seq<char>,
) -> bool {
    store.contains_key(name) && store[name].hash == hash
}

/// The view of optional file contents.
pub open spec fn contents_view(on_disk: Option<&Vec<u8>>) -> Option<Seq<u8>> {
    match on_disk {
        Some(b) => Some(b@),
        None => None,
    }
}

/// The certificate store: one certificate per artifact name.
pub struct Validator {
    certificates: Vec<(String, Certificate)>,
}

impl View for Validator {
    type V = Map<Seq<char>, CertificateView>;

    closed spec fn view(&self) -> Map<Seq<char>, CertificateView> {
        store_of(self.certificates@)
    }
}

impl Validator {
    /// No two entries share a name.
    pub closed spec fn wf(&self) -> bool {
        forall|i: int, j: int|
            0 <= i < j < self.certificates@.len() ==> self.certificates@[i].0@
                != self.certificates@[j].0@
    }

    /// The stored entries, one per name, in no particular order.
    pub fn certificates(&self) -> (r: &Vec<(String, Certificate)>)
        ensures
            store_of(r@) == self@,
    {
        &self.certificates
    }

    pub fn new() -> (r: Validator)
        ensures
            r.wf(),
            r@ == Map::<Seq<char>, CertificateView>::empty(),
    {
        Validator { certificates: Vec::new() }
    }
    /// The index of the entry named `name`, if any.
    fn find(&self, name: &String) -> (r: Option<usize>)
        requires
            self.wf(),
        ensures
            r is Some ==> r->0 < self.certificates@.len() && self.certificates@[r->0 as int].0@
                == name@,
            r is None ==> forall|j: int|
                0 <= j < self.certificates@.len() ==> self.certificates@[j].0@ != name@,
            r is Some <==> self@.contains_key(name@),
    {
        let mut i: usize = 0;
        while i < self.certificates.len()
            invariant
                i <= self.certificates@.len(),
                forall|j: int| 0 <= j < i ==> self.certificates@[j].0@ != name@,
            decreases self.certificates@.len() - i,
        {
            if self.certificates[i].0 == *name {
                proof {
                    lemma_store_keys(self.certificates@, name@);
                }
                return Some(i);
            }
            i = i + 1;
        }
        proof {
            lemma_store_keys(self.certificates@, name@);
        }
        None
    }

    /// The certificate recorded for `name`, if any.
    pub fn get(&self, name: &String) -> (r: Option<&Certificate>)
        requires
            self.wf(),
        ensures
            r is Some <==> self@.contains_key(name@),
            r is Some ==> r->0@ == self@[name@],
    {
        match self.find(name) {
            Some(i) => {
                proof {
                    lemma_store_value(self.certificates@, i as int);
                }
                Some(&self.certificates[i].1)
            },
            None => None,
        }
    }

    /// Records `certificate` for `name`, replacing any certificate it had.
    pub fn add(&mut self, name: String, certificate: Certificate)
        requires
            old(self).wf(),
        ensures
            final(self).wf(),
            final(self)@ == old(self)@.insert(name@, certificate@),
    {
        match self.find(&name) {
            Some(i) => {
                proof {
                    lemma_store_update(self.certificates@, i as int, (name, certificate));
                }
                self.certificates.set(i, (name, certificate));
            },
            None => {
                let ghost before = self.certificates@;
                self.certificates.push((name, certificate));
                assert(self.certificates@.drop_last() =~= before);
            },
        }
    }

    /// Whether the certificate for `name` records exactly the digest `hash`.
    pub fn compare_hash(&self, name: &String, hash: &String) -> (r: bool)
        requires
            self.wf(),
        ensures
            r == certificate_matches(self@, name@, hash@),
    {
        match self.get(name) {
            Some(certificate) => certificate.hash == *hash,
            None => false,
        }
    }

    /// Whether the certificate for `name` still holds of the file it names,
    /// given that file's contents (`None` where the file does not exist).
    pub fn compare(&self, name: &String, on_disk: Option<&Vec<u8>>) -> (r: bool)
        requires
            self.wf(),
        ensures
            r == certificate_holds(self@, name@, contents_view(on_disk)),
    {
        if self.get(name).is_none() {
            return false;
        }
        match on_disk {
            Some(contents) => {
                let hash = hash_file(contents.as_slice());
                self.compare_hash(name, &hash)
            },
            None => false,
        }
    }
}

} // verus!
