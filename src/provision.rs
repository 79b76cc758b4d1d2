//! The decisions of a provisioning pass: which dependencies to fetch, and the
//! certificates that fetched files earn.

use crate::hash::{
    certificate_holds, contents_view, hash_file, sha256_hex, Certificate, CertificateView,
    Validator,
};
use crate::manifest::{dependency_path, Dependency, Platform};
use vstd::prelude::*;

verus! {

/// A dependency that has to be fetched from `url` and written to `path`.
#[derive(Clone, Debug)]
pub struct Download {
    pub name: String,
    pub url: String,
    pub path: String,
}

/// Decides whether `dependency` has to be fetched, given the contents of the
/// file that its certificate names (`None` where there is no such file).
pub fn plan_dependency(
    validator: &Validator,
    dependency: &Dependency,
    platform: &Platform,
    on_disk: Option<&Vec<u8>>,
) -> (r: Option<Download>)
    requires
        validator.wf(),
    ensures
        r is None <==> certificate_holds(validator@, dependency.name@, contents_view(on_disk)),
        r is Some ==> r->0.name@ == dependency.name@ && r->0.url@ == dependency.url@ && r->0.path@
            == dependency_path(platform.directory@, dependency.name@),
{
    if validator.compare(&dependency.name, on_disk) {
        None
    } else {
        Some(
            Download {
                name: dependency.name.clone(),
                url: dependency.url.clone(),
                path: dependency.get_path(platform),
            },
        )
    }
}

/// The certificate for a dependency whose file was just written with `contents`.
pub fn certify_download(
    dependency: &Dependency,
    platform: &Platform,
    contents: &Vec<u8>,
) -> (r: Certificate)
    ensures
        r@ == (CertificateView {
            hash: sha256_hex(contents@),
            path: dependency_path(platform.directory@, dependency.name@),
        }),
{
    let path = dependency.get_path(platform);
    Certificate::new(hash_file(contents.as_slice()), &path)
}

/// Records the certificate of a dependency whose file was just written with
/// `contents`, replacing the one it had.
pub fn record_download(
    validator: &mut Validator,
    dependency: &Dependency,
    platform: &Platform,
    contents: &Vec<u8>,
)
    requires
        old(validator).wf(),
    ensures
        final(validator).wf(),
        final(validator)@ == old(validator)@.insert(
            dependency.name@,
            CertificateView {
                hash: sha256_hex(contents@),
                path: dependency_path(platform.directory@, dependency.name@),
            },
        ),
{
    let certificate = certify_download(dependency, platform, contents);
    validator.add(dependency.name.clone(), certificate);
}

/// What a provisioning pass acts on: the certificate store, the files on disk
/// by path, and how many dependencies have been fetched.
pub ghost struct PassState {
    pub store: Map<Seq<char>, CertificateView>,
    pub disk: Map<Seq<char>, Seq<u8>>,
    pub downloads: nat,
}

/// The contents of the file that the certificate for `name` names, if both exist.
pub open spec fn certified_contents(
    store: Map<Seq<char>, CertificateView>,
    disk: Map<Seq<char>, Seq<u8>>,
    name: Seq<char>,
) -> Option<Seq<u8>> {
    if store.contains_key(name) && disk.contains_key(store[name].path) {
        Some(disk[store[name].path])
    } else {
        None
    }
}

/// One dependency's turn in a pass: nothing happens while its certificate
/// holds; otherwise the bytes fetched from its address are written to its
/// path and certified there.
pub open spec fn provision_step(
    state: PassState,
    directory: Seq<char>,
    dependency: Dependency,
    fetch: spec_fn(Seq<char>) -> Seq<u8>,
) -> PassState {
    let name = dependency.name@;
    if certificate_holds(state.store, name, certified_contents(state.store, state.disk, name)) {
        state
    } else {
        let contents = fetch(dependency.url@);
        let path = dependency_path(directory, name);
        PassState {
            store: state.store.insert(name, CertificateView { hash: sha256_hex(contents), path }),
            disk: state.disk.insert(path, contents),
            downloads: state.downloads + 1,
        }
    }
}

/// A provisioning pass over `dependencies`, in declared order.
pub open spec fn provision_pass(
    state: PassState,
    directory: Seq<char>,
    dependencies: Seq<Dependency>,
    fetch: spec_fn(Seq<char>) -> Seq<u8>,
) -> PassState
    decreases dependencies.len(),
{
    if dependencies.len() == 0 {
        state
    } else {
        provision_step(
            provision_pass(state, directory, dependencies.drop_last(), fetch),
            directory,
            dependencies.last(),
            fetch,
        )
    }
}

/// Every certificate in `store` names the file its dependency is stored in.
pub open spec fn paths_derived(store: Map<Seq<char>, CertificateView>, directory: Seq<char>) -> bool {
    forall|name: Seq<char>| #[trigger]
        store.contains_key(name) ==> store[name].path == dependency_path(directory, name)
}

/// Within one directory, distinct dependency names give distinct paths.
pub proof fn lemma_path_injective(directory: Seq<char>, a: Seq<char>, b: Seq<char>)
    requires
        dependency_path(directory, a) == dependency_path(directory, b),
    ensures
        a == b,
{
    let pa = dependency_path(directory, a);
    let pb = dependency_path(directory, b);
    let start: int = (directory.len() + "/"@.len()) as int;
    assert(pa.len() == directory.len() + "/"@.len() + a.len() + ".jar"@.len());
    assert(pb.len() == directory.len() + "/"@.len() + b.len() + ".jar"@.len());
    assert(a.len() == b.len());
    assert(pa.subrange(start, start + a.len() as int) =~= a);
    assert(pb.subrange(start, start + b.len() as int) =~= b);
}

/// A dependency path is a function of the directory and the name alone.
pub proof fn lemma_path_deterministic(
    directory: Seq<char>,
    name: Seq<char>,
    directory2: Seq<char>,
    name2: Seq<char>,
)
    requires
        directory == directory2,
        name == name2,
    ensures
        dependency_path(directory, name) == dependency_path(directory2, name2),
{
}

/// A certificate whose file was changed to contents of another digest no longer holds.
pub proof fn lemma_altered_file_invalid(
    store: Map<Seq<char>, CertificateView>,
    name: Seq<char>,
    certified: Seq<u8>,
    altered: Seq<u8>,
)
    requires
        store.contains_key(name),
        store[name].hash == sha256_hex(certified),
        sha256_hex(altered) != sha256_hex(certified),
    ensures
        !certificate_holds(store, name, Some(altered)),
{
}

/// A certificate whose file is gone no longer holds.
pub proof fn lemma_missing_file_invalid(store: Map<Seq<char>, CertificateView>, name: Seq<char>)
    ensures
        !certificate_holds(store, name, None),
{
}

/// After a pass, every dependency it covered has a certificate that holds,
/// and certificates still name their dependencies' paths.
proof fn lemma_pass_certifies(
    state: PassState,
    directory: Seq<char>,
    dependencies: Seq<Dependency>,
    fetch: spec_fn(Seq<char>) -> Seq<u8>,
)
    requires
        paths_derived(state.store, directory),
    ensures
        ({
            let end = provision_pass(state, directory, dependencies, fetch);
            &&& paths_derived(end.store, directory)
            &&& forall|i: int|
                0 <= i < dependencies.len() ==> certificate_holds(
                    end.store,
                    #[trigger] dependencies[i].name@,
                    certified_contents(end.store, end.disk, dependencies[i].name@),
                )
        }),
    decreases dependencies.len(),
{
    if dependencies.len() > 0 {
        let prefix = dependencies.drop_last();
        lemma_pass_certifies(state, directory, prefix, fetch);
        let end = provision_pass(state, directory, dependencies, fetch);
        let last = dependencies.last();
        let name = last.name@;
        assert forall|i: int| 0 <= i < dependencies.len() implies certificate_holds(
            end.store,
            #[trigger] dependencies[i].name@,
            certified_contents(end.store, end.disk, dependencies[i].name@),
        ) by {
            let other = dependencies[i].name@;
            if i < dependencies.len() - 1 {
                assert(prefix[i] == dependencies[i]);
                if other != name && dependency_path(directory, other) == dependency_path(
                    directory,
                    name,
                ) {
                    lemma_path_injective(directory, other, name);
                }
            }
        }
    }
}

/// A pass over dependencies whose certificates all hold changes nothing.
proof fn lemma_pass_settled(
    state: PassState,
    directory: Seq<char>,
    dependencies: Seq<Dependency>,
    fetch: spec_fn(Seq<char>) -> Seq<u8>,
)
    requires
        forall|i: int|
            0 <= i < dependencies.len() ==> certificate_holds(
                state.store,
                #[trigger] dependencies[i].name@,
                certified_contents(state.store, state.disk, dependencies[i].name@),
            ),
    ensures
        provision_pass(state, directory, dependencies, fetch) == state,
    decreases dependencies.len(),
{
    if dependencies.len() > 0 {
        let prefix = dependencies.drop_last();
        assert forall|i: int| 0 <= i < prefix.len() implies certificate_holds(
            state.store,
            #[trigger] prefix[i].name@,
            certified_contents(state.store, state.disk, prefix[i].name@),
        ) by {
            assert(prefix[i] == dependencies[i]);
        }
        lemma_pass_settled(state, directory, prefix, fetch);
    }
}

/// Running a pass twice in a row, with nothing changed in between, fetches
/// nothing the second time and leaves the store and the files as the first
/// pass left them, provided every certificate the store starts with names its
/// dependency's path.
pub proof fn lemma_pass_idempotent(
    store: Map<Seq<char>, CertificateView>,
    disk: Map<Seq<char>, Seq<u8>>,
    directory: Seq<char>,
    dependencies: Seq<Dependency>,
    fetch: spec_fn(Seq<char>) -> Seq<u8>,
)
    requires
        paths_derived(store, directory),
    ensures
        ({
            let first = provision_pass(PassState { store, disk, downloads: 0 }, directory, dependencies, fetch);
            let second = provision_pass(
                PassState { store: first.store, disk: first.disk, downloads: 0 },
                directory,
                dependencies,
                fetch,
            );
            &&& second.downloads == 0
            &&& second.store == first.store
            &&& second.disk == first.disk
        }),
{
    let first = provision_pass(PassState { store, disk, downloads: 0 }, directory, dependencies, fetch);
    lemma_pass_certifies(PassState { store, disk, downloads: 0 }, directory, dependencies, fetch);
    lemma_pass_settled(
        PassState { store: first.store, disk: first.disk, downloads: 0 },
        directory,
        dependencies,
        fetch,
    );
}

} // verus!
