use vstd::prelude::*;

verus! {

use crate::documents::{
    BlockchainDocument,
    BlockchainDocumentBuilder,
    PackageDocumentBuilder,
    PackageDocumentModel,
    spec_document_of_package,
    spec_package_from_document,
    lemma_document_round_trip,
};
use crate::errors::{BlockchainError, CodecError, SelectionError};
use crate::numtext::{parse_u64, u64_to_string, spec_dec_digits, spec_dec_val, spec_is_digits};
use crate::package::{Package, PackageBuilder, PackageModel};
use crate::repositories::{
    BlockchainsRepository,
    PackagesRepository,
    spec_ledger_upsert,
    spec_release_pred,
    spec_maintainer_pred,
    spec_same_key,
    spec_upsert,
    spec_upsert_if_present,
    lemma_upsert_append,
};
use crate::signatures::{spec_verify, verify_package};
use crate::wire::{encode_wire, spec_decode_wire, spec_wire_bytes};
use crate::hexutil::{encode_hex, spec_hex_lower};

// ---------------------------------------------------------------------------
// The package query surface.
// ---------------------------------------------------------------------------
/// Thin query facade over the packages collection, scoped per call to a
/// ledger by its label.
pub struct PackagesService {
    packages_repository: PackagesRepository,
}

impl View for PackagesService {
    type V = Seq<PackageDocumentModel>;

    closed spec fn view(&self) -> Seq<PackageDocumentModel> {
        self.packages_repository@
    }
}

/// A stored row that was built from a well-formed package whose
/// signature verifies.
pub open spec fn spec_doc_trusted(d: PackageDocumentModel) -> bool {
    exists|p: PackageModel, label: Seq<char>|
        p.wf() && p.sig is Some && spec_verify(p) && d == #[trigger] spec_document_of_package(
            p,
            label,
        )
}

/// Every stored row was built from a well-formed signed package.
#[verifier::opaque]
pub open spec fn spec_docs_trusted(s: Seq<PackageDocumentModel>) -> bool {
    forall|i: int| 0 <= i < s.len() ==> spec_doc_trusted(#[trigger] s[i])
}

impl PackagesService {
    /// The store keeps at most one row per composite key.
    pub closed spec fn keys_unique(&self) -> bool {
        self.packages_repository.wf()
    }

    /// The service invariant: unique composite keys, and rows built from
    /// well-formed packages whose signatures verify.
    pub open spec fn wf(&self) -> bool {
        &&& self.keys_unique()
        &&& spec_docs_trusted(self@)
    }

    /// A service over an empty packages collection.
    pub fn new() -> (r: Self)
        ensures
            r@ == Seq::<PackageDocumentModel>::empty(),
            r.wf(),
    {
        let r = PackagesService { packages_repository: PackagesRepository::new() };
        proof {
            reveal(spec_docs_trusted);
        }
        r
    }

    /// Store a new package under a ledger label; its key must be absent.
    pub fn add(&mut self, package: &Package, blockchain_label: &String)
        requires
            old(self).wf(),
            package@.wf(),
            package@.sig is Some,
            spec_verify(package@),
            forall|i: int|
                0 <= i < old(self)@.len() ==> !spec_same_key(
                    #[trigger] old(self)@[i],
                    spec_document_of_package(package@, blockchain_label@),
                ),
        ensures
            final(self)@ == old(self)@ + seq![
                spec_document_of_package(package@, blockchain_label@),
            ],
            final(self).wf(),
    {
        let mut builder = PackageDocumentBuilder::from_package(package, blockchain_label);
        let package_doc = builder.build();
        proof {
            assert(package_doc@ == spec_document_of_package(package@, blockchain_label@));
        }
        self.packages_repository.create(&package_doc);
        proof {
            reveal(spec_docs_trusted);
            assert forall|i: int| 0 <= i < self@.len() implies spec_doc_trusted(
                #[trigger] self@[i],
            ) by {
                if i < old(self)@.len() {
                    assert(self@[i] == old(self)@[i]);
                } else {
                    assert(self@[i] == spec_document_of_package(package@, blockchain_label@));
                }
            }
        }
    }

    /// Whether the store holds a row for this package's composite key.
    pub fn has_package(&self, package: &Package, blockchain_label: &String) -> (r: bool)
        requires
            package@.sig is Some,
        ensures
            r == exists|i: int|
                0 <= i < self@.len() && spec_same_key(
                    #[trigger] self@[i],
                    spec_document_of_package(package@, blockchain_label@),
                ),
    {
        let mut builder = PackageDocumentBuilder::from_package(package, blockchain_label);
        let doc = builder.build();
        let key = self.packages_repository.get_composite_key(&doc);
        let mut i: usize = 0;
        let all = self.packages_repository.read_all();
        let ghost target = spec_document_of_package(package@, blockchain_label@);
        while i < all.len()
            invariant
                i <= all@.len(),
                all@.len() == self@.len(),
                forall|j: int| 0 <= j < all@.len() ==> (#[trigger] all@[j])@ == self@[j],
                target == spec_document_of_package(package@, blockchain_label@),
                doc@.blockchain_label == target.blockchain_label,
                doc@.name == target.name,
                doc@.version == target.version,
                doc@.maintainer == target.maintainer,
                forall|j: int| 0 <= j < i ==> !spec_same_key(#[trigger] self@[j], target),
            decreases all@.len() - i,
        {
            let d = &all[i];
            let same = d.blockchain_label.eq(&doc.blockchain_label) && d.name.eq(&doc.name)
                && d.version.eq(&doc.version) && d.maintainer.eq(&doc.maintainer);
            if same {
                proof {
                    assert(spec_same_key(self@[i as int], target));
                }
                return true;
            }
            i += 1;
        }
        false
    }

    /// Every stored package, rebuilt from its row.
    pub fn get_all(&self) -> (r: Vec<Package>)
        requires
            self.wf(),
        ensures
            r@.len() == self@.len(),
            forall|i: int|
                0 <= i < r@.len() ==> spec_package_from_document(self@[i]) == Ok::<
                    PackageModel,
                    CodecError,
                >((#[trigger] r@[i])@),
    {
        let docs = self.packages_repository.read_all();
        let mut out: Vec<Package> = Vec::new();
        let mut i: usize = 0;
        while i < docs.len()
            invariant
                i <= docs@.len(),
                docs@.len() == self@.len(),
                self.wf(),
                forall|j: int| 0 <= j < docs@.len() ==> (#[trigger] docs@[j])@ == self@[j],
                out@.len() == i,
                forall|j: int|
                    0 <= j < i ==> spec_package_from_document(self@[j]) == Ok::<
                        PackageModel,
                        CodecError,
                    >((#[trigger] out@[j])@),
            decreases docs@.len() - i,
        {
            proof {
                reveal(spec_docs_trusted);
                assert(spec_doc_trusted(self@[i as int]));
                let (p, label) = choose|p: PackageModel, label: Seq<char>|
                    p.wf() && p.sig is Some && self@[i as int] == #[trigger]
                    spec_document_of_package(p, label);
                lemma_document_round_trip(p, label);
            }
            let mut builder = match PackageBuilder::from_document(&docs[i]) {
                Ok(b) => b,
                Err(_) => vstd::pervasive::unreached(),
            };
            let package = builder.build();
            out.push(package);
            i += 1;
        }
        out
    }

    /// The stored packages of one release under one ledger, rebuilt: one
    /// per maintainer.
    pub fn get_by_release(
        &self,
        package_name: &String,
        package_version: &String,
        blockchain_label: &String,
    ) -> (r: Vec<Package>)
        requires
            self.wf(),
        ensures
            ({
                let rows = self@.filter(
                    spec_release_pred(blockchain_label@, package_name@, package_version@),
                );
                &&& r@.len() == rows.len()
                &&& forall|i: int|
                    0 <= i < r@.len() ==> spec_package_from_document(rows[i]) == Ok::<
                        PackageModel,
                        CodecError,
                    >((#[trigger] r@[i])@)
            }),
    {
        let docs = self.packages_repository.read_by_release(
            package_name,
            package_version,
            blockchain_label,
        );
        let ghost rows = self@.filter(
            spec_release_pred(blockchain_label@, package_name@, package_version@),
        );
        let mut out: Vec<Package> = Vec::new();
        let mut i: usize = 0;
        while i < docs.len()
            invariant
                i <= docs@.len(),
                docs@.len() == rows.len(),
                self.wf(),
                rows == self@.filter(
                    spec_release_pred(blockchain_label@, package_name@, package_version@),
                ),
                forall|j: int| 0 <= j < docs@.len() ==> (#[trigger] docs@[j])@ == rows[j],
                out@.len() == i,
                forall|j: int|
                    0 <= j < i ==> spec_package_from_document(rows[j]) == Ok::<
                        PackageModel,
                        CodecError,
                    >((#[trigger] out@[j])@),
            decreases docs@.len() - i,
        {
            proof {
                lemma_filter_row_trusted(
                    self@,
                    spec_release_pred(blockchain_label@, package_name@, package_version@),
                    i as int,
                );
                let (p, label) = choose|p: PackageModel, label: Seq<char>|
                    p.wf() && p.sig is Some && rows[i as int] == #[trigger]
                    spec_document_of_package(p, label);
                lemma_document_round_trip(p, label);
            }
            let mut builder = match PackageBuilder::from_document(&docs[i]) {
                Ok(b) => b,
                Err(_) => vstd::pervasive::unreached(),
            };
            let package = builder.build();
            out.push(package);
            i += 1;
        }
        out
    }

    /// The stored packages of one maintainer under one ledger, rebuilt.
    pub fn get_by_maintainer(&self, maintainer: &Vec<u8>, blockchain_label: &String) -> (r: Vec<
        Package,
    >)
        requires
            self.wf(),
        ensures
            ({
                let rows = self@.filter(
                    spec_maintainer_pred(blockchain_label@, spec_hex_lower(maintainer@)),
                );
                &&& r@.len() == rows.len()
                &&& forall|i: int|
                    0 <= i < r@.len() ==> spec_package_from_document(rows[i]) == Ok::<
                        PackageModel,
                        CodecError,
                    >((#[trigger] r@[i])@)
            }),
    {
        let encoded_maintainer = encode_hex(maintainer);
        let docs = self.packages_repository.read_by_maintainer(
            &encoded_maintainer,
            blockchain_label,
        );
        let ghost rows = self@.filter(
            spec_maintainer_pred(blockchain_label@, spec_hex_lower(maintainer@)),
        );
        let mut out: Vec<Package> = Vec::new();
        let mut i: usize = 0;
        while i < docs.len()
            invariant
                i <= docs@.len(),
                docs@.len() == rows.len(),
                self.wf(),
                rows == self@.filter(
                    spec_maintainer_pred(blockchain_label@, spec_hex_lower(maintainer@)),
                ),
                forall|j: int| 0 <= j < docs@.len() ==> (#[trigger] docs@[j])@ == rows[j],
                out@.len() == i,
                forall|j: int|
                    0 <= j < i ==> spec_package_from_document(rows[j]) == Ok::<
                        PackageModel,
                        CodecError,
                    >((#[trigger] out@[j])@),
            decreases docs@.len() - i,
        {
            proof {
                lemma_filter_row_trusted(
                    self@,
                    spec_maintainer_pred(blockchain_label@, spec_hex_lower(maintainer@)),
                    i as int,
                );
                let (p, label) = choose|p: PackageModel, label: Seq<char>|
                    p.wf() && p.sig is Some && rows[i as int] == #[trigger]
                    spec_document_of_package(p, label);
                lemma_document_round_trip(p, label);
            }
            let mut builder = match PackageBuilder::from_document(&docs[i]) {
                Ok(b) => b,
                Err(_) => vstd::pervasive::unreached(),
            };
            let package = builder.build();
            out.push(package);
            i += 1;
        }
        out
    }

    /// Replace the stored row of this package's composite key, where one
    /// exists; absent keys leave the store unchanged.
    pub fn update_package(&mut self, package: &Package, blockchain_label: &String)
        requires
            old(self).wf(),
            package@.wf(),
            package@.sig is Some,
            spec_verify(package@),
        ensures
            final(self)@ == spec_upsert_if_present(
                old(self)@,
                spec_document_of_package(package@, blockchain_label@),
            ),
            final(self).wf(),
    {
        let mut builder = PackageDocumentBuilder::from_package(package, blockchain_label);
        let package_doc = builder.build();
        proof {
            assert(package_doc@ == spec_document_of_package(package@, blockchain_label@));
        }
        let package_doc_key = self.packages_repository.get_composite_key(&package_doc);
        self.packages_repository.update(&package_doc_key, &package_doc);
        proof {
            lemma_upsert_trusted(old(self)@, package_doc@, self@);
        }
    }

    /// Store or replace the row of this package's composite key.
    pub fn upsert(&mut self, package: &Package, blockchain_label: &String)
        requires
            old(self).wf(),
            package@.wf(),
            package@.sig is Some,
            spec_verify(package@),
        ensures
            final(self)@ == spec_upsert(
                old(self)@,
                spec_document_of_package(package@, blockchain_label@),
            ),
            final(self).wf(),
    {
        let mut builder = PackageDocumentBuilder::from_package(package, blockchain_label);
        let package_doc = builder.build();
        proof {
            assert(package_doc@ == spec_document_of_package(package@, blockchain_label@));
        }
        self.packages_repository.upsert(&package_doc);
        proof {
            lemma_upsert_trusted(old(self)@, package_doc@, self@);
        }
    }
}

/// A filtered row keeps the trust of the store it came from.
proof fn lemma_filter_row_trusted(
    s: Seq<PackageDocumentModel>,
    pred: spec_fn(PackageDocumentModel) -> bool,
    i: int,
)
    requires
        spec_docs_trusted(s),
        0 <= i < s.filter(pred).len(),
    ensures
        spec_doc_trusted(s.filter(pred)[i]),
    decreases s.len(),
{
    reveal(spec_docs_trusted);
    reveal(Seq::filter);
    if s.len() > 0 {
        let front = s.drop_last();
        assert(forall|k: int| 0 <= k < front.len() ==> #[trigger] front[k] == s[k]);
        assert(spec_docs_trusted(front));
        if i < front.filter(pred).len() {
            lemma_filter_row_trusted(front, pred, i);
            assert(s.filter(pred)[i] == front.filter(pred)[i]);
        } else {
            assert(s.filter(pred)[i] == s.last());
            assert(spec_doc_trusted(s[s.len() - 1]));
        }
    }
}

/// An upsert of a trusted row keeps every row trusted.
proof fn lemma_upsert_trusted(
    s: Seq<PackageDocumentModel>,
    d: PackageDocumentModel,
    t: Seq<PackageDocumentModel>,
)
    requires
        spec_docs_trusted(s),
        spec_doc_trusted(d),
        t == spec_upsert(s, d) || t == spec_upsert_if_present(s, d) || t == s + seq![d],
    ensures
        spec_docs_trusted(t),
{
    reveal(spec_docs_trusted);
    assert forall|i: int| 0 <= i < t.len() implies spec_doc_trusted(#[trigger] t[i]) by {
        if t == s + seq![d] {
            if i < s.len() {
                assert(t[i] == s[i]);
            } else {
                assert(t[i] == d);
            }
        } else {
            if t == s {
            } else {
                crate::repositories::lemma_upsert_membership(s, d, i);
                if spec_upsert(s, d)[i] != d {
                    let j = choose|j: int|
                        0 <= j < s.len() && #[trigger] s[j] == spec_upsert(s, d)[i];
                    assert(spec_doc_trusted(s[j]));
                }
            }
        }
    }
}

/// Every row of a trusted store rebuilds into a package whose signature
/// verifies: no unverified package ever stands in the mirror.
pub proof fn lemma_store_rows_verified(s: Seq<PackageDocumentModel>, i: int)
    requires
        spec_docs_trusted(s),
        0 <= i < s.len(),
    ensures
        spec_package_from_document(s[i]) matches Ok(m) && spec_verify(m),
{
    reveal(spec_docs_trusted);
    assert(spec_doc_trusted(s[i]));
    let (p, label) = choose|p: PackageModel, label: Seq<char>|
        p.wf() && p.sig is Some && spec_verify(p) && s[i] == #[trigger] spec_document_of_package(
            p,
            label,
        );
    lemma_document_round_trip(p, label);
}

// ---------------------------------------------------------------------------
// The synchronization engine.
// ---------------------------------------------------------------------------
/// What the engine observes of one configured ledger client: its stable
/// label and its watermark, the timestamp its next subscription starts
/// from.
pub struct BlockchainClientState {
    pub label: String,
    pub last_sync: u64,
}

impl Clone for BlockchainClientState {
    fn clone(&self) -> (r: Self)
        ensures
            r.label@ == self.label@,
            r.last_sync == self.last_sync,
    {
        BlockchainClientState { label: self.label.clone(), last_sync: self.last_sync }
    }
}

/// What one raw ledger frame contributes to the mirror: nothing when it
/// does not decode or its signature does not verify, else the package.
#[verifier::opaque]
pub open spec fn spec_message_effect(b: Seq<u8>) -> Option<PackageModel> {
    match spec_decode_wire(b) {
        Ok(m) => if spec_verify(m) {
            Some(m)
        } else {
            None
        },
        Err(_) => None,
    }
}

/// The packages accepted from a stream of raw frames, in stream order.
pub open spec fn spec_accepted(ms: Seq<Result<Vec<u8>, BlockchainError>>) -> Seq<PackageModel>
    decreases ms.len(),
{
    if ms.len() == 0 {
        Seq::empty()
    } else {
        let rest = spec_accepted(ms.drop_first());
        match ms[0] {
            Ok(b) => match spec_message_effect(b@) {
                Some(m) => seq![m] + rest,
                None => rest,
            },
            Err(_) => rest,
        }
    }
}

/// Whether every frame of the stream arrived without transport error.
pub open spec fn spec_all_ok(ms: Seq<Result<Vec<u8>, BlockchainError>>) -> bool {
    forall|i: int| 0 <= i < ms.len() ==> !((#[trigger] ms[i]) is Err)
}

/// Apply the accepted packages to the store, in order, one upsert each.
pub open spec fn spec_apply_accepted(
    s: Seq<PackageDocumentModel>,
    ps: Seq<PackageModel>,
    label: Seq<char>,
) -> Seq<PackageDocumentModel>
    decreases ps.len(),
{
    if ps.len() == 0 {
        s
    } else {
        spec_apply_accepted(
            spec_upsert(s, spec_document_of_package(ps[0], label)),
            ps.drop_first(),
            label,
        )
    }
}

/// The heart of the system: the decision half of the ledger
/// synchronization pipeline. The transport half hands in the raw frames
/// it read and performs the writes the engine hands back.
pub struct BlockchainsService {
    blockchains_clients: Vec<BlockchainClientState>,
    selected_client: Option<usize>,
    blockchains_repository: BlockchainsRepository,
    packages_service: PackagesService,
}

impl BlockchainsService {
    /// The configured clients.
    pub closed spec fn spec_clients(&self) -> Seq<BlockchainClientState> {
        self.blockchains_clients@
    }

    /// The selected client index, if one was selected.
    pub closed spec fn spec_selected(&self) -> Option<usize> {
        self.selected_client
    }

    /// The ledger rows.
    pub closed spec fn spec_ledgers(&self) -> Seq<crate::documents::BlockchainDocumentModel> {
        self.blockchains_repository@
    }

    /// The package rows.
    pub closed spec fn spec_packages(&self) -> Seq<PackageDocumentModel> {
        self.packages_service@
    }

    /// The invariant of the engine: both stores well-formed, and the
    /// selected index in range.
    pub closed spec fn wf(&self) -> bool {
        &&& self.blockchains_repository.wf()
        &&& self.packages_service.wf()
        &&& match self.selected_client {
            Some(i) => i < self.blockchains_clients@.len(),
            None => true,
        }
    }

    /// The package rows are trusted whenever the engine is well-formed.
    pub proof fn lemma_wf_packages_trusted(&self)
        requires
            self.wf(),
        ensures
            spec_docs_trusted(self.spec_packages()),
    {
    }

    /// Create the engine over the given clients and stores. No client is
    /// selected yet.
    pub fn new(
        available_blockchains: Vec<BlockchainClientState>,
        blockchains_repository: BlockchainsRepository,
        packages_service: PackagesService,
    ) -> (r: Self)
        requires
            blockchains_repository.wf(),
            packages_service.wf(),
        ensures
            r.wf(),
            r.spec_clients() == available_blockchains@,
            r.spec_selected() is None,
            r.spec_ledgers() == blockchains_repository@,
            r.spec_packages() == packages_service@,
    {
        BlockchainsService {
            blockchains_clients: available_blockchains,
            selected_client: None,
            blockchains_repository,
            packages_service,
        }
    }

    /// Handle one configured ledger: load the client's watermark from
    /// its stored row, or register a fresh row with watermark zero.
    /// Returns whether a stored row was found.
    fn init_one_ledger(&mut self, idx: usize) -> (found_row: bool)
        requires
            old(self).wf(),
            idx < old(self).spec_clients().len(),
            forall|k: int|
                0 <= k < old(self).spec_ledgers().len() ==> spec_is_digits(
                    (#[trigger] old(self).spec_ledgers()[k]).last_synchronization,
                ) && spec_dec_val(old(self).spec_ledgers()[k].last_synchronization) <= u64::MAX,
        ensures
            final(self).wf(),
            final(self).spec_packages() == old(self).spec_packages(),
            final(self).spec_selected() == old(self).spec_selected(),
            final(self).spec_clients().len() == old(self).spec_clients().len(),
            forall|i: int|
                0 <= i < old(self).spec_clients().len() && i != idx ==> #[trigger] final(self).spec_clients()[i] == old(self).spec_clients()[i],
            final(self).spec_clients()[idx as int].label@ == old(self).spec_clients()[idx as int].label@,
            found_row == spec_has_ledger_row(
                old(self).spec_ledgers(),
                old(self).spec_clients()[idx as int].label@,
            ),
            found_row ==> (final(self).spec_ledgers() == old(self).spec_ledgers() && (forall|
                k: int,
            |
                0 <= k < old(self).spec_ledgers().len() && (#[trigger] old(self).spec_ledgers()[k]).label == old(self).spec_clients()[idx as int].label@
                    ==> final(self).spec_clients()[idx as int].last_sync as nat == spec_dec_val(
                    old(self).spec_ledgers()[k].last_synchronization,
                ))),
            !found_row ==> (final(self).spec_ledgers() == old(self).spec_ledgers() + seq![
                crate::documents::BlockchainDocumentModel {
                    label: old(self).spec_clients()[idx as int].label@,
                    last_synchronization: spec_dec_digits(0),
                },
            ] && final(self).spec_clients()[idx as int] == old(self).spec_clients()[idx as int]),
    {
        let label = self.blockchains_clients[idx].label.clone();
        let found = self.blockchains_repository.read_by_key(&label);
        match found {
            Some(doc) => {
                proof {
                    reveal(spec_has_ledger_row);
                    // By uniqueness of labels, the found row is the row of
                    // this label: every row carrying the label has its
                    // watermark text.
                    let k0 = choose|k: int|
                        0 <= k < self.spec_ledgers().len() && #[trigger] self.spec_ledgers()[k]
                            == doc@;
                    assert(spec_has_ledger_row(self.spec_ledgers(), label@));
                    assert forall|k: int|
                        0 <= k < self.spec_ledgers().len() && (#[trigger] self.spec_ledgers()[k]).label
                            == label@ implies self.spec_ledgers()[k] == doc@ by {
                        crate::repositories::lemma_unique_labels_same_row(
                            self.spec_ledgers(),
                            k0,
                            k,
                        );
                    }
                }
                let last_sync = match parse_u64(&doc.last_synchronization) {
                    Some(v) => v,
                    None => vstd::pervasive::unreached(),
                };
                self.blockchains_clients[idx] = BlockchainClientState { label, last_sync };
                true
            },
            None => {
                proof {
                    reveal(spec_has_ledger_row);
                    assert(!spec_has_ledger_row(self.spec_ledgers(), label@));
                }
                let mut builder = BlockchainDocumentBuilder::default();
                let zero = u64_to_string(0);
                builder.set_label(&label);
                builder.set_last_synchronization(&zero);
                let doc = builder.build();
                self.blockchains_repository.create(&doc);
                proof {
                    assert(self.spec_ledgers() =~= old(self).spec_ledgers() + seq![
                        crate::documents::BlockchainDocumentModel {
                            label: old(self).spec_clients()[idx as int].label@,
                            last_synchronization: spec_dec_digits(0),
                        },
                    ]);
                }
                false
            },
        }
    }

    /// Load each configured client's watermark from its ledger row, and
    /// register a fresh row with watermark zero for each ledger seen for
    /// the first time. Labels are the primary key of the configured set,
    /// so each client carries its own label. Afterwards every configured
    /// ledger has a row, and every client whose ledger already had a row
    /// carries that row's watermark.
    #[verifier::rlimit(60)]
    pub fn init_blockchains(&mut self)
        requires
            old(self).wf(),
            forall|i: int|
                0 <= i < old(self).spec_ledgers().len() ==> spec_is_digits(
                    (#[trigger] old(self).spec_ledgers()[i]).last_synchronization,
                ) && spec_dec_val(old(self).spec_ledgers()[i].last_synchronization) <= u64::MAX,
            forall|i: int, j: int|
                0 <= i < j < old(self).spec_clients().len() ==> (
                #[trigger] old(self).spec_clients()[i]).label@ != (#[trigger] old(self).spec_clients()[j]).label@,
        ensures
            final(self).wf(),
            final(self).spec_packages() == old(self).spec_packages(),
            final(self).spec_selected() == old(self).spec_selected(),
            final(self).spec_clients().len() == old(self).spec_clients().len(),
            final(self).spec_ledgers().len() >= old(self).spec_ledgers().len(),
            final(self).spec_ledgers().take(old(self).spec_ledgers().len() as int) == old(
                self,
            ).spec_ledgers(),
            // Every configured ledger has a row afterwards.
            forall|i: int|
                0 <= i < old(self).spec_clients().len() ==> spec_has_ledger_row(
                    final(self).spec_ledgers(),
                    (#[trigger] old(self).spec_clients()[i]).label@,
                ),
            // A client whose ledger had a row carries that row's watermark.
            forall|i: int, k: int|
                0 <= i < old(self).spec_clients().len() && 0 <= k < old(self).spec_ledgers().len() && (#[trigger] old(self).spec_ledgers()[k]).label == (
                #[trigger] old(self).spec_clients()[i]).label@ ==> final(self).spec_clients()[i].last_sync as nat == spec_dec_val(
                    old(self).spec_ledgers()[k].last_synchronization,
                ),
            // A client whose ledger had no row is untouched; its fresh row
            // carries watermark zero.
            forall|i: int|
                0 <= i < old(self).spec_clients().len() && !spec_has_ledger_row(
                    old(self).spec_ledgers(),
                    (#[trigger] old(self).spec_clients()[i]).label@,
                ) ==> final(self).spec_clients()[i] == old(self).spec_clients()[i],
            forall|k: int|
                old(self).spec_ledgers().len() <= k < final(self).spec_ledgers().len() ==> (
                #[trigger] final(self).spec_ledgers()[k]).last_synchronization == spec_dec_digits(
                    0,
                ),
            // The appended rows belong to configured ledgers that had no
            // row before.
            forall|k: int|
                old(self).spec_ledgers().len() <= k < final(self).spec_ledgers().len()
                    ==> spec_ledger_configured(
                    old(self).spec_clients(),
                    (#[trigger] final(self).spec_ledgers()[k]).label,
                ) && !spec_has_ledger_row(
                    old(self).spec_ledgers(),
                    final(self).spec_ledgers()[k].label,
                ),
            forall|i: int|
                0 <= i < final(self).spec_clients().len() ==> (
                #[trigger] final(self).spec_clients()[i]).label@ == old(self).spec_clients()[i].label@,
    {
        let n = self.blockchains_clients.len();
        let ghost old_ledgers = old(self).spec_ledgers();
        let ghost old_clients = old(self).spec_clients();
        let mut idx: usize = 0;
        proof {
            assert(self.spec_ledgers().take(old_ledgers.len() as int) =~= old_ledgers);
        }
        while idx < n
            invariant
                n == self.blockchains_clients@.len(),
                n == old(self).blockchains_clients@.len(),
                idx <= n,
                old_ledgers == old(self).spec_ledgers(),
                old_clients == old(self).spec_clients(),
                self.wf(),
                forall|i: int, j: int|
                    0 <= i < j < n ==> (#[trigger] old_clients[i]).label@ != (
                    #[trigger] old_clients[j]).label@,
                forall|i: int|
                    0 <= i < self.spec_ledgers().len() ==> spec_is_digits(
                        (#[trigger] self.spec_ledgers()[i]).last_synchronization,
                    ) && spec_dec_val(self.spec_ledgers()[i].last_synchronization) <= u64::MAX,
                self.spec_packages() == old(self).spec_packages(),
                self.spec_selected() == old(self).spec_selected(),
                self.spec_ledgers().len() >= old_ledgers.len(),
                self.spec_ledgers().take(old_ledgers.len() as int) == old_ledgers,
                forall|i: int|
                    old_ledgers.len() <= i < self.spec_ledgers().len() ==> (
                    #[trigger] self.spec_ledgers()[i]).last_synchronization == spec_dec_digits(0),
                forall|i: int|
                    0 <= i < n ==> (#[trigger] self.blockchains_clients@[i]).label@
                        == old_clients[i].label@,
                forall|i: int|
                    idx <= i < n ==> #[trigger] self.blockchains_clients@[i] == old_clients[i],
                forall|i: int|
                    0 <= i < idx ==> spec_has_ledger_row(
                        self.spec_ledgers(),
                        (#[trigger] old_clients[i]).label@,
                    ),
                forall|i: int, k: int|
                    0 <= i < idx && 0 <= k < old_ledgers.len() && (#[trigger] old_ledgers[k]).label
                        == (#[trigger] old_clients[i]).label@ ==> self.blockchains_clients@[i].last_sync as nat
                        == spec_dec_val(old_ledgers[k].last_synchronization),
                forall|i: int|
                    0 <= i < idx && !spec_has_ledger_row(
                        old_ledgers,
                        (#[trigger] old_clients[i]).label@,
                    ) ==> self.blockchains_clients@[i] == old_clients[i],
                forall|k: int|
                    old_ledgers.len() <= k < self.spec_ledgers().len() ==> spec_ledger_configured(
                        old_clients.take(idx as int),
                        (#[trigger] self.spec_ledgers()[k]).label,
                    ) && !spec_has_ledger_row(old_ledgers, self.spec_ledgers()[k].label),
            decreases n - idx,
        {
            let ghost pre_ledgers = self.spec_ledgers();
            let ghost pre_clients = self.blockchains_clients@;
            let found_row = self.init_one_ledger(idx);
            proof {
                lemma_init_step_invariants(
                    pre_ledgers,
                    self.spec_ledgers(),
                    old_ledgers,
                    old_clients,
                    pre_clients,
                    self.blockchains_clients@,
                    idx as int,
                    found_row,
                );
            }
            idx += 1;
        }
        proof {
            assert(old_clients.take(n as int) =~= old_clients);
            assert forall|i: int|
                0 <= i < old(self).spec_clients().len() implies spec_has_ledger_row(
                self.spec_ledgers(),
                (#[trigger] old(self).spec_clients()[i]).label@,
            ) by {
                assert(old_clients[i] == old(self).spec_clients()[i]);
            }
        }
    }

    /// Every stored ledger row, in insertion order.
    pub fn read_ledgers(&self) -> (r: Vec<BlockchainDocument>)
        ensures
            r@.len() == self.spec_ledgers().len(),
            forall|i: int|
                0 <= i < r@.len() ==> (#[trigger] r@[i])@ == self.spec_ledgers()[i],
    {
        self.blockchains_repository.read_all()
    }

    /// The configured clients.
    pub fn get_clients(&self) -> (r: &Vec<BlockchainClientState>)
        ensures
            r@ == self.spec_clients(),
    {
        &self.blockchains_clients
    }

    /// Select the active ledger by index.
    pub fn set_client(&mut self, client_idx: usize)
        requires
            old(self).wf(),
            client_idx < old(self).spec_clients().len(),
        ensures
            final(self).wf(),
            final(self).spec_selected() == Some(client_idx),
            final(self).spec_clients() == old(self).spec_clients(),
            final(self).spec_ledgers() == old(self).spec_ledgers(),
            final(self).spec_packages() == old(self).spec_packages(),
    {
        self.selected_client = Some(client_idx);
    }

    /// The active ledger client; selecting one must come first, else the
    /// operation fails fast.
    pub fn get_selected_client(&self) -> (r: Result<&BlockchainClientState, SelectionError>)
        ensures
            match r {
                Ok(c) => self.spec_selected() matches Some(i) && i < self.spec_clients().len() && c
                    == &self.spec_clients()[i as int],
                Err(e) => (self.spec_selected() is None || !(self.spec_selected()->Some_0
                    < self.spec_clients().len())) && e == SelectionError::NoActiveLedger,
            },
    {
        let idx = match self.selected_client {
            Some(i) => i,
            None => {
                return Err(SelectionError::NoActiveLedger);
            },
        };
        if idx >= self.blockchains_clients.len() {
            return Err(SelectionError::NoActiveLedger);
        }
        Ok(&self.blockchains_clients[idx])
    }

    /// Store one freshly observed, already verified package: replace the
    /// row under its composite key, or add a fresh row.
    fn process_package_update(&mut self, package: &Package, label: &String)
        requires
            old(self).wf(),
            package@.wf(),
            package@.sig is Some,
            spec_verify(package@),
        ensures
            final(self).wf(),
            final(self).spec_packages() == spec_upsert(
                old(self).spec_packages(),
                spec_document_of_package(package@, label@),
            ),
            final(self).spec_ledgers() == old(self).spec_ledgers(),
            final(self).spec_clients() == old(self).spec_clients(),
            final(self).spec_selected() == old(self).spec_selected(),
    {
        let ghost target = spec_document_of_package(package@, label@);
        let package_exists = self.packages_service.has_package(package, label);
        if package_exists {
            self.packages_service.update_package(package, label);
            proof {
                assert(final(self).spec_packages() == spec_upsert(
                    old(self).spec_packages(),
                    target,
                ));
            }
        } else {
            self.packages_service.add(package, label);
            proof {
                lemma_upsert_append(old(self).spec_packages(), target);
            }
        }
    }

    /// Handle one raw frame: decode, verify, and store it, or skip it.
    /// A transport error is handed back unchanged.
    fn sync_step(&mut self, message: &Result<Vec<u8>, BlockchainError>, label: &String) -> (r:
        Result<Option<Package>, BlockchainError>)
        requires
            old(self).wf(),
        ensures
            final(self).wf(),
            final(self).spec_selected() == old(self).spec_selected(),
            final(self).spec_clients() == old(self).spec_clients(),
            final(self).spec_ledgers() == old(self).spec_ledgers(),
            match r {
                Ok(Some(p)) => message is Ok && spec_message_effect(message->Ok_0@) == Some(p@)
                    && final(self).spec_packages() == spec_upsert(
                    old(self).spec_packages(),
                    spec_document_of_package(p@, label@),
                ),
                Ok(None) => message is Ok && spec_message_effect(message->Ok_0@) is None
                    && final(self).spec_packages() == old(self).spec_packages(),
                Err(e) => message matches Err(e0) && e == e0 && final(self).spec_packages()
                    == old(self).spec_packages(),
            },
    {
        let raw_bytes = match message {
            Ok(b) => b,
            Err(e) => {
                return Err(*e);
            },
        };
        let parsed = PackageBuilder::from_rlp(raw_bytes);
        let mut builder = match parsed {
            Ok(b) => b,
            Err(_) => {
                proof {
                    reveal(spec_message_effect);
                }
                return Ok(None);
            },
        };
        let untrusted_package = builder.build();
        let verified = verify_package(&untrusted_package);
        let trusted_package = match verified {
            Some(p) => p,
            None => {
                proof {
                    reveal(spec_message_effect);
                }
                return Ok(None);
            },
        };
        let package = trusted_package.clone();
        self.process_package_update(&package, label);
        proof {
            reveal(spec_message_effect);
            assert(spec_message_effect(raw_bytes@) == Some(package@));
        }
        Ok(Some(package))
    }

    /// One synchronization pass over the raw frames a subscription
    /// delivered. Frames that do not decode, and frames whose signature
    /// does not verify, are skipped; a transport error aborts the pass
    /// and leaves the watermark untouched. On a clean end of stream the
    /// watermark advances to `now` (never backwards) and is persisted.
    /// The accepted packages are returned in stream order.
    #[verifier::rlimit(100)]
    pub fn update(&mut self, messages: &Vec<Result<Vec<u8>, BlockchainError>>, now: u64) -> (r:
        Result<Vec<Package>, BlockchainError>)
        requires
            old(self).wf(),
            old(self).spec_selected() is Some,
        ensures
            final(self).wf(),
            final(self).spec_selected() == old(self).spec_selected(),
            match r {
                Ok(out) => ({
                    let sel = old(self).spec_selected()->Some_0 as int;
                    let label = old(self).spec_clients()[sel].label@;
                    let accepted = spec_accepted(messages@);
                    &&& spec_all_ok(messages@)
                    &&& out@.len() == accepted.len()
                    &&& forall|i: int| 0 <= i < out@.len() ==> (#[trigger] out@[i])@ == accepted[i]
                    &&& final(self).spec_packages() == spec_apply_accepted(
                        old(self).spec_packages(),
                        accepted,
                        label,
                    )
                    &&& final(self).spec_clients().len() == old(self).spec_clients().len()
                    &&& final(self).spec_clients()[sel].label@ == label
                    &&& final(self).spec_clients()[sel].last_sync == (if now > old(self).spec_clients()[sel].last_sync {
                        now
                    } else {
                        old(self).spec_clients()[sel].last_sync
                    })
                    &&& final(self).spec_clients()[sel].last_sync >= old(self).spec_clients()[sel].last_sync
                    &&& final(self).spec_ledgers() == spec_ledger_upsert(
                        old(self).spec_ledgers(),
                        crate::documents::BlockchainDocumentModel {
                            label: label,
                            last_synchronization: spec_dec_digits(
                                final(self).spec_clients()[sel].last_sync as nat,
                            ),
                        },
                    )
                }),
                Err(e) => ({
                    let sel = old(self).spec_selected()->Some_0 as int;
                    let label = old(self).spec_clients()[sel].label@;
                    &&& !spec_all_ok(messages@)
                    &&& exists|j: int|
                        ({
                            &&& 0 <= j < messages@.len()
                            &&& #[trigger] messages@[j] matches Err(e0) && e0 == e
                            &&& (forall|k: int| 0 <= k < j ==> !((#[trigger] messages@[k]) is Err))
                            &&& final(self).spec_packages() == spec_apply_accepted(
                                old(self).spec_packages(),
                                spec_accepted(messages@.take(j)),
                                label,
                            )
                        })
                    &&& final(self).spec_ledgers() == old(self).spec_ledgers()
                    &&& final(self).spec_clients() == old(self).spec_clients()
                }),
            },
    {
        let sel = match self.selected_client {
            Some(i) => i,
            None => vstd::pervasive::unreached(),
        };
        let label = self.blockchains_clients[sel].label.clone();
        let ghost glabel = label@;
        let mut out: Vec<Package> = Vec::new();
        let mut i: usize = 0;
        let ghost accepted = spec_accepted(messages@);
        while i < messages.len()
            invariant
                i <= messages@.len(),
                self.wf(),
                sel == old(self).spec_selected()->Some_0,
                self.spec_selected() == old(self).spec_selected(),
                self.spec_clients() == old(self).spec_clients(),
                self.spec_ledgers() == old(self).spec_ledgers(),
                sel < self.spec_clients().len(),
                glabel == old(self).spec_clients()[sel as int].label@,
                glabel == label@,
                accepted == spec_accepted(messages@),
                forall|j: int| 0 <= j < i ==> !((#[trigger] messages@[j]) is Err),
                out@.len() == spec_accepted(messages@.take(i as int)).len(),
                forall|j: int|
                    0 <= j < out@.len() ==> (#[trigger] out@[j])@ == spec_accepted(
                        messages@.take(i as int),
                    )[j],
                self.spec_packages() == spec_apply_accepted(
                    old(self).spec_packages(),
                    spec_accepted(messages@.take(i as int)),
                    glabel,
                ),
            decreases messages@.len() - i,
        {
            let message = &messages[i];
            let step = self.sync_step(message, &label);
            match step {
                Err(e) => {
                    proof {
                        assert(!spec_all_ok(messages@));
                        assert(messages@[i as int] matches Err(e0) && e0 == e);
                    }
                    return Err(e);
                },
                Ok(None) => {
                    proof {
                        lemma_accepted_snoc(messages@, i as int);
                        lemma_apply_accepted_snoc_none(
                            old(self).spec_packages(),
                            messages@,
                            i as int,
                            glabel,
                        );
                    }
                },
                Ok(Some(package)) => {
                    proof {
                        lemma_apply_accepted_snoc_some(
                            old(self).spec_packages(),
                            messages@,
                            i as int,
                            glabel,
                            package@,
                        );
                        lemma_accepted_snoc(messages@, i as int);
                    }
                    out.push(package);
                    proof {
                        let acc0 = spec_accepted(messages@.take(i as int));
                        let acc1 = spec_accepted(messages@.take(i as int + 1));
                        assert(acc1 == acc0 + seq![out@.last()@]);
                        assert forall|j: int| 0 <= j < out@.len() implies (#[trigger] out@[j])@
                            == acc1[j] by {
                            if j < out@.len() - 1 {
                                assert(out@[j]@ == acc0[j]);
                                assert(acc1[j] == acc0[j]);
                            } else {
                                assert(acc1[j] == out@.last()@);
                            }
                        }
                    }
                },
            }
            i += 1;
        }
        proof {
            assert(messages@.take(messages@.len() as int) =~= messages@);
        }
        // Clean end of stream: advance the watermark, never backwards.
        let old_sync = self.blockchains_clients[sel].last_sync;
        let new_sync: u64 = if now > old_sync {
            now
        } else {
            old_sync
        };
        self.blockchains_clients[sel] = BlockchainClientState {
            label: label.clone(),
            last_sync: new_sync,
        };
        let mut builder = BlockchainDocumentBuilder::default();
        let stamp = u64_to_string(new_sync);
        builder.set_label(&label);
        builder.set_last_synchronization(&stamp);
        let doc = builder.build();
        self.blockchains_repository.upsert(&doc);
        Ok(out)
    }

    /// The stored packages of a release under the active ledger.
    pub fn find_package(&self, package_name: &String, package_version: &String) -> (r: Result<
        Vec<Package>,
        SelectionError,
    >)
        requires
            self.wf(),
        ensures
            match r {
                Ok(out) => ({
                    let sel = self.spec_selected()->Some_0 as int;
                    let label = self.spec_clients()[sel].label@;
                    let rows = self.spec_packages().filter(
                        spec_release_pred(label, package_name@, package_version@),
                    );
                    &&& self.spec_selected() is Some
                    &&& out@.len() == rows.len()
                    &&& forall|i: int|
                        0 <= i < out@.len() ==> spec_package_from_document(rows[i]) == Ok::<
                            PackageModel,
                            CodecError,
                        >((#[trigger] out@[i])@)
                }),
                Err(e) => self.spec_selected() is None && e == SelectionError::NoActiveLedger,
            },
    {
        let sel = match self.selected_client {
            Some(i) => i,
            None => {
                return Err(SelectionError::NoActiveLedger);
            },
        };
        let label = self.blockchains_clients[sel].label.clone();
        let matching_packages = self.packages_service.get_by_release(
            package_name,
            package_version,
            &label,
        );
        Ok(matching_packages)
    }

    /// Encode a signed package for publication; the transport submits the
    /// returned frame to the active ledger.
    pub fn submit_package(&self, package: &Package) -> (r: Result<Vec<u8>, CodecError>)
        requires
            self.spec_selected() is Some,
        ensures
            match r {
                Ok(bytes) => package@.sig is Some && bytes@ == spec_wire_bytes(package@),
                Err(e) => package@.sig is None && e == CodecError::MissingSignature,
            },
    {
        encode_wire(package)
    }
}

/// One step of [`spec_accepted`] at the end of a prefix.
proof fn lemma_accepted_snoc(ms: Seq<Result<Vec<u8>, BlockchainError>>, i: int)
    requires
        0 <= i < ms.len(),
        !(ms[i] is Err),
    ensures
        spec_accepted(ms.take(i + 1)) == (match spec_message_effect(ms[i]->Ok_0@) {
            Some(m) => spec_accepted(ms.take(i)) + seq![m],
            None => spec_accepted(ms.take(i)),
        }),
    decreases i,
{
    lemma_accepted_snoc_general(ms.take(i + 1), i);
    assert(ms.take(i + 1).take(i) =~= ms.take(i));
    assert(ms.take(i + 1)[i] == ms[i]);
}

/// [`spec_accepted`] of a sequence is the accepted prefix plus the last
/// frame's effect.
#[verifier::rlimit(100)]
proof fn lemma_accepted_snoc_general(ms: Seq<Result<Vec<u8>, BlockchainError>>, i: int)
    requires
        i == ms.len() - 1,
        0 <= i,
    ensures
        spec_accepted(ms) == (match ms[i] {
            Ok(b) => match spec_message_effect(b@) {
                Some(m) => spec_accepted(ms.take(i)) + seq![m],
                None => spec_accepted(ms.take(i)),
            },
            Err(_) => spec_accepted(ms.take(i)),
        }),
    decreases ms.len(),
{
    if ms.len() == 1 {
        assert(ms.take(0) =~= Seq::<Result<Vec<u8>, BlockchainError>>::empty());
        assert(ms.drop_first().len() == 0);
        assert(spec_accepted(ms.drop_first()) == Seq::<PackageModel>::empty());
        match ms[0] {
            Ok(b) => {
                match spec_message_effect(b@) {
                    Some(m) => {
                        assert(spec_accepted(ms) =~= spec_accepted(ms.take(0)) + seq![m]);
                    },
                    None => {
                        assert(spec_accepted(ms) =~= spec_accepted(ms.take(0)));
                    },
                }
            },
            Err(_) => {
                assert(spec_accepted(ms) =~= spec_accepted(ms.take(0)));
            },
        }
    } else {
        lemma_accepted_snoc_general(ms.drop_first(), i - 1);
        assert(ms.drop_first()[i - 1] == ms[i]);
        assert(ms.drop_first().take(i - 1) =~= ms.take(i).drop_first());
        assert(ms.take(i)[0] == ms[0]);
        assert(ms.take(i).len() > 0);
        match ms[i] {
            Ok(b) => {
                match spec_message_effect(b@) {
                    Some(m) => {
                        assert(spec_accepted(ms) =~= spec_accepted(ms.take(i)) + seq![m]) by {
                            match ms[0] {
                                Ok(b0) => {},
                                Err(_) => {},
                            }
                        }
                    },
                    None => {
                        assert(spec_accepted(ms) =~= spec_accepted(ms.take(i)));
                    },
                }
            },
            Err(_) => {
                assert(spec_accepted(ms) =~= spec_accepted(ms.take(i)));
            },
        }
    }
}

/// Applying one more accepted package extends the fold by one upsert.
proof fn lemma_apply_accepted_snoc(
    s: Seq<PackageDocumentModel>,
    ps: Seq<PackageModel>,
    m: PackageModel,
    label: Seq<char>,
)
    ensures
        spec_apply_accepted(s, ps + seq![m], label) == spec_upsert(
            spec_apply_accepted(s, ps, label),
            spec_document_of_package(m, label),
        ),
    decreases ps.len(),
{
    if ps.len() == 0 {
        assert((ps + seq![m]).len() == 1);
        assert((ps + seq![m])[0] == m);
        assert((ps + seq![m]).drop_first() =~= Seq::<PackageModel>::empty());
        assert(spec_apply_accepted(
            spec_upsert(s, spec_document_of_package(m, label)),
            Seq::<PackageModel>::empty(),
            label,
        ) == spec_upsert(s, spec_document_of_package(m, label)));
        assert(spec_apply_accepted(s, ps, label) == s);
    } else {
        assert((ps + seq![m])[0] == ps[0]);
        assert((ps + seq![m]).drop_first() =~= ps.drop_first() + seq![m]);
        lemma_apply_accepted_snoc(
            spec_upsert(s, spec_document_of_package(ps[0], label)),
            ps.drop_first(),
            m,
            label,
        );
    }
}

/// A skipped frame leaves the applied store unchanged across the prefix
/// step.
proof fn lemma_apply_accepted_snoc_none(
    s: Seq<PackageDocumentModel>,
    ms: Seq<Result<Vec<u8>, BlockchainError>>,
    i: int,
    label: Seq<char>,
)
    requires
        0 <= i < ms.len(),
        ms[i] is Ok,
        spec_message_effect(ms[i]->Ok_0@) is None,
    ensures
        spec_apply_accepted(s, spec_accepted(ms.take(i + 1)), label) == spec_apply_accepted(
            s,
            spec_accepted(ms.take(i)),
            label,
        ),
{
    lemma_accepted_snoc(ms, i);
}

/// An accepted frame extends the applied store by one upsert.
proof fn lemma_apply_accepted_snoc_some(
    s: Seq<PackageDocumentModel>,
    ms: Seq<Result<Vec<u8>, BlockchainError>>,
    i: int,
    label: Seq<char>,
    m: PackageModel,
)
    requires
        0 <= i < ms.len(),
        ms[i] is Ok,
        spec_message_effect(ms[i]->Ok_0@) == Some(m),
    ensures
        spec_apply_accepted(s, spec_accepted(ms.take(i + 1)), label) == spec_upsert(
            spec_apply_accepted(s, spec_accepted(ms.take(i)), label),
            spec_document_of_package(m, label),
        ),
{
    lemma_accepted_snoc(ms, i);
    lemma_apply_accepted_snoc(s, spec_accepted(ms.take(i)), m, label);
}


/// Whether some row of the ledgers collection carries the label.
#[verifier::opaque]
pub open spec fn spec_has_ledger_row(
    s: Seq<crate::documents::BlockchainDocumentModel>,
    label: Seq<char>,
) -> bool {
    exists|k: int| 0 <= k < s.len() && (#[trigger] s[k]).label == label
}

/// Whether some configured client carries the label.
#[verifier::opaque]
pub open spec fn spec_ledger_configured(
    clients: Seq<BlockchainClientState>,
    label: Seq<char>,
) -> bool {
    exists|i: int| 0 <= i < clients.len() && (#[trigger] clients[i]).label@ == label
}

/// One initialization step preserves the invariants of the loop over the
/// configured ledgers: old rows stay a prefix, appended rows are fresh
/// zero-watermark rows of processed ledgers, every processed ledger has a
/// row, and processed clients carry their stored watermark or stay
/// untouched.
#[verifier::rlimit(60)]
proof fn lemma_init_step_invariants(
    pre_ledgers: Seq<crate::documents::BlockchainDocumentModel>,
    post_ledgers: Seq<crate::documents::BlockchainDocumentModel>,
    old_ledgers: Seq<crate::documents::BlockchainDocumentModel>,
    old_clients: Seq<BlockchainClientState>,
    pre_clients: Seq<BlockchainClientState>,
    post_clients: Seq<BlockchainClientState>,
    idx: int,
    found: bool,
)
    requires
        0 <= idx < old_clients.len(),
        pre_clients.len() == old_clients.len(),
        post_clients.len() == old_clients.len(),
        forall|i: int, j: int|
            0 <= i < j < old_clients.len() ==> (#[trigger] old_clients[i]).label@ != (
            #[trigger] old_clients[j]).label@,
        pre_ledgers.len() >= old_ledgers.len(),
        pre_ledgers.take(old_ledgers.len() as int) == old_ledgers,
        forall|k: int|
            old_ledgers.len() <= k < pre_ledgers.len() ==> (#[trigger] pre_ledgers[k]).last_synchronization
                == spec_dec_digits(0),
        forall|k: int|
            old_ledgers.len() <= k < pre_ledgers.len() ==> spec_ledger_configured(
                old_clients.take(idx),
                (#[trigger] pre_ledgers[k]).label,
            ) && !spec_has_ledger_row(old_ledgers, pre_ledgers[k].label),
        forall|i: int|
            idx <= i < old_clients.len() ==> #[trigger] pre_clients[i] == old_clients[i],
        forall|i: int|
            0 <= i < old_clients.len() ==> (#[trigger] pre_clients[i]).label@
                == old_clients[i].label@,
        forall|i: int|
            0 <= i < idx ==> spec_has_ledger_row(
                pre_ledgers,
                (#[trigger] old_clients[i]).label@,
            ),
        forall|i: int, k: int|
            0 <= i < idx && 0 <= k < old_ledgers.len() && (#[trigger] old_ledgers[k]).label == (
            #[trigger] old_clients[i]).label@ ==> pre_clients[i].last_sync as nat == spec_dec_val(
                old_ledgers[k].last_synchronization,
            ),
        forall|i: int|
            0 <= i < idx && !spec_has_ledger_row(
                old_ledgers,
                (#[trigger] old_clients[i]).label@,
            ) ==> pre_clients[i] == old_clients[i],
        // What the step did, phrased over the pre state.
        forall|i: int|
            0 <= i < old_clients.len() && i != idx ==> #[trigger] post_clients[i]
                == pre_clients[i],
        post_clients[idx].label@ == pre_clients[idx].label@,
        found == spec_has_ledger_row(pre_ledgers, pre_clients[idx].label@),
        found ==> (post_ledgers == pre_ledgers && (forall|k: int|
            0 <= k < pre_ledgers.len() && (#[trigger] pre_ledgers[k]).label
                == pre_clients[idx].label@ ==> post_clients[idx].last_sync as nat == spec_dec_val(
                pre_ledgers[k].last_synchronization,
            ))),
        !found ==> (post_ledgers == pre_ledgers + seq![
            crate::documents::BlockchainDocumentModel {
                label: pre_clients[idx].label@,
                last_synchronization: spec_dec_digits(0),
            },
        ] && post_clients[idx] == pre_clients[idx]),
    ensures
        post_ledgers.len() >= old_ledgers.len(),
        post_ledgers.take(old_ledgers.len() as int) == old_ledgers,
        forall|k: int|
            0 <= k < pre_ledgers.len() ==> #[trigger] post_ledgers[k] == pre_ledgers[k],
        forall|k: int|
            old_ledgers.len() <= k < post_ledgers.len() ==> (#[trigger] post_ledgers[k]).last_synchronization
                == spec_dec_digits(0),
        spec_is_digits(spec_dec_digits(0)),
        spec_dec_val(spec_dec_digits(0)) == 0,
        forall|i: int|
            0 <= i < old_clients.len() ==> (#[trigger] post_clients[i]).label@
                == old_clients[i].label@,
        forall|i: int|
            idx + 1 <= i < old_clients.len() ==> #[trigger] post_clients[i] == old_clients[i],
        forall|i: int|
            0 <= i < idx + 1 ==> spec_has_ledger_row(
                post_ledgers,
                (#[trigger] old_clients[i]).label@,
            ),
        forall|i: int, k: int|
            0 <= i < idx + 1 && 0 <= k < old_ledgers.len() && (#[trigger] old_ledgers[k]).label
                == (#[trigger] old_clients[i]).label@ ==> post_clients[i].last_sync as nat
                == spec_dec_val(old_ledgers[k].last_synchronization),
        forall|i: int|
            0 <= i < idx + 1 && !spec_has_ledger_row(
                old_ledgers,
                (#[trigger] old_clients[i]).label@,
            ) ==> post_clients[i] == old_clients[i],
        forall|k: int|
            old_ledgers.len() <= k < post_ledgers.len() ==> spec_ledger_configured(
                old_clients.take(idx + 1),
                (#[trigger] post_ledgers[k]).label,
            ) && !spec_has_ledger_row(old_ledgers, post_ledgers[k].label),
{
    crate::numtext::lemma_dec_round_trip(0);
    let ll = old_clients[idx].label@;
    assert(pre_clients[idx] == old_clients[idx]);
    assert forall|k: int| 0 <= k < old_ledgers.len() implies #[trigger] pre_ledgers[k]
        == old_ledgers[k] by {
        assert(pre_ledgers.take(old_ledgers.len() as int)[k] == pre_ledgers[k]);
    }
    // Widening the processed prefix preserves what it configures.
    assert forall|lab: Seq<char>|
        spec_ledger_configured(old_clients.take(idx), lab) implies #[trigger]
    spec_ledger_configured(old_clients.take(idx + 1), lab) by {
        reveal(spec_ledger_configured);
        let i = choose|i: int|
            0 <= i < old_clients.take(idx).len() && (#[trigger] old_clients.take(idx)[i]).label@
                == lab;
        assert(old_clients.take(idx + 1)[i].label@ == lab);
    }
    if found {
        assert(post_ledgers == pre_ledgers);
        // The row of this label is an old row: appended rows carry labels
        // of earlier clients, and labels are pairwise distinct.
        assert(spec_has_ledger_row(old_ledgers, ll)) by {
            reveal(spec_has_ledger_row);
            let k0 = choose|k: int|
                0 <= k < pre_ledgers.len() && (#[trigger] pre_ledgers[k]).label == ll;
            if k0 >= old_ledgers.len() {
                reveal(spec_ledger_configured);
                assert(spec_ledger_configured(old_clients.take(idx), ll));
                let i0 = choose|i: int|
                    0 <= i < old_clients.take(idx).len() && (#[trigger] old_clients.take(
                        idx,
                    )[i]).label@ == ll;
                assert(old_clients[i0].label@ == old_clients[idx].label@);
                assert(false);
            }
            assert(old_ledgers[k0].label == ll);
        }
        assert forall|i: int| 0 <= i < idx + 1 implies spec_has_ledger_row(
            post_ledgers,
            (#[trigger] old_clients[i]).label@,
        ) by {
            if i == idx {
                reveal(spec_has_ledger_row);
                let k0 = choose|k: int|
                    0 <= k < old_ledgers.len() && (#[trigger] old_ledgers[k]).label == ll;
                assert(post_ledgers[k0].label == ll);
            }
        }
        assert forall|i: int, k: int|
            0 <= i < idx + 1 && 0 <= k < old_ledgers.len() && (#[trigger] old_ledgers[k]).label
                == (#[trigger] old_clients[i]).label@ implies post_clients[i].last_sync as nat
            == spec_dec_val(old_ledgers[k].last_synchronization) by {
            if i == idx {
                assert(pre_ledgers[k] == old_ledgers[k]);
                assert(pre_ledgers[k].label == pre_clients[idx].label@);
            } else {
                assert(post_clients[i] == pre_clients[i]);
            }
        }
    } else {
        let row = crate::documents::BlockchainDocumentModel {
            label: pre_clients[idx].label@,
            last_synchronization: spec_dec_digits(0),
        };
        assert(post_ledgers == pre_ledgers + seq![row]);
        assert(post_ledgers.len() == pre_ledgers.len() + 1);
        assert forall|k: int| 0 <= k < pre_ledgers.len() implies #[trigger] post_ledgers[k]
            == pre_ledgers[k] by {
            assert((pre_ledgers + seq![row])[k] == pre_ledgers[k]);
        }
        assert(post_ledgers[pre_ledgers.len() as int] == row);
        assert(post_ledgers.take(old_ledgers.len() as int) =~= pre_ledgers.take(
            old_ledgers.len() as int,
        ));
        assert(!spec_has_ledger_row(old_ledgers, ll)) by {
            reveal(spec_has_ledger_row);
            if spec_has_ledger_row(old_ledgers, ll) {
                let k0 = choose|k: int|
                    0 <= k < old_ledgers.len() && (#[trigger] old_ledgers[k]).label == ll;
                assert(pre_ledgers[k0].label == ll);
                assert(spec_has_ledger_row(pre_ledgers, ll));
            }
        }
        assert forall|i: int| 0 <= i < idx + 1 implies spec_has_ledger_row(
            post_ledgers,
            (#[trigger] old_clients[i]).label@,
        ) by {
            reveal(spec_has_ledger_row);
            if i == idx {
                assert(post_ledgers[pre_ledgers.len() as int].label == ll);
            } else {
                let k = choose|k: int|
                    0 <= k < pre_ledgers.len() && (#[trigger] pre_ledgers[k]).label
                        == old_clients[i].label@;
                assert(post_ledgers[k].label == old_clients[i].label@);
            }
        }
        assert forall|i: int, k: int|
            0 <= i < idx + 1 && 0 <= k < old_ledgers.len() && (#[trigger] old_ledgers[k]).label
                == (#[trigger] old_clients[i]).label@ implies post_clients[i].last_sync as nat
            == spec_dec_val(old_ledgers[k].last_synchronization) by {
            if i == idx {
                assert(spec_has_ledger_row(old_ledgers, ll)) by {
                    reveal(spec_has_ledger_row);
                }
                assert(false);
            } else {
                assert(post_clients[i] == pre_clients[i]);
            }
        }
        assert forall|k: int|
            old_ledgers.len() <= k < post_ledgers.len() implies spec_ledger_configured(
            old_clients.take(idx + 1),
            (#[trigger] post_ledgers[k]).label,
        ) && !spec_has_ledger_row(old_ledgers, post_ledgers[k].label) by {
            if k < pre_ledgers.len() {
                assert(post_ledgers[k] == pre_ledgers[k]);
            } else {
                assert(post_ledgers[k] == row);
                assert(spec_ledger_configured(old_clients.take(idx + 1), ll)) by {
                    reveal(spec_ledger_configured);
                    assert(old_clients.take(idx + 1)[idx].label@ == ll);
                }
            }
        }
    }
}

/// Every row of a trusted store carries a status byte in the known
/// range: no package with an out-of-range status ever reaches the mirror,
/// because decoding rejects such a byte before anything is stored.
pub proof fn lemma_store_status_in_range(s: Seq<PackageDocumentModel>, i: int)
    requires
        spec_docs_trusted(s),
        0 <= i < s.len(),
    ensures
        0 <= s[i].status <= 5,
{
    reveal(spec_docs_trusted);
    assert(spec_doc_trusted(s[i]));
    let (p, label) = choose|p: PackageModel, label: Seq<char>|
        p.wf() && p.sig is Some && spec_verify(p) && s[i] == #[trigger] spec_document_of_package(
            p,
            label,
        );
}

// ---------------------------------------------------------------------------
// Idempotence of a sync pass.
// ---------------------------------------------------------------------------
/// The composite key of a stored row, as one value.
pub ghost struct DocKey {
    pub blockchain_label: Seq<char>,
    pub name: Seq<char>,
    pub version: Seq<char>,
    pub maintainer: Seq<char>,
}

/// The composite key of a row.
pub open spec fn spec_doc_key(d: PackageDocumentModel) -> DocKey {
    DocKey {
        blockchain_label: d.blockchain_label,
        name: d.name,
        version: d.version,
        maintainer: d.maintainer,
    }
}

/// The store read as a map from composite key to row; among rows sharing
/// a key, the earliest wins, which is the only one when keys are unique.
pub open spec fn spec_store_map(s: Seq<PackageDocumentModel>) -> Map<DocKey, PackageDocumentModel>
    decreases s.len(),
{
    if s.len() == 0 {
        Map::empty()
    } else {
        spec_store_map(s.drop_first()).insert(spec_doc_key(s[0]), s[0])
    }
}

/// An upsert, read as a map, is an insert.
proof fn lemma_map_of_upsert(s: Seq<PackageDocumentModel>, d: PackageDocumentModel)
    ensures
        spec_store_map(spec_upsert(s, d)) == spec_store_map(s).insert(spec_doc_key(d), d),
    decreases s.len(),
{
    let kd = spec_doc_key(d);
    if s.len() == 0 {
        assert(spec_upsert(s, d) == seq![d]);
        assert(seq![d].drop_first() =~= Seq::<PackageDocumentModel>::empty());
        assert(spec_store_map(Seq::<PackageDocumentModel>::empty()) == Map::<
            DocKey,
            PackageDocumentModel,
        >::empty());
        assert(spec_store_map(seq![d]) =~= Map::<DocKey, PackageDocumentModel>::empty().insert(
            kd,
            d,
        ));
        assert(spec_store_map(s) == Map::<DocKey, PackageDocumentModel>::empty());
    } else if spec_same_key(s[0], d) {
        let t = seq![d] + s.drop_first();
        assert(spec_upsert(s, d) == t);
        assert(t[0] == d);
        assert(t.drop_first() =~= s.drop_first());
        assert(spec_store_map(t) == spec_store_map(s.drop_first()).insert(kd, d));
        assert(spec_doc_key(s[0]) == kd);
        assert(spec_store_map(s) == spec_store_map(s.drop_first()).insert(kd, s[0]));
        assert(spec_store_map(s.drop_first()).insert(kd, s[0]).insert(kd, d) =~= spec_store_map(
            s.drop_first(),
        ).insert(kd, d));
    } else {
        lemma_map_of_upsert(s.drop_first(), d);
        let t = seq![s[0]] + spec_upsert(s.drop_first(), d);
        assert(spec_upsert(s, d) == t);
        assert(t[0] == s[0]);
        assert(t.drop_first() =~= spec_upsert(s.drop_first(), d));
        let k0 = spec_doc_key(s[0]);
        assert(k0 != kd);
        assert(spec_store_map(t) == spec_store_map(s.drop_first()).insert(kd, d).insert(
            k0,
            s[0],
        ));
        assert(spec_store_map(s.drop_first()).insert(kd, d).insert(k0, s[0]) =~= spec_store_map(
            s.drop_first(),
        ).insert(k0, s[0]).insert(kd, d));
    }
}

/// Insert the accepted packages of a pass into a store map, in order.
pub open spec fn spec_map_apply(
    m: Map<DocKey, PackageDocumentModel>,
    ps: Seq<PackageModel>,
    label: Seq<char>,
) -> Map<DocKey, PackageDocumentModel>
    decreases ps.len(),
{
    if ps.len() == 0 {
        m
    } else {
        let d = spec_document_of_package(ps[0], label);
        spec_map_apply(m.insert(spec_doc_key(d), d), ps.drop_first(), label)
    }
}

/// Applying a pass to the store, read as a map, inserts its packages.
proof fn lemma_map_of_apply(
    s: Seq<PackageDocumentModel>,
    ps: Seq<PackageModel>,
    label: Seq<char>,
)
    ensures
        spec_store_map(spec_apply_accepted(s, ps, label)) == spec_map_apply(
            spec_store_map(s),
            ps,
            label,
        ),
    decreases ps.len(),
{
    if ps.len() == 0 {
    } else {
        let d = spec_document_of_package(ps[0], label);
        lemma_map_of_upsert(s, d);
        lemma_map_of_apply(spec_upsert(s, d), ps.drop_first(), label);
    }
}

/// Whether some package of the pass writes the given key.
pub open spec fn spec_writes_key(ps: Seq<PackageModel>, label: Seq<char>, k: DocKey) -> bool {
    exists|i: int|
        0 <= i < ps.len() && spec_doc_key(
            #[trigger] spec_document_of_package(ps[i], label),
        ) == k
}

/// Applying a pass commutes with inserting a key the pass does not write.
proof fn lemma_map_apply_insert_commutes(
    m: Map<DocKey, PackageDocumentModel>,
    ps: Seq<PackageModel>,
    label: Seq<char>,
    k: DocKey,
    v: PackageDocumentModel,
)
    requires
        !spec_writes_key(ps, label, k),
    ensures
        spec_map_apply(m.insert(k, v), ps, label) == spec_map_apply(m, ps, label).insert(k, v),
    decreases ps.len(),
{
    if ps.len() == 0 {
    } else {
        let d = spec_document_of_package(ps[0], label);
        let kd = spec_doc_key(d);
        assert(kd != k);
        assert(m.insert(k, v).insert(kd, d) =~= m.insert(kd, d).insert(k, v));
        assert(forall|j: int|
            0 <= j < ps.drop_first().len() ==> #[trigger] ps.drop_first()[j] == ps[j + 1]);
        assert(!spec_writes_key(ps.drop_first(), label, k)) by {
            if spec_writes_key(ps.drop_first(), label, k) {
                let j = choose|j: int|
                    0 <= j < ps.drop_first().len() && spec_doc_key(
                        #[trigger] spec_document_of_package(ps.drop_first()[j], label),
                    ) == k;
                assert(spec_doc_key(spec_document_of_package(ps[j + 1], label)) == k);
            }
        }
        lemma_map_apply_insert_commutes(m.insert(kd, d), ps.drop_first(), label, k, v);
    }
}

/// An insert of a key the pass writes is absorbed by the pass.
proof fn lemma_map_apply_insert_absorbed(
    m: Map<DocKey, PackageDocumentModel>,
    ps: Seq<PackageModel>,
    label: Seq<char>,
    k: DocKey,
    v: PackageDocumentModel,
)
    requires
        spec_writes_key(ps, label, k),
    ensures
        spec_map_apply(m.insert(k, v), ps, label) == spec_map_apply(m, ps, label),
    decreases ps.len(),
{
    let d = spec_document_of_package(ps[0], label);
    let kd = spec_doc_key(d);
    assert(forall|j: int|
        0 <= j < ps.drop_first().len() ==> #[trigger] ps.drop_first()[j] == ps[j + 1]);
    if kd == k {
        assert(m.insert(k, v).insert(kd, d) =~= m.insert(kd, d));
    } else {
        assert(spec_writes_key(ps.drop_first(), label, k)) by {
            let j = choose|j: int|
                0 <= j < ps.len() && spec_doc_key(
                    #[trigger] spec_document_of_package(ps[j], label),
                ) == k;
            assert(j != 0);
            assert(spec_doc_key(spec_document_of_package(ps.drop_first()[j - 1], label)) == k);
        }
        assert(m.insert(k, v).insert(kd, d) =~= m.insert(kd, d).insert(k, v));
        lemma_map_apply_insert_absorbed(m.insert(kd, d), ps.drop_first(), label, k, v);
    }
}

/// Applying the same pass twice to a store map changes nothing more than
/// applying it once.
proof fn lemma_map_apply_idempotent(
    m: Map<DocKey, PackageDocumentModel>,
    ps: Seq<PackageModel>,
    label: Seq<char>,
)
    ensures
        spec_map_apply(spec_map_apply(m, ps, label), ps, label) == spec_map_apply(m, ps, label),
    decreases ps.len(),
{
    if ps.len() == 0 {
    } else {
        let d = spec_document_of_package(ps[0], label);
        let kd = spec_doc_key(d);
        let m1 = m.insert(kd, d);
        let t1 = spec_map_apply(m1, ps.drop_first(), label);
        assert(spec_map_apply(m, ps, label) == t1);
        assert(spec_map_apply(t1, ps, label) == spec_map_apply(
            t1.insert(kd, d),
            ps.drop_first(),
            label,
        ));
        if spec_writes_key(ps.drop_first(), label, kd) {
            lemma_map_apply_insert_absorbed(t1, ps.drop_first(), label, kd, d);
            lemma_map_apply_idempotent(m1, ps.drop_first(), label);
        } else {
            lemma_map_apply_insert_commutes(m1, ps.drop_first(), label, kd, d);
            assert(t1 == spec_map_apply(m, ps.drop_first(), label).insert(kd, d)) by {
                lemma_map_apply_insert_commutes(m, ps.drop_first(), label, kd, d);
            }
            lemma_map_apply_insert_commutes(t1, ps.drop_first(), label, kd, d);
            lemma_map_apply_idempotent(m1, ps.drop_first(), label);
            assert(spec_map_apply(t1, ps.drop_first(), label) == t1) by {
                lemma_map_apply_insert_commutes(
                    spec_map_apply(m, ps.drop_first(), label),
                    ps.drop_first(),
                    label,
                    kd,
                    d,
                );
                lemma_map_apply_idempotent(m, ps.drop_first(), label);
            }
            assert(t1.insert(kd, d) =~= t1);
        }
    }
}

/// Running a sync pass twice over the same stream leaves the store, read
/// as its map from composite key to row, exactly as one pass leaves it:
/// reprocessing a stream after a crash is safe.
pub proof fn lemma_sync_pass_idempotent(
    s: Seq<PackageDocumentModel>,
    ps: Seq<PackageModel>,
    label: Seq<char>,
)
    ensures
        spec_store_map(spec_apply_accepted(spec_apply_accepted(s, ps, label), ps, label))
            == spec_store_map(spec_apply_accepted(s, ps, label)),
{
    lemma_map_of_apply(s, ps, label);
    lemma_map_of_apply(spec_apply_accepted(s, ps, label), ps, label);
    lemma_map_apply_idempotent(spec_store_map(s), ps, label);
}

/// An empty subscription leaves the package rows untouched: only the
/// watermark may move.
pub proof fn lemma_empty_pass_preserves_store(s: Seq<PackageDocumentModel>, label: Seq<char>)
    ensures
        spec_accepted(Seq::<Result<Vec<u8>, BlockchainError>>::empty()) == Seq::<
            PackageModel,
        >::empty(),
        spec_apply_accepted(s, Seq::<PackageModel>::empty(), label) == s,
{
}

/// A frame whose signature does not verify over its own bytes is dropped:
/// it contributes nothing to the accepted packages, and the frames after
/// it are processed exactly as if it had never arrived.
pub proof fn lemma_forged_frame_dropped(ms: Seq<Result<Vec<u8>, BlockchainError>>, i: int)
    requires
        0 <= i < ms.len(),
        ms[i] is Ok,
        spec_message_effect(ms[i]->Ok_0@) is None,
    ensures
        spec_accepted(ms.take(i + 1)) == spec_accepted(ms.take(i)),
{
    lemma_accepted_snoc(ms, i);
}

} // verus!
