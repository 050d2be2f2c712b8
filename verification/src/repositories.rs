use vstd::prelude::*;

verus! {

use crate::documents::{
    BlockchainDocument,
    BlockchainDocumentModel,
    PackageDocument,
    PackageDocumentModel,
};

// ---------------------------------------------------------------------------
// The durable mirror, modeled as in-memory collections with explicit
// invariants: the packages collection keyed by the composite key
// (ledger label, name, version, maintainer), the ledgers collection keyed
// by label. Each holds at most one row per key; an upsert replaces the
// row in place or appends a fresh one.
// ---------------------------------------------------------------------------
/// The composite key of a stored package row, written as text:
/// `label:name:version:maintainer`.
pub open spec fn spec_key_string(d: PackageDocumentModel) -> Seq<char> {
    d.blockchain_label + ":"@ + d.name + ":"@ + d.version + ":"@ + d.maintainer
}

/// Whether two rows share the composite key.
pub open spec fn spec_same_key(a: PackageDocumentModel, b: PackageDocumentModel) -> bool {
    &&& a.blockchain_label == b.blockchain_label
    &&& a.name == b.name
    &&& a.version == b.version
    &&& a.maintainer == b.maintainer
}

/// At most one row per composite key.
pub open spec fn spec_unique_keys(s: Seq<PackageDocumentModel>) -> bool {
    forall|i: int, j: int|
        0 <= i < j < s.len() ==> !spec_same_key(#[trigger] s[i], #[trigger] s[j])
}

/// Insert-or-replace by composite key: the row with the key of `d` is
/// replaced in place; if none exists, `d` is appended.
pub open spec fn spec_upsert(s: Seq<PackageDocumentModel>, d: PackageDocumentModel) -> Seq<
    PackageDocumentModel,
>
    decreases s.len(),
{
    if s.len() == 0 {
        seq![d]
    } else if spec_same_key(s[0], d) {
        seq![d] + s.drop_first()
    } else {
        seq![s[0]] + spec_upsert(s.drop_first(), d)
    }
}

/// The rows of one release under one ledger.
pub open spec fn spec_release_pred(
    label: Seq<char>,
    name: Seq<char>,
    version: Seq<char>,
) -> spec_fn(PackageDocumentModel) -> bool {
    |d: PackageDocumentModel| d.blockchain_label == label && d.name == name && d.version == version
}

/// The rows of one maintainer under one ledger.
pub open spec fn spec_maintainer_pred(label: Seq<char>, maintainer: Seq<char>) -> spec_fn(
    PackageDocumentModel,
) -> bool {
    |d: PackageDocumentModel| d.blockchain_label == label && d.maintainer == maintainer
}

/// The local mirror of package descriptors observed on the ledgers.
pub struct PackagesRepository {
    docs: Vec<PackageDocument>,
}

impl View for PackagesRepository {
    type V = Seq<PackageDocumentModel>;

    closed spec fn view(&self) -> Seq<PackageDocumentModel> {
        self.docs@.map_values(|d: PackageDocument| d@)
    }
}

impl PackagesRepository {
    /// The store invariant: every row has its own composite key.
    pub open spec fn wf(&self) -> bool {
        spec_unique_keys(self@)
    }

    /// An empty packages collection.
    pub fn new() -> (r: Self)
        ensures
            r@ == Seq::<PackageDocumentModel>::empty(),
            r.wf(),
    {
        let r = PackagesRepository { docs: Vec::new() };
        proof {
            assert(r@ =~= Seq::<PackageDocumentModel>::empty());
        }
        r
    }

    /// The composite key of a document, as text.
    pub fn get_composite_key(&self, document: &PackageDocument) -> (r: String)
        ensures
            r@ == spec_key_string(document@),
    {
        let mut key = document.blockchain_label.clone();
        key.append(":");
        key.append(document.name.as_str());
        key.append(":");
        key.append(document.version.as_str());
        key.append(":");
        key.append(document.maintainer.as_str());
        key
    }

    /// Whether a row matches the given key fields.
    fn doc_matches(
        d: &PackageDocument,
        blockchain_label: &String,
        name: &String,
        version: &String,
        maintainer: &String,
    ) -> (r: bool)
        ensures
            r == (d@.blockchain_label == blockchain_label@ && d@.name == name@ && d@.version
                == version@ && d@.maintainer == maintainer@),
    {
        let lb = d.blockchain_label.eq(blockchain_label);
        let nm = d.name.eq(name);
        let vr = d.version.eq(version);
        let mt = d.maintainer.eq(maintainer);
        lb && nm && vr && mt
    }

    /// Every stored row, in insertion order.
    pub fn read_all(&self) -> (r: Vec<PackageDocument>)
        ensures
            r@.len() == self@.len(),
            forall|i: int| 0 <= i < r@.len() ==> (#[trigger] r@[i])@ == self@[i],
    {
        let mut out: Vec<PackageDocument> = Vec::new();
        let mut i: usize = 0;
        while i < self.docs.len()
            invariant
                i <= self.docs@.len(),
                self@.len() == self.docs@.len(),
                out@.len() == i,
                forall|j: int| 0 <= j < i ==> (#[trigger] out@[j])@ == self@[j],
            decreases self.docs@.len() - i,
        {
            out.push(self.docs[i].clone());
            i += 1;
        }
        out
    }

    /// The row with the given composite key, if any.
    pub fn read_by_key(&self, key: &String) -> (r: Option<PackageDocument>)
        ensures
            match r {
                Some(d) => exists|i: int|
                    0 <= i < self@.len() && self@[i] == d@ && spec_key_string(#[trigger] self@[i])
                        == key@,
                None => forall|i: int|
                    0 <= i < self@.len() ==> spec_key_string(#[trigger] self@[i]) != key@,
            },
    {
        let mut i: usize = 0;
        while i < self.docs.len()
            invariant
                i <= self.docs@.len(),
                self@.len() == self.docs@.len(),
                forall|j: int| 0 <= j < i ==> spec_key_string(#[trigger] self@[j]) != key@,
            decreases self.docs@.len() - i,
        {
            let d = &self.docs[i];
            let dk = self.get_composite_key(d);
            if dk.eq(key) {
                proof {
                    assert(self@[i as int] == self.docs@[i as int]@);
                    assert(spec_key_string(self@[i as int]) == key@);
                }
                return Some(d.clone());
            }
            i += 1;
        }
        None
    }

    /// All rows of a release under one ledger: one per maintainer.
    pub fn read_by_release(
        &self,
        package_name: &String,
        package_version: &String,
        blockchain_label: &String,
    ) -> (r: Vec<PackageDocument>)
        ensures
            r@.map_values(|d: PackageDocument| d@) == self@.filter(
                spec_release_pred(blockchain_label@, package_name@, package_version@),
            ),
    {
        let ghost pred = spec_release_pred(blockchain_label@, package_name@, package_version@);
        let mut out: Vec<PackageDocument> = Vec::new();
        let mut i: usize = 0;
        proof {
            assert(self@.take(0) =~= Seq::<PackageDocumentModel>::empty());
            assert(out@.map_values(|d: PackageDocument| d@) =~= self@.take(0).filter(pred));
        }
        while i < self.docs.len()
            invariant
                i <= self.docs@.len(),
                self@.len() == self.docs@.len(),
                pred == spec_release_pred(blockchain_label@, package_name@, package_version@),
                out@.map_values(|d: PackageDocument| d@) == self@.take(i as int).filter(pred),
            decreases self.docs@.len() - i,
        {
            let d = &self.docs[i];
            let keep = d.blockchain_label.eq(blockchain_label) && d.name.eq(package_name)
                && d.version.eq(package_version);
            proof {
                reveal(Seq::filter);
                assert(self@.take(i as int + 1).drop_last() =~= self@.take(i as int));
                assert(self@.take(i as int + 1).last() == self@[i as int]);
                assert(keep == pred(self@[i as int]));
                if keep {
                    assert(self@.take(i as int + 1).filter(pred) == self@.take(
                        i as int,
                    ).filter(pred).push(self@[i as int]));
                } else {
                    assert(self@.take(i as int + 1).filter(pred) == self@.take(
                        i as int,
                    ).filter(pred));
                }
            }
            if keep {
                out.push(d.clone());
                proof {
                    assert(out@.map_values(|x: PackageDocument| x@) =~= self@.take(
                        i as int,
                    ).filter(pred).push(self@[i as int]));
                }
            }
            i += 1;
        }
        proof {
            assert(self@.take(self@.len() as int) =~= self@);
        }
        out
    }

    /// All rows of one maintainer under one ledger.
    pub fn read_by_maintainer(&self, maintainer: &String, blockchain_label: &String) -> (r: Vec<
        PackageDocument,
    >)
        ensures
            r@.map_values(|d: PackageDocument| d@) == self@.filter(
                spec_maintainer_pred(blockchain_label@, maintainer@),
            ),
    {
        let ghost pred = spec_maintainer_pred(blockchain_label@, maintainer@);
        let mut out: Vec<PackageDocument> = Vec::new();
        let mut i: usize = 0;
        proof {
            assert(self@.take(0) =~= Seq::<PackageDocumentModel>::empty());
            assert(out@.map_values(|d: PackageDocument| d@) =~= self@.take(0).filter(pred));
        }
        while i < self.docs.len()
            invariant
                i <= self.docs@.len(),
                self@.len() == self.docs@.len(),
                pred == spec_maintainer_pred(blockchain_label@, maintainer@),
                out@.map_values(|d: PackageDocument| d@) == self@.take(i as int).filter(pred),
            decreases self.docs@.len() - i,
        {
            let d = &self.docs[i];
            let keep = d.blockchain_label.eq(blockchain_label) && d.maintainer.eq(maintainer);
            proof {
                reveal(Seq::filter);
                assert(self@.take(i as int + 1).drop_last() =~= self@.take(i as int));
                assert(self@.take(i as int + 1).last() == self@[i as int]);
                assert(keep == pred(self@[i as int]));
                if keep {
                    assert(self@.take(i as int + 1).filter(pred) == self@.take(
                        i as int,
                    ).filter(pred).push(self@[i as int]));
                } else {
                    assert(self@.take(i as int + 1).filter(pred) == self@.take(
                        i as int,
                    ).filter(pred));
                }
            }
            if keep {
                out.push(d.clone());
                proof {
                    assert(out@.map_values(|x: PackageDocument| x@) =~= self@.take(
                        i as int,
                    ).filter(pred).push(self@[i as int]));
                }
            }
            i += 1;
        }
        proof {
            assert(self@.take(self@.len() as int) =~= self@);
        }
        out
    }

    /// Whether a row with the given composite key exists.
    pub fn exists_by_key(&self, key: &String) -> (r: bool)
        ensures
            r == exists|i: int|
                0 <= i < self@.len() && spec_key_string(#[trigger] self@[i]) == key@,
    {
        let found = self.read_by_key(key);
        match found {
            Some(_) => true,
            None => false,
        }
    }

    /// Append a fresh row; its key must not be present yet.
    pub fn create(&mut self, document: &PackageDocument)
        requires
            old(self).wf(),
            forall|i: int|
                0 <= i < old(self)@.len() ==> !spec_same_key(#[trigger] old(self)@[i], document@),
        ensures
            final(self)@ == old(self)@ + seq![document@],
            final(self).wf(),
    {
        self.docs.push(document.clone());
        proof {
            assert(self@ =~= old(self)@ + seq![document@]);
        }
    }

    /// Insert-or-replace by composite key.
    pub fn upsert(&mut self, document: &PackageDocument)
        requires
            old(self).wf(),
        ensures
            final(self)@ == spec_upsert(old(self)@, document@),
            final(self).wf(),
    {
        let mut i: usize = 0;
        while i < self.docs.len()
            invariant
                i <= self.docs@.len(),
                self@.len() == self.docs@.len(),
                self@ == old(self)@,
                self.wf(),
                forall|j: int| 0 <= j < i ==> !spec_same_key(#[trigger] self@[j], document@),
            decreases self.docs@.len() - i,
        {
            let d = &self.docs[i];
            let same = Self::doc_matches(
                d,
                &document.blockchain_label,
                &document.name,
                &document.version,
                &document.maintainer,
            );
            if same {
                self.docs[i] = document.clone();
                proof {
                    assert(self@ =~= old(self)@.update(i as int, document@));
                    lemma_upsert_at_index(old(self)@, document@, i as int);
                    lemma_upsert_preserves_unique(old(self)@, document@);
                }
                return ;
            }
            i += 1;
        }
        self.docs.push(document.clone());
        proof {
            assert(self@ =~= old(self)@ + seq![document@]);
            lemma_upsert_append(old(self)@, document@);
            lemma_upsert_preserves_unique(old(self)@, document@);
        }
    }

    /// Replace the row with the given key by the document, which must
    /// carry the same composite key. A missing key leaves the store
    /// unchanged.
    pub fn update(&mut self, doc_composite_key: &String, document: &PackageDocument)
        requires
            old(self).wf(),
            spec_key_string(document@) == doc_composite_key@,
        ensures
            final(self)@ == spec_upsert_if_present(old(self)@, document@),
            final(self).wf(),
    {
        let mut i: usize = 0;
        while i < self.docs.len()
            invariant
                i <= self.docs@.len(),
                self@.len() == self.docs@.len(),
                self@ == old(self)@,
                self.wf(),
                forall|j: int| 0 <= j < i ==> !spec_same_key(#[trigger] self@[j], document@),
            decreases self.docs@.len() - i,
        {
            let d = &self.docs[i];
            let same = Self::doc_matches(
                d,
                &document.blockchain_label,
                &document.name,
                &document.version,
                &document.maintainer,
            );
            if same {
                self.docs[i] = document.clone();
                proof {
                    assert(self@ =~= old(self)@.update(i as int, document@));
                    lemma_upsert_at_index(old(self)@, document@, i as int);
                    lemma_upsert_preserves_unique(old(self)@, document@);
                }
                return ;
            }
            i += 1;
        }
    }
}

/// Insert-or-replace only where the key is already present; else leave
/// the rows unchanged.
pub open spec fn spec_upsert_if_present(
    s: Seq<PackageDocumentModel>,
    d: PackageDocumentModel,
) -> Seq<PackageDocumentModel> {
    if exists|i: int| 0 <= i < s.len() && spec_same_key(#[trigger] s[i], d) {
        spec_upsert(s, d)
    } else {
        s
    }
}

/// When the first matching index is `i`, the upsert is an update at `i`.
pub proof fn lemma_upsert_at_index(s: Seq<PackageDocumentModel>, d: PackageDocumentModel, i: int)
    requires
        0 <= i < s.len(),
        spec_same_key(s[i], d),
        forall|j: int| 0 <= j < i ==> !spec_same_key(#[trigger] s[j], d),
    ensures
        spec_upsert(s, d) == s.update(i, d),
    decreases i,
{
    if i == 0 {
        assert(spec_upsert(s, d) == seq![d] + s.drop_first());
        assert(seq![d] + s.drop_first() =~= s.update(0, d));
    } else {
        assert(!spec_same_key(s[0], d));
        assert(s.drop_first()[i - 1] == s[i]);
        assert(forall|j: int| 0 <= j < i - 1 ==> s.drop_first()[j] == s[j + 1]);
        lemma_upsert_at_index(s.drop_first(), d, i - 1);
        assert(spec_upsert(s, d) == seq![s[0]] + s.drop_first().update(i - 1, d));
        assert(seq![s[0]] + s.drop_first().update(i - 1, d) =~= s.update(i, d));
    }
}

/// When no row matches, the upsert appends.
pub proof fn lemma_upsert_append(s: Seq<PackageDocumentModel>, d: PackageDocumentModel)
    requires
        forall|j: int| 0 <= j < s.len() ==> !spec_same_key(#[trigger] s[j], d),
    ensures
        spec_upsert(s, d) == s + seq![d],
    decreases s.len(),
{
    if s.len() == 0 {
        assert(spec_upsert(s, d) =~= s + seq![d]);
    } else {
        assert(forall|j: int| 0 <= j < s.drop_first().len() ==> s.drop_first()[j] == s[j + 1]);
        lemma_upsert_append(s.drop_first(), d);
        assert(seq![s[0]] + (s.drop_first() + seq![d]) =~= s + seq![d]);
    }
}

/// An upsert never duplicates keys.
pub proof fn lemma_upsert_preserves_unique(s: Seq<PackageDocumentModel>, d: PackageDocumentModel)
    requires
        spec_unique_keys(s),
    ensures
        spec_unique_keys(spec_upsert(s, d)),
    decreases s.len(),
{
    let t = spec_upsert(s, d);
    if s.len() == 0 {
    } else if spec_same_key(s[0], d) {
        assert(t == seq![d] + s.drop_first());
        assert(forall|j: int| 0 <= j < s.drop_first().len() ==> s.drop_first()[j] == s[j + 1]);
        assert forall|i: int, j: int| 0 <= i < j < t.len() implies !spec_same_key(
            #[trigger] t[i],
            #[trigger] t[j],
        ) by {
            if i == 0 {
                assert(t[j] == s[j]);
                assert(!spec_same_key(s[0], s[j]));
                if spec_same_key(t[0], t[j]) {
                    assert(spec_same_key(d, s[j]));
                    assert(spec_same_key(s[0], d));
                    assert(spec_same_key(s[0], s[j]));
                }
            } else {
                assert(t[i] == s[i] && t[j] == s[j]);
            }
        }
    } else {
        assert(forall|j: int| 0 <= j < s.drop_first().len() ==> s.drop_first()[j] == s[j + 1]);
        lemma_upsert_preserves_unique(s.drop_first(), d);
        let t2 = spec_upsert(s.drop_first(), d);
        assert(t == seq![s[0]] + t2);
        assert forall|i: int, j: int| 0 <= i < j < t.len() implies !spec_same_key(
            #[trigger] t[i],
            #[trigger] t[j],
        ) by {
            if i == 0 {
                assert(t[j] == t2[j - 1]);
                if spec_same_key(t[0], t[j]) {
                    if t2[j - 1] == d {
                        assert(spec_same_key(s[0], d));
                    } else {
                        assert(!spec_same_key(t2[j - 1], d) || t2[j - 1] == d);
                        lemma_upsert_membership(s.drop_first(), d, j - 1);
                    }
                }
            } else {
                assert(t[i] == t2[i - 1] && t[j] == t2[j - 1]);
            }
        }
    }
}

/// Every row of an upsert is the new row or one of the old rows.
pub proof fn lemma_upsert_membership(s: Seq<PackageDocumentModel>, d: PackageDocumentModel, i: int)
    requires
        0 <= i < spec_upsert(s, d).len(),
    ensures
        spec_upsert(s, d)[i] == d || exists|j: int|
            0 <= j < s.len() && #[trigger] s[j] == spec_upsert(s, d)[i],
    decreases s.len(),
{
    let t = spec_upsert(s, d);
    if s.len() == 0 {
    } else if spec_same_key(s[0], d) {
        if i > 0 {
            assert(t[i] == s[i]);
        }
    } else {
        if i > 0 {
            lemma_upsert_membership(s.drop_first(), d, i - 1);
            assert(t[i] == spec_upsert(s.drop_first(), d)[i - 1]);
            if spec_upsert(s.drop_first(), d)[i - 1] != d {
                let j = choose|j: int|
                    0 <= j < s.drop_first().len() && #[trigger] s.drop_first()[j] == spec_upsert(
                        s.drop_first(),
                        d,
                    )[i - 1];
                assert(s[j + 1] == t[i]);
            }
        }
    }
}

/// The upsert of `d` where some row already carries its key.
proof fn lemma_upsert_if_present(s: Seq<PackageDocumentModel>, d: PackageDocumentModel)
    ensures
        (exists|i: int| 0 <= i < s.len() && spec_same_key(#[trigger] s[i], d))
            ==> spec_upsert_if_present(s, d) == spec_upsert(s, d),
        !(exists|i: int| 0 <= i < s.len() && spec_same_key(#[trigger] s[i], d))
            ==> spec_upsert_if_present(s, d) == s,
{
}

/// A second upsert of the same row changes nothing: the store keeps
/// exactly one row per composite key.
pub proof fn lemma_upsert_idempotent(s: Seq<PackageDocumentModel>, d: PackageDocumentModel)
    ensures
        spec_upsert(spec_upsert(s, d), d) == spec_upsert(s, d),
    decreases s.len(),
{
    let t = spec_upsert(s, d);
    if s.len() == 0 {
        assert(t == seq![d]);
        assert(spec_upsert(t, d) == seq![d] + t.drop_first());
        assert(seq![d] + t.drop_first() =~= t);
    } else if spec_same_key(s[0], d) {
        assert(t == seq![d] + s.drop_first());
        assert(t[0] == d);
        assert(spec_same_key(t[0], d));
        assert(spec_upsert(t, d) == seq![d] + t.drop_first());
        assert(seq![d] + t.drop_first() =~= t);
    } else {
        lemma_upsert_idempotent(s.drop_first(), d);
        assert(t == seq![s[0]] + spec_upsert(s.drop_first(), d));
        assert(t[0] == s[0]);
        assert(t.drop_first() =~= spec_upsert(s.drop_first(), d));
        assert(spec_upsert(t, d) == seq![s[0]] + spec_upsert(t.drop_first(), d));
        assert(spec_upsert(t, d) =~= t);
    }
}

/// The ledgers collection: one row per configured ledger.
pub struct BlockchainsRepository {
    docs: Vec<BlockchainDocument>,
}

impl View for BlockchainsRepository {
    type V = Seq<BlockchainDocumentModel>;

    closed spec fn view(&self) -> Seq<BlockchainDocumentModel> {
        self.docs@.map_values(|d: BlockchainDocument| d@)
    }
}

/// Two ledger rows with the same label are the same row.
pub proof fn lemma_unique_labels_same_row(s: Seq<BlockchainDocumentModel>, i: int, j: int)
    requires
        spec_unique_labels(s),
        0 <= i < s.len(),
        0 <= j < s.len(),
        s[i].label == s[j].label,
    ensures
        i == j,
        s[i] == s[j],
{
}

/// At most one ledger row per label.
pub open spec fn spec_unique_labels(s: Seq<BlockchainDocumentModel>) -> bool {
    forall|i: int, j: int|
        0 <= i < j < s.len() ==> (#[trigger] s[i]).label != (#[trigger] s[j]).label
}

/// Insert-or-replace a ledger row by label.
pub open spec fn spec_ledger_upsert(
    s: Seq<BlockchainDocumentModel>,
    d: BlockchainDocumentModel,
) -> Seq<BlockchainDocumentModel>
    decreases s.len(),
{
    if s.len() == 0 {
        seq![d]
    } else if s[0].label == d.label {
        seq![d] + s.drop_first()
    } else {
        seq![s[0]] + spec_ledger_upsert(s.drop_first(), d)
    }
}

impl BlockchainsRepository {
    /// The store invariant: every ledger has its own row.
    pub open spec fn wf(&self) -> bool {
        spec_unique_labels(self@)
    }

    /// An empty ledgers collection.
    pub fn new() -> (r: Self)
        ensures
            r@ == Seq::<BlockchainDocumentModel>::empty(),
            r.wf(),
    {
        let r = BlockchainsRepository { docs: Vec::new() };
        proof {
            assert(r@ =~= Seq::<BlockchainDocumentModel>::empty());
        }
        r
    }

    /// Every stored row, in insertion order.
    pub fn read_all(&self) -> (r: Vec<BlockchainDocument>)
        ensures
            r@.len() == self@.len(),
            forall|i: int| 0 <= i < r@.len() ==> (#[trigger] r@[i])@ == self@[i],
    {
        let mut out: Vec<BlockchainDocument> = Vec::new();
        let mut i: usize = 0;
        while i < self.docs.len()
            invariant
                i <= self.docs@.len(),
                self@.len() == self.docs@.len(),
                out@.len() == i,
                forall|j: int| 0 <= j < i ==> (#[trigger] out@[j])@ == self@[j],
            decreases self.docs@.len() - i,
        {
            out.push(self.docs[i].clone());
            i += 1;
        }
        out
    }

    /// The ledger row with the given label, if any.
    pub fn read_by_key(&self, key: &String) -> (r: Option<BlockchainDocument>)
        ensures
            match r {
                Some(d) => d@.label == key@ && exists|i: int|
                    0 <= i < self@.len() && #[trigger] self@[i] == d@,
                None => forall|i: int| 0 <= i < self@.len() ==> (#[trigger] self@[i]).label != key@,
            },
    {
        let mut i: usize = 0;
        while i < self.docs.len()
            invariant
                i <= self.docs@.len(),
                self@.len() == self.docs@.len(),
                forall|j: int| 0 <= j < i ==> (#[trigger] self@[j]).label != key@,
            decreases self.docs@.len() - i,
        {
            let d = &self.docs[i];
            if d.label.eq(key) {
                proof {
                    assert(self@[i as int] == self.docs@[i as int]@);
                }
                return Some(d.clone());
            }
            i += 1;
        }
        None
    }

    /// Whether a ledger row with the given label exists.
    pub fn exists_by_key(&self, key: &String) -> (r: bool)
        ensures
            r == exists|i: int| 0 <= i < self@.len() && (#[trigger] self@[i]).label == key@,
    {
        let found = self.read_by_key(key);
        match found {
            Some(_) => true,
            None => false,
        }
    }

    /// Append a fresh ledger row; its label must not be present yet.
    pub fn create(&mut self, document: &BlockchainDocument)
        requires
            old(self).wf(),
            forall|i: int|
                0 <= i < old(self)@.len() ==> (#[trigger] old(self)@[i]).label != document@.label,
        ensures
            final(self)@ == old(self)@ + seq![document@],
            final(self).wf(),
    {
        self.docs.push(document.clone());
        proof {
            assert(self@ =~= old(self)@ + seq![document@]);
        }
    }

    /// Insert-or-replace the ledger row by label.
    pub fn upsert(&mut self, document: &BlockchainDocument)
        requires
            old(self).wf(),
        ensures
            final(self)@ == spec_ledger_upsert(old(self)@, document@),
            final(self).wf(),
    {
        let mut i: usize = 0;
        while i < self.docs.len()
            invariant
                i <= self.docs@.len(),
                self@.len() == self.docs@.len(),
                self@ == old(self)@,
                self.wf(),
                forall|j: int| 0 <= j < i ==> (#[trigger] self@[j]).label != document@.label,
            decreases self.docs@.len() - i,
        {
            let d = &self.docs[i];
            if d.label.eq(&document.label) {
                self.docs[i] = document.clone();
                proof {
                    assert(self@ =~= old(self)@.update(i as int, document@));
                    lemma_ledger_upsert_at_index(old(self)@, document@, i as int);
                    lemma_ledger_upsert_preserves_unique(old(self)@, document@);
                }
                return ;
            }
            i += 1;
        }
        self.docs.push(document.clone());
        proof {
            assert(self@ =~= old(self)@ + seq![document@]);
            lemma_ledger_upsert_append(old(self)@, document@);
            lemma_ledger_upsert_preserves_unique(old(self)@, document@);
        }
    }

    /// Replace the ledger row with the given label; the document must
    /// carry that label. A missing label leaves the store unchanged.
    pub fn update(&mut self, doc_key: &String, document: &BlockchainDocument)
        requires
            old(self).wf(),
            document@.label == doc_key@,
        ensures
            final(self)@ == (if exists|i: int|
                0 <= i < old(self)@.len() && (#[trigger] old(self)@[i]).label == document@.label {
                spec_ledger_upsert(old(self)@, document@)
            } else {
                old(self)@
            }),
            final(self).wf(),
    {
        let present = self.exists_by_key(doc_key);
        if present {
            self.upsert(document);
        }
    }
}

/// When the first matching label is at `i`, the upsert updates at `i`.
proof fn lemma_ledger_upsert_at_index(s: Seq<BlockchainDocumentModel>, d: BlockchainDocumentModel, i: int)
    requires
        0 <= i < s.len(),
        s[i].label == d.label,
        forall|j: int| 0 <= j < i ==> (#[trigger] s[j]).label != d.label,
    ensures
        spec_ledger_upsert(s, d) == s.update(i, d),
    decreases i,
{
    if i == 0 {
        assert(seq![d] + s.drop_first() =~= s.update(0, d));
    } else {
        assert(s.drop_first()[i - 1] == s[i]);
        assert(forall|j: int| 0 <= j < i - 1 ==> s.drop_first()[j] == s[j + 1]);
        lemma_ledger_upsert_at_index(s.drop_first(), d, i - 1);
        assert(seq![s[0]] + s.drop_first().update(i - 1, d) =~= s.update(i, d));
    }
}

/// When no label matches, the upsert appends.
proof fn lemma_ledger_upsert_append(s: Seq<BlockchainDocumentModel>, d: BlockchainDocumentModel)
    requires
        forall|j: int| 0 <= j < s.len() ==> (#[trigger] s[j]).label != d.label,
    ensures
        spec_ledger_upsert(s, d) == s + seq![d],
    decreases s.len(),
{
    if s.len() == 0 {
        assert(spec_ledger_upsert(s, d) =~= s + seq![d]);
    } else {
        assert(forall|j: int| 0 <= j < s.drop_first().len() ==> s.drop_first()[j] == s[j + 1]);
        lemma_ledger_upsert_append(s.drop_first(), d);
        assert(seq![s[0]] + (s.drop_first() + seq![d]) =~= s + seq![d]);
    }
}

/// A ledger upsert never duplicates labels.
proof fn lemma_ledger_upsert_preserves_unique(
    s: Seq<BlockchainDocumentModel>,
    d: BlockchainDocumentModel,
)
    requires
        spec_unique_labels(s),
    ensures
        spec_unique_labels(spec_ledger_upsert(s, d)),
    decreases s.len(),
{
    let t = spec_ledger_upsert(s, d);
    if s.len() == 0 {
    } else if s[0].label == d.label {
        assert(t == seq![d] + s.drop_first());
        assert(forall|j: int| 0 <= j < s.drop_first().len() ==> s.drop_first()[j] == s[j + 1]);
        assert forall|i: int, j: int| 0 <= i < j < t.len() implies (#[trigger] t[i]).label != (
        #[trigger] t[j]).label by {
            if i == 0 {
                assert(t[j] == s[j]);
            } else {
                assert(t[i] == s[i] && t[j] == s[j]);
            }
        }
    } else {
        assert(forall|j: int| 0 <= j < s.drop_first().len() ==> s.drop_first()[j] == s[j + 1]);
        lemma_ledger_upsert_preserves_unique(s.drop_first(), d);
        let t2 = spec_ledger_upsert(s.drop_first(), d);
        assert(t == seq![s[0]] + t2);
        assert forall|i: int, j: int| 0 <= i < j < t.len() implies (#[trigger] t[i]).label != (
        #[trigger] t[j]).label by {
            if i == 0 {
                assert(t[j] == t2[j - 1]);
                lemma_ledger_upsert_labels(s.drop_first(), d, j - 1);
            } else {
                assert(t[i] == t2[i - 1] && t[j] == t2[j - 1]);
            }
        }
    }
}

/// Every label after a ledger upsert is the new label or an old one.
proof fn lemma_ledger_upsert_labels(
    s: Seq<BlockchainDocumentModel>,
    d: BlockchainDocumentModel,
    i: int,
)
    requires
        0 <= i < spec_ledger_upsert(s, d).len(),
    ensures
        spec_ledger_upsert(s, d)[i].label == d.label || exists|j: int|
            0 <= j < s.len() && (#[trigger] s[j]).label == spec_ledger_upsert(s, d)[i].label,
    decreases s.len(),
{
    let t = spec_ledger_upsert(s, d);
    if s.len() == 0 {
    } else if s[0].label == d.label {
        if i > 0 {
            assert(t[i] == s[i]);
        }
    } else {
        if i > 0 {
            lemma_ledger_upsert_labels(s.drop_first(), d, i - 1);
            assert(t[i] == spec_ledger_upsert(s.drop_first(), d)[i - 1]);
            if spec_ledger_upsert(s.drop_first(), d)[i - 1].label != d.label {
                let j = choose|j: int|
                    0 <= j < s.drop_first().len() && (#[trigger] s.drop_first()[j]).label
                        == spec_ledger_upsert(s.drop_first(), d)[i - 1].label;
                assert(s[j + 1].label == t[i].label);
            }
        }
    }
}

} // verus!
