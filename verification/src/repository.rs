//! The artifact repository: owner of the record collection and of the
//! monotonic identifier counter. Records are created, listed, searched
//! case-insensitively over name, description and tags, and deleted by
//! identifier; `list` and `search` hand out snapshot copies.

use vstd::prelude::*;
use vstd::string::StrSliceExecFns;

use crate::clock::{is_timestamp, now_string};
use crate::text::{contains_case_insensitive, contains_ci, trim, trim_spec};

verus! {

/// The mathematical content of one artifact record.
#[verifier::ext_equal]
pub struct ArtifactView {
    pub id: u64,
    pub name: Seq<char>,
    pub description: Option<Seq<char>>,
    pub tags: Seq<Seq<char>>,
    pub tier: Seq<char>,
    pub thumbnail: Option<Seq<char>>,
    pub image_data: Option<Seq<char>>,
    pub uploaded_at: Option<Seq<char>>,
    pub analyzed_at: Option<Seq<char>>,
    pub confidence: Option<u32>,
}

/// One cataloged artifact record. The identifier is assigned by the
/// repository and never reused; `uploaded_at` is stamped once at
/// creation. `confidence` is in hundredths, as in [`crate::analysis`].
pub struct Artifact {
    pub id: u64,
    pub name: String,
    pub description: Option<String>,
    pub tags: Vec<String>,
    pub tier: String,
    pub thumbnail: Option<String>,
    pub image_data: Option<String>,
    pub uploaded_at: Option<String>,
    pub analyzed_at: Option<String>,
    pub confidence: Option<u32>,
}

impl View for Artifact {
    type V = ArtifactView;

    open spec fn view(&self) -> ArtifactView {
        ArtifactView {
            id: self.id,
            name: self.name@,
            description: self.description.deep_view(),
            tags: self.tags.deep_view(),
            tier: self.tier@,
            thumbnail: self.thumbnail.deep_view(),
            image_data: self.image_data.deep_view(),
            uploaded_at: self.uploaded_at.deep_view(),
            analyzed_at: self.analyzed_at.deep_view(),
            confidence: self.confidence,
        }
    }
}

/// The views of a sequence of records, in order.
pub open spec fn views_of(s: Seq<Artifact>) -> Seq<ArtifactView> {
    Seq::new(s.len(), |i: int| s[i]@)
}

/// Some record in `s` carries the identifier `id`.
pub open spec fn contains_id(s: Seq<ArtifactView>, id: u64) -> bool {
    exists|i: int| 0 <= i < s.len() && (#[trigger] s[i].id) == id
}

/// Identifiers grow strictly along the sequence (insertion order).
pub open spec fn ids_increasing(s: Seq<ArtifactView>) -> bool {
    forall|i: int, j: int| 0 <= i < j < s.len() ==> (#[trigger] s[i].id) < (#[trigger] s[j].id)
}

/// Every identifier in the sequence lies below `bound`.
pub open spec fn ids_below(s: Seq<ArtifactView>, bound: u64) -> bool {
    forall|i: int| 0 <= i < s.len() ==> (#[trigger] s[i].id) < bound
}

/// The sequence with every record of identifier `id` removed; the order
/// of the rest is kept.
pub open spec fn remove_id(s: Seq<ArtifactView>, id: u64) -> Seq<ArtifactView>
    decreases s.len(),
{
    if s.len() == 0 {
        Seq::empty()
    } else if s.last().id == id {
        remove_id(s.drop_last(), id)
    } else {
        remove_id(s.drop_last(), id).push(s.last())
    }
}

/// The trimmed query occurs, ignoring case, in the record's name, in its
/// description if it has one, or in one of its tags.
pub open spec fn artifact_matches(a: ArtifactView, query: Seq<char>) -> bool {
    ||| contains_ci(a.name, query)
    ||| (a.description matches Some(d) && contains_ci(d, query))
    ||| exists|i: int| 0 <= i < a.tags.len() && contains_ci(#[trigger] a.tags[i], query)
}

/// The subsequence of records that match the query, in their original
/// order.
pub open spec fn keep_matching(items: Seq<ArtifactView>, query: Seq<char>) -> Seq<ArtifactView>
    decreases items.len(),
{
    if items.len() == 0 {
        Seq::empty()
    } else if artifact_matches(items.last(), query) {
        keep_matching(items.drop_last(), query).push(items.last())
    } else {
        keep_matching(items.drop_last(), query)
    }
}

/// What a search returns: everything for an empty or white-space-only
/// query, otherwise exactly the matching records.
pub open spec fn search_result(items: Seq<ArtifactView>, query: Seq<char>) -> Seq<ArtifactView> {
    if trim_spec(query).len() == 0 {
        items
    } else {
        keep_matching(items, trim_spec(query))
    }
}

/// The fields a freshly created record must show: the caller's values,
/// the assigned identifier, a creation stamp, and nothing else filled in.
pub open spec fn artifact_created(
    a: ArtifactView,
    id: u64,
    name: Seq<char>,
    description: Option<Seq<char>>,
    tags: Seq<Seq<char>>,
    tier: Seq<char>,
    image_data: Option<Seq<char>>,
) -> bool {
    &&& a.id == id
    &&& a.name == name
    &&& a.description == description
    &&& a.tags == tags
    &&& a.tier == tier
    &&& a.thumbnail is None
    &&& a.image_data == image_data
    &&& a.analyzed_at is None
    &&& a.confidence is None
    &&& a.uploaded_at matches Some(ts) && is_timestamp(ts)
}

fn clone_opt_string(o: &Option<String>) -> (r: Option<String>)
    ensures
        r == *o,
{
    match o {
        Some(s) => Some(s.clone()),
        None => None,
    }
}

fn clone_strings(v: &Vec<String>) -> (r: Vec<String>)
    ensures
        r@ == v@,
{
    let mut out: Vec<String> = Vec::new();
    proof {
        assert(out@ =~= v@.subrange(0, 0));
    }
    let mut i: usize = 0;
    while i < v.len()
        invariant
            i <= v@.len(),
            out@ == v@.subrange(0, i as int),
        decreases v@.len() - i,
    {
        out.push(v[i].clone());
        i = i + 1;
        proof {
            assert(out@ =~= v@.subrange(0, i as int));
        }
    }
    proof {
        assert(v@.subrange(0, v@.len() as int) =~= v@);
    }
    out
}

impl Artifact {
    /// A copy whose view is the same record.
    pub fn duplicate(&self) -> (r: Artifact)
        ensures
            r@ == self@,
    {
        let r = Artifact {
            id: self.id,
            name: self.name.clone(),
            description: clone_opt_string(&self.description),
            tags: clone_strings(&self.tags),
            tier: self.tier.clone(),
            thumbnail: clone_opt_string(&self.thumbnail),
            image_data: clone_opt_string(&self.image_data),
            uploaded_at: clone_opt_string(&self.uploaded_at),
            analyzed_at: clone_opt_string(&self.analyzed_at),
            confidence: self.confidence,
        };
        proof {
            assert(r@ =~~= self@);
        }
        r
    }
}

/// The repository: the record collection and the identifier counter.
/// All access to the collection goes through its methods.
pub struct ArtifactRepository {
    artifacts: Vec<Artifact>,
    next_id: u64,
}

impl View for ArtifactRepository {
    type V = Seq<ArtifactView>;

    closed spec fn view(&self) -> Seq<ArtifactView> {
        views_of(self.artifacts@)
    }
}

impl ArtifactRepository {
    /// The identifier the next created record will receive.
    pub closed spec fn counter(&self) -> u64 {
        self.next_id
    }

    /// Identifiers start at 1, grow strictly in insertion order, and all
    /// lie below the counter, so a future identifier never collides with
    /// a stored one.
    pub open spec fn wf(&self) -> bool {
        &&& 1 <= self.counter()
        &&& ids_increasing(self@)
        &&& ids_below(self@, self.counter())
    }

    /// An empty repository whose first identifier will be 1.
    pub fn new() -> (r: ArtifactRepository)
        ensures
            r.wf(),
            r@ == Seq::<ArtifactView>::empty(),
            r.counter() == 1,
    {
        let r = ArtifactRepository { artifacts: Vec::new(), next_id: 1 };
        proof {
            assert(r@ =~= Seq::<ArtifactView>::empty());
        }
        r
    }

    /// The identifier the next created record will receive, readable by
    /// callers that must stop before the counter could wrap.
    pub fn peek_next_id(&self) -> (r: u64)
        ensures
            r == self.counter(),
    {
        self.next_id
    }

    /// Take the next identifier: strictly increasing, never reused.
    fn next_id(&mut self) -> (id: u64)
        requires
            old(self).counter() < u64::MAX,
        ensures
            id == old(self).counter(),
            final(self).counter() == old(self).counter() + 1,
            final(self).artifacts == old(self).artifacts,
            final(self)@ == old(self)@,
    {
        let id = self.next_id;
        self.next_id = self.next_id + 1;
        id
    }

    /// Create a record: assign the next identifier, stamp the creation
    /// time, and append it to the collection.
    pub fn create(
        &mut self,
        name: String,
        description: Option<String>,
        tags: Vec<String>,
        tier: String,
        image_data: Option<String>,
    ) -> (id: u64)
        requires
            old(self).wf(),
            old(self).counter() < u64::MAX,
        ensures
            final(self).wf(),
            id == old(self).counter(),
            final(self).counter() == old(self).counter() + 1,
            final(self)@.len() == old(self)@.len() + 1,
            final(self)@.drop_last() == old(self)@,
            artifact_created(
                final(self)@.last(),
                id,
                name@,
                description.deep_view(),
                tags.deep_view(),
                tier@,
                image_data.deep_view(),
            ),
    {
        let id = self.next_id();
        let stamp = now_string();
        let artifact = Artifact {
            id,
            name,
            description,
            tags,
            tier,
            thumbnail: None,
            image_data,
            uploaded_at: Some(stamp),
            analyzed_at: None,
            confidence: None,
        };
        let ghost before = self.artifacts@;
        self.artifacts.push(artifact);
        proof {
            assert(self@ =~= views_of(before).push(artifact@));
            assert(self@.drop_last() =~= views_of(before));
        }
        id
    }

    /// A snapshot of the whole collection, in insertion order. The
    /// returned vector is an owned copy: later repository operations
    /// cannot change it.
    pub fn list(&self) -> (r: Vec<Artifact>)
        ensures
            views_of(r@) == self@,
    {
        let mut out: Vec<Artifact> = Vec::new();
        proof {
            assert(views_of(out@) =~= self@.subrange(0, 0));
        }
        let mut i: usize = 0;
        while i < self.artifacts.len()
            invariant
                i <= self.artifacts@.len(),
                self@.len() == self.artifacts@.len(),
                views_of(out@) == self@.subrange(0, i as int),
            decreases self.artifacts@.len() - i,
        {
            let d = self.artifacts[i].duplicate();
            let ghost prev = out@;
            out.push(d);
            proof {
                assert(d@ == self@[i as int]);
                assert(views_of(out@) =~= views_of(prev).push(d@));
                assert(self@.subrange(0, i + 1) =~= self@.subrange(0, i as int).push(
                    self@[i as int],
                ));
            }
            i = i + 1;
        }
        proof {
            assert(self@.subrange(0, self@.len() as int) =~= self@);
        }
        out
    }

    /// The records the query selects, as snapshot copies in insertion
    /// order: everything for an empty or white-space-only query, else
    /// exactly those whose name, description or tags contain the trimmed
    /// query, ignoring case.
    pub fn search(&self, query: &str) -> (r: Vec<Artifact>)
        ensures
            views_of(r@) == search_result(self@, query@),
    {
        let t = trim(query);
        if t.unicode_len() == 0 {
            return self.list();
        }
        let mut out: Vec<Artifact> = Vec::new();
        proof {
            assert(self@.subrange(0, 0) =~= Seq::<ArtifactView>::empty());
            assert(views_of(out@) =~= keep_matching(self@.subrange(0, 0), t@));
        }
        let mut i: usize = 0;
        while i < self.artifacts.len()
            invariant
                i <= self.artifacts@.len(),
                self@.len() == self.artifacts@.len(),
                t@ == trim_spec(query@),
                t@.len() > 0,
                views_of(out@) == keep_matching(self@.subrange(0, i as int), t@),
            decreases self.artifacts@.len() - i,
        {
            let matched = artifact_matches_exec(&self.artifacts[i], t);
            proof {
                assert(self@.subrange(0, i + 1).drop_last() =~= self@.subrange(0, i as int));
                assert(self@.subrange(0, i + 1).last() == self.artifacts[i as int]@);
            }
            if matched {
                out.push(self.artifacts[i].duplicate());
                proof {
                    assert(views_of(out@) =~= keep_matching(self@.subrange(0, i as int), t@).push(
                        self.artifacts[i as int]@,
                    ));
                }
            }
            i = i + 1;
        }
        proof {
            assert(self@.subrange(0, self@.len() as int) =~= self@);
        }
        out
    }

    /// Remove the record with the given identifier if it is stored;
    /// report whether a removal happened. Deleting an absent identifier
    /// is not an error, just a negative result.
    pub fn delete(&mut self, id: u64) -> (removed: bool)
        requires
            old(self).wf(),
        ensures
            final(self).wf(),
            final(self).counter() == old(self).counter(),
            final(self)@ == remove_id(old(self)@, id),
            removed == contains_id(old(self)@, id),
    {
        let mut kept: Vec<Artifact> = Vec::new();
        let mut found = false;
        proof {
            assert(self@.subrange(0, 0) =~= Seq::<ArtifactView>::empty());
            assert(views_of(kept@) =~= remove_id(self@.subrange(0, 0), id));
        }
        let mut i: usize = 0;
        while i < self.artifacts.len()
            invariant
                i <= self.artifacts@.len(),
                self.artifacts@ == old(self).artifacts@,
                self.next_id == old(self).next_id,
                self@.len() == self.artifacts@.len(),
                views_of(kept@) == remove_id(self@.subrange(0, i as int), id),
                found == contains_id(self@.subrange(0, i as int), id),
            decreases self.artifacts@.len() - i,
        {
            proof {
                assert(self@.subrange(0, i + 1).drop_last() =~= self@.subrange(0, i as int));
                assert(self@.subrange(0, i + 1).last() == self.artifacts[i as int]@);
            }
            if self.artifacts[i].id == id {
                found = true;
                proof {
                    assert(self@.subrange(0, i + 1)[i as int].id == id);
                    assert(contains_id(self@.subrange(0, i + 1), id));
                }
            } else {
                kept.push(self.artifacts[i].duplicate());
                proof {
                    assert(views_of(kept@) =~= remove_id(self@.subrange(0, i as int), id).push(
                        self.artifacts[i as int]@,
                    ));
                    lemma_contains_id_push(self@.subrange(0, i as int), self.artifacts[i as int]@, id);
                }
            }
            i = i + 1;
        }
        proof {
            assert(self@.subrange(0, self@.len() as int) =~= self@);
            lemma_remove_id_increasing(self@, id);
            lemma_remove_id_below(self@, id, self.next_id);
        }
        self.artifacts = kept;
        found
    }
}

/// Whether the record matches the (already trimmed) query in its name,
/// its description, or one of its tags.
fn artifact_matches_exec(a: &Artifact, query: &str) -> (r: bool)
    ensures
        r == artifact_matches(a@, query@),
{
    if contains_case_insensitive(a.name.as_str(), query) {
        return true;
    }
    if let Some(d) = &a.description {
        if contains_case_insensitive(d.as_str(), query) {
            return true;
        }
    }
    let mut i: usize = 0;
    while i < a.tags.len()
        invariant
            i <= a.tags@.len(),
            forall|m: int| 0 <= m < i ==> !contains_ci(#[trigger] a@.tags[m], query@),
        decreases a.tags@.len() - i,
    {
        if contains_case_insensitive(a.tags[i].as_str(), query) {
            proof {
                assert(a@.tags[i as int] == a.tags@[i as int]@);
            }
            return true;
        }
        i = i + 1;
    }
    false
}

/// Appending one record extends `contains_id` by just that record's
/// identifier.
proof fn lemma_contains_id_push(s: Seq<ArtifactView>, a: ArtifactView, id: u64)
    ensures
        contains_id(s.push(a), id) == (contains_id(s, id) || a.id == id),
{
    if contains_id(s, id) {
        let i = choose|i: int| 0 <= i < s.len() && (#[trigger] s[i].id) == id;
        assert(s.push(a)[i].id == id);
    }
    if a.id == id {
        assert(s.push(a)[s.len() as int].id == id);
    }
    if contains_id(s.push(a), id) {
        let i = choose|i: int| 0 <= i < s.push(a).len() && (#[trigger] s.push(a)[i].id) == id;
        if i < s.len() {
            assert(s[i].id == id);
        }
    }
}

/// Removal keeps any strict upper bound on the identifiers.
proof fn lemma_remove_id_below(s: Seq<ArtifactView>, id: u64, bound: u64)
    requires
        ids_below(s, bound),
    ensures
        ids_below(remove_id(s, id), bound),
    decreases s.len(),
{
    if s.len() > 0 {
        assert(ids_below(s.drop_last(), bound));
        lemma_remove_id_below(s.drop_last(), id, bound);
    }
}

/// Removal keeps the identifiers strictly increasing.
proof fn lemma_remove_id_increasing(s: Seq<ArtifactView>, id: u64)
    requires
        ids_increasing(s),
    ensures
        ids_increasing(remove_id(s, id)),
    decreases s.len(),
{
    if s.len() > 0 {
        let d = s.drop_last();
        assert(ids_increasing(d));
        lemma_remove_id_increasing(d, id);
        if s.last().id != id {
            assert(ids_below(d, s.last().id));
            lemma_remove_id_below(d, id, s.last().id);
            let r = remove_id(d, id).push(s.last());
            assert forall|i: int, j: int| 0 <= i < j < r.len() implies r[i].id < r[j].id by {
                if j < r.len() - 1 {
                    assert(remove_id(d, id)[i].id < remove_id(d, id)[j].id);
                }
            }
        }
    }
}

/// Law: in a well-formed repository all stored identifiers are distinct.
pub proof fn lemma_ids_distinct(r: &ArtifactRepository)
    requires
        r.wf(),
    ensures
        forall|i: int, j: int|
            0 <= i < r@.len() && 0 <= j < r@.len() && i != j ==> (#[trigger] r@[i].id) != (
            #[trigger] r@[j].id),
{
}

/// Law: after a deletion the identifier is gone — no record of the
/// result carries it.
pub proof fn lemma_delete_removes_target(s: Seq<ArtifactView>, id: u64)
    ensures
        !contains_id(remove_id(s, id), id),
    decreases s.len(),
{
    if s.len() > 0 {
        lemma_delete_removes_target(s.drop_last(), id);
        if s.last().id != id {
            lemma_contains_id_push(remove_id(s.drop_last(), id), s.last(), id);
        }
    }
}

/// Law: deleting an identifier that is not stored changes nothing.
pub proof fn lemma_delete_absent_unchanged(s: Seq<ArtifactView>, id: u64)
    requires
        !contains_id(s, id),
    ensures
        remove_id(s, id) == s,
    decreases s.len(),
{
    if s.len() > 0 {
        let d = s.drop_last();
        assert(!contains_id(d, id)) by {
            if contains_id(d, id) {
                let i = choose|i: int| 0 <= i < d.len() && (#[trigger] d[i].id) == id;
                assert(s[i].id == id);
            }
        }
        lemma_delete_absent_unchanged(d, id);
        assert(s.last().id != id) by {
            if s.last().id == id {
                assert(s[s.len() - 1].id == id);
            }
        }
        assert(remove_id(s, id) =~= s);
    }
}

/// Law: deleting twice is the same as deleting once — the second pass
/// finds nothing and leaves the collection as it stands.
pub proof fn lemma_delete_idempotent(s: Seq<ArtifactView>, id: u64)
    ensures
        !contains_id(remove_id(s, id), id),
        remove_id(remove_id(s, id), id) == remove_id(s, id),
{
    lemma_delete_removes_target(s, id);
    lemma_delete_absent_unchanged(remove_id(s, id), id);
}

/// Law: a deletion never grows the collection, and removes something
/// exactly when the identifier was stored.
pub proof fn lemma_delete_shrinks(s: Seq<ArtifactView>, id: u64)
    ensures
        remove_id(s, id).len() <= s.len(),
        contains_id(s, id) ==> remove_id(s, id).len() < s.len(),
    decreases s.len(),
{
    if s.len() > 0 {
        lemma_delete_shrinks(s.drop_last(), id);
        if contains_id(s, id) && s.last().id != id {
            let i = choose|i: int| 0 <= i < s.len() && (#[trigger] s[i].id) == id;
            assert(s.drop_last()[i].id == id);
        }
    }
}

/// Law: under distinct identifiers — as the repository maintains them —
/// a successful deletion removes exactly one record.
pub proof fn lemma_delete_removes_exactly_one(s: Seq<ArtifactView>, id: u64)
    requires
        ids_increasing(s),
        contains_id(s, id),
    ensures
        remove_id(s, id).len() == s.len() - 1,
    decreases s.len(),
{
    let d = s.drop_last();
    assert(ids_increasing(d));
    if s.last().id == id {
        assert(!contains_id(d, id)) by {
            if contains_id(d, id) {
                let i = choose|i: int| 0 <= i < d.len() && (#[trigger] d[i].id) == id;
                assert(s[i].id < s.last().id);
            }
        }
        lemma_delete_absent_unchanged(d, id);
    } else {
        assert(contains_id(d, id)) by {
            let i = choose|i: int| 0 <= i < s.len() && (#[trigger] s[i].id) == id;
            assert(d[i].id == id);
        }
        lemma_delete_removes_exactly_one(d, id);
    }
}

/// Law: a snapshot taken before a later mutation does not reflect it:
/// it differs from the collection both after an append and after a
/// successful deletion.
pub proof fn lemma_snapshot_isolation(snap: Seq<ArtifactView>, a: ArtifactView, id: u64)
    ensures
        snap != snap.push(a),
        contains_id(snap, id) ==> snap != remove_id(snap, id),
{
    assert(snap.push(a).len() == snap.len() + 1);
    lemma_delete_shrinks(snap, id);
}

/// Law: the matching subsequence is exactly the subset of the listing
/// that matches: every element of it matches and comes from the
/// collection, and every matching record of the collection is in it.
pub proof fn lemma_search_exact(items: Seq<ArtifactView>, query: Seq<char>)
    ensures
        forall|k: int|
            0 <= k < keep_matching(items, query).len() ==> artifact_matches(
                #[trigger] keep_matching(items, query)[k],
                query,
            ) && items.contains(keep_matching(items, query)[k]),
        forall|i: int|
            0 <= i < items.len() && artifact_matches(#[trigger] items[i], query)
                ==> keep_matching(items, query).contains(items[i]),
    decreases items.len(),
{
    if items.len() > 0 {
        let d = items.drop_last();
        lemma_search_exact(d, query);
        let r = keep_matching(items, query);
        assert forall|k: int|
            0 <= k < r.len() implies artifact_matches(#[trigger] r[k], query) && items.contains(
            r[k],
        ) by {
            if k < keep_matching(d, query).len() {
                let e = keep_matching(d, query)[k];
                let i = choose|i: int| 0 <= i < d.len() && d[i] == e;
                assert(items[i] == e);
            } else {
                assert(items[items.len() - 1] == r[k]);
            }
        }
        assert forall|i: int|
            0 <= i < items.len() && artifact_matches(#[trigger] items[i], query) implies r.contains(
            items[i],
        ) by {
            if i < items.len() - 1 {
                assert(d[i] == items[i]);
                let k = choose|k: int|
                    0 <= k < keep_matching(d, query).len() && keep_matching(d, query)[k] == items[i];
                if artifact_matches(items.last(), query) {
                    assert(r[k] == items[i]);
                } else {
                    assert(r[k] == items[i]);
                }
            } else {
                assert(r[r.len() - 1] == items[i]);
            }
        }
    }
}

/// Law: an empty query selects the whole collection.
pub proof fn lemma_search_empty_query(items: Seq<ArtifactView>)
    ensures
        search_result(items, Seq::<char>::empty()) == items,
{
    assert(trim_spec(Seq::<char>::empty()).len() == 0);
}

/// Law: a white-space-only query selects the whole collection.
pub proof fn lemma_search_whitespace_query(items: Seq<ArtifactView>, query: Seq<char>)
    requires
        forall|i: int| 0 <= i < query.len() ==> crate::text::is_space_char(#[trigger] query[i]),
    ensures
        search_result(items, query) == items,
{
    lemma_trim_all_space(query);
}

/// Trimming a white-space-only sequence leaves nothing.
proof fn lemma_trim_all_space(query: Seq<char>)
    requires
        forall|i: int| 0 <= i < query.len() ==> crate::text::is_space_char(#[trigger] query[i]),
    ensures
        trim_spec(query).len() == 0,
    decreases query.len(),
{
    if query.len() > 0 {
        let d = query.drop_first();
        assert(forall|i: int|
            0 <= i < d.len() ==> crate::text::is_space_char(#[trigger] d[i]));
        lemma_trim_all_space(d);
    }
}

/// Law: two queries that trim and fold to the same characters select the
/// same records — in particular, changing only the letter case of a
/// query does not change the result.
pub proof fn lemma_search_case_insensitive(
    items: Seq<ArtifactView>,
    q1: Seq<char>,
    q2: Seq<char>,
)
    requires
        crate::text::lower_of(trim_spec(q1)) == crate::text::lower_of(trim_spec(q2)),
        trim_spec(q1).len() == 0 <==> trim_spec(q2).len() == 0,
    ensures
        search_result(items, q1) == search_result(items, q2),
{
    if trim_spec(q1).len() != 0 {
        lemma_keep_matching_congruent(items, trim_spec(q1), trim_spec(q2));
    }
}

/// Matching depends only on the folded query characters.
proof fn lemma_keep_matching_congruent(items: Seq<ArtifactView>, t1: Seq<char>, t2: Seq<char>)
    requires
        crate::text::lower_of(t1) == crate::text::lower_of(t2),
    ensures
        keep_matching(items, t1) == keep_matching(items, t2),
    decreases items.len(),
{
    if items.len() > 0 {
        lemma_keep_matching_congruent(items.drop_last(), t1, t2);
        assert(artifact_matches(items.last(), t1) == artifact_matches(items.last(), t2));
    }
}

} // verus!
