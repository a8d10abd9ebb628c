//! The reference store: validation and the create / update / delete
//! operations on the in-memory collection.
//!
//! Every operation works on a [`StorageFile`] value; reading the collection
//! from disk and writing it back are the caller's concern (the codec module
//! turns a collection into the persisted document and back).

use vstd::prelude::*;
use crate::models::{
    Reference, RefModel, StorageFile, is_blank, valid_record, ids_distinct, contains_id, store_wf,
    blank_str,
};

verus! {

/// The required field a rejected candidate was missing.
#[derive(Debug, Clone, Copy, PartialEq, Eq, Structural)]
pub enum RequiredField {
    ReferenceName,
    AbsolutePath,
    Type,
    Status,
}

/// Why a store mutation failed.  Read or write failures of the backing file
/// never reach these operations: they work on the in-memory collection.
#[derive(Debug, Clone, Copy, PartialEq, Eq, Structural)]
pub enum StoreError {
    /// A required field was empty; carries the first one found missing.
    Validation(RequiredField),
    /// No record with the given id exists.
    NotFound,
}

/// The first validation failure of a candidate, in the order the checks run:
/// name, path, type, status.  `None` means the candidate is acceptable.
pub open spec fn first_violation(m: RefModel) -> Option<RequiredField> {
    if is_blank(m.name) {
        Some(RequiredField::ReferenceName)
    } else if is_blank(m.path) {
        Some(RequiredField::AbsolutePath)
    } else if m.ty.len() == 0 {
        Some(RequiredField::Type)
    } else if m.status.len() == 0 {
        Some(RequiredField::Status)
    } else {
        None
    }
}

/// `i` is the position of the first record carrying `id`.
pub open spec fn is_first_match(refs: Seq<RefModel>, id: Seq<char>, i: int) -> bool {
    &&& 0 <= i < refs.len()
    &&& refs[i].id == id
    &&& forall|j: int| 0 <= j < i ==> refs[j].id != id
}

/// The two records agree on everything the caller supplies: every field but
/// the id and the two timestamps.
pub open spec fn same_payload(a: RefModel, b: RefModel) -> bool {
    &&& a.name == b.name
    &&& a.path == b.path
    &&& a.ty == b.ty
    &&& a.status == b.status
    &&& a.tags == b.tags
    &&& a.description == b.description
    &&& a.pinned == b.pinned
}

/// Checks the four required fields, in order.
pub fn validate(candidate: &Reference) -> (r: Result<(), StoreError>)
    ensures
        match first_violation(candidate@) {
            Some(f) => r == Result::<(), StoreError>::Err(StoreError::Validation(f)),
            None => r == Result::<(), StoreError>::Ok(()),
        },
        r is Ok <==> valid_record(candidate@),
{
    if blank_str(candidate.reference_name.as_str()) {
        Err(StoreError::Validation(RequiredField::ReferenceName))
    } else if blank_str(candidate.absolute_path.as_str()) {
        Err(StoreError::Validation(RequiredField::AbsolutePath))
    } else if candidate.type_.as_str().unicode_len() == 0 {
        Err(StoreError::Validation(RequiredField::Type))
    } else if candidate.status.as_str().unicode_len() == 0 {
        Err(StoreError::Validation(RequiredField::Status))
    } else {
        Ok(())
    }
}

/// The concatenation of every stored id, in order.
pub open spec fn concat_ids(refs: Seq<RefModel>) -> Seq<char>
    decreases refs.len(),
{
    if refs.len() == 0 {
        Seq::<char>::empty()
    } else {
        concat_ids(refs.drop_last()) + refs.last().id
    }
}

/// The id the store falls back to when a proposed id is already taken:
/// longer than every stored id, hence distinct from each.
pub open spec fn fallback_id_spec(refs: Seq<RefModel>) -> Seq<char> {
    seq!['u'] + concat_ids(refs)
}

proof fn lemma_concat_ids_len(refs: Seq<RefModel>, i: int)
    requires
        0 <= i < refs.len(),
    ensures
        concat_ids(refs).len() >= refs[i].id.len(),
    decreases refs.len(),
{
    if i == refs.len() - 1 {
    } else {
        lemma_concat_ids_len(refs.drop_last(), i);
    }
}

/// The fallback id never collides with a stored id: it is strictly longer
/// than every one of them.
pub proof fn lemma_fallback_free(refs: Seq<RefModel>)
    ensures
        !contains_id(refs, fallback_id_spec(refs)),
{
    assert forall|i: int| 0 <= i < refs.len() implies refs[i].id != fallback_id_spec(refs) by {
        lemma_concat_ids_len(refs, i);
        assert(fallback_id_spec(refs).len() > refs[i].id.len());
    }
}

/// Law: appending a record whose id is not yet present keeps the stored ids
/// pairwise distinct.  Together with the `create` contract this gives id
/// uniqueness across any sequence of creations.
pub proof fn lemma_create_preserves_distinct(refs: Seq<RefModel>, stored: RefModel)
    requires
        ids_distinct(refs),
        !contains_id(refs, stored.id),
    ensures
        ids_distinct(refs.push(stored)),
{
}

impl Reference {
    /// An explicit deep copy; unlike a derived clone, its result is known to
    /// carry the same model.
    pub fn duplicate(&self) -> (r: Self)
        ensures
            r@ == self@,
    {
        let r = Reference {
            id: self.id.clone(),
            reference_name: self.reference_name.clone(),
            absolute_path: self.absolute_path.clone(),
            type_: self.type_.clone(),
            status: self.status.clone(),
            tags: clone_strings(&self.tags),
            description: match &self.description {
                Some(d) => Some(d.clone()),
                None => None,
            },
            created_at: self.created_at.clone(),
            last_opened_at: self.last_opened_at.clone(),
            pinned: self.pinned,
        };
        proof {
            assert(r@.tags =~= self@.tags);
            assert(r@ =~= self@);
        }
        r
    }
}

/// Copies a vector of strings element by element.
fn clone_strings(v: &Vec<String>) -> (r: Vec<String>)
    ensures
        r.deep_view() == v.deep_view(),
{
    let mut r: Vec<String> = Vec::new();
    let n: usize = v.len();
    let mut i: usize = 0;
    while i < n
        invariant
            0 <= i <= n,
            n == v.len(),
            r.len() == i,
            forall|j: int| 0 <= j < i ==> r.deep_view()[j] == v.deep_view()[j],
        decreases n - i,
    {
        r.push(v[i].clone());
        i = i + 1;
    }
    proof {
        assert(r.deep_view() =~= v.deep_view());
    }
    r
}

/// Relies on uuid's `Uuid::new_v4` rendered through its `Display` form: a
/// fresh random v4 UUID in the 36-character hyphenated notation.  Nothing
/// can be promised about which value comes back.
#[verifier::external_body]
fn fresh_uuid_string() -> (r: String)
    ensures
        r@.len() == 36,
{
    uuid::Uuid::new_v4().to_string()
}

/// Relies on chrono's `DateTime::to_rfc3339` applied to `Utc::now()`: the
/// current instant as an RFC 3339 timestamp, which is never empty.  Nothing
/// can be promised about which instant comes back.
#[verifier::external_body]
fn now_rfc3339() -> (r: String)
    ensures
        r@.len() > 0,
{
    chrono::Utc::now().to_rfc3339()
}

impl StorageFile {
    /// The position of the first record carrying `id`, if any.
    pub fn find_first(&self, id: &String) -> (r: Option<usize>)
        ensures
            match r {
                Some(i) => is_first_match(self.model(), id@, i as int),
                None => !contains_id(self.model(), id@),
            },
    {
        let n: usize = self.references.len();
        let mut j: usize = 0;
        while j < n
            invariant
                0 <= j <= n,
                n == self.references.len(),
                forall|t: int| 0 <= t < j ==> self.model()[t].id != id@,
            decreases n - j,
        {
            if self.references[j].id == *id {
                proof {
                    assert(self.model()[j as int] == self.references[j as int]@);
                }
                return Some(j);
            }
            j = j + 1;
        }
        None
    }

    /// The fallback id for this collection; see [`fallback_id_spec`].
    fn fallback_id(&self) -> (r: String)
        ensures
            r@ == fallback_id_spec(self.model()),
    {
        let mut s = String::from_str("u");
        proof {
            reveal_strlit("u");
            assert(s@ =~= seq!['u'] + concat_ids(self.model().take(0)));
        }
        let n: usize = self.references.len();
        let mut i: usize = 0;
        while i < n
            invariant
                0 <= i <= n,
                n == self.references.len(),
                s@ == seq!['u'] + concat_ids(self.model().take(i as int)),
            decreases n - i,
        {
            s.append(self.references[i].id.as_str());
            proof {
                let m = self.model();
                assert(m.take(i + 1).drop_last() =~= m.take(i as int));
                assert(m.take(i + 1).last() == m[i as int]);
                assert(m[i as int] == self.references[i as int]@);
                assert(s@ =~= seq!['u'] + concat_ids(m.take(i + 1)));
            }
            i = i + 1;
        }
        proof {
            assert(self.model().take(n as int) =~= self.model());
        }
        s
    }

    /// Appends a validated candidate under a proposed id, stamping both
    /// timestamps with `now`.  If the proposed id is already taken, the
    /// fallback id is used instead, so the stored id is always fresh.
    pub fn create_with(&mut self, candidate: Reference, id: String, now: String) -> (r: Result<
        Reference,
        StoreError,
    >)
        ensures
            first_violation(candidate@) matches Some(f) ==> r == Result::<
                Reference,
                StoreError,
            >::Err(StoreError::Validation(f)) && *final(self) == *old(self),
            first_violation(candidate@) is None ==> (r matches Ok(stored) && {
                let assigned = if contains_id(old(self).model(), id@) {
                    fallback_id_spec(old(self).model())
                } else {
                    id@
                };
                &&& stored@ == (RefModel {
                    id: assigned,
                    name: candidate@.name,
                    path: candidate@.path,
                    ty: candidate@.ty,
                    status: candidate@.status,
                    tags: candidate@.tags,
                    description: candidate@.description,
                    created_at: now@,
                    last_opened_at: now@,
                    pinned: candidate@.pinned,
                })
                &&& !contains_id(old(self).model(), stored@.id)
                &&& final(self).model() == old(self).model().push(stored@)
            }),
            store_wf(old(self).model()) ==> store_wf(final(self).model()),
    {
        if let Err(e) = validate(&candidate) {
            return Err(e);
        }
        let use_id: String = match self.find_first(&id) {
            Some(_) => {
                proof {
                    lemma_fallback_free(self.model());
                }
                self.fallback_id()
            },
            None => id,
        };
        let ghost o = self.model();
        let mut stored = candidate;
        stored.id = use_id;
        stored.created_at = now.clone();
        stored.last_opened_at = now;
        let dup = stored.duplicate();
        self.references.push(dup);
        proof {
            assert(self.model() =~= o.push(stored@));
            if store_wf(o) {
                lemma_create_preserves_distinct(o, stored@);
            }
        }
        Ok(stored)
    }

    /// Creates a record from a candidate: validates it, assigns a fresh id
    /// and the current time, appends it, and returns the stored record.
    pub fn create(&mut self, candidate: Reference) -> (r: Result<Reference, StoreError>)
        ensures
            first_violation(candidate@) matches Some(f) ==> r == Result::<
                Reference,
                StoreError,
            >::Err(StoreError::Validation(f)) && *final(self) == *old(self),
            first_violation(candidate@) is None ==> r is Ok,
            r matches Ok(stored) ==> {
                &&& first_violation(candidate@) is None
                &&& final(self).model() == old(self).model().push(stored@)
                &&& !contains_id(old(self).model(), stored@.id)
                &&& stored@.id.len() > 0
                &&& stored@.created_at == stored@.last_opened_at
                &&& same_payload(stored@, candidate@)
                &&& valid_record(stored@)
            },
            store_wf(old(self).model()) ==> store_wf(final(self).model()),
    {
        let id = fresh_uuid_string();
        let now = now_rfc3339();
        self.create_with(candidate, id, now)
    }

    /// Replaces the first record carrying `id` with a validated candidate,
    /// keeping the stored id and creation time and stamping the last-opened
    /// time with `now`.
    pub fn update_with(&mut self, id: &String, candidate: Reference, now: String) -> (r: Result<
        Reference,
        StoreError,
    >)
        ensures
            first_violation(candidate@) matches Some(f) ==> r == Result::<
                Reference,
                StoreError,
            >::Err(StoreError::Validation(f)) && *final(self) == *old(self),
            first_violation(candidate@) is None && !contains_id(old(self).model(), id@) ==> r
                == Result::<Reference, StoreError>::Err(StoreError::NotFound) && *final(self)
                == *old(self),
            first_violation(candidate@) is None && contains_id(old(self).model(), id@) ==> r is Ok,
            r matches Ok(stored) ==> {
                &&& stored@.id == id@
                &&& stored@.last_opened_at == now@
                &&& same_payload(stored@, candidate@)
                &&& valid_record(stored@)
                &&& exists|i: int|
                    {
                        &&& #[trigger] is_first_match(old(self).model(), id@, i)
                        &&& final(self).model() == old(self).model().update(i, stored@)
                        &&& stored@.created_at == old(self).model()[i].created_at
                    }
            },
            store_wf(old(self).model()) ==> store_wf(final(self).model()),
    {
        if let Err(e) = validate(&candidate) {
            return Err(e);
        }
        match self.find_first(id) {
            None => Err(StoreError::NotFound),
            Some(i) => {
                let ghost o = self.model();
                let mut stored = candidate;
                stored.id = id.clone();
                stored.created_at = self.references[i].created_at.clone();
                stored.last_opened_at = now;
                let dup = stored.duplicate();
                self.references.set(i, dup);
                proof {
                    assert(self.model() =~= o.update(i as int, stored@));
                    assert(is_first_match(o, id@, i as int));
                    if store_wf(o) {
                        assert forall|p: int, q: int|
                            0 <= p < q < self.model().len() implies self.model()[p].id
                            != self.model()[q].id by {
                            assert(o[p].id != o[q].id);
                        }
                    }
                }
                Ok(stored)
            },
        }
    }

    /// Updates the record carrying `id` from a candidate, stamping the
    /// last-opened time with the current time.
    pub fn update(&mut self, id: &String, candidate: Reference) -> (r: Result<
        Reference,
        StoreError,
    >)
        ensures
            first_violation(candidate@) matches Some(f) ==> r == Result::<
                Reference,
                StoreError,
            >::Err(StoreError::Validation(f)) && *final(self) == *old(self),
            first_violation(candidate@) is None && !contains_id(old(self).model(), id@) ==> r
                == Result::<Reference, StoreError>::Err(StoreError::NotFound) && *final(self)
                == *old(self),
            first_violation(candidate@) is None && contains_id(old(self).model(), id@) ==> r is Ok,
            r matches Ok(stored) ==> {
                &&& stored@.id == id@
                &&& same_payload(stored@, candidate@)
                &&& valid_record(stored@)
                &&& exists|i: int|
                    {
                        &&& #[trigger] is_first_match(old(self).model(), id@, i)
                        &&& final(self).model() == old(self).model().update(i, stored@)
                        &&& stored@.created_at == old(self).model()[i].created_at
                    }
            },
            store_wf(old(self).model()) ==> store_wf(final(self).model()),
    {
        let now = now_rfc3339();
        self.update_with(id, candidate, now)
    }

    /// Removes every record carrying `id`; reports `NotFound`, with the
    /// collection untouched, when none does.
    pub fn delete(&mut self, id: &String) -> (r: Result<(), StoreError>)
        ensures
            !contains_id(old(self).model(), id@) ==> r == Result::<(), StoreError>::Err(
                StoreError::NotFound,
            ) && final(self).model() == old(self).model(),
            contains_id(old(self).model(), id@) ==> r == Result::<(), StoreError>::Ok(())
                && final(self).model() == old(self).model().filter(|m: RefModel| m.id != id@)
                && !contains_id(final(self).model(), id@),
            store_wf(old(self).model()) ==> store_wf(final(self).model()),
    {
        let ghost o = self.model();
        let ghost pred = |m: RefModel| m.id != id@;
        let mut kept: Vec<Reference> = Vec::new();
        let mut removed = false;
        let n: usize = self.references.len();
        let mut i: usize = 0;
        while i < n
            invariant
                0 <= i <= n,
                n == self.references.len(),
                o == self.model(),
                kept.deep_view() == o.take(i as int).filter(pred),
                removed == contains_id(o.take(i as int), id@),
                pred == (|m: RefModel| m.id != id@),
            decreases n - i,
        {
            proof {
                assert(self.model()[i as int] == self.references[i as int]@);
                assert(o.take(i + 1) =~= o.take(i as int).push(o[i as int]));
                broadcast use Seq::lemma_filter_push;

            }
            if self.references[i].id == *id {
                removed = true;
                proof {
                    assert(o.take(i + 1)[i as int] == o[i as int]);
                    assert(contains_id(o.take(i + 1), id@));
                }
            } else {
                kept.push(self.references[i].duplicate());
                proof {
                    assert(kept.deep_view() =~= o.take(i + 1).filter(pred));
                    assert(contains_id(o.take(i + 1), id@) == contains_id(o.take(i as int), id@))
                        by {
                        if contains_id(o.take(i + 1), id@) {
                            let w = choose|w: int|
                                0 <= w < o.take(i + 1).len() && #[trigger] o.take(i + 1)[w].id
                                    == id@;
                            if w < i {
                                assert(o.take(i as int)[w].id == id@);
                            }
                        }
                        if contains_id(o.take(i as int), id@) {
                            let w = choose|w: int|
                                0 <= w < o.take(i as int).len() && #[trigger] o.take(
                                    i as int,
                                )[w].id == id@;
                            assert(o.take(i + 1)[w].id == id@);
                        }
                    }
                }
            }
            i = i + 1;
        }
        proof {
            assert(o.take(n as int) =~= o);
        }
        if removed {
            self.references = kept;
            proof {
                assert forall|t: int|
                    0 <= t < self.model().len() implies #[trigger] self.model()[t].id != id@ by {
                    broadcast use Seq::lemma_filter_pred;

                }
                if store_wf(o) {
                    lemma_filter_wf(o, pred);
                }
            }
            Ok(())
        } else {
            Err(StoreError::NotFound)
        }
    }
}

/// Filtering preserves the collection invariant.
proof fn lemma_filter_wf(s: Seq<RefModel>, pred: spec_fn(RefModel) -> bool)
    requires
        store_wf(s),
    ensures
        store_wf(s.filter(pred)),
    decreases s.len(),
{
    broadcast use Seq::lemma_filter_push;
    broadcast use Seq::lemma_filter_pred;

    if s.len() == 0 {
        assert(s.filter(pred) =~= s);
    } else {
        let rest = s.drop_last();
        assert(store_wf(rest)) by {
            assert forall|i: int| 0 <= i < rest.len() implies valid_record(#[trigger] rest[i]) by {
                assert(rest[i] == s[i]);
            }
        }
        lemma_filter_wf(rest, pred);
        assert(rest.push(s.last()) =~= s);
        assert(s.filter(pred) == if pred(s.last()) {
            rest.filter(pred).push(s.last())
        } else {
            rest.filter(pred)
        });
        if pred(s.last()) {
            let f = rest.filter(pred).push(s.last());
            assert forall|p: int, q: int| 0 <= p < q < f.len() implies f[p].id != f[q].id by {
                if q == f.len() - 1 {
                    assert(rest.filter(pred).contains(f[p])) by {
                        assert(f[p] == rest.filter(pred)[p]);
                    }
                    rest.lemma_filter_contains_rev(pred, f[p]);
                    let w = choose|w: int| 0 <= w < rest.len() && rest[w] == f[p];
                    assert(s[w] == f[p]);
                    assert(s[w].id != s[s.len() - 1].id);
                }
            }
            assert forall|t: int| 0 <= t < f.len() implies valid_record(#[trigger] f[t]) by {
                if t == f.len() - 1 {
                } else {
                    assert(f[t] == rest.filter(pred)[t]);
                    rest.lemma_filter_contains_rev(pred, f[t]);
                    let w = choose|w: int| 0 <= w < rest.len() && rest[w] == f[t];
                }
            }
        }
    }
}

} // verus!
