//! The persisted data model: a `Reference` entry and the `StorageFile`
//! envelope that holds the whole collection.

use vstd::prelude::*;

verus! {

/// A user-tracked filesystem path with its metadata.
///
/// Records committed to storage always satisfy [`valid_record`]: the four
/// required fields are non-blank, and ids are unique across the collection.
#[derive(Debug, Clone, PartialEq, Eq)]
pub struct Reference {
    /// Unique identifier, assigned by the store on creation and immutable
    /// afterwards.
    pub id: String,
    /// Display label; required non-blank.
    pub reference_name: String,
    /// Filesystem path; required non-blank.  Existence is not checked.
    pub absolute_path: String,
    /// Either "folder" or "file"; required non-empty.
    pub type_: String,
    /// One of "active", "paused", "completed", "idea", "archived";
    /// required non-empty.
    pub status: String,
    /// Free-text labels; may be empty.
    pub tags: Vec<String>,
    /// Optional free text.
    pub description: Option<String>,
    /// Timestamp set once at creation.
    pub created_at: String,
    /// Timestamp refreshed by every successful update.
    pub last_opened_at: String,
    /// Sort-priority flag for the UI; the store itself does not order by it.
    pub pinned: bool,
}

/// The mathematical image of a [`Reference`]: every field as a plain value.
pub ghost struct RefModel {
    pub id: Seq<char>,
    pub name: Seq<char>,
    pub path: Seq<char>,
    pub ty: Seq<char>,
    pub status: Seq<char>,
    pub tags: Seq<Seq<char>>,
    pub description: Option<Seq<char>>,
    pub created_at: Seq<char>,
    pub last_opened_at: Seq<char>,
    pub pinned: bool,
}

impl View for Reference {
    type V = RefModel;

    open spec fn view(&self) -> RefModel {
        RefModel {
            id: self.id@,
            name: self.reference_name@,
            path: self.absolute_path@,
            ty: self.type_@,
            status: self.status@,
            tags: self.tags.deep_view(),
            description: self.description.deep_view(),
            created_at: self.created_at@,
            last_opened_at: self.last_opened_at@,
            pinned: self.pinned,
        }
    }
}

impl DeepView for Reference {
    type V = RefModel;

    open spec fn deep_view(&self) -> RefModel {
        self.view()
    }
}

/// Root of the persisted document: the full ordered collection.
#[derive(Debug, Clone, PartialEq, Eq)]
pub struct StorageFile {
    /// All tracked references, in insertion order.
    pub references: Vec<Reference>,
}

impl StorageFile {
    /// The collection as a sequence of mathematical records.
    pub open spec fn model(&self) -> Seq<RefModel> {
        self.references.deep_view()
    }

    /// Creates a new empty storage file.
    pub fn new() -> (s: Self)
        ensures
            s.model() == Seq::<RefModel>::empty(),
    {
        let s = Self { references: Vec::new() };
        proof {
            assert(s.model() =~= Seq::<RefModel>::empty());
        }
        s
    }
}

impl Default for StorageFile {
    fn default() -> (s: Self)
        ensures
            s.model() == Seq::<RefModel>::empty(),
    {
        Self::new()
    }
}

/// A character of the Unicode `White_Space` set, the set `str::trim` strips.
pub open spec fn is_space_char(c: char) -> bool {
    let u = c as u32;
    (9 <= u && u <= 13) || u == 0x20 || u == 0x85 || u == 0xA0 || u == 0x1680 || (0x2000 <= u
        && u <= 0x200A) || u == 0x2028 || u == 0x2029 || u == 0x202F || u == 0x205F || u == 0x3000
}

/// A string that trims to nothing: empty, or whitespace throughout.
pub open spec fn is_blank(s: Seq<char>) -> bool {
    forall|i: int| 0 <= i < s.len() ==> is_space_char(s[i])
}

/// Decides [`is_space_char`].
pub fn space_char(c: char) -> (b: bool)
    ensures
        b == is_space_char(c),
{
    let u: u32 = c as u32;
    (9 <= u && u <= 13) || u == 0x20 || u == 0x85 || u == 0xA0 || u == 0x1680 || (0x2000 <= u
        && u <= 0x200A) || u == 0x2028 || u == 0x2029 || u == 0x202F || u == 0x205F || u == 0x3000
}

/// Decides [`is_blank`].
pub fn blank_str(s: &str) -> (b: bool)
    ensures
        b == is_blank(s@),
{
    let n: usize = s.unicode_len();
    let mut i: usize = 0;
    while i < n
        invariant
            0 <= i <= n,
            n == s@.len(),
            forall|j: int| 0 <= j < i ==> is_space_char(s@[j]),
        decreases n - i,
    {
        if !space_char(s.get_char(i)) {
            return false;
        }
        i = i + 1;
    }
    true
}

/// The record-level invariant of everything the store commits: the four
/// required fields carry content.
pub open spec fn valid_record(m: RefModel) -> bool {
    &&& !is_blank(m.name)
    &&& !is_blank(m.path)
    &&& m.ty.len() > 0
    &&& m.status.len() > 0
}

/// Pairwise-distinct ids across the collection.
pub open spec fn ids_distinct(refs: Seq<RefModel>) -> bool {
    forall|i: int, j: int| 0 <= i < j < refs.len() ==> refs[i].id != refs[j].id
}

/// Some record in `refs` carries the id `id`.
pub open spec fn contains_id(refs: Seq<RefModel>, id: Seq<char>) -> bool {
    exists|i: int| 0 <= i < refs.len() && refs[i].id == id
}

/// The collection invariant: valid records with distinct ids.
pub open spec fn store_wf(refs: Seq<RefModel>) -> bool {
    &&& ids_distinct(refs)
    &&& forall|i: int| 0 <= i < refs.len() ==> valid_record(#[trigger] refs[i])
}

} // verus!
