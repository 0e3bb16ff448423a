//! An open folder: the entries a folder listed when it was opened, in
//! order, and how far a client has read through them. The host only lists
//! the folder and tells, entry by entry, whether an entry may be shown.

use crate::fsemul::host_filesystem::access_allowed;
use vstd::prelude::*;

verus! {

broadcast use vstd::seq_lib::group_to_multiset_ensures;

/// `a` comes before `b`, or is `b`, byte by byte: the order of file names.
pub open spec fn bytes_le(a: Seq<u8>, b: Seq<u8>) -> bool
    decreases a.len(),
{
    if a.len() == 0 {
        true
    } else if b.len() == 0 {
        false
    } else if a[0] != b[0] {
        a[0] < b[0]
    } else {
        bytes_le(a.drop_first(), b.drop_first())
    }
}

/// Any two names are ordered one way or the other.
proof fn lemma_bytes_le_total(a: Seq<u8>, b: Seq<u8>)
    ensures
        bytes_le(a, b) || bytes_le(b, a),
    decreases a.len(),
{
    if a.len() > 0 && b.len() > 0 && a[0] == b[0] {
        lemma_bytes_le_total(a.drop_first(), b.drop_first());
    }
}

/// The order of names is transitive.
proof fn lemma_bytes_le_trans(a: Seq<u8>, b: Seq<u8>, c: Seq<u8>)
    requires
        bytes_le(a, b),
        bytes_le(b, c),
    ensures
        bytes_le(a, c),
    decreases a.len(),
{
    if a.len() > 0 && b.len() > 0 && c.len() > 0 && a[0] == b[0] && b[0] == c[0] {
        lemma_bytes_le_trans(a.drop_first(), b.drop_first(), c.drop_first());
    }
}

/// The names `s` are in order.
pub open spec fn names_sorted(s: Seq<Seq<u8>>) -> bool {
    forall|i: int, j: int| 0 <= i < j < s.len() ==> bytes_le(#[trigger] s[i], #[trigger] s[j])
}

/// The byte views of `v`.
pub open spec fn name_views(v: Seq<Vec<u8>>) -> Seq<Seq<u8>> {
    Seq::new(v.len(), |i: int| v[i]@)
}

/// Whether `a` comes before `b`, or is `b`.
fn names_le(a: &[u8], b: &[u8]) -> (r: bool)
    ensures
        r == bytes_le(a@, b@),
{
    let mut i: usize = 0;
    assert(a@.subrange(0, a@.len() as int) =~= a@);
    assert(b@.subrange(0, b@.len() as int) =~= b@);
    while i < a.len() && i < b.len() && a[i] == b[i]
        invariant
            i <= a@.len(),
            i <= b@.len(),
            bytes_le(a@, b@) == bytes_le(a@.subrange(i as int, a@.len() as int), b@.subrange(i as int, b@.len() as int)),
        decreases a@.len() - i,
    {
        let ghost sa = a@.subrange(i as int, a@.len() as int);
        let ghost sb = b@.subrange(i as int, b@.len() as int);
        assert(sa.drop_first() =~= a@.subrange(i + 1, a@.len() as int));
        assert(sb.drop_first() =~= b@.subrange(i + 1, b@.len() as int));
        i = i + 1;
    }
    if i == a.len() {
        true
    } else if i == b.len() {
        false
    } else {
        a[i] < b[i]
    }
}

/// What an open folder holds.
pub struct FolderCursorView {
    /// The folder's entries, by name, in order.
    pub entries: Seq<Seq<u8>>,
    /// How many entries have been handed out, or passed over.
    pub position: nat,
    /// Whether a read has run past the last entry.
    pub exhausted: bool,
    /// The stream the folder was opened for, if any.
    pub owner: Option<u64>,
}

/// An open folder.
pub struct FolderCursor {
    entries: Vec<Vec<u8>>,
    position: usize,
    exhausted: bool,
    owner: Option<u64>,
}

impl View for FolderCursor {
    type V = FolderCursorView;

    closed spec fn view(&self) -> FolderCursorView {
        FolderCursorView {
            entries: name_views(self.entries@),
            position: self.position as nat,
            exhausted: self.exhausted,
            owner: self.owner,
        }
    }
}

impl FolderCursor {
    #[verifier::type_invariant]
    closed spec fn within(self) -> bool {
        self.position <= self.entries@.len()
    }

    /// A folder opened for `owner` with the entries `names` it lists: they
    /// are kept in order of their names, nothing is read yet.
    pub fn new(names: Vec<Vec<u8>>, owner: Option<u64>) -> (r: Self)
        ensures
            names_sorted(r@.entries),
            r@.entries.to_multiset() == name_views(names@).to_multiset(),
            r@.position == 0,
            !r@.exhausted,
            r@.owner == owner,
    {
        let ghost input = name_views(names@);
        let mut sorted: Vec<Vec<u8>> = Vec::new();
        let mut k: usize = 0;
        assert(input.subrange(0, 0) =~= Seq::<Seq<u8>>::empty());
        assert(name_views(sorted@) =~= Seq::<Seq<u8>>::empty());
        while k < names.len()
            invariant
                k <= names@.len(),
                input == name_views(names@),
                names_sorted(name_views(sorted@)),
                name_views(sorted@).to_multiset() == input.subrange(0, k as int).to_multiset(),
            decreases names@.len() - k,
        {
            let x = &names[k];
            let ghost s = name_views(sorted@);
            let mut p: usize = 0;
            while p < sorted.len() && names_le(sorted[p].as_slice(), x.as_slice())
                invariant
                    p <= sorted@.len(),
                    s == name_views(sorted@),
                    forall|i: int| 0 <= i < p ==> bytes_le(#[trigger] s[i], x@),
                decreases sorted@.len() - p,
            {
                p = p + 1;
            }
            proof {
                if p < s.len() {
                    assert(!bytes_le(s[p as int], x@));
                    lemma_bytes_le_total(s[p as int], x@);
                    assert forall|j: int| p <= j < s.len() implies bytes_le(x@, #[trigger] s[j]) by {
                        if j > p {
                            lemma_bytes_le_trans(x@, s[p as int], s[j]);
                        }
                    }
                }
            }
            sorted.insert(p, x.clone());
            proof {
                let t = name_views(sorted@);
                assert(t =~= s.insert(p as int, x@));
                assert forall|i: int, j: int| 0 <= i < j < t.len() implies bytes_le(#[trigger] t[i], #[trigger] t[j]) by {
                    if j < p {
                        assert(t[i] == s[i] && t[j] == s[j]);
                    } else if j == p {
                        assert(t[i] == s[i]);
                    } else if i < p {
                        assert(t[i] == s[i] && t[j] == s[j - 1]);
                        lemma_bytes_le_trans(s[i], x@, s[j - 1]);
                    } else if i == p {
                        assert(t[j] == s[j - 1]);
                    } else {
                        assert(t[i] == s[i - 1] && t[j] == s[j - 1]);
                    }
                }
                assert(input.subrange(0, k + 1) =~= input.subrange(0, k as int).push(x@));
                vstd::seq_lib::to_multiset_insert(s, p as int, x@);
            }
            k = k + 1;
        }
        assert(input.subrange(0, names@.len() as int) =~= input);
        FolderCursor { entries: sorted, position: 0, exhausted: false, owner }
    }

    /// Whether a request made for the stream `requester` may use this
    /// folder: see `access_allowed`.
    pub fn allows(&self, requester: Option<u64>) -> (r: bool)
        ensures
            r == match (requester, self@.owner) {
                (Some(s), Some(o)) => s == o,
                _ => true,
            },
    {
        access_allowed(requester, self.owner)
    }

    /// The next entry to hand out, which the host then shows, or passes over
    /// by asking again when it is neither a file nor a folder or is a
    /// symbolic link. None once a read has run past the last entry, until
    /// the folder is rewound.
    pub fn next_candidate(&mut self) -> (r: Option<Vec<u8>>)
        ensures
            old(self)@.exhausted ==> r is None && final(self)@ == old(self)@,
            !old(self)@.exhausted && old(self)@.position < old(self)@.entries.len() ==> (r matches Some(
                n,
            ) && n@ == old(self)@.entries[old(self)@.position as int] && final(self)@ == (
            FolderCursorView { position: old(self)@.position + 1, ..old(self)@ })),
            !old(self)@.exhausted && old(self)@.position >= old(self)@.entries.len() ==> r is None
                && final(self)@ == (FolderCursorView { exhausted: true, ..old(self)@ }),
    {
        proof {
            use_type_invariant(&*self);
        }
        if self.exhausted {
            return None;
        }
        if self.position < self.entries.len() {
            let name = self.entries[self.position].clone();
            self.position = self.position + 1;
            Some(name)
        } else {
            self.exhausted = true;
            None
        }
    }

    /// Step back by one entry, unless at the first, so the next read hands
    /// it out again.
    pub fn rewind_one(&mut self)
        ensures
            old(self)@.position == 0 ==> final(self)@ == old(self)@,
            old(self)@.position > 0 ==> final(self)@ == (FolderCursorView {
                position: (old(self)@.position - 1) as nat,
                exhausted: false,
                ..old(self)@
            }),
    {
        proof {
            use_type_invariant(&*self);
        }
        if self.position == 0 {
            return;
        }
        self.position = self.position - 1;
        self.exhausted = false;
    }

    /// Go back to the first entry, so the next read hands out the folder's
    /// entries from the start again.
    pub fn rewind_to_start(&mut self)
        ensures
            final(self)@ == (FolderCursorView { position: 0, exhausted: false, ..old(self)@ }),
    {
        self.position = 0;
        self.exhausted = false;
    }
}

} // verus!
