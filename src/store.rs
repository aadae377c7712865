//! Content store: one payload per group and identifier, written once.
use vstd::prelude::*;

verus! {

/// A payload stored under a group and an identifier.
#[derive(Debug, PartialEq, Eq)]
pub struct StoredFile {
    pub group: String,
    pub id: String,
    /// The short skeleton digest of the stored tree.
    pub skeleton: String,
    pub payload: String,
}

pub open spec fn has_key(f: StoredFile, group: Seq<char>, id: Seq<char>) -> bool {
    f.group@ == group && f.id@ == id
}

pub open spec fn stored(files: Seq<StoredFile>, group: Seq<char>, id: Seq<char>) -> bool {
    exists|i: int| 0 <= i < files.len() && has_key(#[trigger] files[i], group, id)
}

pub open spec fn keys_unique(files: Seq<StoredFile>) -> bool {
    forall|i: int, j: int|
        0 <= i < j < files.len() ==> !has_key(#[trigger] files[i], files[j].group@, #[trigger] files[j].id@)
}

/// What storing `payload` under a key does: nothing where the key is
/// taken, else one file is added at the end.
pub open spec fn put_effect(
    old: Seq<StoredFile>,
    new: Seq<StoredFile>,
    group: Seq<char>,
    id: Seq<char>,
    skeleton: Seq<char>,
    payload: Seq<char>,
) -> bool {
    if stored(old, group, id) {
        new == old
    } else {
        &&& new.len() == old.len() + 1
        &&& new.drop_last() == old
        &&& has_key(new.last(), group, id)
        &&& new.last().skeleton@ == skeleton
        &&& new.last().payload@ == payload
    }
}

/// The payloads written so far, at most one per key.
pub struct ContentStore {
    pub files: Vec<StoredFile>,
}

impl ContentStore {
    pub open spec fn wf(&self) -> bool {
        keys_unique(self.files@)
    }

    pub fn new() -> (r: Self)
        ensures
            r.files@.len() == 0,
            r.wf(),
    {
        ContentStore { files: Vec::new() }
    }

    pub fn contains(&self, group: &String, id: &String) -> (r: bool)
        ensures
            r == stored(self.files@, group@, id@),
    {
        let mut i: usize = 0;
        while i < self.files.len()
            invariant
                i <= self.files@.len(),
                forall|k: int| 0 <= k < i ==> !has_key(#[trigger] self.files@[k], group@, id@),
            decreases self.files@.len() - i,
        {
            if self.files[i].group == *group && self.files[i].id == *id {
                return true;
            }
            i = i + 1;
        }
        false
    }

    /// Stores `payload` under the key unless the key is taken; returns
    /// whether it was stored.
    pub fn put(&mut self, group: String, id: String, skeleton: String, payload: String) -> (r: bool)
        requires
            old(self).wf(),
        ensures
            final(self).wf(),
            r == !stored(old(self).files@, group@, id@),
            put_effect(old(self).files@, final(self).files@, group@, id@, skeleton@, payload@),
    {
        if self.contains(&group, &id) {
            return false;
        }
        self.files.push(StoredFile { group, id, skeleton, payload });
        proof {
            assert(self.files@.drop_last() =~= old(self).files@);
            assert forall|i: int, j: int|
                0 <= i < j < self.files@.len() implies !has_key(
                #[trigger] self.files@[i],
                self.files@[j].group@,
                #[trigger] self.files@[j].id@,
            ) by {
                if j == self.files@.len() - 1 {
                    assert(self.files@[i] == old(self).files@[i]);
                }
            }
        }
        true
    }
}

/// Storing the same payload under the same key twice writes it once: the
/// second call reports the key as present and changes nothing, and the key
/// then names exactly one file, which holds what the first call left there.
pub proof fn lemma_put_twice(
    s0: Seq<StoredFile>,
    s1: Seq<StoredFile>,
    s2: Seq<StoredFile>,
    group: Seq<char>,
    id: Seq<char>,
    skeleton: Seq<char>,
    payload: Seq<char>,
    r1: bool,
    r2: bool,
)
    requires
        keys_unique(s0),
        keys_unique(s1),
        r1 == !stored(s0, group, id),
        put_effect(s0, s1, group, id, skeleton, payload),
        r2 == !stored(s1, group, id),
        put_effect(s1, s2, group, id, skeleton, payload),
    ensures
        !r2,
        s2 == s1,
        stored(s2, group, id),
        keys_unique(s2),
        forall|i: int, j: int|
            0 <= i < s2.len() && 0 <= j < s2.len() && has_key(#[trigger] s2[i], group, id) && has_key(
                #[trigger] s2[j],
                group,
                id,
            ) ==> i == j,
        forall|i: int|
            0 <= i < s2.len() && has_key(#[trigger] s2[i], group, id) ==> if r1 {
                s2[i].payload@ == payload
            } else {
                s2[i] == s0[i]
            },
{
    if r1 {
        assert(has_key(s1[s1.len() - 1], group, id));
        assert(stored(s1, group, id));
        assert forall|i: int| 0 <= i < s2.len() && has_key(#[trigger] s2[i], group, id) implies s2[i].payload@
            == payload by {
            if i < s2.len() - 1 {
                assert(s2[i] == s0[i]);
                assert(stored(s0, group, id));
            }
        }
    }
    assert forall|i: int, j: int|
        0 <= i < s2.len() && 0 <= j < s2.len() && has_key(#[trigger] s2[i], group, id) && has_key(
            #[trigger] s2[j],
            group,
            id,
        ) implies i == j by {
        if i < j {
            assert(!has_key(s2[i], s2[j].group@, s2[j].id@));
        } else if j < i {
            assert(!has_key(s2[j], s2[i].group@, s2[i].id@));
        }
    }
}

} // verus!
