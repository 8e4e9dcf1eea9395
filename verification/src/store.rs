//! Content store: the overwrite and delete semantics of one flat storage
//! directory, modelled in memory. A directory maps encoded artifact names to
//! file contents; writes are full replacements and deleting a missing
//! artifact surfaces `NotFound` rather than succeeding silently.

use vstd::prelude::*;

verus! {

/// The error kinds a storage operation can surface.
#[derive(Clone, Copy, Debug, PartialEq, Eq, Structural)]
pub enum IoError {
    /// The target of a delete does not exist.
    NotFound,
    /// Any other filesystem failure: permission denied, disk full, parent
    /// directory missing.
    PermissionOrOther,
}

/// The map that a sequence of (name, content) entries represents, later
/// entries taking precedence.
pub open spec fn entries_map(s: Seq<(Vec<u8>, String)>) -> Map<Seq<u8>, Seq<char>>
    decreases s.len(),
{
    if s.len() == 0 {
        Map::empty()
    } else {
        entries_map(s.drop_last()).insert(s.last().0@, s.last().1@)
    }
}

/// A name is in the represented map exactly when some entry carries it.
proof fn lemma_entries_map_domain(s: Seq<(Vec<u8>, String)>, k: Seq<u8>)
    ensures
        entries_map(s).contains_key(k) <==> exists|i: int| 0 <= i < s.len() && s[i].0@ == k,
    decreases s.len(),
{
    if s.len() > 0 {
        lemma_entries_map_domain(s.drop_last(), k);
        if entries_map(s).contains_key(k) {
            if s.last().0@ == k {
                assert(s[s.len() - 1].0@ == k);
            } else {
                let i = choose|i: int| 0 <= i < s.drop_last().len() && s.drop_last()[i].0@ == k;
                assert(s[i].0@ == k);
            }
        }
        if exists|i: int| 0 <= i < s.len() && s[i].0@ == k {
            let i = choose|i: int| 0 <= i < s.len() && s[i].0@ == k;
            if i < s.len() - 1 {
                assert(s.drop_last()[i].0@ == k);
            }
        }
    }
}

/// Entry keys are pairwise distinct.
pub open spec fn unique_keys(s: Seq<(Vec<u8>, String)>) -> bool {
    forall|i: int, j: int| 0 <= i < j < s.len() ==> s[i].0@ != s[j].0@
}

/// Under unique keys, the represented map sends an entry's name to its
/// content.
proof fn lemma_entries_map_value(s: Seq<(Vec<u8>, String)>, i: int)
    requires
        unique_keys(s),
        0 <= i < s.len(),
    ensures
        entries_map(s).contains_key(s[i].0@),
        entries_map(s)[s[i].0@] == s[i].1@,
    decreases s.len(),
{
    lemma_entries_map_domain(s, s[i].0@);
    if i < s.len() - 1 {
        assert(s[i].0@ != s.last().0@);
        assert(s.drop_last()[i] == s[i]);
        lemma_entries_map_value(s.drop_last(), i);
    }
}

/// Under unique keys, removing the entry at `i` removes exactly its name
/// from the represented map.
proof fn lemma_entries_map_remove(s: Seq<(Vec<u8>, String)>, i: int)
    requires
        unique_keys(s),
        0 <= i < s.len(),
    ensures
        entries_map(s.remove(i)) == entries_map(s).remove(s[i].0@),
    decreases s.len(),
{
    if i == s.len() - 1 {
        assert(s.remove(i) =~= s.drop_last());
        lemma_entries_map_domain(s.drop_last(), s[i].0@);
        assert(forall|j: int| 0 <= j < s.drop_last().len() ==> s.drop_last()[j].0@ != s[i].0@);
        assert(!entries_map(s.drop_last()).contains_key(s[i].0@));
        assert(entries_map(s.drop_last()) =~= entries_map(s.drop_last()).insert(
            s.last().0@,
            s.last().1@,
        ).remove(s[i].0@));
    } else {
        assert(s.remove(i).drop_last() =~= s.drop_last().remove(i));
        assert(s.remove(i).last() == s.last());
        lemma_entries_map_remove(s.drop_last(), i);
        assert(s[i].0@ != s.last().0@);
        assert(entries_map(s.drop_last()).remove(s[i].0@).insert(s.last().0@, s.last().1@)
            =~= entries_map(s.drop_last()).insert(s.last().0@, s.last().1@).remove(s[i].0@));
        assert(entries_map(s.remove(i)) =~= entries_map(s).remove(s[i].0@));
    }
}

/// Two byte strings are equal.
fn bytes_eq(a: &Vec<u8>, b: &Vec<u8>) -> (r: bool)
    ensures
        r <==> a@ == b@,
{
    if a.len() != b.len() {
        return false;
    }
    let mut i: usize = 0;
    while i < a.len()
        invariant
            a@.len() == b@.len(),
            i <= a@.len(),
            forall|j: int| 0 <= j < i ==> a@[j] == b@[j],
        decreases a@.len() - i,
    {
        if a[i] != b[i] {
            return false;
        }
        i = i + 1;
    }
    proof {
        assert(a@ =~= b@);
    }
    true
}

/// A copy of a byte string.
fn copy_bytes(a: &Vec<u8>) -> (r: Vec<u8>)
    ensures
        r@ == a@,
{
    let mut r: Vec<u8> = Vec::new();
    let mut i: usize = 0;
    while i < a.len()
        invariant
            i <= a@.len(),
            r@ == a@.take(i as int),
        decreases a@.len() - i,
    {
        r.push(a[i]);
        i = i + 1;
    }
    proof {
        assert(a@.take(a@.len() as int) =~= a@);
    }
    r
}

/// One flat storage directory: encoded artifact names mapped to contents.
/// This is the semantics that the on-disk store realizes; the filesystem
/// itself is driven outside this crate against these contracts.
pub struct Directory {
    entries: Vec<(Vec<u8>, String)>,
}

impl View for Directory {
    type V = Map<Seq<u8>, Seq<char>>;

    closed spec fn view(&self) -> Map<Seq<u8>, Seq<char>> {
        entries_map(self.entries@)
    }
}

impl Directory {
    /// Well-formed: no artifact name occurs twice.
    pub closed spec fn wf(&self) -> bool {
        unique_keys(self.entries@)
    }

    /// An empty directory.
    pub fn new() -> (d: Directory)
        ensures
            d.wf(),
            d@ == Map::<Seq<u8>, Seq<char>>::empty(),
    {
        Directory { entries: Vec::new() }
    }

    /// The index of the entry named `name`, if any.
    fn find(&self, name: &Vec<u8>) -> (r: Option<usize>)
        ensures
            match r {
                Some(i) => i < self.entries@.len() && self.entries@[i as int].0@ == name@,
                None => forall|j: int| 0 <= j < self.entries@.len() ==> self.entries@[j].0@ != name@,
            },
    {
        let mut i: usize = 0;
        while i < self.entries.len()
            invariant
                i <= self.entries@.len(),
                forall|j: int| 0 <= j < i ==> self.entries@[j].0@ != name@,
            decreases self.entries@.len() - i,
        {
            if bytes_eq(&self.entries[i].0, name) {
                return Some(i);
            }
            i = i + 1;
        }
        None
    }

    /// Whether an artifact named `name` exists.
    pub fn contains(&self, name: &Vec<u8>) -> (r: bool)
        ensures
            r == self@.contains_key(name@),
    {
        proof {
            lemma_entries_map_domain(self.entries@, name@);
        }
        match self.find(name) {
            Some(_) => true,
            None => false,
        }
    }

    /// Create or fully replace the artifact named `name`: the store holds
    /// exactly `body` for it afterwards, whatever it held before.
    pub fn write(&mut self, name: &Vec<u8>, body: String)
        requires
            old(self).wf(),
        ensures
            final(self).wf(),
            final(self)@ == old(self)@.insert(name@, body@),
    {
        let ghost s0 = self.entries@;
        match self.find(name) {
            Some(i) => {
                let _ = self.entries.remove(i);
                proof {
                    lemma_entries_map_remove(s0, i as int);
                    assert(forall|p: int, q: int|
                        0 <= p < q < s0.remove(i as int).len() ==> s0.remove(i as int)[p].0@
                            != s0.remove(i as int)[q].0@) by {
                        assert(forall|p: int|
                            0 <= p < s0.remove(i as int).len() ==> s0.remove(i as int)[p]
                                == (if p < i { s0[p] } else { s0[p + 1] }));
                    }
                    assert(forall|j: int|
                        0 <= j < s0.remove(i as int).len() ==> s0.remove(i as int)[j].0@ != name@)
                        by {
                        assert(forall|p: int|
                            0 <= p < s0.remove(i as int).len() ==> s0.remove(i as int)[p]
                                == (if p < i { s0[p] } else { s0[p + 1] }));
                    }
                }
            },
            None => {},
        }
        let ghost s1 = self.entries@;
        let key = copy_bytes(name);
        self.entries.push((key, body));
        proof {
            assert(self.entries@.drop_last() =~= s1);
            assert(self.entries@.last().0@ == name@);
            assert(self.entries@.last().1@ == body@);
            assert(forall|j: int| 0 <= j < s1.len() ==> s1[j].0@ != name@);
            assert(final(self)@ =~= old(self)@.insert(name@, body@));
        }
    }

    /// The content of the artifact named `name`, if it exists.
    pub fn read(&self, name: &Vec<u8>) -> (r: Option<&String>)
        requires
            self.wf(),
        ensures
            match r {
                Some(s) => self@.contains_key(name@) && s@ == self@[name@],
                None => !self@.contains_key(name@),
            },
    {
        proof {
            lemma_entries_map_domain(self.entries@, name@);
        }
        match self.find(name) {
            Some(i) => {
                proof {
                    lemma_entries_map_value(self.entries@, i as int);
                }
                Some(&self.entries[i].1)
            },
            None => None,
        }
    }

    /// Remove the artifact named `name`. Removal of a missing artifact is
    /// not a silent success: it surfaces `NotFound` and changes nothing.
    pub fn delete(&mut self, name: &Vec<u8>) -> (r: Result<(), IoError>)
        requires
            old(self).wf(),
        ensures
            final(self).wf(),
            old(self)@.contains_key(name@) ==> r == Ok::<(), IoError>(())
                && final(self)@ == old(self)@.remove(name@),
            !old(self)@.contains_key(name@) ==> r == Err::<(), IoError>(IoError::NotFound)
                && final(self)@ == old(self)@,
    {
        let ghost s0 = self.entries@;
        proof {
            lemma_entries_map_domain(s0, name@);
        }
        match self.find(name) {
            Some(i) => {
                let _ = self.entries.remove(i);
                proof {
                    lemma_entries_map_remove(s0, i as int);
                    assert(forall|p: int, q: int|
                        0 <= p < q < s0.remove(i as int).len() ==> s0.remove(i as int)[p].0@
                            != s0.remove(i as int)[q].0@) by {
                        assert(forall|p: int|
                            0 <= p < s0.remove(i as int).len() ==> s0.remove(i as int)[p]
                                == (if p < i { s0[p] } else { s0[p + 1] }));
                    }
                }
                Ok(())
            },
            None => Err(IoError::NotFound),
        }
    }
}

/// Round trip: after writing body `body` under a name, the store holds the
/// name and its artifact is exactly `body`, byte for byte — including the
/// empty body.
pub proof fn lemma_write_then_read(m: Map<Seq<u8>, Seq<char>>, name: Seq<u8>, body: Seq<char>)
    ensures
        m.insert(name, body).contains_key(name),
        m.insert(name, body)[name] == body,
{
}

/// Idempotence: writing the same body twice leaves the store exactly as a
/// single write does.
pub proof fn lemma_write_idempotent(m: Map<Seq<u8>, Seq<char>>, name: Seq<u8>, body: Seq<char>)
    ensures
        m.insert(name, body).insert(name, body) == m.insert(name, body),
{
    assert(m.insert(name, body).insert(name, body) =~= m.insert(name, body));
}

/// After a delete the name is absent, so a second delete finds nothing and
/// must report `NotFound`.
pub proof fn lemma_delete_leaves_absent(m: Map<Seq<u8>, Seq<char>>, name: Seq<u8>)
    ensures
        !m.remove(name).contains_key(name),
{
}

/// Two full overwrites of the same name, serialized in either order, leave
/// the artifact holding exactly one of the two bodies, whole — never a blend
/// of both.
pub proof fn lemma_overwrites_serialize(
    m: Map<Seq<u8>, Seq<char>>,
    name: Seq<u8>,
    a: Seq<char>,
    b: Seq<char>,
)
    ensures
        m.insert(name, a).insert(name, b)[name] == b,
        m.insert(name, b).insert(name, a)[name] == a,
{
}

} // verus!
