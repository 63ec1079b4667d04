//! The document store and the render-publication step.
//!
//! The store is the single shared resource of the pipeline: a map from file
//! identity to the latest compiled document for that file.  A publish
//! replaces the file's document wholesale — a reader sees the prior document
//! or the new one, never a mix.  The render step applies the pipeline's
//! publication policy: a successful compile is stored and announced, a parse
//! failure is dropped silently so transient invalid syntax never halts the
//! pipeline.

use vstd::prelude::*;

use crate::document::Document;

verus! {

/// A compile failure; it carries nothing the pipeline would use, since the
/// event is dropped.
#[derive(Debug, PartialEq, Eq)]
pub struct ParseError;

/// What one finished render led to.
#[derive(Debug, Clone, Copy, PartialEq, Eq, Structural)]
pub enum RenderOutcome {
    /// The document was stored; a content notification is owed, and a token
    /// refresh request exactly when `refresh` is set.
    Published { refresh: bool },
    /// The compile failed; nothing changed and nothing is sent.
    Dropped,
}

/// The map an entry list represents; later entries would win, though the
/// store keeps its keys unique.
pub open spec fn map_of(s: Seq<(String, Document)>) -> Map<Seq<char>, Document>
    decreases s.len(),
{
    if s.len() == 0 {
        Map::<Seq<char>, Document>::empty()
    } else {
        map_of(s.drop_last()).insert(s.last().0@, s.last().1)
    }
}

/// No two entries carry the same file identity.
pub open spec fn keys_unique(s: Seq<(String, Document)>) -> bool {
    forall|i: int, j: int| 0 <= i < j < s.len() ==> (#[trigger] s[i]).0@ != (#[trigger] s[j]).0@
}

/// Store of the latest compiled document per file identity.
pub struct DocumentStore {
    entries: Vec<(String, Document)>,
}

proof fn lemma_map_of_push(s: Seq<(String, Document)>, e: (String, Document))
    ensures
        map_of(s.push(e)) == map_of(s).insert(e.0@, e.1),
{
    assert(s.push(e).drop_last() =~= s);
    assert(s.push(e).last() == e);
}

proof fn lemma_map_of_update(s: Seq<(String, Document)>, i: int, e: (String, Document))
    requires
        keys_unique(s),
        0 <= i < s.len(),
        s[i].0@ == e.0@,
    ensures
        map_of(s.update(i, e)) == map_of(s).insert(e.0@, e.1),
    decreases s.len(),
{
    let u = s.update(i, e);
    if i == s.len() - 1 {
        assert(u.drop_last() =~= s.drop_last());
        assert(u.last() == e);
        assert(map_of(u) == map_of(s.drop_last()).insert(e.0@, e.1));
        assert(map_of(s).insert(e.0@, e.1) =~= map_of(s.drop_last()).insert(e.0@, e.1));
    } else {
        assert(keys_unique(s.drop_last())) by {
            assert(forall|k: int| 0 <= k < s.len() - 1 ==> s.drop_last()[k] == s[k]);
        }
        lemma_map_of_update(s.drop_last(), i, e);
        assert(u.drop_last() =~= s.drop_last().update(i, e));
        assert(u.last() == s.last());
        assert(s[i].0@ != s.last().0@);
        assert(map_of(u) == map_of(s.drop_last()).insert(e.0@, e.1).insert(
            s.last().0@,
            s.last().1,
        ));
        assert(map_of(s.drop_last()).insert(e.0@, e.1).insert(s.last().0@, s.last().1)
            =~= map_of(s.drop_last()).insert(s.last().0@, s.last().1).insert(e.0@, e.1));
    }
}

proof fn lemma_map_of_found(s: Seq<(String, Document)>, i: int)
    requires
        keys_unique(s),
        0 <= i < s.len(),
    ensures
        map_of(s).contains_key(s[i].0@),
        map_of(s)[s[i].0@] == s[i].1,
    decreases s.len(),
{
    if i == s.len() - 1 {
    } else {
        assert(keys_unique(s.drop_last())) by {
            assert(forall|k: int| 0 <= k < s.len() - 1 ==> s.drop_last()[k] == s[k]);
        }
        lemma_map_of_found(s.drop_last(), i);
        assert(s[i].0@ != s.last().0@);
    }
}

proof fn lemma_map_of_absent(s: Seq<(String, Document)>, key: Seq<char>)
    requires
        forall|k: int| 0 <= k < s.len() ==> (#[trigger] s[k]).0@ != key,
    ensures
        !map_of(s).contains_key(key),
    decreases s.len(),
{
    if s.len() > 0 {
        assert(forall|k: int| 0 <= k < s.len() - 1 ==> s.drop_last()[k] == s[k]);
        lemma_map_of_absent(s.drop_last(), key);
        assert(s.last() == s[s.len() - 1]);
    }
}

impl DocumentStore {
    /// The documents this store holds, by file identity.
    pub closed spec fn contents(self) -> Map<Seq<char>, Document> {
        map_of(self.entries@)
    }

    /// At most one document per file identity.
    pub closed spec fn wf(self) -> bool {
        keys_unique(self.entries@)
    }

    /// An empty store.
    pub fn new() -> (r: Self)
        ensures
            r.wf(),
            r.contents() == Map::<Seq<char>, Document>::empty(),
    {
        DocumentStore { entries: Vec::new() }
    }

    fn find_index(&self, file_id: &String) -> (r: Option<usize>)
        ensures
            match r {
                Some(i) => i < self.entries@.len() && self.entries@[i as int].0@ == file_id@,
                None => forall|k: int|
                    0 <= k < self.entries@.len() ==> (#[trigger] self.entries@[k]).0@ != file_id@,
            },
    {
        let mut i: usize = 0;
        while i < self.entries.len()
            invariant
                i <= self.entries@.len(),
                forall|k: int| 0 <= k < i ==> (#[trigger] self.entries@[k]).0@ != file_id@,
            decreases self.entries@.len() - i,
        {
            if self.entries[i].0 == *file_id {
                return Some(i);
            }
            i += 1;
        }
        None
    }

    /// Stores `doc` as the latest document for `file_id`, replacing any prior
    /// document for that file wholesale.
    pub fn insert(&mut self, file_id: String, doc: Document)
        requires
            old(self).wf(),
        ensures
            final(self).wf(),
            final(self).contents() == old(self).contents().insert(file_id@, doc),
    {
        match self.find_index(&file_id) {
            Some(i) => {
                proof {
                    lemma_map_of_update(self.entries@, i as int, (file_id, doc));
                    assert(keys_unique(self.entries@.update(i as int, (file_id, doc)))) by {
                        let u = self.entries@.update(i as int, (file_id, doc));
                        assert forall|a: int, b: int| 0 <= a < b < u.len() implies (
                        #[trigger] u[a]).0@ != (#[trigger] u[b]).0@ by {
                            assert(self.entries@[a].0@ != self.entries@[b].0@);
                        }
                    }
                }
                self.entries[i] = (file_id, doc);
            },
            None => {
                proof {
                    lemma_map_of_push(self.entries@, (file_id, doc));
                    assert(keys_unique(self.entries@.push((file_id, doc)))) by {
                        let u = self.entries@.push((file_id, doc));
                        assert forall|a: int, b: int| 0 <= a < b < u.len() implies (
                        #[trigger] u[a]).0@ != (#[trigger] u[b]).0@ by {
                            if b < u.len() - 1 {
                                assert(self.entries@[a].0@ != self.entries@[b].0@);
                            } else {
                                assert(u[a] == self.entries@[a]);
                            }
                        }
                    }
                }
                self.entries.push((file_id, doc));
            },
        }
    }

    /// The latest document for `file_id`, if one was ever published.
    pub fn get(&self, file_id: &String) -> (r: Option<&Document>)
        requires
            self.wf(),
        ensures
            match r {
                Some(d) => self.contents().contains_key(file_id@) && *d
                    == self.contents()[file_id@],
                None => !self.contents().contains_key(file_id@),
            },
    {
        match self.find_index(file_id) {
            Some(i) => {
                proof {
                    lemma_map_of_found(self.entries@, i as int);
                }
                Some(&self.entries[i].1)
            },
            None => {
                proof {
                    lemma_map_of_absent(self.entries@, file_id@);
                }
                None
            },
        }
    }

    /// Applies one finished render: a compiled document is published —
    /// replacing the file's previous document — and announced, with a token
    /// refresh exactly when the session recorded editor support; a parse
    /// error leaves the store untouched and stays silent.
    pub fn apply_render(
        &mut self,
        file_id: String,
        result: Result<Document, ParseError>,
        refresh_supported: bool,
    ) -> (r: RenderOutcome)
        requires
            old(self).wf(),
        ensures
            final(self).wf(),
            match result {
                Result::Ok(doc) => final(self).contents() == old(self).contents().insert(
                    file_id@,
                    doc,
                ) && r == (RenderOutcome::Published { refresh: refresh_supported }),
                Result::Err(_) => final(self).contents() == old(self).contents() && r
                    == RenderOutcome::Dropped,
            },
    {
        match result {
            Result::Ok(doc) => {
                self.insert(file_id, doc);
                RenderOutcome::Published { refresh: refresh_supported }
            },
            Result::Err(_) => RenderOutcome::Dropped,
        }
    }
}

/// Two renders completed for one file leave the store as if only the later
/// one had been published: the most recently completed render's document is
/// held whole, never a mix of the two.
pub proof fn lemma_latest_render_wins(
    m: Map<Seq<char>, Document>,
    k: Seq<char>,
    d1: Document,
    d2: Document,
)
    ensures
        m.insert(k, d1).insert(k, d2) == m.insert(k, d2),
        m.insert(k, d1).insert(k, d2)[k] == d2,
{
    assert(m.insert(k, d1).insert(k, d2) =~= m.insert(k, d2));
}

} // verus!
