//! The buffer cache: the process-lifetime store of open documents'
//! full text. Each change event carries the entire new text — whole
//! document sync — and closing a document deliberately does not evict
//! its entry.

use crate::store::TextStore;
use vstd::prelude::*;

verus! {

/// The open documents' text, keyed by document identifier.
pub struct BufferCache {
    pub store: TextStore,
}

impl View for BufferCache {
    type V = Map<Seq<char>, Seq<char>>;

    open spec fn view(&self) -> Map<Seq<char>, Seq<char>> {
        self.store@
    }
}

impl BufferCache {
    pub open spec fn wf(self) -> bool {
        self.store.wf()
    }

    /// An empty cache.
    pub fn new() -> (r: BufferCache)
        ensures
            r.wf(),
            r@ == Map::<Seq<char>, Seq<char>>::empty(),
            r.store.entries_seq().len() == 0,
    {
        BufferCache { store: TextStore::new() }
    }

    /// Opening inserts only where the document is absent: re-opening an
    /// already-open document keeps whatever text the editor last sent.
    pub fn open(&mut self, id: &str, text: &str)
        requires
            old(self).wf(),
        ensures
            final(self).wf(),
            old(self)@.contains_key(id@) ==> *final(self) == *old(self),
            !old(self)@.contains_key(id@) ==> final(self)@ == old(self)@.insert(id@, text@),
    {
        self.store.put_if_absent(id, text);
    }

    /// A change replaces the stored text unconditionally, with the
    /// whole new text.
    pub fn change(&mut self, id: &str, text: &str)
        requires
            old(self).wf(),
        ensures
            final(self).wf(),
            final(self)@ == old(self)@.insert(id@, text@),
    {
        self.store.put(id, text);
    }

    /// A save optionally carries the full text; without one the cache
    /// keeps what it has.
    pub fn save(&mut self, id: &str, text: Option<&String>)
        requires
            old(self).wf(),
        ensures
            final(self).wf(),
            text matches Some(t) ==> final(self)@ == old(self)@.insert(id@, t@),
            text is None ==> *final(self) == *old(self),
    {
        match text {
            Some(t) => self.store.put(id, t.as_str()),
            None => {},
        }
    }

    /// The current text snapshot of a document.
    pub fn get(&self, id: &str) -> (r: Option<&String>)
        requires
            self.wf(),
        ensures
            r is Some <==> self@.contains_key(id@),
            r matches Some(t) ==> t@ == self@[id@],
    {
        self.store.get(id)
    }

    /// Closing evicts nothing: the entry stays until the process ends,
    /// a deliberate retention trade-off.
    pub fn close(&mut self, id: &str)
        requires
            old(self).wf(),
        ensures
            *final(self) == *old(self),
    {
        let _ = id;
    }
}

} // verus!
