//! The address book of the servers: each server's entry under its id,
//! kept up to date by the changes that the directory announces.

use crate::directory::{ServerIdx, ServerInfo, ServerInfoView};
use std::collections::BTreeMap;
use vstd::prelude::*;
use vstd::std_specs::cmp::OrdSpec;

verus! {

broadcast use {vstd::std_specs::btree::group_btree_axioms, vstd::laws_cmp::group_laws_cmp};

/// The entries of the servers, by id.
#[derive(Debug)]
pub struct AddressBook {
    servers: BTreeMap<ServerIdx, ServerInfo>,
}

/// The models of the entries in `servers`.
pub open spec fn book_model(servers: Map<ServerIdx, ServerInfo>) -> Map<ServerIdx, ServerInfoView> {
    Map::new(|id: ServerIdx| servers.contains_key(id), |id: ServerIdx| servers[id]@)
}

/// The book that holds `entries`, each under its id; of two entries under
/// one id the later one counts.
pub open spec fn book_of(entries: Seq<(ServerIdx, ServerInfoView)>) -> Map<ServerIdx, ServerInfoView>
    decreases entries.len(),
{
    if entries.len() == 0 {
        Map::empty()
    } else {
        book_of(entries.drop_last()).insert(entries.last().0, entries.last().1)
    }
}

/// The models of entries that come with their ids.
pub open spec fn entries_view(entries: Seq<(ServerIdx, ServerInfo)>) -> Seq<
    (ServerIdx, ServerInfoView),
> {
    Seq::new(entries.len(), |i: int| (entries[i].0, entries[i].1@))
}

impl View for AddressBook {
    type V = Map<ServerIdx, ServerInfoView>;

    closed spec fn view(&self) -> Map<ServerIdx, ServerInfoView> {
        book_model(self.servers@)
    }
}

/// In a sequence of ids that is increasing, an earlier id is less than a
/// later one.
proof fn lemma_rising(ids: Seq<&ServerIdx>, i: int, j: int)
    requires
        vstd::std_specs::btree::increasing_seq(ids),
        0 <= i < j < ids.len(),
    ensures
        *ids[i] < *ids[j],
{
    assert(<&ServerIdx>::cmp_spec(&ids[i], &ids[j]) is Less);
}

impl AddressBook {
    /// A book without entries.
    pub fn new() -> (book: AddressBook)
        ensures
            book@ == Map::<ServerIdx, ServerInfoView>::empty(),
    {
        let book = AddressBook { servers: BTreeMap::new() };
        book
    }

    /// Files `info` under `id`, in place of what was filed there.
    pub fn insert(&mut self, id: ServerIdx, info: ServerInfo)
        ensures
            final(self)@ == old(self)@.insert(id, info@),
    {
        self.servers.insert(id, info);
    }

    /// Takes in a change that the directory has announced: the entry is
    /// filed under the id that it names, in place of what was filed there.
    pub fn apply_update(&mut self, update: ServerInfo)
        ensures
            final(self)@ == old(self)@.insert(update@.id, update@),
    {
        let id = update.id;
        self.insert(id, update);
    }

    /// The book that holds `entries`, each under the id that it comes with.
    pub fn from_entries(entries: Vec<(ServerIdx, ServerInfo)>) -> (book: AddressBook)
        ensures
            book@ == book_of(entries_view(entries@)),
    {
        let ghost all = entries_view(entries@);
        let mut book = AddressBook::new();
        for entry in it: entries
            invariant
                entries_view(it.seq()) == all,
                book@ == book_of(all.take(it.index())),
        {
            let ghost k = it.index();
            proof {
                assert(all.take(k + 1).drop_last() =~= all.take(k));
            }
            book.insert(entry.0, entry.1);
        }
        proof {
            assert(all.take(all.len() as int) =~= all);
        }
        book
    }

    /// The address of the server `id`, if the book holds its entry.
    pub fn address(&self, id: ServerIdx) -> (addr: Option<String>)
        ensures
            match addr {
                Some(text) => self@.contains_key(id) && text@ == self@[id].addr,
                None => !self@.contains_key(id),
            },
    {
        match self.servers.get(&id) {
            Some(info) => Some(info.addr.clone()),
            None => None,
        }
    }

    /// Whether the book holds the entry of the server `id`.
    pub fn knows(&self, id: ServerIdx) -> (known: bool)
        ensures
            known == self@.contains_key(id),
    {
        self.servers.contains_key(&id)
    }

    /// The ids of the servers whose entries the book holds, each once, in
    /// rising order.
    pub fn server_ids(&self) -> (ids: Vec<ServerIdx>)
        ensures
            forall|id: ServerIdx| ids@.contains(id) <==> self@.contains_key(id),
            forall|i: int, j: int| 0 <= i < j < ids@.len() ==> ids@[i] < ids@[j],
    {
        let mut ids: Vec<ServerIdx> = Vec::new();
        for key in it: self.servers.keys()
            invariant
                it.seq().unref().to_set() == self.servers@.dom(),
                vstd::std_specs::btree::increasing_seq(it.seq()),
                ids@ == it.seq().unref().take(it.index()),
                it.index() == it.seq().len() ==> ids@ == it.seq().unref(),
                forall|i: int, j: int| 0 <= i < j < ids@.len() ==> ids@[i] < ids@[j],
        {
            ids.push(*key);
            assert forall|i: int, j: int| 0 <= i < j < ids@.len() implies ids@[i] < ids@[j] by {
                lemma_rising(it.seq(), i, j);
            }
        }
        ids
    }
}

} // verus!
