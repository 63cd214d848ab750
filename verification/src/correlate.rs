//! The correlation table: in-flight request identifiers mapped to the
//! method names that issued them, with a mark telling proxy-synthesized
//! requests apart from client ones.

use vstd::prelude::*;

verus! {

use crate::message::{MsgId, IdData, id_clone};
use crate::json::bytes_clone;
use crate::bytes_util::bytes_eq;

/// One tracked request: its identifier, its method name, and whether
/// the proxy itself synthesized it.
#[derive(Debug)]
pub struct Entry {
    pub id: MsgId,
    pub method: Vec<u8>,
    pub synthetic: bool,
}

/// The model of one tracked request.
pub struct EntryData {
    pub id: IdData,
    pub method: Seq<u8>,
    pub synthetic: bool,
}

impl View for Entry {
    type V = EntryData;

    open spec fn view(&self) -> EntryData {
        EntryData { id: self.id@, method: self.method@, synthetic: self.synthetic }
    }
}

/// The method and mark tracked under an identifier: the first entry
/// with that identifier decides.
pub open spec fn table_lookup(es: Seq<EntryData>, id: IdData) -> Option<(Seq<u8>, bool)>
    decreases es.len(),
{
    if es.len() == 0 {
        None
    } else if es[0].id == id {
        Some((es[0].method, es[0].synthetic))
    } else {
        table_lookup(es.skip(1), id)
    }
}

/// Appending an entry changes a lookup only when nothing earlier held
/// the key and the new entry does.
proof fn lemma_lookup_push(es: Seq<EntryData>, d: EntryData, k: IdData)
    ensures
        table_lookup(es.push(d), k) == (match table_lookup(es, k) {
            Some(v) => Some(v),
            None => if d.id == k {
                Some((d.method, d.synthetic))
            } else {
                None
            },
        }),
    decreases es.len(),
{
    if es.len() == 0 {
        assert(es.push(d)[0] == d);
        assert(es.push(d).skip(1).len() == 0);
        assert(table_lookup(es.push(d).skip(1), k) is None);
        assert(table_lookup(es, k) is None);
        assert(table_lookup(es.push(d), k) == (if d.id == k {
            Some((d.method, d.synthetic))
        } else {
            None
        }));
    } else {
        assert(es.push(d)[0] == es[0]);
        assert(es.push(d).skip(1) =~= es.skip(1).push(d));
        lemma_lookup_push(es.skip(1), d, k);
        if es[0].id == k {
            assert(table_lookup(es.push(d), k) == Some((es[0].method, es[0].synthetic)));
            assert(table_lookup(es, k) == Some((es[0].method, es[0].synthetic)));
        } else {
            assert(table_lookup(es.push(d), k) == table_lookup(es.skip(1).push(d), k));
            assert(table_lookup(es, k) == table_lookup(es.skip(1), k));
        }
    }
}

/// The models of a sequence of entries.
pub open spec fn entries_view(es: Seq<Entry>) -> Seq<EntryData>
    decreases es,
{
    if es.len() == 0 {
        Seq::empty()
    } else {
        seq![es[0]@] + entries_view(es.subrange(1, es.len() as int))
    }
}

/// Entry `i` of a viewed entry sequence is the view of entry `i`.
pub proof fn lemma_entries_view_index(es: Seq<Entry>)
    ensures
        entries_view(es).len() == es.len(),
        forall|i: int| 0 <= i < es.len() ==> #[trigger] entries_view(es)[i] == es[i]@,
    decreases es.len(),
{
    if es.len() > 0 {
        lemma_entries_view_index(es.subrange(1, es.len() as int));
    }
}

/// Viewing distributes over appending one entry.
proof fn lemma_entries_view_snoc(es: Seq<Entry>, e: Entry)
    ensures
        entries_view(es.push(e)) == entries_view(es).push(e@),
{
    lemma_entries_view_index(es.push(e));
    lemma_entries_view_index(es);
    assert(entries_view(es.push(e)) =~= entries_view(es).push(e@));
}

/// Whether two identifiers are the same key.
pub fn id_eq(a: &MsgId, b: &MsgId) -> (r: bool)
    ensures
        r == (a@ == b@),
{
    match (a, b) {
        (MsgId::Int(x), MsgId::Int(y)) => x == y,
        (MsgId::Text(x), MsgId::Text(y)) => bytes_eq(x, y),
        _ => false,
    }
}

/// The table of in-flight requests.
#[derive(Debug)]
pub struct CorrelationTable {
    entries: Vec<Entry>,
}

impl View for CorrelationTable {
    type V = Seq<EntryData>;

    closed spec fn view(&self) -> Seq<EntryData> {
        entries_view(self.entries@)
    }
}

impl CorrelationTable {
    /// A fresh table tracks nothing.
    pub fn new() -> (t: Self)
        ensures
            t@.len() == 0,
            forall|id: IdData| table_lookup(t@, id) is None,
    {
        let t = CorrelationTable { entries: Vec::new() };
        proof {
            lemma_entries_view_index(t.entries@);
        }
        t
    }

    /// Tracks a request.  The identifier maps to the given method and
    /// mark afterwards; every other identifier maps as before.
    pub fn insert(&mut self, id: &MsgId, method: &Vec<u8>, synthetic: bool)
        ensures
            table_lookup(final(self)@, id@) == Some((method@, synthetic)),
            forall|other: IdData|
                other != id@ ==> table_lookup(final(self)@, other) == table_lookup(
                    old(self)@,
                    other,
                ),
    {
        let ghost pre = self.entries@;
        let e = Entry { id: id_clone(id), method: bytes_clone(method), synthetic };
        self.entries.insert(0, e);
        proof {
            lemma_entries_view_index(self.entries@);
            lemma_entries_view_index(pre);
            assert(self.entries@.subrange(1, self.entries@.len() as int) =~= pre);
            assert(entries_view(self.entries@)[0] == e@);
            assert(entries_view(self.entries@).skip(1) =~= entries_view(pre));
        }
    }

    /// Stops tracking an identifier, handing back what it was tracked
    /// with.  The identifier maps to nothing afterwards; every other
    /// identifier maps as before.
    pub fn remove(&mut self, id: &MsgId) -> (r: Option<(Vec<u8>, bool)>)
        ensures
            (match r {
                Some(v) => table_lookup(old(self)@, id@) == Some((v.0@, v.1)),
                None => table_lookup(old(self)@, id@) is None,
            }),
            table_lookup(final(self)@, id@) is None,
            forall|other: IdData|
                other != id@ ==> table_lookup(final(self)@, other) == table_lookup(
                    old(self)@,
                    other,
                ),
    {
        proof {
            lemma_entries_view_index(self.entries@);
        }
        let ghost ev = entries_view(self.entries@);
        let mut kept: Vec<Entry> = Vec::new();
        let mut found: Option<(Vec<u8>, bool)> = None;
        let mut i: usize = 0;
        proof {
            lemma_entries_view_index(kept@);
            assert(ev.skip(0) =~= ev);
            assert(ev.take(0).len() == 0);
        }
        while i < self.entries.len()
            invariant
                i <= self.entries@.len(),
                ev == entries_view(self.entries@),
                ev.len() == self.entries@.len(),
                forall|k: int| 0 <= k < self.entries@.len() ==> #[trigger] ev[k]
                    == self.entries@[k]@,
                (match found {
                    Some(v) => table_lookup(ev, id@) == Some((v.0@, v.1)),
                    None => table_lookup(ev, id@) == table_lookup(ev.skip(i as int), id@),
                }),
                forall|other: IdData|
                    other != id@ ==> #[trigger] table_lookup(entries_view(kept@), other)
                        == table_lookup(ev.take(i as int), other),
                table_lookup(entries_view(kept@), id@) is None,
            decreases self.entries@.len() - i,
        {
            let ghost d = ev[i as int];
            proof {
                assert(ev.skip(i as int)[0] == d);
                assert(ev.skip(i as int).skip(1) =~= ev.skip(i + 1));
                assert(ev.take(i + 1) =~= ev.take(i as int).push(d));
            }
            let same = id_eq(&self.entries[i].id, id);
            if same {
                if found.is_none() {
                    found = Some(
                        (bytes_clone(&self.entries[i].method), self.entries[i].synthetic),
                    );
                }
                proof {
                    assert forall|other: IdData|
                        other != id@ implies #[trigger] table_lookup(entries_view(kept@), other)
                        == table_lookup(ev.take(i + 1), other) by {
                        lemma_lookup_push(ev.take(i as int), d, other);
                    }
                }
            } else {
                let ghost kpre = kept@;
                let e = Entry {
                    id: id_clone(&self.entries[i].id),
                    method: bytes_clone(&self.entries[i].method),
                    synthetic: self.entries[i].synthetic,
                };
                kept.push(e);
                proof {
                    lemma_entries_view_snoc(kpre, e);
                    assert(e@ == d);
                    assert forall|other: IdData|
                        other != id@ implies #[trigger] table_lookup(entries_view(kept@), other)
                        == table_lookup(ev.take(i + 1), other) by {
                        lemma_lookup_push(entries_view(kpre), d, other);
                        lemma_lookup_push(ev.take(i as int), d, other);
                    }
                    lemma_lookup_push(entries_view(kpre), d, id@);
                }
            }
            i += 1;
        }
        proof {
            assert(ev.skip(i as int).len() == 0);
            assert(ev.take(i as int) =~= ev);
        }
        self.entries = kept;
        found
    }
}

} // verus!
