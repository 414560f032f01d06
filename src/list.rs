use vstd::prelude::*;

use crate::asset_id::{AssetId, lemma_ordinal_round_trip, lemma_precedes_ordinal, lemma_from_ordinal_wf};

verus! {

/// One item of a list: a single identifier, or the inclusive span between
/// two identifiers.
#[derive(Clone, Copy, Debug, PartialEq, Eq, Structural)]
pub enum ListEntry {
    Range { from: AssetId, to: AssetId },
    Id(AssetId),
}

/// The `count` identifiers that follow one another from ordinal `start` on.
pub open spec fn run(start: int, count: int) -> Seq<AssetId> {
    Seq::new(count as nat, |k: int| AssetId::from_ordinal(start + k))
}

impl ListEntry {
    /// Every identifier in the entry is valid.
    pub open spec fn wf(self) -> bool {
        match self {
            ListEntry::Range { from, to } => from.wf() && to.wf(),
            ListEntry::Id(id) => id.wf(),
        }
    }

    /// A range whose end comes before its start.
    pub open spec fn is_reversed(self) -> bool {
        match self {
            ListEntry::Range { from, to } => to.precedes(from),
            ListEntry::Id(_) => false,
        }
    }

    /// The identifiers that the entry stands for, in order. A range yields
    /// its start and then each successor up to and including its end; a
    /// reversed range yields its start alone.
    pub open spec fn members(self) -> Seq<AssetId> {
        match self {
            ListEntry::Range { from, to } => {
                if to.precedes(from) {
                    seq![from]
                } else {
                    run(from.ordinal(), to.ordinal() - from.ordinal() + 1)
                }
            },
            ListEntry::Id(id) => seq![id],
        }
    }

    /// Starts a fresh, lazy expansion of the entry.
    pub fn into_iter(self) -> (r: ListEntryIter)
        requires
            self.wf(),
        ensures
            r.is_fresh_for(self),
            r.remaining() == self.members(),
    {
        let r = ListEntryIter { at: None, entry: self };
        proof {
            if let ListEntry::Range { from, to } = self {
                lemma_ordinal_round_trip(from);
                lemma_precedes_ordinal(from, to);
                if !to.precedes(from) {
                    assert(r.remaining() =~= self.members());
                }
            }
        }
        r
    }

    /// The whole expansion of the entry, collected through a fresh iterator.
    pub fn expand(&self) -> (r: Vec<AssetId>)
        requires
            self.wf(),
        ensures
            r@ == self.members(),
    {
        let mut it = self.into_iter();
        let mut out: Vec<AssetId> = Vec::new();
        loop
            invariant
                out@ + it.remaining() == self.members(),
            decreases it.remaining().len(),
        {
            match it.next() {
                Some(id) => {
                    out.push(id);
                    assert(out@ + it.remaining() =~= self.members());
                },
                None => {
                    assert(out@ =~= self.members());
                    return out;
                },
            }
        }
    }
}

/// The lazy expansion of one entry: each call of `next` yields the
/// following member until the entry is exhausted.
pub struct ListEntryIter {
    at: Option<AssetId>,
    entry: ListEntry,
}

impl ListEntryIter {
    #[verifier::type_invariant]
    spec fn inv(self) -> bool {
        &&& self.entry.wf()
        &&& match self.at {
            Some(id) => id.wf(),
            None => true,
        }
    }

    /// The iterator has yielded nothing yet and expands `entry`.
    pub closed spec fn is_fresh_for(self, entry: ListEntry) -> bool {
        self.at is None && self.entry == entry
    }

    /// What the iterator has still to yield, in order.
    pub closed spec fn remaining(self) -> Seq<AssetId> {
        match self.at {
            None => self.entry.members(),
            Some(at) => match self.entry {
                ListEntry::Range { from, to } => {
                    if at.precedes(to) {
                        run(at.ordinal() + 1, to.ordinal() - at.ordinal())
                    } else {
                        Seq::empty()
                    }
                },
                ListEntry::Id(_) => Seq::empty(),
            },
        }
    }

    /// Yields the next member, or `None` once the expansion is exhausted.
    pub fn next(&mut self) -> (r: Option<AssetId>)
        ensures
            old(self).remaining().len() > 0 ==> r == Some(old(self).remaining()[0])
                && final(self).remaining() == old(self).remaining().drop_first(),
            old(self).remaining().len() == 0 ==> r is None && final(self).remaining().len() == 0,
    {
        proof {
            use_type_invariant(&*self);
        }
        match self.entry {
            ListEntry::Id(id) => {
                if self.at.is_none() {
                    self.at = Some(id);
                    proof {
                        assert(old(self).remaining().drop_first() =~= self.remaining());
                    }
                    Some(id)
                } else {
                    None
                }
            },
            ListEntry::Range { from, to } => {
                match self.at {
                    None => {
                        self.at = Some(from);
                        proof {
                            lemma_ordinal_round_trip(from);
                            lemma_precedes_ordinal(from, to);
                            assert(old(self).remaining()[0] == from);
                            assert(old(self).remaining().drop_first() =~= self.remaining());
                        }
                        Some(from)
                    },
                    Some(at) => {
                        if at.is_before(&to) {
                            let mut next = at;
                            proof {
                                lemma_precedes_ordinal(at, to);
                            }
                            next.increment();
                            self.at = Some(next);
                            proof {
                                lemma_ordinal_round_trip(next);
                                lemma_precedes_ordinal(next, to);
                                assert(old(self).remaining()[0] == next);
                                assert(old(self).remaining().drop_first() =~= self.remaining());
                            }
                            Some(next)
                        } else {
                            None
                        }
                    },
                }
            },
        }
    }
}

/// Two fresh expansions of one entry yield the same sequence, member for
/// member: the iterator carries its own cursor and nothing is shared.
pub proof fn lemma_fresh_expansions_agree(entry: ListEntry, a: ListEntryIter, b: ListEntryIter)
    requires
        a.is_fresh_for(entry),
        b.is_fresh_for(entry),
    ensures
        a.remaining() == b.remaining(),
        a.remaining() == entry.members(),
{
}

/// A range was found whose end comes before its start.
#[derive(Clone, Copy, Debug, PartialEq, Eq, Structural)]
pub struct RangeDirectionError {
    /// Position in the list of the first reversed range.
    pub index: usize,
}

/// Structural check of a parsed list, made before it is expanded.
pub trait Validate {
    /// The entries that are checked, in order.
    spec fn entries(&self) -> Seq<ListEntry>;

    /// Succeeds when no range is reversed; otherwise reports the first
    /// reversed range in list order.
    fn validate(&self) -> (r: Result<(), RangeDirectionError>)
        ensures
            match r {
                Ok(()) => forall|i: int|
                    0 <= i < self.entries().len() ==> !(#[trigger] self.entries()[i]).is_reversed(),
                Err(e) => {
                    &&& e.index < self.entries().len()
                    &&& self.entries()[e.index as int].is_reversed()
                    &&& forall|j: int|
                        0 <= j < e.index ==> !(#[trigger] self.entries()[j]).is_reversed()
                },
            },
    ;
}

impl Validate for Vec<ListEntry> {
    open spec fn entries(&self) -> Seq<ListEntry> {
        self@
    }

    fn validate(&self) -> (r: Result<(), RangeDirectionError>) {
        let mut i: usize = 0;
        while i < self.len()
            invariant
                i <= self@.len(),
                forall|j: int| 0 <= j < i ==> !(#[trigger] self@[j]).is_reversed(),
            decreases self@.len() - i,
        {
            if let ListEntry::Range { from, to } = self[i] {
                if to.is_before(&from) {
                    return Err(RangeDirectionError { index: i });
                }
            }
            i = i + 1;
        }
        Ok(())
    }
}

/// The members of every entry of `list`, entry after entry, in list order.
pub open spec fn expansion(list: Seq<ListEntry>) -> Seq<AssetId>
    decreases list.len(),
{
    if list.len() == 0 {
        Seq::empty()
    } else {
        expansion(list.drop_last()) + list.last().members()
    }
}

/// Expands every entry of `list` lazily and concatenates the results in list
/// order, without sorting, merging or removing duplicates.
pub fn expand_list(list: &Vec<ListEntry>) -> (r: Vec<AssetId>)
    requires
        forall|i: int| 0 <= i < list@.len() ==> (#[trigger] list@[i]).wf(),
    ensures
        r@ == expansion(list@),
{
    let mut out: Vec<AssetId> = Vec::new();
    let mut i: usize = 0;
    while i < list.len()
        invariant
            i <= list@.len(),
            forall|k: int| 0 <= k < list@.len() ==> (#[trigger] list@[k]).wf(),
            out@ == expansion(list@.take(i as int)),
        decreases list@.len() - i,
    {
        let entry = list[i];
        let ghost before = out@;
        let mut it = entry.into_iter();
        loop
            invariant
                out@ + it.remaining() == before + entry.members(),
            ensures
                out@ == before + entry.members(),
            decreases it.remaining().len(),
        {
            match it.next() {
                Some(id) => {
                    out.push(id);
                    assert(out@ + it.remaining() =~= before + entry.members());
                },
                None => {
                    assert(out@ =~= before + entry.members());
                    break;
                },
            }
        }
        proof {
            let t = list@.take(i + 1);
            assert(t.drop_last() =~= list@.take(i as int));
            assert(t.last() == entry);
            assert(expansion(t) == expansion(t.drop_last()) + t.last().members());
        }
        i = i + 1;
    }
    assert(list@.take(i as int) =~= list@);
    out
}

/// Expansion keeps list order: the expansion of two lists written one after
/// the other is the expansion of the first followed by that of the second.
pub proof fn lemma_expansion_append(a: Seq<ListEntry>, b: Seq<ListEntry>)
    ensures
        expansion(a + b) == expansion(a) + expansion(b),
    decreases b.len(),
{
    if b.len() == 0 {
        assert(a + b =~= a);
        assert(expansion(a) + expansion(b) =~= expansion(a));
    } else {
        lemma_expansion_append(a, b.drop_last());
        assert((a + b).drop_last() =~= a + b.drop_last());
        assert((a + b).last() == b.last());
        assert(expansion(a + b) =~= expansion(a) + expansion(b));
    }
}

} // verus!
