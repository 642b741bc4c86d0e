//! The log itself: an ordered collection of entries that is filled from the
//! tiers, put in timestamp order and written out under a byte budget.

use crate::budget::{
    bounded_document, bounded_text, fits, largest_fitting_prefix, lemma_document_grows,
    lemma_largest_fitting_prefix,
};
use crate::entry::{LogEntry, Priority, RawEntry, Sort};
use crate::json::{all_encodable, document, encode_entry, entry_text, entry_texts};
use crate::order::{is_stable_sort_of, sort_entries};
use crate::store::BufferStore;
use crate::text::byte_len;
use vstd::prelude::*;

verus! {

/// Entries gathered from one or more tiers, in the order in which they were
/// pushed or last sorted.
#[derive(Debug)]
pub struct Log {
    pub entries: Vec<LogEntry>,
}

impl View for Log {
    type V = Seq<LogEntry>;

    open spec fn view(&self) -> Seq<LogEntry> {
        self.entries@
    }
}

impl Default for Log {
    fn default() -> (log: Log)
        ensures
            log@ == Seq::<LogEntry>::empty(),
    {
        Log { entries: Vec::new() }
    }
}

impl Clone for Log {
    fn clone(&self) -> (copy: Log)
        ensures
            copy@ == self@,
    {
        let mut entries: Vec<LogEntry> = Vec::new();
        let mut i: usize = 0;
        while i < self.entries.len()
            invariant
                i <= self.entries.len(),
                entries@ == self.entries@.take(i as int),
            decreases self.entries.len() - i,
        {
            entries.push(self.entries[i].clone());
            assert(entries@ =~= self.entries@.take(i + 1));
            i += 1;
        }
        assert(entries@ =~= self.entries@);
        Log { entries }
    }
}

/// The full text of a log: the document of all its entries, or the empty
/// text where an entry cannot be written.
pub open spec fn full_text(entries: Seq<LogEntry>) -> Seq<char> {
    if all_encodable(entries) {
        document(entry_texts(entries))
    } else {
        Seq::empty()
    }
}

/// The text that a log is serialized to under a budget of `max` bytes.
///
/// Where every entry can be written, it is the document of the longest
/// prefix of the entries that fits the budget (see [`bounded_text`]). Where
/// one cannot, the full text is empty, fits any budget and is the result.
pub open spec fn serialized_text(entries: Seq<LogEntry>, max: nat) -> Seq<char> {
    if all_encodable(entries) {
        bounded_text(entry_texts(entries), max)
    } else {
        Seq::empty()
    }
}

proof fn lemma_entry_texts_of_prefix(entries: Seq<LogEntry>, count: nat)
    requires
        all_encodable(entries),
        count <= entries.len(),
    ensures
        all_encodable(entries.take(count as int)),
        entry_texts(entries.take(count as int)) == entry_texts(entries).take(count as int),
{
    let prefix = entries.take(count as int);
    assert forall|i: int| 0 <= i < prefix.len() implies (#[trigger] entry_text(prefix[i])) is Some by {
        assert(entry_text(entries[i]) is Some);
    }
    assert(entry_texts(prefix) =~= entry_texts(entries).take(count as int));
}

/// The full text of a longer prefix of a log never takes fewer bytes than
/// that of a shorter one, as long as every entry can be written.
pub proof fn lemma_full_text_grows(entries: Seq<LogEntry>, shorter: nat, longer: nat)
    requires
        all_encodable(entries),
        shorter <= longer <= entries.len(),
    ensures
        byte_len(full_text(entries.take(shorter as int))) <= byte_len(
            full_text(entries.take(longer as int)),
        ),
{
    lemma_entry_texts_of_prefix(entries, shorter);
    lemma_entry_texts_of_prefix(entries, longer);
    lemma_document_grows(entry_texts(entries), shorter, longer);
}

/// What a log is serialized to is the full text of one of its prefixes: one
/// that fits the budget, unless it is the prefix without entries, and such
/// that no longer prefix fits.
pub proof fn lemma_serialized_text_is_longest_fitting_prefix(entries: Seq<LogEntry>, max: nat)
    ensures
        exists|count: nat|
            {
                &&& count <= entries.len()
                &&& serialized_text(entries, max) == #[trigger] full_text(
                    entries.take(count as int),
                )
                &&& count > 0 ==> byte_len(full_text(entries.take(count as int))) <= max
                &&& forall|longer: nat|
                    count < longer <= entries.len() ==> byte_len(
                        #[trigger] full_text(entries.take(longer as int)),
                    ) > max
            },
{
    let total = entries.len();
    if all_encodable(entries) {
        let texts = entry_texts(entries);
        let count = largest_fitting_prefix(texts, max, total);
        lemma_largest_fitting_prefix(texts, max, total);
        lemma_entry_texts_of_prefix(entries, count);
        assert forall|longer: nat| count < longer <= total implies byte_len(
            #[trigger] full_text(entries.take(longer as int)),
        ) > max by {
            lemma_entry_texts_of_prefix(entries, longer);
            assert(!fits(texts, longer, max));
        }
        if count > 0 {
            assert(fits(texts, count, max));
        }
        assert(serialized_text(entries, max) == full_text(entries.take(count as int)));
    } else {
        assert(entries.take(total as int) =~= entries);
        assert(vstd::utf8::encode_utf8(Seq::<char>::empty()).len() == 0);
        assert(serialized_text(entries, max) == full_text(entries.take(total as int)));
    }
}

/// The entries that `exported` becomes once each is tagged with `priority`.
pub open spec fn tagged_all(exported: Seq<RawEntry>, priority: Priority) -> Seq<LogEntry> {
    Seq::new(exported.len(), |i: int| LogEntry::tagged(exported[i], priority))
}

impl Log {
    /// Appends what a tier has exported: each entry tagged with `priority`,
    /// in the order of the export. Nothing is dropped or reordered.
    pub fn push_entries(&mut self, priority: Priority, exported: Vec<RawEntry>)
        ensures
            final(self)@ == old(self)@ + tagged_all(exported@, priority),
    {
        let ghost before = self@;
        let ghost raw = exported@;
        for entry in it: exported
            invariant
                it.seq() == raw,
                self@ == before + tagged_all(raw.take(it.index() as int), priority),
        {
            self.entries.push(LogEntry::from_raw(entry, priority));
            assert(self@ =~= before + tagged_all(raw.take(it.index() + 1), priority));
        }
        assert(raw.take(raw.len() as int) =~= raw);
    }

    /// Exports the tier `priority` of `store` and appends its entries, each
    /// tagged with `priority`, in the order of the export.
    pub fn push_logs(&mut self, priority: Priority, store: &BufferStore)
        ensures
            final(self)@ == old(self)@ + tagged_all(store.exported(priority), priority),
    {
        let exported = store.export(priority);
        self.push_entries(priority, exported);
    }

    /// Appends the entries of all three tiers: those of `Info` first, then
    /// those of `Debug`, then those of `Error`.
    pub fn push_all(&mut self, store: &BufferStore)
        ensures
            final(self)@ == old(self)@ + tagged_all(store.exported(Priority::Info), Priority::Info)
                + tagged_all(store.exported(Priority::Debug), Priority::Debug) + tagged_all(
                store.exported(Priority::Error),
                Priority::Error,
            ),
    {
        self.push_logs(Priority::Info, store);
        self.push_logs(Priority::Debug, store);
        self.push_logs(Priority::Error, store);
    }

    /// Sorts the entries by timestamp in the direction `sort_order`. Entries
    /// with the same timestamp keep the order they had.
    pub fn sort_logs(&mut self, sort_order: Sort)
        ensures
            is_stable_sort_of(final(self)@, old(self)@, sort_order),
            final(self)@.to_multiset() == old(self)@.to_multiset(),
            final(self)@.len() == old(self)@.len(),
    {
        match sort_order {
            Sort::Ascending => self.sort_asc(),
            Sort::Descending => self.sort_desc(),
        }
    }

    /// Sorts the entries by timestamp, the smallest first. Entries with the
    /// same timestamp keep the order they had.
    pub fn sort_asc(&mut self)
        ensures
            is_stable_sort_of(final(self)@, old(self)@, Sort::Ascending),
            final(self)@.to_multiset() == old(self)@.to_multiset(),
            final(self)@.len() == old(self)@.len(),
    {
        self.sort_in(Sort::Ascending);
    }

    /// Sorts the entries by timestamp, the largest first. Entries with the
    /// same timestamp keep the order they had.
    pub fn sort_desc(&mut self)
        ensures
            is_stable_sort_of(final(self)@, old(self)@, Sort::Descending),
            final(self)@.to_multiset() == old(self)@.to_multiset(),
            final(self)@.len() == old(self)@.len(),
    {
        self.sort_in(Sort::Descending);
    }

    fn sort_in(&mut self, order: Sort)
        ensures
            is_stable_sort_of(final(self)@, old(self)@, order),
            final(self)@.to_multiset() == old(self)@.to_multiset(),
            final(self)@.len() == old(self)@.len(),
    {
        let mut entries: Vec<LogEntry> = Vec::new();
        core::mem::swap(&mut self.entries, &mut entries);
        self.entries = sort_entries(entries, order);
    }

    /// Writes each entry as an object, or returns `None` where one of them
    /// cannot be written.
    pub fn encode_entries(&self) -> (out: Option<Vec<String>>)
        ensures
            out matches Some(objects) ==> all_encodable(self@) && objects.deep_view()
                == entry_texts(self@),
            out is None ==> !all_encodable(self@),
    {
        let mut objects: Vec<String> = Vec::new();
        let mut i: usize = 0;
        while i < self.entries.len()
            invariant
                i <= self.entries.len(),
                objects.len() == i,
                forall|k: int|
                    0 <= k < i ==> entry_text(self.entries@[k]) == Some(#[trigger] objects@[k]@),
            decreases self.entries.len() - i,
        {
            match encode_entry(&self.entries[i]) {
                Some(object) => {
                    objects.push(object);
                },
                None => {
                    assert(entry_text(self@[i as int]) is None);
                    return None;
                },
            }
            i += 1;
        }
        proof {
            assert forall|k: int| 0 <= k < self@.len() implies (#[trigger] entry_text(
                self@[k],
            )) is Some by {
                assert(entry_text(self.entries@[k]) == Some(objects@[k]@));
            }
            assert(objects.deep_view() =~= entry_texts(self@));
        }
        Some(objects)
    }

    /// Serializes the log into a JSON document of at most `max_body_size`
    /// bytes, leaving out entries from the end as far as the budget demands.
    ///
    /// The result is the whole document where it fits. A budget below the
    /// size of the document without entries yields that document all the
    /// same. Where an entry cannot be written at all, the result is empty.
    pub fn serialize_logs(&self, max_body_size: usize) -> (out: String)
        ensures
            out@ == serialized_text(self@, max_body_size as nat),
            byte_len(full_text(self@)) <= max_body_size ==> out@ == full_text(self@),
            byte_len(document(Seq::empty())) <= max_body_size ==> byte_len(out@)
                <= max_body_size,
    {
        match self.encode_entries() {
            Some(objects) => bounded_document(&objects, max_body_size),
            None => {
                let out = String::new();
                assert(vstd::utf8::encode_utf8(out@).len() == 0);
                out
            },
        }
    }
}

} // verus!
