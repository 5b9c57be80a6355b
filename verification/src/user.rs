use vstd::prelude::*;

verus! {

use crate::error::Error;

/// A known-word fact as the queries hand it out.
#[derive(Debug, Clone, Copy, PartialEq, Eq, Structural)]
pub struct KnownWordRow {
    pub known_words_rowid: i32,
    pub word_rowid: i32,
}

/// A stored entry of the ledger: which word of which language the user knows.
#[derive(Debug, Clone, Copy, PartialEq, Eq, Structural)]
pub struct KnownWordEntry {
    pub known_words_rowid: i32,
    pub lang_rowid: i32,
    pub word_rowid: i32,
}

/// Whether the ledger holds the pair `(lang, word)`.
pub open spec fn known_pair_at(entries: Seq<KnownWordEntry>, lang: i32, word: i32) -> bool {
    exists|j: int|
        0 <= j < entries.len() && entries[j].lang_rowid == lang && entries[j].word_rowid == word
}

/// Whether the ledger holds the pair `(lang, word)`, over mathematical
/// integers.
pub open spec fn known_pair_int(entries: Seq<KnownWordEntry>, lang: int, word: int) -> bool {
    exists|j: int|
        0 <= j < entries.len() && entries[j].lang_rowid as int == lang && entries[j].word_rowid
            as int == word
}

/// The two readings of membership agree on machine integers.
pub proof fn lemma_known_pair_int(entries: Seq<KnownWordEntry>, lang: i32, word: i32)
    ensures
        known_pair_at(entries, lang, word) == known_pair_int(entries, lang as int, word as int),
{
    if known_pair_at(entries, lang, word) {
        let j = choose|j: int|
            0 <= j < entries.len() && entries[j].lang_rowid == lang && entries[j].word_rowid
                == word;
        assert(entries[j].lang_rowid as int == lang as int);
    }
    if known_pair_int(entries, lang as int, word as int) {
        let j = choose|j: int|
            0 <= j < entries.len() && entries[j].lang_rowid as int == lang as int
                && entries[j].word_rowid as int == word as int;
        assert(entries[j].lang_rowid == lang);
    }
}

/// The set of `(language, word)` pairs the ledger holds.
pub open spec fn known_pairs(entries: Seq<KnownWordEntry>) -> Set<(i32, i32)> {
    Set::new(|p: (i32, i32)| known_pair_at(entries, p.0, p.1))
}

/// Index of the first entry for `(lang, word)`, or -1.
pub open spec fn entry_index(entries: Seq<KnownWordEntry>, lang: i32, word: i32) -> int
    decreases entries.len(),
{
    if entries.len() == 0 {
        -1
    } else if entries[0].lang_rowid == lang && entries[0].word_rowid == word {
        0
    } else {
        let r = entry_index(entries.drop_first(), lang, word);
        if r < 0 {
            -1
        } else {
            r + 1
        }
    }
}

pub proof fn lemma_entry_index(entries: Seq<KnownWordEntry>, lang: i32, word: i32)
    ensures
        entry_index(entries, lang, word) >= 0 <==> known_pair_at(entries, lang, word),
        entry_index(entries, lang, word) >= 0 ==> entry_index(entries, lang, word) < entries.len()
            && entries[entry_index(entries, lang, word)].lang_rowid == lang && entries[entry_index(
            entries,
            lang,
            word,
        )].word_rowid == word,
    decreases entries.len(),
{
    if entries.len() > 0 {
        lemma_entry_index(entries.drop_first(), lang, word);
        if known_pair_at(entries, lang, word) && !(entries[0].lang_rowid == lang
            && entries[0].word_rowid == word) {
            let j = choose|j: int|
                0 <= j < entries.len() && entries[j].lang_rowid == lang && entries[j].word_rowid
                    == word;
            assert(entries.drop_first()[j - 1].lang_rowid == lang);
        }
    }
}

proof fn lemma_entry_index_first(entries: Seq<KnownWordEntry>, lang: i32, word: i32, j: int)
    requires
        0 <= j < entries.len(),
        entries[j].lang_rowid == lang && entries[j].word_rowid == word,
        forall|k: int|
            0 <= k < j ==> !(entries[k].lang_rowid == lang && entries[k].word_rowid == word),
    ensures
        entry_index(entries, lang, word) == j,
    decreases entries.len(),
{
    if j > 0 {
        lemma_entry_index_first(entries.drop_first(), lang, word, j - 1);
    }
}

/// Marking `(lang, word)` known: a no-op when the pair is already present,
/// otherwise an appended entry carrying the next row id.
pub open spec fn add_known(
    entries: Seq<KnownWordEntry>,
    next: int,
    lang: i32,
    word: i32,
) -> (Seq<KnownWordEntry>, int) {
    if known_pair_at(entries, lang, word) {
        (entries, next)
    } else {
        (
            entries.push(
                KnownWordEntry { known_words_rowid: next as i32, lang_rowid: lang, word_rowid: word },
            ),
            next + 1,
        )
    }
}

/// Marking `(lang, word)` unknown: removes the entry holding the pair, a
/// no-op when none does.
pub open spec fn remove_known(
    entries: Seq<KnownWordEntry>,
    lang: i32,
    word: i32,
) -> Seq<KnownWordEntry> {
    let j = entry_index(entries, lang, word);
    if j < 0 {
        entries
    } else {
        entries.remove(j)
    }
}

/// Well-formedness of the ledger: pairs unique, row ids unique and below the
/// next free one.
pub open spec fn ledger_wf(entries: Seq<KnownWordEntry>, next: int) -> bool {
    &&& 1 <= next <= 0x7fff_ffff
    &&& forall|i: int|
        0 <= i < entries.len() ==> 1 <= #[trigger] entries[i].known_words_rowid < next
    &&& forall|i: int, j: int|
        0 <= i < j < entries.len() ==> !(#[trigger] entries[i].lang_rowid
            == #[trigger] entries[j].lang_rowid && entries[i].word_rowid == entries[j].word_rowid)
    &&& forall|i: int, j: int|
        0 <= i < j < entries.len() ==> #[trigger] entries[i].known_words_rowid
            != #[trigger] entries[j].known_words_rowid
}

/// The per-user known-word ledger, scoped by target language.
pub struct UserDb {
    entries: Vec<KnownWordEntry>,
    next_rowid: i32,
}

impl UserDb {
    /// The ledger entries, in storage order.
    pub closed spec fn entries(&self) -> Seq<KnownWordEntry> {
        self.entries@
    }

    /// The next row id a fresh entry would get.
    pub closed spec fn next_id(&self) -> int {
        self.next_rowid as int
    }

    pub open spec fn wf(&self) -> bool {
        ledger_wf(self.entries(), self.next_id())
    }

    /// An empty ledger.
    pub fn new() -> (r: UserDb)
        ensures
            r.entries() == Seq::<KnownWordEntry>::empty(),
            r.next_id() == 1,
            r.wf(),
    {
        UserDb { entries: Vec::new(), next_rowid: 1 }
    }

    /// Number of ledger entries.
    pub fn num_entries(&self) -> (n: usize)
        ensures
            n == self.entries().len(),
    {
        self.entries.len()
    }

    /// The ledger entry at a storage position.
    pub fn entry_at(&self, i: usize) -> (e: KnownWordEntry)
        requires
            i < self.entries().len(),
        ensures
            e == self.entries()[i as int],
    {
        self.entries[i]
    }

    /// Whether the user knows `(lang, word)`.
    pub fn is_known(&self, lang_rowid: i32, word_rowid: i32) -> (r: bool)
        ensures
            r == known_pair_at(self.entries(), lang_rowid, word_rowid),
    {
        let n = self.entries.len();
        let mut j: usize = 0;
        while j < n
            invariant
                n == self.entries@.len(),
                0 <= j <= n,
                forall|k: int|
                    0 <= k < j ==> !(self.entries@[k].lang_rowid == lang_rowid
                        && self.entries@[k].word_rowid == word_rowid),
            decreases n - j,
        {
            let e = self.entries[j];
            if e.lang_rowid == lang_rowid && e.word_rowid == word_rowid {
                return true;
            }
            j = j + 1;
        }
        false
    }

    /// Marks `(lang, word)` known. Idempotent: a pair already present leaves
    /// the ledger exactly as it was, with no error. Fails only when the row-id
    /// space is exhausted, leaving the ledger unchanged.
    pub fn add(&mut self, lang_rowid: i32, word_rowid: i32) -> (r: Result<(), Error>)
        requires
            old(self).wf(),
        ensures
            final(self).wf(),
            r is Ok <==> (known_pair_at(old(self).entries(), lang_rowid, word_rowid) || old(
                self,
            ).next_id() < 0x7fff_ffff),
            r is Ok ==> (final(self).entries(), final(self).next_id()) == add_known(
                old(self).entries(),
                old(self).next_id(),
                lang_rowid,
                word_rowid,
            ),
            r matches Err(e) ==> e is StorageFailure && final(self).entries() == old(
                self,
            ).entries() && final(self).next_id() == old(self).next_id(),
    {
        if self.is_known(lang_rowid, word_rowid) {
            return Ok(());
        }
        if self.next_rowid == 0x7fff_ffff {
            return Err(Error::StorageFailure);
        }
        let entry = KnownWordEntry {
            known_words_rowid: self.next_rowid,
            lang_rowid,
            word_rowid,
        };
        self.entries.push(entry);
        self.next_rowid = self.next_rowid + 1;
        Ok(())
    }

    /// Marks `(lang, word)` unknown. Idempotent: an absent pair leaves the
    /// ledger exactly as it was, with no error.
    pub fn remove(&mut self, lang_rowid: i32, word_rowid: i32) -> (r: Result<(), Error>)
        requires
            old(self).wf(),
        ensures
            final(self).wf(),
            r is Ok,
            final(self).entries() == remove_known(old(self).entries(), lang_rowid, word_rowid),
            final(self).next_id() == old(self).next_id(),
    {
        let n = self.entries.len();
        let mut j: usize = 0;
        let mut found = false;
        while j < n && !found
            invariant
                self.entries@ == old(self).entries(),
                self.next_rowid as int == old(self).next_id(),
                n == self.entries@.len(),
                0 <= j <= n,
                !found ==> forall|k: int|
                    0 <= k < j ==> !(self.entries@[k].lang_rowid == lang_rowid
                        && self.entries@[k].word_rowid == word_rowid),
                found ==> j < n && self.entries@[j as int].lang_rowid == lang_rowid
                    && self.entries@[j as int].word_rowid == word_rowid && forall|k: int|
                    0 <= k < j ==> !(self.entries@[k].lang_rowid == lang_rowid
                        && self.entries@[k].word_rowid == word_rowid),
            decreases n - j, (if found { 0int } else { 1int }),
        {
            let e = self.entries[j];
            if e.lang_rowid == lang_rowid && e.word_rowid == word_rowid {
                found = true;
            } else {
                j = j + 1;
            }
        }
        if !found {
            proof {
                lemma_entry_index(self.entries@, lang_rowid, word_rowid);
            }
            return Ok(());
        }
        proof {
            lemma_entry_index_first(self.entries@, lang_rowid, word_rowid, j as int);
        }
        let ghost before = self.entries@;
        self.entries.remove(j);
        proof {
            let after = self.entries@;
            assert(after == before.remove(j as int));
            assert forall|a: int| 0 <= a < after.len() implies (#[trigger] after[a]) == (if a
                < j as int {
                before[a]
            } else {
                before[a + 1]
            }) by {}
        }
        Ok(())
    }
}

} // verus!
