use vstd::prelude::*;

verus! {

use crate::error::Error;

/// A language of the external registry: unique short code plus display names.
#[derive(Debug)]
pub struct Lang {
    pub short: String,
    pub long_english: String,
    pub long_native: String,
}

impl Clone for Lang {
    fn clone(&self) -> (r: Self)
        ensures
            r == *self,
    {
        Lang {
            short: self.short.clone(),
            long_english: self.long_english.clone(),
            long_native: self.long_native.clone(),
        }
    }
}

/// A row of the language registry dataset.
#[derive(Debug)]
pub struct LangRow {
    pub langs_rowid: i32,
    pub short: String,
    pub long: String,
}

impl Clone for LangRow {
    fn clone(&self) -> (r: Self)
        ensures
            r == *self,
    {
        LangRow { langs_rowid: self.langs_rowid, short: self.short.clone(), long: self.long.clone() }
    }
}

/// Whether some row carries the given short code.
pub open spec fn lang_short_present(rows: Seq<LangRow>, short: Seq<char>) -> bool {
    exists|j: int| 0 <= j < rows.len() && rows[j].short@ == short
}

/// Index of the first row carrying the given short code, or -1.
pub open spec fn lang_index(rows: Seq<LangRow>, short: Seq<char>) -> int
    decreases rows.len(),
{
    if rows.len() == 0 {
        -1
    } else if rows[0].short@ == short {
        0
    } else {
        let r = lang_index(rows.drop_first(), short);
        if r < 0 {
            -1
        } else {
            r + 1
        }
    }
}

proof fn lemma_lang_index(rows: Seq<LangRow>, short: Seq<char>)
    ensures
        lang_index(rows, short) >= 0 <==> lang_short_present(rows, short),
        lang_index(rows, short) >= 0 ==> lang_index(rows, short) < rows.len() && rows[lang_index(
            rows,
            short,
        )].short@ == short,
    decreases rows.len(),
{
    if rows.len() > 0 {
        lemma_lang_index(rows.drop_first(), short);
        if lang_short_present(rows, short) && rows[0].short@ != short {
            let j = choose|j: int| 0 <= j < rows.len() && rows[j].short@ == short;
            assert(rows.drop_first()[j - 1].short@ == short);
        }
    }
}

/// Inserting one language with ignore-on-conflict semantics: a short code
/// already present leaves the registry unchanged, a new one is appended with
/// the next sequential row id.
pub open spec fn langs_insert(rows: Seq<LangRow>, lang: Lang) -> Seq<LangRow> {
    if lang_short_present(rows, lang.short@) {
        rows
    } else {
        rows.push(
            LangRow {
                langs_rowid: (rows.len() + 1) as i32,
                short: lang.short,
                long: lang.long_native,
            },
        )
    }
}

/// Inserting the languages from position `i` on, in order.
pub open spec fn langs_populate_from(rows: Seq<LangRow>, langs: Seq<Lang>, i: int) -> Seq<LangRow>
    decreases langs.len() - i,
{
    if i < 0 || i >= langs.len() {
        rows
    } else {
        langs_populate_from(langs_insert(rows, langs[i]), langs, i + 1)
    }
}

/// Well-formedness of the registry: row ids are the sequential positions and
/// short codes are unique.
pub open spec fn langs_wf(rows: Seq<LangRow>) -> bool {
    &&& rows.len() < 0x7fff_ffff
    &&& forall|i: int| 0 <= i < rows.len() ==> #[trigger] rows[i].langs_rowid == i + 1
    &&& forall|i: int, j: int|
        0 <= i < j < rows.len() ==> #[trigger] rows[i].short@ != #[trigger] rows[j].short@
}

/// The language registry dataset. The registry content is injected by the
/// caller; nothing is compiled in.
pub struct LangsDb {
    rows: Vec<LangRow>,
}

impl LangsDb {
    /// The rows of the registry, in storage order.
    pub closed spec fn langs(&self) -> Seq<LangRow> {
        self.rows@
    }

    pub open spec fn wf(&self) -> bool {
        langs_wf(self.langs())
    }

    /// An empty registry.
    pub fn new() -> (r: LangsDb)
        ensures
            r.langs() == Seq::<LangRow>::empty(),
            r.wf(),
    {
        LangsDb { rows: Vec::new() }
    }

    /// Inserts every given language, ignoring short codes already present,
    /// assigning sequential row ids to the new ones.
    pub fn populate(&mut self, langs: &Vec<Lang>) -> (r: Result<(), Error>)
        requires
            old(self).wf(),
            old(self).langs().len() + langs@.len() < 0x7fff_ffff,
        ensures
            final(self).wf(),
            r is Ok,
            final(self).langs() == langs_populate_from(old(self).langs(), langs@, 0),
    {
        let ghost orig = self.rows@;
        let n = langs.len();
        let mut li: usize = 0;
        while li < n
            invariant
                n == langs@.len(),
                0 <= li <= n,
                langs_wf(self.rows@),
                self.rows@.len() <= orig.len() + li,
                orig.len() + n < 0x7fff_ffff,
                langs_populate_from(orig, langs@, 0) == langs_populate_from(
                    self.rows@,
                    langs@,
                    li as int,
                ),
            decreases n - li,
        {
            let lang = &langs[li];
            let mut found = false;
            let mut j: usize = 0;
            let rlen = self.rows.len();
            while j < rlen
                invariant
                    rlen == self.rows@.len(),
                    0 <= j <= rlen,
                    found ==> lang_short_present(self.rows@, lang.short@),
                    !found ==> forall|k: int| 0 <= k < j ==> self.rows@[k].short@ != lang.short@,
                decreases rlen - j,
            {
                if !found && self.rows[j].short == lang.short {
                    found = true;
                }
                j = j + 1;
            }
            if !found {
                assert(!lang_short_present(self.rows@, lang.short@));
                let id = (self.rows.len() + 1) as i32;
                let row = LangRow {
                    langs_rowid: id,
                    short: lang.short.clone(),
                    long: lang.long_native.clone(),
                };
                let ghost before = self.rows@;
                self.rows.push(row);
                proof {
                    assert(self.rows@ =~= langs_insert(before, *lang));
                }
            } else {
                assert(self.rows@ == langs_insert(self.rows@, *lang));
            }
            li = li + 1;
        }
        Ok(())
    }

    /// Populates the registry only when it is still empty; a nonempty
    /// registry is left exactly as it is.
    pub fn create_and_populate_if_missing(&mut self, langs: &Vec<Lang>) -> (r: Result<(), Error>)
        requires
            old(self).wf(),
            old(self).langs().len() == 0 ==> langs@.len() < 0x7fff_ffff,
        ensures
            final(self).wf(),
            r is Ok,
            old(self).langs().len() > 0 ==> final(self).langs() == old(self).langs(),
            old(self).langs().len() == 0 ==> final(self).langs() == langs_populate_from(
                Seq::<LangRow>::empty(),
                langs@,
                0,
            ),
    {
        if self.rows.len() == 0 {
            proof {
                assert(self.langs() =~= Seq::<LangRow>::empty());
            }
            self.populate(langs)
        } else {
            Ok(())
        }
    }

    /// Looks a language up by its short code; `NotFound` exactly when no row
    /// carries it.
    pub fn query_lang_row(&self, lang_short: &str) -> (r: Result<LangRow, Error>)
        ensures
            r is Ok <==> lang_short_present(self.langs(), lang_short@),
            r matches Ok(row) ==> lang_index(self.langs(), lang_short@) >= 0 && row == self.langs()[
                lang_index(self.langs(), lang_short@)
            ],
            r matches Err(e) ==> e is NotFound,
    {
        proof {
            lemma_lang_index(self.langs(), lang_short@);
        }
        let needle = lang_short.to_owned();
        let n = self.rows.len();
        let mut j: usize = 0;
        while j < n
            invariant
                needle@ == lang_short@,
                n == self.rows@.len(),
                0 <= j <= n,
                forall|k: int| 0 <= k < j ==> self.rows@[k].short@ != lang_short@,
            decreases n - j,
        {
            if self.rows[j].short == needle {
                proof {
                    lemma_lang_index_first(self.langs(), lang_short@, j as int);
                }
                return Ok(self.rows[j].clone());
            }
            j = j + 1;
        }
        Err(Error::NotFound)
    }
}

proof fn lemma_lang_index_first(rows: Seq<LangRow>, short: Seq<char>, j: int)
    requires
        0 <= j < rows.len(),
        rows[j].short@ == short,
        forall|k: int| 0 <= k < j ==> rows[k].short@ != short,
    ensures
        lang_index(rows, short) == j,
    decreases rows.len(),
{
    if j > 0 {
        assert(forall|k: int|
            0 <= k < j - 1 ==> rows.drop_first()[k].short@ == rows[k + 1].short@);
        lemma_lang_index_first(rows.drop_first(), short, j - 1);
    }
}

} // verus!
