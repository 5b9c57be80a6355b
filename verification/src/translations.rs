use vstd::prelude::*;

verus! {

use crate::error::Error;
use crate::text::{int_literal_val, parses_to_i32, tsv_fields};
use crate::corpus::lines_view;

/// A cross-language sentence alignment: target sentence to reference sentence.
#[derive(Debug, Clone, Copy, PartialEq, Eq, Structural)]
pub struct TranslationRow {
    pub translations_rowid: i32,
    pub target_lang_sentence_rowid: i32,
    pub reference_lang_sentence_rowid: i32,
}

/// Whether the alignment `(target, reference)` is already stored.
pub open spec fn pair_present(rows: Seq<TranslationRow>, target: i32, reference: i32) -> bool {
    exists|j: int|
        0 <= j < rows.len() && rows[j].target_lang_sentence_rowid == target
            && rows[j].reference_lang_sentence_rowid == reference
}

/// Inserting one alignment with ignore-on-conflict semantics; `None` when
/// the row-id space is exhausted.
pub open spec fn trans_insert(rows: Seq<TranslationRow>, target: i32, reference: i32) -> Option<
    Seq<TranslationRow>,
> {
    if pair_present(rows, target, reference) {
        Some(rows)
    } else if rows.len() + 1 > 0x7fff_ffff {
        None
    } else {
        Some(
            rows.push(
                TranslationRow {
                    translations_rowid: (rows.len() + 1) as i32,
                    target_lang_sentence_rowid: target,
                    reference_lang_sentence_rowid: reference,
                },
            ),
        )
    }
}

/// The alignment pair a well-formed link line describes: exactly two
/// tab-separated fields, each an integer sentence row id. `None` for a
/// malformed line.
pub open spec fn link_pair(line: Seq<char>) -> Option<(i32, i32)> {
    let fs = tsv_fields(line);
    if fs.len() == 2 && parses_to_i32(fs[0]) && parses_to_i32(fs[1]) {
        Some((int_literal_val(fs[0]) as i32, int_literal_val(fs[1]) as i32))
    } else {
        None
    }
}

/// Ingests the link lines from position `i` on: malformed lines are skipped,
/// well-formed pairs inserted ignoring duplicates, in order.
pub open spec fn ingest_links(rows: Seq<TranslationRow>, lines: Seq<Seq<char>>, i: int) -> Option<
    Seq<TranslationRow>,
>
    decreases lines.len() - i,
{
    if i < 0 || i >= lines.len() {
        Some(rows)
    } else {
        match link_pair(lines[i]) {
            None => ingest_links(rows, lines, i + 1),
            Some(p) => match trans_insert(rows, p.0, p.1) {
                Some(rows2) => ingest_links(rows2, lines, i + 1),
                None => None,
            },
        }
    }
}

/// Well-formedness of the alignment dataset: sequential row ids, unique pairs.
pub open spec fn trans_wf(rows: Seq<TranslationRow>) -> bool {
    &&& rows.len() <= 0x7fff_ffff
    &&& forall|i: int| 0 <= i < rows.len() ==> (#[trigger] rows[i]).translations_rowid == i + 1
    &&& forall|i: int, j: int|
        0 <= i < j < rows.len() ==> !((#[trigger] rows[i]).target_lang_sentence_rowid == (
        #[trigger] rows[j]).target_lang_sentence_rowid && rows[i].reference_lang_sentence_rowid
            == rows[j].reference_lang_sentence_rowid)
}

/// Parses one alignment line: exactly two tab-separated integer sentence row
/// ids. `Malformed` exactly on every other line.
pub fn parse_link_line(line: &str) -> (r: Result<(i32, i32), Error>)
    ensures
        r is Ok <==> link_pair(line@) is Some,
        r matches Ok(p) ==> link_pair(line@) == Some(p),
        r matches Err(e) ==> e is Malformed,
{
    let fields = crate::text::split_tabs(line);
    proof {
        assert(fields@.len() == fields@.map_values(|f: String| f@).len());
    }
    if fields.len() != 2 {
        return Err(Error::Malformed(String::from_str("expected two tab-separated fields")));
    }
    let target = match crate::text::parse_i32(fields[0].as_str()) {
        Ok(v) => v,
        Err(e) => {
            return Err(e);
        },
    };
    let reference = match crate::text::parse_i32(fields[1].as_str()) {
        Ok(v) => v,
        Err(e) => {
            return Err(e);
        },
    };
    Ok((target, reference))
}

/// The alignment dataset of one language pair.
pub struct TranslationsDb {
    target_lang_short: String,
    reference_lang_short: String,
    rows: Vec<TranslationRow>,
}

impl TranslationsDb {
    /// The stored alignments, in storage order.
    pub closed spec fn rows_view(&self) -> Seq<TranslationRow> {
        self.rows@
    }

    /// Short code of the target language of the pair.
    pub closed spec fn target_short(&self) -> Seq<char> {
        self.target_lang_short@
    }

    /// Short code of the reference language of the pair.
    pub closed spec fn reference_short(&self) -> Seq<char> {
        self.reference_lang_short@
    }

    pub open spec fn wf(&self) -> bool {
        trans_wf(self.rows_view())
    }

    /// An empty alignment dataset for the given language pair.
    pub fn open(target_lang_short: &str, reference_lang_short: &str) -> (r: TranslationsDb)
        ensures
            r.rows_view() == Seq::<TranslationRow>::empty(),
            r.target_short() == target_lang_short@,
            r.reference_short() == reference_lang_short@,
            r.wf(),
    {
        TranslationsDb {
            target_lang_short: target_lang_short.to_owned(),
            reference_lang_short: reference_lang_short.to_owned(),
            rows: Vec::new(),
        }
    }

    /// Number of stored alignments.
    pub fn num_rows(&self) -> (n: usize)
        ensures
            n == self.rows_view().len(),
    {
        self.rows.len()
    }

    /// The alignment at a storage position.
    pub fn row_at(&self, i: usize) -> (t: TranslationRow)
        requires
            i < self.rows_view().len(),
        ensures
            t == self.rows_view()[i as int],
    {
        self.rows[i]
    }

    /// Imports a batch of alignment lines, atomically: malformed lines are
    /// skipped, well-formed pairs inserted into the existing dataset ignoring
    /// duplicates, so a dataset grows across imports and re-importing the
    /// same lines changes nothing. When the row-id space runs out nothing of
    /// the batch is kept and `StorageFailure` comes back.
    pub fn populate(&mut self, lines: &Vec<String>) -> (r: Result<(), Error>)
        requires
            old(self).wf(),
        ensures
            final(self).wf(),
            final(self).target_short() == old(self).target_short(),
            final(self).reference_short() == old(self).reference_short(),
            (match ingest_links(old(self).rows_view(), lines_view(lines@), 0) {
                Some(rows) => r is Ok && final(self).rows_view() == rows,
                None => r matches Err(e) && e is StorageFailure && final(self).rows_view() == old(
                    self,
                ).rows_view(),
            }),
    {
        let ghost r0 = self.rows@;
        let ghost lines_v = lines_view(lines@);
        let mut rows: Vec<TranslationRow> = Vec::new();
        let stored = self.rows.len();
        let mut ci: usize = 0;
        while ci < stored
            invariant
                stored == self.rows@.len(),
                0 <= ci <= stored,
                *self == *old(self),
                rows@ == self.rows@.take(ci as int),
            decreases stored - ci,
        {
            let row = self.rows[ci];
            rows.push(row);
            proof {
                assert(rows@ =~= self.rows@.take(ci + 1));
            }
            ci = ci + 1;
        }
        proof {
            assert(self.rows@.take(stored as int) =~= r0);
        }
        let n = lines.len();
        let mut li: usize = 0;
        while li < n
            invariant
                n == lines@.len(),
                0 <= li <= n,
                lines_v == lines_view(lines@),
                r0 == old(self).rows_view(),
                *self == *old(self),
                old(self).wf(),
                trans_wf(rows@),
                ingest_links(r0, lines_v, 0) == ingest_links(rows@, lines_v, li as int),
            decreases n - li,
        {
            let line = &lines[li];
            proof {
                assert(lines_v[li as int] == lines@[li as int]@);
            }
            match parse_link_line(line.as_str()) {
                Err(_) => {},
                Ok((target, reference)) => {
                    let ghost before = rows@;
                    let mut found = false;
                    let mut j: usize = 0;
                    let rn = rows.len();
                    while j < rn
                        invariant
                            rn == rows@.len(),
                            0 <= j <= rn,
                            found ==> pair_present(rows@, target, reference),
                            !found ==> forall|k: int|
                                0 <= k < j ==> !(rows@[k].target_lang_sentence_rowid == target
                                    && rows@[k].reference_lang_sentence_rowid == reference),
                        decreases rn - j,
                    {
                        let t = rows[j];
                        if t.target_lang_sentence_rowid == target
                            && t.reference_lang_sentence_rowid == reference {
                            found = true;
                        }
                        j = j + 1;
                    }
                    if !found {
                        assert(!pair_present(before, target, reference));
                        if rows.len() >= 0x7fff_ffff {
                            proof {
                                assert(trans_insert(before, target, reference) is None);
                                assert(ingest_links(r0, lines_v, 0) is None);
                            }
                            return Err(Error::StorageFailure);
                        }
                        let row = TranslationRow {
                            translations_rowid: (rows.len() + 1) as i32,
                            target_lang_sentence_rowid: target,
                            reference_lang_sentence_rowid: reference,
                        };
                        rows.push(row);
                        proof {
                            assert(trans_insert(before, target, reference) == Some(rows@));
                            assert forall|a: int, b: int| 0 <= a < b < rows@.len() implies !((
                            #[trigger] rows@[a]).target_lang_sentence_rowid == (
                            #[trigger] rows@[b]).target_lang_sentence_rowid
                                && rows@[a].reference_lang_sentence_rowid
                                == rows@[b].reference_lang_sentence_rowid) by {
                                if b < before.len() {
                                    assert(!(before[a].target_lang_sentence_rowid
                                        == before[b].target_lang_sentence_rowid
                                        && before[a].reference_lang_sentence_rowid
                                        == before[b].reference_lang_sentence_rowid));
                                } else {
                                    assert(!(before[a].target_lang_sentence_rowid == target
                                        && before[a].reference_lang_sentence_rowid == reference));
                                }
                            }
                            assert forall|i: int| 0 <= i < rows@.len() implies (
                            #[trigger] rows@[i]).translations_rowid == i + 1 by {
                                if i < before.len() {
                                    assert(before[i].translations_rowid == i + 1);
                                }
                            }
                        }
                    } else {
                        proof {
                            assert(trans_insert(before, target, reference) == Some(before));
                        }
                    }
                },
            }
            li = li + 1;
        }
        self.rows = rows;
        Ok(())
    }
}

} // verus!
