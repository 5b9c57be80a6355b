use vstd::prelude::*;

verus! {

use crate::corpus::{
    corpus_wf, ingest_lines, ingest_sentence, ingest_tokens, line_sentence, mem_present,
    sent_present, CorpusV, MemV,
};
use crate::hub::{
    frontier_member, frontier_rows, has_translation, in_frontier, min_unknown_freq, sorted_asc,
    sorted_desc, unknown_mems_of, unknown_word_count,
};
use crate::translations::TranslationRow;
use crate::user::{
    add_known, entry_index, known_pair_at, known_pair_int, lemma_entry_index, remove_known,
    KnownWordEntry,
};

// ---------------------------------------------------------------------------
// The unknown-word count counts distinct words
// ---------------------------------------------------------------------------

/// The set of word ids of sentence `sid` that the ledger does not hold for
/// the corpus language.
pub open spec fn unknown_word_set(c: CorpusV, known: Seq<KnownWordEntry>, sid: int) -> Set<int> {
    Set::new(|w: int| mem_present(c.mems, sid, w) && !known_pair_int(known, c.lang, w))
}

/// The word ids of a membership list.
pub open spec fn words_of(ms: Seq<MemV>) -> Seq<int> {
    ms.map_values(|m: MemV| m.word)
}

proof fn lemma_unknown_words_unique(mems: Seq<MemV>, lang: int, known: Seq<KnownWordEntry>, sid: int)
    requires
        forall|i: int, j: int|
            0 <= i < j < mems.len() ==> !((#[trigger] mems[i]).sentence == (
            #[trigger] mems[j]).sentence && mems[i].word == mems[j].word),
    ensures
        words_of(unknown_mems_of(mems, lang, known, sid)).no_duplicates(),
    decreases mems.len(),
{
    broadcast use Seq::lemma_filter_push;
    broadcast use Seq::lemma_filter_contains_rev;

    let pred = |m: MemV| m.sentence == sid && !known_pair_int(known, lang, m.word);
    if mems.len() == 0 {
        assert(mems.filter(pred) =~= Seq::<MemV>::empty());
        assert(words_of(unknown_mems_of(mems, lang, known, sid)) =~= Seq::<int>::empty());
    } else {
        let dl = mems.drop_last();
        let last = mems.last();
        assert(forall|i: int, j: int|
            0 <= i < j < dl.len() ==> !((#[trigger] dl[i]).sentence == (#[trigger] dl[j]).sentence
                && dl[i].word == dl[j].word));
        lemma_unknown_words_unique(dl, lang, known, sid);
        assert(mems =~= dl.push(last));
        let fdl = unknown_mems_of(dl, lang, known, sid);
        if pred(last) {
            assert(unknown_mems_of(mems, lang, known, sid) == fdl.push(last));
            assert(words_of(fdl.push(last)) =~= words_of(fdl).push(last.word));
            // the pushed word is fresh: an equal word in the filtered prefix
            // would be a second membership of the same (sentence, word) pair
            assert forall|k: int| 0 <= k < words_of(fdl).len() implies (#[trigger] words_of(
                fdl,
            )[k]) != last.word by {
                if words_of(fdl)[k] == last.word {
                    assert(pred(fdl[k]));
                    assert(fdl.contains(fdl[k]));
                    assert(dl.contains(fdl[k]));
                    let i = choose|i: int| 0 <= i < dl.len() && dl[i] == fdl[k];
                    assert(mems[i].sentence == sid && mems[i].word == last.word);
                    assert(mems[mems.len() - 1].sentence == sid);
                }
            }
            assert(words_of(fdl.push(last)).no_duplicates());
        } else {
            assert(unknown_mems_of(mems, lang, known, sid) == fdl);
        }
    }
}

/// The unknown-word count of a sentence equals the number of distinct word
/// ids of its memberships that the ledger does not hold: membership pairs are
/// unique, so counting memberships counts distinct words.
pub proof fn lemma_unknown_count_is_distinct_words(
    c: CorpusV,
    known: Seq<KnownWordEntry>,
    sid: int,
)
    requires
        corpus_wf(c),
    ensures
        unknown_word_set(c, known, sid).finite(),
        unknown_word_count(c, known, sid) == unknown_word_set(c, known, sid).len(),
{
    broadcast use Seq::lemma_filter_pred;
    broadcast use Seq::lemma_filter_contains;
    broadcast use Seq::lemma_filter_contains_rev;
    broadcast use vstd::set_lib::group_set_lib_default;
    broadcast use vstd::set::group_set_axioms;

    let pred = |m: MemV| m.sentence == sid && !known_pair_int(known, c.lang, m.word);
    let um = unknown_mems_of(c.mems, c.lang, known, sid);
    let ws = words_of(um);
    lemma_unknown_words_unique(c.mems, c.lang, known, sid);
    ws.unique_seq_to_set();
    assert(ws.to_set() =~= unknown_word_set(c, known, sid)) by {
        assert forall|w: int| ws.to_set().contains(w) implies unknown_word_set(
            c,
            known,
            sid,
        ).contains(w) by {
            let k = choose|k: int| 0 <= k < ws.len() && ws[k] == w;
            assert(pred(um[k]));
            assert(um.contains(um[k]));
            assert(c.mems.contains(um[k]));
            let i = choose|i: int| 0 <= i < c.mems.len() && c.mems[i] == um[k];
            assert(c.mems[i].sentence == sid && c.mems[i].word == w);
        }
        assert forall|w: int| unknown_word_set(c, known, sid).contains(w) implies ws.to_set()
            .contains(w) by {
            let i = choose|i: int|
                0 <= i < c.mems.len() && c.mems[i].sentence == sid && c.mems[i].word == w;
            assert(pred(c.mems[i]));
            assert(um.contains(c.mems[i]));
            let k = choose|k: int| 0 <= k < um.len() && um[k] == c.mems[i];
            assert(ws[k] == w);
        }
    }
}

// ---------------------------------------------------------------------------
// Ledger idempotence and round trip
// ---------------------------------------------------------------------------

/// Marking a word known twice leaves the ledger exactly as marking it once
/// does; after the first marking the pair is known, so the second call
/// succeeds without touching anything.
pub proof fn lemma_mark_known_idempotent(
    entries: Seq<KnownWordEntry>,
    next: int,
    lang: i32,
    word: i32,
)
    ensures
        add_known(add_known(entries, next, lang, word).0, add_known(entries, next, lang, word).1, lang, word)
            == add_known(entries, next, lang, word),
        known_pair_at(add_known(entries, next, lang, word).0, lang, word),
{
    let (e1, n1) = add_known(entries, next, lang, word);
    if !known_pair_at(entries, lang, word) {
        assert(e1[e1.len() - 1].lang_rowid == lang && e1[e1.len() - 1].word_rowid == word);
        assert(known_pair_at(e1, lang, word));
    }
}

/// Marking a word unknown twice leaves the ledger exactly as marking it
/// unknown once does, provided ledger pairs are unique (as the ledger
/// invariant guarantees).
pub proof fn lemma_mark_unknown_idempotent(entries: Seq<KnownWordEntry>, lang: i32, word: i32)
    requires
        forall|i: int, j: int|
            0 <= i < j < entries.len() ==> !((#[trigger] entries[i]).lang_rowid == (
            #[trigger] entries[j]).lang_rowid && entries[i].word_rowid == entries[j].word_rowid),
    ensures
        remove_known(remove_known(entries, lang, word), lang, word) == remove_known(
            entries,
            lang,
            word,
        ),
{
    lemma_entry_index(entries, lang, word);
    let j = entry_index(entries, lang, word);
    if j >= 0 {
        let e1 = entries.remove(j);
        assert forall|k: int| 0 <= k < e1.len() implies !((#[trigger] e1[k]).lang_rowid == lang
            && e1[k].word_rowid == word) by {
            if k < j {
                assert(e1[k] == entries[k]);
            } else {
                assert(e1[k] == entries[k + 1]);
            }
        }
        lemma_entry_index(e1, lang, word);
        assert(remove_known(e1, lang, word) == e1);
    }
}

/// Marking a word known and then immediately unknown restores the ledger
/// exactly, and with it the unknown-word count of every sentence, provided
/// the word was not already known before.
pub proof fn lemma_mark_round_trip(
    c: CorpusV,
    entries: Seq<KnownWordEntry>,
    next: int,
    lang: i32,
    word: i32,
)
    requires
        !known_pair_at(entries, lang, word),
    ensures
        remove_known(add_known(entries, next, lang, word).0, lang, word) == entries,
        forall|sid: int|
            unknown_word_count(
                c,
                remove_known(add_known(entries, next, lang, word).0, lang, word),
                sid,
            ) == unknown_word_count(c, entries, sid),
{
    let e1 = add_known(entries, next, lang, word).0;
    let added = KnownWordEntry {
        known_words_rowid: next as i32,
        lang_rowid: lang,
        word_rowid: word,
    };
    assert(e1 == entries.push(added));
    lemma_entry_index_of_pushed(entries, added, lang, word);
    assert(entry_index(e1, lang, word) == entries.len());
    assert(e1.remove(entries.len() as int) =~= entries);
}

proof fn lemma_entry_index_of_pushed(
    entries: Seq<KnownWordEntry>,
    added: KnownWordEntry,
    lang: i32,
    word: i32,
)
    requires
        !known_pair_at(entries, lang, word),
        added.lang_rowid == lang && added.word_rowid == word,
    ensures
        entry_index(entries.push(added), lang, word) == entries.len(),
    decreases entries.len(),
{
    let p = entries.push(added);
    if entries.len() == 0 {
        assert(p[0] == added);
    } else {
        assert(!(p[0].lang_rowid == lang && p[0].word_rowid == word));
        assert(p.drop_first() =~= entries.drop_first().push(added));
        assert forall|j: int| 0 <= j < entries.drop_first().len() implies !((
        #[trigger] entries.drop_first()[j]).lang_rowid == lang && entries.drop_first()[j].word_rowid
            == word) by {
            assert(entries.drop_first()[j] == entries[j + 1]);
        }
        lemma_entry_index_of_pushed(entries.drop_first(), added, lang, word);
    }
}

// ---------------------------------------------------------------------------
// Ingestion skips malformed lines
// ---------------------------------------------------------------------------

proof fn lemma_ingest_tokens_lang(c: CorpusV, sid: int, toks: Seq<Seq<char>>, i: int)
    ensures
        ingest_tokens(c, sid, toks, i) matches Some(c2) ==> c2.lang == c.lang,
    decreases toks.len() - i,
{
    if 0 <= i < toks.len() {
        match crate::corpus::ingest_token(c, sid, toks[i]) {
            Some(c2) => {
                lemma_ingest_tokens_lang(c2, sid, toks, i + 1);
            },
            None => {},
        }
    }
}

proof fn lemma_ingest_sentence_lang(c: CorpusV, sv: crate::corpus::SentV)
    ensures
        ingest_sentence(c, sv) matches Some(c2) ==> c2.lang == c.lang,
{
    if !crate::corpus::sent_dup(c.sentences, sv) {
        let c1 = CorpusV {
            lang: c.lang,
            sentences: c.sentences.push(sv),
            words: c.words,
            mems: c.mems,
        };
        lemma_ingest_tokens_lang(c1, sv.rowid, crate::text::clean_tokens(sv.text), 0);
    }
}

proof fn lemma_ingest_lines_shift(
    c: CorpusV,
    l1: Seq<Seq<char>>,
    l2: Seq<Seq<char>>,
    i1: int,
    i2: int,
)
    requires
        0 <= i1 <= l1.len(),
        0 <= i2 <= l2.len(),
        l1.len() - i1 == l2.len() - i2,
        forall|d: int| 0 <= d < l1.len() - i1 ==> #[trigger] l1[i1 + d] == l2[i2 + d],
    ensures
        ingest_lines(c, l1, i1) == ingest_lines(c, l2, i2),
    decreases l1.len() - i1,
{
    if i1 < l1.len() {
        assert(l1[i1 + 0] == l2[i2 + 0]);
        assert forall|d: int| 0 <= d < l1.len() - (i1 + 1) implies #[trigger] l1[i1 + 1 + d]
            == l2[i2 + 1 + d] by {
            assert(l1[i1 + (d + 1)] == l2[i2 + (d + 1)]);
        }
        match line_sentence(l1[i1], c.lang) {
            None => {
                lemma_ingest_lines_shift(c, l1, l2, i1 + 1, i2 + 1);
            },
            Some(sv) => {
                match ingest_sentence(c, sv) {
                    Some(c2) => {
                        lemma_ingest_lines_shift(c2, l1, l2, i1 + 1, i2 + 1);
                    },
                    None => {},
                }
            },
        }
    }
}

proof fn lemma_skip_at(c: CorpusV, lines: Seq<Seq<char>>, k: int, i: int)
    requires
        0 <= i <= k < lines.len(),
        line_sentence(lines[k], c.lang) is None,
    ensures
        ingest_lines(c, lines, i) == ingest_lines(c, lines.remove(k), i),
    decreases k - i,
{
    let l2 = lines.remove(k);
    if i == k {
        assert forall|d: int| 0 <= d < lines.len() - (k + 1) implies #[trigger] lines[k + 1 + d]
            == l2[k + d] by {}
        lemma_ingest_lines_shift(c, lines, l2, k + 1, k);
    } else {
        assert(l2[i] == lines[i]);
        match line_sentence(lines[i], c.lang) {
            None => {
                lemma_skip_at(c, lines, k, i + 1);
            },
            Some(sv) => {
                match ingest_sentence(c, sv) {
                    Some(c2) => {
                        lemma_ingest_sentence_lang(c, sv);
                        lemma_skip_at(c2, lines, k, i + 1);
                    },
                    None => {},
                }
            },
        }
    }
}

/// A malformed corpus line contributes nothing to an import: ingesting a
/// batch gives exactly the state that ingesting the batch without that line
/// gives, so the remaining well-formed lines land and the batch commits as
/// if the bad line had not been there.
pub proof fn lemma_malformed_line_skipped(c: CorpusV, lines: Seq<Seq<char>>, k: int)
    requires
        0 <= k < lines.len(),
        line_sentence(lines[k], c.lang) is None,
    ensures
        ingest_lines(c, lines, 0) == ingest_lines(c, lines.remove(k), 0),
{
    lemma_skip_at(c, lines, k, 0);
}

// ---------------------------------------------------------------------------
// Frontier members
// ---------------------------------------------------------------------------

/// Every member of the frontier for the range `[lo, hi]` is a stored,
/// translated sentence whose unknown-word count is its exact count at query
/// time and lies in the range; its frequency field is the exact minimum
/// frequency among its unknown words (zero when there is none). With
/// `lo == hi` this says the query returns only sentences with exactly that
/// many unknown words.
pub proof fn lemma_frontier_member_props(
    c: CorpusV,
    trans: Seq<TranslationRow>,
    known: Seq<KnownWordEntry>,
    lo: int,
    hi: int,
    x: crate::hub::WfmV,
)
    requires
        frontier_rows(c, trans, known, lo, hi).contains(x),
    ensures
        sent_present(c.sentences, x.rowid),
        has_translation(trans, x.rowid),
        lo <= x.count <= hi,
        x.count == unknown_word_count(c, known, x.rowid),
        x.freq == min_unknown_freq(c, known, x.rowid),
{
    broadcast use Seq::lemma_filter_pred;
    broadcast use Seq::lemma_filter_contains_rev;

    let pred = |s: crate::corpus::SentV| in_frontier(c, trans, known, lo, hi, s);
    let filtered = c.sentences.filter(pred);
    let rows = frontier_rows(c, trans, known, lo, hi);
    let i = choose|i: int| 0 <= i < rows.len() && rows[i] == x;
    assert(x == frontier_member(c, known, filtered[i]));
    assert(pred(filtered[i]));
    assert(filtered.contains(filtered[i]));
    assert(c.sentences.contains(filtered[i]));
    let j = choose|j: int| 0 <= j < c.sentences.len() && c.sentences[j] == filtered[i];
    assert(c.sentences[j].rowid == x.rowid);
}

/// Every element of a result that is a permutation of the frontier (as the
/// sorted orders are) is itself a frontier member, so the properties above
/// hold of it.
pub proof fn lemma_permuted_result_member(
    base: Seq<crate::hub::WfmV>,
    res: Seq<crate::hub::WfmV>,
    i: int,
)
    requires
        res.to_multiset() == base.to_multiset(),
        0 <= i < res.len(),
    ensures
        base.contains(res[i]),
{
    broadcast use vstd::seq_lib::group_to_multiset_ensures;

    assert(res.contains(res[i]));
    assert(res.to_multiset().count(res[i]) > 0);
}

/// For an ascending result every adjacent pair is ordered by minimum
/// unknown-word frequency; descending likewise, reversed.
pub proof fn lemma_sorted_adjacent(s: Seq<crate::hub::WfmV>, i: int)
    requires
        0 <= i < s.len() - 1,
    ensures
        sorted_asc(s) ==> s[i].freq <= s[i + 1].freq,
        sorted_desc(s) ==> s[i].freq >= s[i + 1].freq,
{
}

} // verus!
