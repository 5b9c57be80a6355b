use vstd::prelude::*;

verus! {

use crate::corpus::{
    corpus_empty, corpus_wf, ingest_lines, lines_view, CorpusDb, CorpusV, MemV, SentV,
};
use crate::error::Error;
use crate::langs::{lang_index, lang_short_present, langs_wf, Lang, LangsDb};
use crate::translations::{ingest_links, trans_wf, TranslationRow, TranslationsDb};
use crate::user::{
    add_known, known_pair_at, known_pair_int, ledger_wf, remove_known, KnownWordEntry, UserDb,
};
use crate::{Order, Range};

// ---------------------------------------------------------------------------
// Query result rows and their views
// ---------------------------------------------------------------------------

/// A membership of the selected sentence, joined with the word's text,
/// frequency and known status.
#[derive(Debug)]
pub struct SentenceMembershipWithTextEtc {
    pub sentence_memberships_rowid: i32,
    pub sentence_rowid: i32,
    pub word_rowid: i32,
    pub word_text: String,
    pub word_freq: i32,
    pub word_is_known: bool,
}

/// View of a membership-with-status row.
#[verifier::ext_equal]
pub struct SmtV {
    pub rowid: int,
    pub sentence: int,
    pub word: int,
    pub text: Seq<char>,
    pub freq: int,
    pub known: bool,
}

impl View for SentenceMembershipWithTextEtc {
    type V = SmtV;

    open spec fn view(&self) -> SmtV {
        SmtV {
            rowid: self.sentence_memberships_rowid as int,
            sentence: self.sentence_rowid as int,
            word: self.word_rowid as int,
            text: self.word_text@,
            freq: self.word_freq as int,
            known: self.word_is_known,
        }
    }
}

/// A known-word ledger entry joined with the word's text.
#[derive(Debug)]
pub struct KnownWordWithText {
    pub known_words_rowid: i32,
    pub lang_rowid: i32,
    pub word_rowid: i32,
    pub word_text: String,
}

/// View of a known-word-with-text row.
#[verifier::ext_equal]
pub struct KwtV {
    pub rowid: int,
    pub lang: int,
    pub word: int,
    pub text: Seq<char>,
}

impl View for KnownWordWithText {
    type V = KwtV;

    open spec fn view(&self) -> KwtV {
        KwtV {
            rowid: self.known_words_rowid as int,
            lang: self.lang_rowid as int,
            word: self.word_rowid as int,
            text: self.word_text@,
        }
    }
}

/// An alignment joined with the reference sentence's text.
#[derive(Debug)]
pub struct TranslationWithText {
    pub translations_rowid: i32,
    pub target_lang_sentence_rowid: i32,
    pub reference_lang_sentence_rowid: i32,
    pub reference_lang_sentence_text: String,
}

/// View of a translation-with-text row.
#[verifier::ext_equal]
pub struct TwtV {
    pub rowid: int,
    pub target: int,
    pub reference: int,
    pub text: Seq<char>,
}

impl View for TranslationWithText {
    type V = TwtV;

    open spec fn view(&self) -> TwtV {
        TwtV {
            rowid: self.translations_rowid as int,
            target: self.target_lang_sentence_rowid as int,
            reference: self.reference_lang_sentence_rowid as int,
            text: self.reference_lang_sentence_text@,
        }
    }
}

/// A sentence of the frontier: its unknown-word count and the minimum
/// frequency among its unknown words.
#[derive(Debug)]
pub struct WordFrontierMember {
    pub sentences_rowid: i32,
    pub lang_rowid: i32,
    pub text: String,
    pub unknown_word_count: i32,
    pub unknown_word_freq: i32,
}

/// View of a frontier member.
#[verifier::ext_equal]
pub struct WfmV {
    pub rowid: int,
    pub lang: int,
    pub text: Seq<char>,
    pub count: int,
    pub freq: int,
}

impl View for WordFrontierMember {
    type V = WfmV;

    open spec fn view(&self) -> WfmV {
        WfmV {
            rowid: self.sentences_rowid as int,
            lang: self.lang_rowid as int,
            text: self.text@,
            count: self.unknown_word_count as int,
            freq: self.unknown_word_freq as int,
        }
    }
}

// ---------------------------------------------------------------------------
// The frontier model
// ---------------------------------------------------------------------------

/// The memberships of sentence `sid` whose word the ledger does not hold for
/// language `lang`.
pub open spec fn unknown_mems_of(
    mems: Seq<MemV>,
    lang: int,
    known: Seq<KnownWordEntry>,
    sid: int,
) -> Seq<MemV> {
    mems.filter(|m: MemV| m.sentence == sid && !known_pair_int(known, lang, m.word))
}

/// How many distinct words of sentence `sid` the user does not know yet.
/// Memberships are unique pairs, so this counts distinct words.
pub open spec fn unknown_word_count(c: CorpusV, known: Seq<KnownWordEntry>, sid: int) -> int {
    unknown_mems_of(c.mems, c.lang, known, sid).len() as int
}

/// Frequency of the word with row id `wid` (word row ids are the sequential
/// storage positions).
pub open spec fn word_freq(c: CorpusV, wid: int) -> int {
    c.words[wid - 1].freq
}

/// Minimum of a sequence of integers (zero for an empty one).
pub open spec fn seq_min(s: Seq<int>) -> int
    decreases s.len(),
{
    if s.len() == 0 {
        0
    } else if s.len() == 1 {
        s[0]
    } else {
        let m = seq_min(s.drop_last());
        if s.last() < m {
            s.last()
        } else {
            m
        }
    }
}

/// The frequencies of the given memberships' words.
pub open spec fn freqs_of(c: CorpusV, ms: Seq<MemV>) -> Seq<int> {
    ms.map_values(|m: MemV| word_freq(c, m.word))
}

/// The minimum frequency among the unknown words of sentence `sid`; zero
/// when the sentence has no unknown word (`seq_min` of an empty sequence).
pub open spec fn min_unknown_freq(c: CorpusV, known: Seq<KnownWordEntry>, sid: int) -> int {
    seq_min(freqs_of(c, unknown_mems_of(c.mems, c.lang, known, sid)))
}

/// Whether some alignment has `sid` as its target sentence.
pub open spec fn has_translation(rows: Seq<TranslationRow>, sid: int) -> bool {
    exists|j: int| 0 <= j < rows.len() && rows[j].target_lang_sentence_rowid as int == sid
}

/// Whether a sentence belongs to the frontier for the count range `[lo, hi]`:
/// it participates in at least one translation and its unknown-word count
/// lies in the range. A fully comprehensible sentence (count zero) is a
/// frontier member whenever the range admits zero; its minimum-frequency
/// field is then zero, there being no unknown word to take it from.
pub open spec fn in_frontier(
    c: CorpusV,
    trans: Seq<TranslationRow>,
    known: Seq<KnownWordEntry>,
    lo: int,
    hi: int,
    s: SentV,
) -> bool {
    &&& has_translation(trans, s.rowid)
    &&& lo <= unknown_word_count(c, known, s.rowid) <= hi
}

/// The frontier member built for a sentence.
pub open spec fn frontier_member(c: CorpusV, known: Seq<KnownWordEntry>, s: SentV) -> WfmV {
    WfmV {
        rowid: s.rowid,
        lang: s.lang,
        text: s.text,
        count: unknown_word_count(c, known, s.rowid),
        freq: min_unknown_freq(c, known, s.rowid),
    }
}

/// The frontier drawn from the given sentences, in their storage order.
pub open spec fn frontier_of(
    c: CorpusV,
    trans: Seq<TranslationRow>,
    known: Seq<KnownWordEntry>,
    lo: int,
    hi: int,
    sents: Seq<SentV>,
) -> Seq<WfmV> {
    sents.filter(|s: SentV| in_frontier(c, trans, known, lo, hi, s)).map_values(
        |s: SentV| frontier_member(c, known, s),
    )
}

/// The whole frontier of the corpus, in sentence storage order.
pub open spec fn frontier_rows(
    c: CorpusV,
    trans: Seq<TranslationRow>,
    known: Seq<KnownWordEntry>,
    lo: int,
    hi: int,
) -> Seq<WfmV> {
    frontier_of(c, trans, known, lo, hi, c.sentences)
}

/// Where a stable insertion puts `x`: before the first member whose key
/// strictly follows `x`'s, so a member with an equal key stays ahead of `x`.
pub open spec fn insert_pos(out: Seq<WfmV>, x: WfmV, ascending: bool) -> int
    decreases out.len(),
{
    if out.len() == 0 {
        0
    } else if (if ascending {
        out[0].freq > x.freq
    } else {
        out[0].freq < x.freq
    }) {
        0
    } else {
        1 + insert_pos(out.drop_first(), x, ascending)
    }
}

/// One step of the stable sort: `x` inserted at its stable position.
pub open spec fn stable_insert(out: Seq<WfmV>, x: WfmV, ascending: bool) -> Seq<WfmV> {
    out.insert(insert_pos(out, x, ascending), x)
}

/// The stable sort, element by element: the members of `rest` inserted into
/// the already sorted `out`, in order.
pub open spec fn sort_acc(out: Seq<WfmV>, rest: Seq<WfmV>, ascending: bool) -> Seq<WfmV>
    decreases rest.len(),
{
    if rest.len() == 0 {
        out
    } else {
        sort_acc(stable_insert(out, rest[0], ascending), rest.drop_first(), ascending)
    }
}

/// Stable sort by minimum unknown-word frequency: members with equal keys
/// keep their relative order, so the result is a function of the input order
/// alone.
pub open spec fn stable_sort(s: Seq<WfmV>, ascending: bool) -> Seq<WfmV> {
    sort_acc(Seq::empty(), s, ascending)
}

/// Nondecreasing minimum-frequency keys.
pub open spec fn sorted_asc(s: Seq<WfmV>) -> bool {
    forall|a: int, b: int| 0 <= a < b < s.len() ==> (#[trigger] s[a]).freq <= (#[trigger] s[b]).freq
}

/// Nonincreasing minimum-frequency keys.
pub open spec fn sorted_desc(s: Seq<WfmV>) -> bool {
    forall|a: int, b: int| 0 <= a < b < s.len() ==> (#[trigger] s[a]).freq >= (#[trigger] s[b]).freq
}

// ---------------------------------------------------------------------------
// Configuration
// ---------------------------------------------------------------------------

/// Whether the injected registry carries a language with the given short
/// code.
pub open spec fn registry_has(langs: Seq<Lang>, short: Seq<char>) -> bool {
    exists|j: int| 0 <= j < langs.len() && langs[j].short@ == short
}

/// The language pair a composite store is opened for, resolved against an
/// injected registry, plus the optional override of the corpus source
/// location that the surrounding retrieval code may use.
#[derive(Debug)]
pub struct DbHubConfig {
    target_lang: Lang,
    reference_lang: Lang,
    override_base_url_o: Option<String>,
}

impl DbHubConfig {
    /// Short code of the target language.
    pub closed spec fn target_short(&self) -> Seq<char> {
        self.target_lang.short@
    }

    /// Short code of the reference language.
    pub closed spec fn reference_short(&self) -> Seq<char> {
        self.reference_lang.short@
    }

    /// Resolves both short codes against the registry; `NotFound` exactly
    /// when either is absent.
    pub fn new(
        target_lang_short: &str,
        reference_lang_short: &str,
        override_base_url_o: Option<String>,
        registry: &Vec<Lang>,
    ) -> (r: Result<DbHubConfig, Error>)
        ensures
            r is Ok <==> registry_has(registry@, target_lang_short@) && registry_has(
                registry@,
                reference_lang_short@,
            ),
            r matches Ok(c) ==> c.target_short() == target_lang_short@ && c.reference_short()
                == reference_lang_short@ && c.base_url_spec() == override_base_url_o,
            r matches Err(e) ==> e is NotFound,
    {
        let target_lang = match find_lang(registry, target_lang_short) {
            Some(l) => l,
            None => {
                return Err(Error::NotFound);
            },
        };
        let reference_lang = match find_lang(registry, reference_lang_short) {
            Some(l) => l,
            None => {
                return Err(Error::NotFound);
            },
        };
        Ok(DbHubConfig { target_lang, reference_lang, override_base_url_o })
    }

    /// The optional override of the corpus source location, as configured.
    pub closed spec fn base_url_spec(&self) -> Option<String> {
        self.override_base_url_o
    }

    /// The optional override of the corpus source location.
    pub fn override_base_url(&self) -> (r: &Option<String>)
        ensures
            *r == self.base_url_spec(),
    {
        &self.override_base_url_o
    }
}

fn find_lang(registry: &Vec<Lang>, short: &str) -> (r: Option<Lang>)
    ensures
        r is Some <==> registry_has(registry@, short@),
        r matches Some(l) ==> l.short@ == short@,
{
    let needle = short.to_owned();
    let n = registry.len();
    let mut j: usize = 0;
    while j < n
        invariant
            needle@ == short@,
            n == registry@.len(),
            0 <= j <= n,
            forall|k: int| 0 <= k < j ==> registry@[k].short@ != short@,
        decreases n - j,
    {
        if registry[j].short == needle {
            return Some(registry[j].clone());
        }
        j = j + 1;
    }
    None
}

// ---------------------------------------------------------------------------
// The composite store
// ---------------------------------------------------------------------------

/// Unifies the four datasets — language registry, the two corpora, the
/// alignment links and the known-word ledger — into one queryable unit
/// scoped to a language pair.
pub struct DbHub {
    db_hub_config: DbHubConfig,
    langs: LangsDb,
    user: UserDb,
    target_corpus: CorpusDb,
    reference_corpus: CorpusDb,
    translations: TranslationsDb,
    target_lang_rowid: i32,
    reference_lang_rowid: i32,
}

impl DbHub {
    pub closed spec fn target_corpus_v(&self) -> CorpusV {
        self.target_corpus@
    }

    pub closed spec fn reference_corpus_v(&self) -> CorpusV {
        self.reference_corpus@
    }

    pub closed spec fn translations_v(&self) -> Seq<TranslationRow> {
        self.translations.rows_view()
    }

    pub closed spec fn known_v(&self) -> Seq<KnownWordEntry> {
        self.user.entries()
    }

    pub closed spec fn user_next_id(&self) -> int {
        self.user.next_id()
    }

    pub closed spec fn langs_v(&self) -> Seq<crate::langs::LangRow> {
        self.langs.langs()
    }

    pub closed spec fn target_lang(&self) -> int {
        self.target_lang_rowid as int
    }

    pub closed spec fn reference_lang(&self) -> int {
        self.reference_lang_rowid as int
    }

    pub closed spec fn config_target_short(&self) -> Seq<char> {
        self.db_hub_config.target_short()
    }

    pub closed spec fn config_reference_short(&self) -> Seq<char> {
        self.db_hub_config.reference_short()
    }

    pub open spec fn wf(&self) -> bool {
        &&& langs_wf(self.langs_v())
        &&& corpus_wf(self.target_corpus_v())
        &&& corpus_wf(self.reference_corpus_v())
        &&& trans_wf(self.translations_v())
        &&& ledger_wf(self.known_v(), self.user_next_id())
        &&& self.target_corpus_v().lang == self.target_lang()
        &&& self.reference_corpus_v().lang == self.reference_lang()
    }

    /// Opens the composite store for the configured language pair: resolves
    /// both language row ids against the registry (`NotFound` exactly when
    /// one is missing) and starts with empty corpora, links and ledger.
    pub fn from_config(db_hub_config: DbHubConfig, langs: LangsDb) -> (r: Result<DbHub, Error>)
        requires
            langs.wf(),
        ensures
            r is Ok <==> lang_short_present(langs.langs(), db_hub_config.target_short())
                && lang_short_present(langs.langs(), db_hub_config.reference_short()),
            r matches Ok(h) ==> h.wf() && h.langs_v() == langs.langs() && h.config_target_short()
                == db_hub_config.target_short() && h.config_reference_short()
                == db_hub_config.reference_short() && h.target_lang() == langs.langs()[lang_index(
                langs.langs(),
                db_hub_config.target_short(),
            )].langs_rowid as int && h.reference_lang() == langs.langs()[lang_index(
                langs.langs(),
                db_hub_config.reference_short(),
            )].langs_rowid as int && corpus_empty(h.target_corpus_v()) && corpus_empty(
                h.reference_corpus_v(),
            ) && h.translations_v() == Seq::<TranslationRow>::empty() && h.known_v() == Seq::<
                KnownWordEntry,
            >::empty() && h.user_next_id() == 1,
            r matches Err(e) ==> e is NotFound,
    {
        let target_lang_row = match langs.query_lang_row(db_hub_config.target_lang.short.as_str()) {
            Ok(row) => row,
            Err(e) => {
                return Err(e);
            },
        };
        let reference_lang_row = match langs.query_lang_row(
            db_hub_config.reference_lang.short.as_str(),
        ) {
            Ok(row) => row,
            Err(e) => {
                return Err(e);
            },
        };
        let target_lang_rowid = target_lang_row.langs_rowid;
        let reference_lang_rowid = reference_lang_row.langs_rowid;
        let target_corpus = CorpusDb::open(target_lang_row);
        let reference_corpus = CorpusDb::open(reference_lang_row);
        let translations = TranslationsDb::open(
            db_hub_config.target_lang.short.as_str(),
            db_hub_config.reference_lang.short.as_str(),
        );
        let user = UserDb::new();
        Ok(
            DbHub {
                db_hub_config,
                langs,
                user,
                target_corpus,
                reference_corpus,
                translations,
                target_lang_rowid,
                reference_lang_rowid,
            },
        )
    }

    /// Populates whichever of the three content datasets is still empty, in
    /// bootstrap order: target corpus, reference corpus, translation links.
    /// A dataset that already holds data is skipped here (bootstrap is
    /// idempotent); importing more content into an existing dataset is what
    /// the datasets' own import entry points are for. Population of each
    /// dataset is atomic by itself; a storage fault stops the sequence,
    /// never corrupting a populated dataset.
    pub fn create_and_populate_missing_databases(
        &mut self,
        target_corpus_lines: &Vec<String>,
        reference_corpus_lines: &Vec<String>,
        translation_lines: &Vec<String>,
    ) -> (r: Result<(), Error>)
        requires
            old(self).wf(),
        ensures
            final(self).wf(),
            final(self).langs_v() == old(self).langs_v(),
            final(self).known_v() == old(self).known_v(),
            final(self).user_next_id() == old(self).user_next_id(),
            final(self).target_lang() == old(self).target_lang(),
            final(self).reference_lang() == old(self).reference_lang(),
            final(self).config_target_short() == old(self).config_target_short(),
            final(self).config_reference_short() == old(self).config_reference_short(),
            r is Ok <==> populate_corpus_model(
                old(self).target_corpus_v(),
                lines_view(target_corpus_lines@),
            ) is Some && populate_corpus_model(
                old(self).reference_corpus_v(),
                lines_view(reference_corpus_lines@),
            ) is Some && populate_trans_model(
                old(self).translations_v(),
                lines_view(translation_lines@),
            ) is Some,
            r is Ok ==> final(self).target_corpus_v() == populate_corpus_model(
                old(self).target_corpus_v(),
                lines_view(target_corpus_lines@),
            ).unwrap() && final(self).reference_corpus_v() == populate_corpus_model(
                old(self).reference_corpus_v(),
                lines_view(reference_corpus_lines@),
            ).unwrap() && final(self).translations_v() == populate_trans_model(
                old(self).translations_v(),
                lines_view(translation_lines@),
            ).unwrap(),
            r matches Err(e) ==> e is StorageFailure && final(self).translations_v() == old(self).translations_v() && (match populate_corpus_model(
                old(self).target_corpus_v(),
                lines_view(target_corpus_lines@),
            ) {
                None => final(self).target_corpus_v() == old(self).target_corpus_v() && final(self).reference_corpus_v() == old(self).reference_corpus_v(),
                Some(t) => final(self).target_corpus_v() == t && (match populate_corpus_model(
                    old(self).reference_corpus_v(),
                    lines_view(reference_corpus_lines@),
                ) {
                    None => final(self).reference_corpus_v() == old(self).reference_corpus_v(),
                    Some(rc) => final(self).reference_corpus_v() == rc,
                }),
            }),
    {
        if self.target_corpus.num_sentences() == 0 && self.target_corpus.num_words() == 0
            && self.target_corpus.num_memberships() == 0 {
            match self.target_corpus.populate(target_corpus_lines) {
                Ok(_) => {},
                Err(e) => {
                    return Err(e);
                },
            }
        }
        if self.reference_corpus.num_sentences() == 0 && self.reference_corpus.num_words() == 0
            && self.reference_corpus.num_memberships() == 0 {
            match self.reference_corpus.populate(reference_corpus_lines) {
                Ok(_) => {},
                Err(e) => {
                    return Err(e);
                },
            }
        }
        if self.translations.num_rows() == 0 {
            match self.translations.populate(translation_lines) {
                Ok(_) => {},
                Err(e) => {
                    return Err(e);
                },
            }
        }
        Ok(())
    }

    /// Marks a word of the target language known; a word already known is a
    /// no-op without error.
    pub fn add_known_word(&mut self, word_rowid: i32) -> (r: Result<(), Error>)
        requires
            old(self).wf(),
        ensures
            final(self).wf(),
            hub_unchanged_but_ledger(old(self), final(self)),
            r is Ok <==> (known_pair_at(
                old(self).known_v(),
                old(self).target_lang_i32(),
                word_rowid,
            ) || old(self).user_next_id() < 0x7fff_ffff),
            r is Ok ==> (final(self).known_v(), final(self).user_next_id()) == add_known(
                old(self).known_v(),
                old(self).user_next_id(),
                old(self).target_lang_i32(),
                word_rowid,
            ),
            r matches Err(e) ==> e is StorageFailure && final(self).known_v() == old(self).known_v()
                && final(self).user_next_id() == old(self).user_next_id(),
    {
        self.user.add(self.target_lang_rowid, word_rowid)
    }

    /// Marks a word of the target language unknown; an absent entry is a
    /// no-op without error.
    pub fn remove_known_word(&mut self, word_rowid: i32) -> (r: Result<(), Error>)
        requires
            old(self).wf(),
        ensures
            final(self).wf(),
            hub_unchanged_but_ledger(old(self), final(self)),
            r is Ok,
            final(self).known_v() == remove_known(
                old(self).known_v(),
                old(self).target_lang_i32(),
                word_rowid,
            ),
            final(self).user_next_id() == old(self).user_next_id(),
    {
        self.user.remove(self.target_lang_rowid, word_rowid)
    }

    /// The target language row id as stored.
    pub closed spec fn target_lang_i32(&self) -> i32 {
        self.target_lang_rowid
    }

    /// The known words of the target language, joined with their texts, in
    /// ledger storage order. Entries whose word id no stored word carries
    /// are dropped, as an inner join drops them.
    pub fn query_known_word_with_text_v(&self) -> (r: Result<Vec<KnownWordWithText>, Error>)
        requires
            self.wf(),
        ensures
            r is Ok,
            r matches Ok(v) ==> v@.map_values(|x: KnownWordWithText| x@) == known_with_text_of(
                self.target_corpus_v(),
                self.known_v(),
                self.target_lang(),
            ),
    {
        let ghost c = self.target_corpus_v();
        let ghost ent = self.known_v();
        let ghost lang = self.target_lang();
        let mut out: Vec<KnownWordWithText> = Vec::new();
        let n = self.user.num_entries();
        let nw = self.target_corpus.num_words();
        let mut i: usize = 0;
        proof {
            assert(ent.take(0) =~= Seq::<KnownWordEntry>::empty());
            assert(known_with_text_of(c, ent.take(0), lang) =~= out@.map_values(
                |x: KnownWordWithText| x@,
            ));
        }
        while i < n
            invariant
                c == self.target_corpus_v(),
                ent == self.known_v(),
                lang == self.target_lang(),
                lang == self.target_lang_i32() as int,
                self.wf(),
                n == ent.len(),
                nw == c.words.len(),
                0 <= i <= n,
                out@.map_values(|x: KnownWordWithText| x@) == known_with_text_of(
                    c,
                    ent.take(i as int),
                    lang,
                ),
            decreases n - i,
        {
            let e = self.user.entry_at(i);
            let ghost taken = ent.take(i as int);
            let ghost pred = |e: KnownWordEntry|
                e.lang_rowid as int == lang && 1 <= e.word_rowid as int <= c.words.len();
            proof {
                broadcast use Seq::lemma_filter_push;

                assert(ent.take(i + 1) =~= taken.push(e));
            }
            let mut kept = false;
            if e.lang_rowid == self.target_lang_rowid && e.word_rowid >= 1 {
                let wi = (e.word_rowid - 1) as usize;
                if wi < nw {
                    kept = true;
                    let w = self.target_corpus.word_at(wi);
                    let ghost out0 = out@;
                    out.push(
                        KnownWordWithText {
                            known_words_rowid: e.known_words_rowid,
                            lang_rowid: e.lang_rowid,
                            word_rowid: e.word_rowid,
                            word_text: w.text.clone(),
                        },
                    );
                    proof {
                        assert(pred(e));
                        assert(taken.push(e).filter(pred) == taken.filter(pred).push(e));
                        assert(out@.map_values(|x: KnownWordWithText| x@) =~= out0.map_values(
                            |x: KnownWordWithText| x@,
                        ).push(
                            KwtV {
                                rowid: e.known_words_rowid as int,
                                lang: e.lang_rowid as int,
                                word: e.word_rowid as int,
                                text: c.words[e.word_rowid - 1].text,
                            },
                        ));
                        assert(known_with_text_of(c, ent.take(i + 1), lang) =~= known_with_text_of(
                            c,
                            taken,
                            lang,
                        ).push(
                            KwtV {
                                rowid: e.known_words_rowid as int,
                                lang: e.lang_rowid as int,
                                word: e.word_rowid as int,
                                text: c.words[e.word_rowid - 1].text,
                            },
                        ));
                    }
                }
            }
            if !kept {
                proof {
                    assert(!pred(e));
                    assert(taken.push(e).filter(pred) == taken.filter(pred));
                    assert(known_with_text_of(c, ent.take(i + 1), lang) =~= known_with_text_of(
                        c,
                        taken,
                        lang,
                    ));
                }
            }
            i = i + 1;
        }
        proof {
            assert(ent.take(n as int) =~= ent);
        }
        Ok(out)
    }

    /// The memberships of one target-language sentence, each joined with its
    /// word's text, frequency and known status; unknown words come first,
    /// known words after, each group in storage order.
    pub fn query_sentence_membership_with_text_etc_v(&self, sentence_rowid: i32) -> (r: Result<
        Vec<SentenceMembershipWithTextEtc>,
        Error,
    >)
        requires
            self.wf(),
        ensures
            r is Ok,
            r matches Ok(v) ==> v@.map_values(|x: SentenceMembershipWithTextEtc| x@)
                == memberships_with_status(
                self.target_corpus_v(),
                self.known_v(),
                sentence_rowid as int,
            ),
    {
        let ghost c = self.target_corpus_v();
        let ghost known = self.known_v();
        let ghost sid = sentence_rowid as int;
        let ghost kpred = |x: SmtV| x.known;
        let ghost upred = |x: SmtV| !x.known;
        let mut unknown_out: Vec<SentenceMembershipWithTextEtc> = Vec::new();
        let mut known_out: Vec<SentenceMembershipWithTextEtc> = Vec::new();
        let n = self.target_corpus.num_memberships();
        let mut i: usize = 0;
        proof {
            assert(c.mems.take(0) =~= Seq::<MemV>::empty());
            assert(mems_with_status_of(c, known, c.mems.take(0), sid).filter(upred)
                =~= unknown_out@.map_values(|x: SentenceMembershipWithTextEtc| x@));
            assert(mems_with_status_of(c, known, c.mems.take(0), sid).filter(kpred)
                =~= known_out@.map_values(|x: SentenceMembershipWithTextEtc| x@));
        }
        while i < n
            invariant
                c == self.target_corpus_v(),
                known == self.known_v(),
                sid == sentence_rowid as int,
                kpred == (|x: SmtV| x.known),
                upred == (|x: SmtV| !x.known),
                self.wf(),
                n == c.mems.len(),
                0 <= i <= n,
                unknown_out@.map_values(|x: SentenceMembershipWithTextEtc| x@)
                    == mems_with_status_of(c, known, c.mems.take(i as int), sid).filter(upred),
                known_out@.map_values(|x: SentenceMembershipWithTextEtc| x@)
                    == mems_with_status_of(c, known, c.mems.take(i as int), sid).filter(kpred),
            decreases n - i,
        {
            let m = self.target_corpus.membership_at(i);
            let ghost taken = c.mems.take(i as int);
            let ghost all = mems_with_status_of(c, known, taken, sid);
            let ghost spred = |m: MemV| m.sentence == sid;
            proof {
                broadcast use Seq::lemma_filter_push;

                assert(c.mems.take(i + 1) =~= taken.push(m@));
            }
            if m.sentence_rowid == sentence_rowid {
                proof {
                    assert(spred(m@));
                    assert(taken.push(m@).filter(spred) == taken.filter(spred).push(m@));
                    assert(mems_with_status_of(c, known, c.mems.take(i + 1), sid) =~= all.push(
                        smt_of(c, known, m@),
                    ));
                    assert(1 <= c.mems[i as int].word <= c.words.len());
                }
                let wi = (m.word_rowid - 1) as usize;
                let w = self.target_corpus.word_at(wi);
                let is_known = self.user.is_known(self.target_lang_rowid, m.word_rowid);
                proof {
                    crate::user::lemma_known_pair_int(known, self.target_lang_i32(), m.word_rowid);
                }
                let row = SentenceMembershipWithTextEtc {
                    sentence_memberships_rowid: m.sentence_memberships_rowid,
                    sentence_rowid: m.sentence_rowid,
                    word_rowid: m.word_rowid,
                    word_text: w.text.clone(),
                    word_freq: w.freq,
                    word_is_known: is_known,
                };
                proof {
                    assert(row@ =~= smt_of(c, known, m@));
                }
                if is_known {
                    let ghost out0 = known_out@;
                    known_out.push(row);
                    proof {
                        assert(known_out@.map_values(|x: SentenceMembershipWithTextEtc| x@)
                            =~= out0.map_values(|x: SentenceMembershipWithTextEtc| x@).push(
                            smt_of(c, known, m@),
                        ));
                        assert(all.push(smt_of(c, known, m@)).filter(kpred) == all.filter(
                            kpred,
                        ).push(smt_of(c, known, m@)));
                        assert(all.push(smt_of(c, known, m@)).filter(upred) == all.filter(upred));
                    }
                } else {
                    let ghost out0 = unknown_out@;
                    unknown_out.push(row);
                    proof {
                        assert(unknown_out@.map_values(|x: SentenceMembershipWithTextEtc| x@)
                            =~= out0.map_values(|x: SentenceMembershipWithTextEtc| x@).push(
                            smt_of(c, known, m@),
                        ));
                        assert(all.push(smt_of(c, known, m@)).filter(upred) == all.filter(
                            upred,
                        ).push(smt_of(c, known, m@)));
                        assert(all.push(smt_of(c, known, m@)).filter(kpred) == all.filter(kpred));
                    }
                }
            } else {
                proof {
                    assert(!spred(m@));
                    assert(taken.push(m@).filter(spred) == taken.filter(spred));
                    assert(mems_with_status_of(c, known, c.mems.take(i + 1), sid) =~= all);
                }
            }
            i = i + 1;
        }
        proof {
            assert(c.mems.take(n as int) =~= c.mems);
        }
        let mut out = unknown_out;
        let ghost u_v = out@;
        let ghost k_v = known_out@;
        let mut rest = known_out;
        out.append(&mut rest);
        proof {
            assert(out@.map_values(|x: SentenceMembershipWithTextEtc| x@) =~= u_v.map_values(
                |x: SentenceMembershipWithTextEtc| x@,
            ) + k_v.map_values(|x: SentenceMembershipWithTextEtc| x@));
        }
        Ok(out)
    }

    /// Whether some alignment targets the given sentence.
    fn has_translation_exec(&self, sid: i32) -> (r: bool)
        ensures
            r == has_translation(self.translations_v(), sid as int),
    {
        let ghost rows = self.translations_v();
        let n = self.translations.num_rows();
        let mut i: usize = 0;
        while i < n
            invariant
                rows == self.translations_v(),
                n == rows.len(),
                0 <= i <= n,
                forall|k: int|
                    0 <= k < i ==> (#[trigger] rows[k]).target_lang_sentence_rowid as int != sid
                        as int,
            decreases n - i,
        {
            let t = self.translations.row_at(i);
            if t.target_lang_sentence_rowid == sid {
                assert(rows[i as int].target_lang_sentence_rowid as int == sid as int);
                return true;
            }
            i = i + 1;
        }
        false
    }

    /// Counts the unknown words of one sentence and finds the minimum
    /// frequency among them (zero when the sentence has no unknown word).
    fn unknown_stats(&self, sid: i32) -> (r: (usize, i32))
        requires
            self.wf(),
        ensures
            r.0 as int == unknown_word_count(self.target_corpus_v(), self.known_v(), sid as int),
            r.1 as int == min_unknown_freq(self.target_corpus_v(), self.known_v(), sid as int),
            r.0 <= self.target_corpus_v().mems.len(),
    {
        let ghost c = self.target_corpus_v();
        let ghost known = self.known_v();
        let mut count: usize = 0;
        let mut minf: i32 = 0;
        let n = self.target_corpus.num_memberships();
        let mut i: usize = 0;
        proof {
            assert(c.mems.take(0) =~= Seq::<MemV>::empty());
            assert(unknown_mems_of(c.mems.take(0), c.lang, known, sid as int).len() == 0);
        }
        while i < n
            invariant
                c == self.target_corpus_v(),
                known == self.known_v(),
                self.wf(),
                n == c.mems.len(),
                0 <= i <= n,
                count as int == unknown_mems_of(c.mems.take(i as int), c.lang, known, sid as int).len(),
                count <= i,
                count > 0 ==> minf as int == seq_min(
                    freqs_of(c, unknown_mems_of(c.mems.take(i as int), c.lang, known, sid as int)),
                ),
                count == 0 ==> minf == 0,
            decreases n - i,
        {
            let m = self.target_corpus.membership_at(i);
            let ghost taken = c.mems.take(i as int);
            let ghost um = unknown_mems_of(taken, c.lang, known, sid as int);
            let ghost mpred = |m: MemV| m.sentence == sid as int && !known_pair_int(
                known,
                c.lang,
                m.word,
            );
            proof {
                broadcast use Seq::lemma_filter_push;

                assert(c.mems.take(i + 1) =~= taken.push(m@));
            }
            let is_known = self.user.is_known(self.target_lang_rowid, m.word_rowid);
            proof {
                crate::user::lemma_known_pair_int(known, self.target_lang_i32(), m.word_rowid);
            }
            if m.sentence_rowid == sid && !is_known {
                proof {
                    assert(mpred(m@));
                    assert(taken.push(m@).filter(mpred) == taken.filter(mpred).push(m@));
                    assert(1 <= c.mems[i as int].word <= c.words.len());
                }
                let wi = (m.word_rowid - 1) as usize;
                let w = self.target_corpus.word_at(wi);
                let f = w.freq;
                proof {
                    assert(f as int == word_freq(c, m@.word));
                    assert(freqs_of(c, um.push(m@)) =~= freqs_of(c, um).push(word_freq(c, m@.word)));
                    lemma_seq_min_push(freqs_of(c, um), word_freq(c, m@.word));
                }
                if count == 0 || f < minf {
                    minf = f;
                }
                count = count + 1;
            } else {
                proof {
                    assert(!mpred(m@));
                    assert(taken.push(m@).filter(mpred) == taken.filter(mpred));
                }
            }
            i = i + 1;
        }
        proof {
            assert(c.mems.take(n as int) =~= c.mems);
            if count == 0 {
                let um = unknown_mems_of(c.mems, c.lang, known, sid as int);
                assert(um =~= Seq::<MemV>::empty());
                assert(freqs_of(c, um) =~= Seq::<int>::empty());
            }
        }
        (count, minf)
    }

    /// The word frontier: every target-language sentence that participates
    /// in a translation and whose count of unknown words lies in the given
    /// inclusive range, ranked by the minimum frequency among its unknown
    /// words. A range admitting zero includes fully comprehensible
    /// sentences, whose minimum-frequency field is zero. `Unordered` returns
    /// sentence storage order; the two sorted orders keep storage order
    /// among equal keys.
    pub fn query_word_frontier_v(&self, known_word_count_range: Range, order: Order) -> (r: Result<
        Vec<WordFrontierMember>,
        Error,
    >)
        requires
            self.wf(),
        ensures
            r is Ok,
            r matches Ok(v) ==> frontier_query_post(
                self,
                known_word_count_range.0 as int,
                known_word_count_range.1 as int,
                order,
                v@.map_values(|m: WordFrontierMember| m@),
            ),
    {
        let lo = known_word_count_range.0;
        let hi = known_word_count_range.1;
        let ghost c = self.target_corpus_v();
        let ghost trans = self.translations_v();
        let ghost known = self.known_v();
        let mut base_out: Vec<WordFrontierMember> = Vec::new();
        let n = self.target_corpus.num_sentences();
        let mut si: usize = 0;
        proof {
            assert(c.sentences.take(0) =~= Seq::<SentV>::empty());
            assert(frontier_of(c, trans, known, lo as int, hi as int, c.sentences.take(0))
                =~= base_out@.map_values(|m: WordFrontierMember| m@));
        }
        while si < n
            invariant
                c == self.target_corpus_v(),
                trans == self.translations_v(),
                known == self.known_v(),
                self.wf(),
                n == c.sentences.len(),
                0 <= si <= n,
                base_out@.map_values(|m: WordFrontierMember| m@) == frontier_of(
                    c,
                    trans,
                    known,
                    lo as int,
                    hi as int,
                    c.sentences.take(si as int),
                ),
            decreases n - si,
        {
            let s = self.target_corpus.sentence_at(si);
            let sid = s.sentences_rowid;
            let stats = self.unknown_stats(sid);
            let count = stats.0;
            let minf = stats.1;
            let has_t = self.has_translation_exec(sid);
            let ghost taken = c.sentences.take(si as int);
            let ghost fpred = |s: SentV| in_frontier(c, trans, known, lo as int, hi as int, s);
            proof {
                broadcast use Seq::lemma_filter_push;

                assert(c.sentences.take(si + 1) =~= taken.push(s@));
            }
            let ci = count as i32;
            proof {
                assert(count as int <= c.mems.len() <= 0x7fff_ffff);
            }
            if has_t && lo <= ci && ci <= hi {
                proof {
                    assert(fpred(s@));
                    assert(taken.push(s@).filter(fpred) == taken.filter(fpred).push(s@));
                }
                let ghost out0 = base_out@;
                let row = WordFrontierMember {
                    sentences_rowid: s.sentences_rowid,
                    lang_rowid: s.lang_rowid,
                    text: s.text.clone(),
                    unknown_word_count: ci,
                    unknown_word_freq: minf,
                };
                proof {
                    assert(row@ =~= frontier_member(c, known, s@));
                }
                base_out.push(row);
                proof {
                    assert(base_out@.map_values(|m: WordFrontierMember| m@) =~= out0.map_values(
                        |m: WordFrontierMember| m@,
                    ).push(frontier_member(c, known, s@)));
                    assert(frontier_of(c, trans, known, lo as int, hi as int, taken.push(s@))
                        =~= frontier_of(c, trans, known, lo as int, hi as int, taken).push(
                        frontier_member(c, known, s@),
                    ));
                }
            } else {
                proof {
                    assert(!fpred(s@));
                    assert(taken.push(s@).filter(fpred) == taken.filter(fpred));
                    assert(frontier_of(c, trans, known, lo as int, hi as int, taken.push(s@))
                        =~= frontier_of(c, trans, known, lo as int, hi as int, taken));
                }
            }
            si = si + 1;
        }
        proof {
            assert(c.sentences.take(n as int) =~= c.sentences);
        }
        match order {
            Order::Unordered => Ok(base_out),
            Order::Ascending => Ok(sort_members(base_out, true)),
            Order::Descending => Ok(sort_members(base_out, false)),
        }
    }

    /// The translations recorded for one target-language sentence, joined
    /// with the reference sentence's text, in link storage order. Links whose
    /// reference sentence the reference corpus does not hold are dropped, as
    /// an inner join drops them.
    pub fn query_translation_with_text_v(&self, target_lang_sentence_rowid: i32) -> (r: Result<
        Vec<TranslationWithText>,
        Error,
    >)
        requires
            self.wf(),
        ensures
            r is Ok,
            r matches Ok(v) ==> v@.map_values(|x: TranslationWithText| x@)
                == translations_with_text_of(
                self.translations_v(),
                self.reference_corpus_v(),
                target_lang_sentence_rowid as int,
            ),
    {
        let ghost rows = self.translations_v();
        let ghost rc = self.reference_corpus_v();
        let ghost sid = target_lang_sentence_rowid as int;
        let mut out: Vec<TranslationWithText> = Vec::new();
        let n = self.translations.num_rows();
        let mut i: usize = 0;
        proof {
            assert(rows.take(0) =~= Seq::<TranslationRow>::empty());
            assert(translations_with_text_of(rows.take(0), rc, sid) =~= out@.map_values(
                |x: TranslationWithText| x@,
            ));
        }
        while i < n
            invariant
                rows == self.translations_v(),
                rc == self.reference_corpus_v(),
                sid == target_lang_sentence_rowid as int,
                self.wf(),
                n == rows.len(),
                0 <= i <= n,
                out@.map_values(|x: TranslationWithText| x@) == translations_with_text_of(
                    rows.take(i as int),
                    rc,
                    sid,
                ),
            decreases n - i,
        {
            let t = self.translations.row_at(i);
            let ghost taken = rows.take(i as int);
            let ghost pred = |t: TranslationRow|
                t.target_lang_sentence_rowid as int == sid && crate::corpus::sent_present(
                    rc.sentences,
                    t.reference_lang_sentence_rowid as int,
                );
            proof {
                broadcast use Seq::lemma_filter_push;

                assert(rows.take(i + 1) =~= taken.push(t));
            }
            let mut kept = false;
            if t.target_lang_sentence_rowid == target_lang_sentence_rowid {
                match self.reference_corpus.find_sentence(t.reference_lang_sentence_rowid) {
                    Some(j) => {
                        kept = true;
                        proof {
                            crate::corpus::lemma_sent_index(
                                rc.sentences,
                                t.reference_lang_sentence_rowid as int,
                            );
                        }
                        let s = self.reference_corpus.sentence_at(j);
                        let ghost out0 = out@;
                        out.push(
                            TranslationWithText {
                                translations_rowid: t.translations_rowid,
                                target_lang_sentence_rowid: t.target_lang_sentence_rowid,
                                reference_lang_sentence_rowid: t.reference_lang_sentence_rowid,
                                reference_lang_sentence_text: s.text.clone(),
                            },
                        );
                        proof {
                            assert(pred(t));
                            assert(taken.push(t).filter(pred) == taken.filter(pred).push(t));
                            let tv = TwtV {
                                rowid: t.translations_rowid as int,
                                target: t.target_lang_sentence_rowid as int,
                                reference: t.reference_lang_sentence_rowid as int,
                                text: ref_sent_text(rc, t.reference_lang_sentence_rowid as int),
                            };
                            assert(out@.map_values(|x: TranslationWithText| x@) =~= out0.map_values(
                                |x: TranslationWithText| x@,
                            ).push(tv));
                            assert(translations_with_text_of(rows.take(i + 1), rc, sid)
                                =~= translations_with_text_of(taken, rc, sid).push(tv));
                        }
                    },
                    None => {},
                }
            }
            if !kept {
                proof {
                    assert(!pred(t));
                    assert(taken.push(t).filter(pred) == taken.filter(pred));
                    assert(translations_with_text_of(rows.take(i + 1), rc, sid)
                        =~= translations_with_text_of(taken, rc, sid));
                }
            }
            i = i + 1;
        }
        proof {
            assert(rows.take(n as int) =~= rows);
        }
        Ok(out)
    }
}

/// The known words of language `lang` joined with the word texts of corpus
/// `c`: ledger storage order, entries without a stored word dropped.
pub open spec fn known_with_text_of(c: CorpusV, entries: Seq<KnownWordEntry>, lang: int) -> Seq<
    KwtV,
> {
    entries.filter(
        |e: KnownWordEntry| e.lang_rowid as int == lang && 1 <= e.word_rowid as int <= c.words.len(),
    ).map_values(
        |e: KnownWordEntry|
            KwtV {
                rowid: e.known_words_rowid as int,
                lang: e.lang_rowid as int,
                word: e.word_rowid as int,
                text: c.words[e.word_rowid - 1].text,
            },
    )
}

/// Text of the reference sentence with the given row id.
pub open spec fn ref_sent_text(rc: CorpusV, rowid: int) -> Seq<char> {
    rc.sentences[crate::corpus::sent_index(rc.sentences, rowid)].text
}

/// The alignments whose target is `sid`, joined with the reference sentence
/// texts of corpus `rc`: link storage order, links without a stored
/// reference sentence dropped.
pub open spec fn translations_with_text_of(
    rows: Seq<TranslationRow>,
    rc: CorpusV,
    sid: int,
) -> Seq<TwtV> {
    rows.filter(
        |t: TranslationRow|
            t.target_lang_sentence_rowid as int == sid && crate::corpus::sent_present(
                rc.sentences,
                t.reference_lang_sentence_rowid as int,
            ),
    ).map_values(
        |t: TranslationRow|
            TwtV {
                rowid: t.translations_rowid as int,
                target: t.target_lang_sentence_rowid as int,
                reference: t.reference_lang_sentence_rowid as int,
                text: ref_sent_text(rc, t.reference_lang_sentence_rowid as int),
            },
    )
}

/// What the frontier query promises: for `Unordered` exactly the frontier in
/// sentence storage order; for `Ascending` and `Descending` the same members
/// sorted by minimum unknown-word frequency.
pub open spec fn frontier_query_post(
    h: &DbHub,
    lo: int,
    hi: int,
    order: Order,
    res: Seq<WfmV>,
) -> bool {
    let base = frontier_rows(h.target_corpus_v(), h.translations_v(), h.known_v(), lo, hi);
    match order {
        Order::Unordered => res == base,
        Order::Ascending => res == stable_sort(base, true) && sorted_asc(res) && res.to_multiset()
            == base.to_multiset(),
        Order::Descending => res == stable_sort(base, false) && sorted_desc(res)
            && res.to_multiset() == base.to_multiset(),
    }
}

/// One membership joined with its word's text, frequency and known status.
pub open spec fn smt_of(c: CorpusV, known: Seq<KnownWordEntry>, m: MemV) -> SmtV {
    SmtV {
        rowid: m.rowid,
        sentence: m.sentence,
        word: m.word,
        text: c.words[m.word - 1].text,
        freq: word_freq(c, m.word),
        known: known_pair_int(known, c.lang, m.word),
    }
}

/// The given memberships of sentence `sid`, joined with word data, in
/// storage order.
pub open spec fn mems_with_status_of(
    c: CorpusV,
    known: Seq<KnownWordEntry>,
    mems: Seq<MemV>,
    sid: int,
) -> Seq<SmtV> {
    mems.filter(|m: MemV| m.sentence == sid).map_values(|m: MemV| smt_of(c, known, m))
}

/// The memberships of sentence `sid` with word data, unknown words first,
/// known words after, each group in storage order.
pub open spec fn memberships_with_status(c: CorpusV, known: Seq<KnownWordEntry>, sid: int) -> Seq<
    SmtV,
> {
    let all = mems_with_status_of(c, known, c.mems, sid);
    all.filter(|x: SmtV| !x.known) + all.filter(|x: SmtV| x.known)
}

proof fn lemma_insert_pos_first(out: Seq<WfmV>, x: WfmV, ascending: bool, p: int)
    requires
        0 <= p <= out.len(),
        forall|k: int|
            0 <= k < p ==> (if ascending {
                !((#[trigger] out[k]).freq > x.freq)
            } else {
                !(out[k].freq < x.freq)
            }),
        p == out.len() || (if ascending {
            out[p].freq > x.freq
        } else {
            out[p].freq < x.freq
        }),
    ensures
        insert_pos(out, x, ascending) == p,
    decreases out.len(),
{
    if p > 0 {
        lemma_insert_pos_first(out.drop_first(), x, ascending, p - 1);
    }
}

/// Sorts frontier members by their minimum unknown-word frequency with a
/// stable insertion sort: the result is exactly `stable_sort` of the input,
/// so members with equal keys keep their relative order.
fn sort_members(input: Vec<WordFrontierMember>, ascending: bool) -> (r: Vec<WordFrontierMember>)
    ensures
        r@.map_values(|m: WordFrontierMember| m@) == stable_sort(
            input@.map_values(|m: WordFrontierMember| m@),
            ascending,
        ),
        r@.map_values(|m: WordFrontierMember| m@).to_multiset() == input@.map_values(
            |m: WordFrontierMember| m@,
        ).to_multiset(),
        ascending ==> sorted_asc(r@.map_values(|m: WordFrontierMember| m@)),
        !ascending ==> sorted_desc(r@.map_values(|m: WordFrontierMember| m@)),
{
    let ghost orig = input@.map_values(|m: WordFrontierMember| m@);
    let mut rest = input;
    let mut out: Vec<WordFrontierMember> = Vec::new();
    proof {
        broadcast use vstd::seq_lib::group_to_multiset_ensures;

        assert(out@.map_values(|m: WordFrontierMember| m@) =~= Seq::<WfmV>::empty());
        assert(out@.map_values(|m: WordFrontierMember| m@).to_multiset().add(
            rest@.map_values(|m: WordFrontierMember| m@).to_multiset(),
        ) =~= orig.to_multiset());
        assert(stable_sort(orig, ascending) == sort_acc(
            out@.map_values(|m: WordFrontierMember| m@),
            rest@.map_values(|m: WordFrontierMember| m@),
            ascending,
        ));
    }
    while rest.len() > 0
        invariant
            stable_sort(orig, ascending) == sort_acc(
                out@.map_values(|m: WordFrontierMember| m@),
                rest@.map_values(|m: WordFrontierMember| m@),
                ascending,
            ),
            out@.map_values(|m: WordFrontierMember| m@).to_multiset().add(
                rest@.map_values(|m: WordFrontierMember| m@).to_multiset(),
            ) == orig.to_multiset(),
            ascending ==> sorted_asc(out@.map_values(|m: WordFrontierMember| m@)),
            !ascending ==> sorted_desc(out@.map_values(|m: WordFrontierMember| m@)),
        decreases rest@.len(),
    {
        let ghost rest0 = rest@.map_values(|m: WordFrontierMember| m@);
        let ghost out0 = out@.map_values(|m: WordFrontierMember| m@);
        let x = rest.remove(0);
        proof {
            broadcast use vstd::seq_lib::group_to_multiset_ensures;

            assert(rest@.map_values(|m: WordFrontierMember| m@) =~= rest0.remove(0));
            assert(rest0.remove(0).to_multiset() == rest0.to_multiset().remove(rest0[0]));
            assert(rest0.to_multiset().count(rest0[0]) > 0);
        }
        let olen = out.len();
        let mut pos: usize = 0;
        let mut scanning = true;
        while scanning
            invariant
                olen == out@.len(),
                0 <= pos <= olen,
                out0 == out@.map_values(|m: WordFrontierMember| m@),
                ascending ==> forall|k: int| 0 <= k < pos ==> (#[trigger] out0[k]).freq <= x@.freq,
                !ascending ==> forall|k: int| 0 <= k < pos ==> (#[trigger] out0[k]).freq >= x@.freq,
                !scanning ==> pos == olen || (if ascending {
                    out0[pos as int].freq > x@.freq
                } else {
                    out0[pos as int].freq < x@.freq
                }),
            decreases olen - pos + (if scanning {
                1int
            } else {
                0int
            }),
        {
            if pos < olen {
                let advance = if ascending {
                    out[pos].unknown_word_freq <= x.unknown_word_freq
                } else {
                    out[pos].unknown_word_freq >= x.unknown_word_freq
                };
                if advance {
                    pos = pos + 1;
                } else {
                    scanning = false;
                }
            } else {
                scanning = false;
            }
        }
        let ghost xv = x@;
        out.insert(pos, x);
        proof {
            broadcast use vstd::seq_lib::group_to_multiset_ensures;

            let out1 = out@.map_values(|m: WordFrontierMember| m@);
            assert(out1 =~= out0.insert(pos as int, xv));
            assert(out0.insert(pos as int, xv).to_multiset() == out0.to_multiset().insert(xv));
            assert(out1.to_multiset().add(rest0.remove(0).to_multiset()) =~= orig.to_multiset());
            lemma_insert_pos_first(out0, xv, ascending, pos as int);
            assert(out1 == stable_insert(out0, xv, ascending));
            assert(rest0[0] == xv);
            assert(rest0.remove(0) =~= rest0.drop_first());
            assert(sort_acc(out0, rest0, ascending) == sort_acc(
                out1,
                rest0.drop_first(),
                ascending,
            ));
            if ascending {
                assert forall|a: int, b: int| 0 <= a < b < out1.len() implies (
                #[trigger] out1[a]).freq <= (#[trigger] out1[b]).freq by {
                    if a < pos as int && b == pos as int {
                        assert(out0[a].freq <= xv.freq);
                    } else if a == pos as int && b > pos as int {
                        assert(out0[pos as int].freq > xv.freq || pos as int >= out0.len());
                        assert(out0[b - 1].freq >= out0[pos as int].freq);
                    } else if a < pos as int && b > pos as int {
                        assert(out0[a].freq <= out0[b - 1].freq);
                    } else if a > pos as int && b > pos as int {
                        assert(out0[a - 1].freq <= out0[b - 1].freq);
                    } else {
                        assert(out0[a].freq <= out0[b].freq);
                    }
                }
            } else {
                assert forall|a: int, b: int| 0 <= a < b < out1.len() implies (
                #[trigger] out1[a]).freq >= (#[trigger] out1[b]).freq by {
                    if a < pos as int && b == pos as int {
                        assert(out0[a].freq >= xv.freq);
                    } else if a == pos as int && b > pos as int {
                        assert(out0[pos as int].freq < xv.freq || pos as int >= out0.len());
                        assert(out0[b - 1].freq <= out0[pos as int].freq);
                    } else if a < pos as int && b > pos as int {
                        assert(out0[a].freq >= out0[b - 1].freq);
                    } else if a > pos as int && b > pos as int {
                        assert(out0[a - 1].freq >= out0[b - 1].freq);
                    } else {
                        assert(out0[a].freq >= out0[b].freq);
                    }
                }
            }
        }
    }
    proof {
        broadcast use vstd::seq_lib::group_to_multiset_ensures;

        assert(rest@.map_values(|m: WordFrontierMember| m@) =~= Seq::<WfmV>::empty());
        assert(out@.map_values(|m: WordFrontierMember| m@).to_multiset().add(
            Seq::<WfmV>::empty().to_multiset(),
        ) =~= out@.map_values(|m: WordFrontierMember| m@).to_multiset());
    }
    out
}

proof fn lemma_seq_min_push(s: Seq<int>, x: int)
    ensures
        seq_min(s.push(x)) == (if s.len() == 0 {
            x
        } else if x < seq_min(s) {
            x
        } else {
            seq_min(s)
        }),
{
    let p = s.push(x);
    assert(p.drop_last() =~= s);
    if s.len() == 0 {
        assert(p[0] == x);
    }
}

/// Everything of the composite store except the ledger is the same.
pub open spec fn hub_unchanged_but_ledger(a: &DbHub, b: &DbHub) -> bool {
    &&& b.langs_v() == a.langs_v()
    &&& b.target_corpus_v() == a.target_corpus_v()
    &&& b.reference_corpus_v() == a.reference_corpus_v()
    &&& b.translations_v() == a.translations_v()
    &&& b.target_lang() == a.target_lang()
    &&& b.target_lang_i32() == a.target_lang_i32()
    &&& b.reference_lang() == a.reference_lang()
    &&& b.config_target_short() == a.config_target_short()
    &&& b.config_reference_short() == a.config_reference_short()
}

/// Outcome of idempotent population of a corpus: skipped when data is there,
/// the batch-ingestion model when the corpus is empty.
pub open spec fn populate_corpus_model(c: CorpusV, lines: Seq<Seq<char>>) -> Option<CorpusV> {
    if corpus_empty(c) {
        ingest_lines(c, lines, 0)
    } else {
        Some(c)
    }
}

/// Outcome of idempotent population of the alignment dataset.
pub open spec fn populate_trans_model(rows: Seq<TranslationRow>, lines: Seq<Seq<char>>) -> Option<
    Seq<TranslationRow>,
> {
    if rows.len() == 0 {
        ingest_links(rows, lines, 0)
    } else {
        Some(rows)
    }
}

} // verus!
