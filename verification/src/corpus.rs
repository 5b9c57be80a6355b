use vstd::prelude::*;

verus! {

use crate::error::Error;
use crate::langs::LangRow;
use crate::text::{clean_tokens, int_literal_val, parses_to_i32, tsv_fields};

// ---------------------------------------------------------------------------
// Rows
// ---------------------------------------------------------------------------

/// A sentence of the corpus. The row id is the external identifier the
/// source dataset assigned, so translation links keep referring to it.
#[derive(Debug)]
pub struct SentenceRow {
    pub sentences_rowid: i32,
    pub lang_rowid: i32,
    pub text: String,
}

impl Clone for SentenceRow {
    fn clone(&self) -> (r: Self)
        ensures
            r == *self,
    {
        SentenceRow {
            sentences_rowid: self.sentences_rowid,
            lang_rowid: self.lang_rowid,
            text: self.text.clone(),
        }
    }
}

/// A word of the corpus with its occurrence count.
#[derive(Debug)]
pub struct WordRow {
    pub words_rowid: i32,
    pub lang_rowid: i32,
    pub text: String,
    pub freq: i32,
}

impl Clone for WordRow {
    fn clone(&self) -> (r: Self)
        ensures
            r == *self,
    {
        WordRow {
            words_rowid: self.words_rowid,
            lang_rowid: self.lang_rowid,
            text: self.text.clone(),
            freq: self.freq,
        }
    }
}

/// Membership of one word in one sentence; one row per distinct pair.
#[derive(Debug, Clone, Copy, PartialEq, Eq, Structural)]
pub struct SentenceMembershipRow {
    pub sentence_memberships_rowid: i32,
    pub sentence_rowid: i32,
    pub word_rowid: i32,
}

/// A frontier sentence paired with one of its translations.
#[derive(Debug)]
pub struct WordFrontierWithTranslation {
    pub target_lang_sentence_rowid: i32,
    pub target_lang_text: String,
    pub reference_lang_sentence_rowid: i32,
    pub reference_lang_text: String,
}

/// Which role a corpus plays in a language pair.
#[derive(Debug, Clone, Copy)]
pub enum CorpusPurpose {
    TargetLang,
    ReferenceLang,
}

/// The dataset name a corpus is addressed by in a composite store.
pub open spec fn purpose_database_name(p: CorpusPurpose) -> Seq<char> {
    match p {
        CorpusPurpose::TargetLang => "target_corpus_db"@,
        CorpusPurpose::ReferenceLang => "reference_corpus_db"@,
    }
}

impl CorpusPurpose {
    pub fn database_name(self) -> (r: &'static str)
        ensures
            r@ == purpose_database_name(self),
    {
        match self {
            CorpusPurpose::TargetLang => "target_corpus_db",
            CorpusPurpose::ReferenceLang => "reference_corpus_db",
        }
    }
}

// ---------------------------------------------------------------------------
// Mathematical views
// ---------------------------------------------------------------------------

/// View of a sentence row.
#[verifier::ext_equal]
pub struct SentV {
    pub rowid: int,
    pub lang: int,
    pub text: Seq<char>,
}

/// View of a word row.
#[verifier::ext_equal]
pub struct WordV {
    pub rowid: int,
    pub lang: int,
    pub text: Seq<char>,
    pub freq: int,
}

/// View of a membership row.
#[verifier::ext_equal]
pub struct MemV {
    pub rowid: int,
    pub sentence: int,
    pub word: int,
}

/// View of a whole corpus.
#[verifier::ext_equal]
pub struct CorpusV {
    pub lang: int,
    pub sentences: Seq<SentV>,
    pub words: Seq<WordV>,
    pub mems: Seq<MemV>,
}

impl View for SentenceRow {
    type V = SentV;

    open spec fn view(&self) -> SentV {
        SentV { rowid: self.sentences_rowid as int, lang: self.lang_rowid as int, text: self.text@ }
    }
}

impl View for WordRow {
    type V = WordV;

    open spec fn view(&self) -> WordV {
        WordV {
            rowid: self.words_rowid as int,
            lang: self.lang_rowid as int,
            text: self.text@,
            freq: self.freq as int,
        }
    }
}

impl View for SentenceMembershipRow {
    type V = MemV;

    open spec fn view(&self) -> MemV {
        MemV {
            rowid: self.sentence_memberships_rowid as int,
            sentence: self.sentence_rowid as int,
            word: self.word_rowid as int,
        }
    }
}

/// Assembles a corpus view from row storage.
pub open spec fn mk_corpus(
    lang: i32,
    sentences: Seq<SentenceRow>,
    words: Seq<WordRow>,
    mems: Seq<SentenceMembershipRow>,
) -> CorpusV {
    CorpusV {
        lang: lang as int,
        sentences: sentences.map_values(|r: SentenceRow| r@),
        words: words.map_values(|r: WordRow| r@),
        mems: mems.map_values(|r: SentenceMembershipRow| r@),
    }
}

// ---------------------------------------------------------------------------
// Corpus well-formedness
// ---------------------------------------------------------------------------

/// Whether some sentence carries the given row id.
pub open spec fn sent_present(sentences: Seq<SentV>, rowid: int) -> bool {
    exists|j: int| 0 <= j < sentences.len() && sentences[j].rowid == rowid
}

/// Whether a sentence with this row id or this text is already stored.
pub open spec fn sent_dup(sentences: Seq<SentV>, sv: SentV) -> bool {
    exists|j: int|
        0 <= j < sentences.len() && (sentences[j].rowid == sv.rowid || sentences[j].text == sv.text)
}

/// Whether the membership `(sentence, word)` is already stored.
pub open spec fn mem_present(mems: Seq<MemV>, sid: int, wid: int) -> bool {
    exists|j: int| 0 <= j < mems.len() && mems[j].sentence == sid && mems[j].word == wid
}

/// Index of the first word with the given text, or -1.
pub open spec fn word_index(words: Seq<WordV>, text: Seq<char>) -> int
    decreases words.len(),
{
    if words.len() == 0 {
        -1
    } else if words[0].text == text {
        0
    } else {
        let r = word_index(words.drop_first(), text);
        if r < 0 {
            -1
        } else {
            r + 1
        }
    }
}

pub proof fn lemma_word_index(words: Seq<WordV>, text: Seq<char>)
    ensures
        word_index(words, text) >= 0 <==> exists|j: int|
            0 <= j < words.len() && words[j].text == text,
        word_index(words, text) >= 0 ==> word_index(words, text) < words.len() && words[word_index(
            words,
            text,
        )].text == text,
    decreases words.len(),
{
    if words.len() > 0 {
        lemma_word_index(words.drop_first(), text);
        if (exists|j: int| 0 <= j < words.len() && words[j].text == text) && words[0].text
            != text {
            let j = choose|j: int| 0 <= j < words.len() && words[j].text == text;
            assert(words.drop_first()[j - 1].text == text);
        }
    }
}

proof fn lemma_word_index_first(words: Seq<WordV>, text: Seq<char>, j: int)
    requires
        0 <= j < words.len(),
        words[j].text == text,
        forall|k: int| 0 <= k < j ==> words[k].text != text,
    ensures
        word_index(words, text) == j,
    decreases words.len(),
{
    if j > 0 {
        lemma_word_index_first(words.drop_first(), text, j - 1);
    }
}

/// The invariants of a corpus: word row ids are sequential positions, word
/// texts unique, frequencies at least one; membership row ids sequential,
/// pairs unique, each membership referencing a stored word and sentence;
/// sentence row ids and texts unique; everything in the corpus language.
pub open spec fn corpus_wf(c: CorpusV) -> bool {
    &&& c.words.len() <= 0x7fff_ffff
    &&& c.mems.len() <= 0x7fff_ffff
    &&& forall|i: int| 0 <= i < c.sentences.len() ==> (#[trigger] c.sentences[i]).lang == c.lang
    &&& forall|i: int, j: int|
        0 <= i < j < c.sentences.len() ==> (#[trigger] c.sentences[i]).rowid != (
        #[trigger] c.sentences[j]).rowid && c.sentences[i].text != c.sentences[j].text
    &&& forall|i: int|
        0 <= i < c.words.len() ==> (#[trigger] c.words[i]).rowid == i + 1 && c.words[i].lang
            == c.lang && 1 <= c.words[i].freq <= 0x7fff_ffff
    &&& forall|i: int, j: int|
        0 <= i < j < c.words.len() ==> (#[trigger] c.words[i]).text != (#[trigger] c.words[j]).text
    &&& forall|i: int|
        0 <= i < c.mems.len() ==> (#[trigger] c.mems[i]).rowid == i + 1 && 1 <= c.mems[i].word
            <= c.words.len() && sent_present(c.sentences, c.mems[i].sentence)
    &&& forall|i: int, j: int|
        0 <= i < j < c.mems.len() ==> !((#[trigger] c.mems[i]).sentence == (
        #[trigger] c.mems[j]).sentence && c.mems[i].word == c.mems[j].word)
}

/// The views of a batch of text lines.
pub open spec fn lines_view(lines: Seq<String>) -> Seq<Seq<char>> {
    lines.map_values(|l: String| l@)
}

/// A corpus holding nothing yet.
pub open spec fn corpus_empty(c: CorpusV) -> bool {
    c.sentences.len() == 0 && c.words.len() == 0 && c.mems.len() == 0
}

// ---------------------------------------------------------------------------
// The ingestion model
// ---------------------------------------------------------------------------

/// Records membership of `wid` in `sid`, skipping a pair already present
/// (set semantics). `None` when the membership row-id space is exhausted.
pub open spec fn add_membership(c: CorpusV, sid: int, wid: int) -> Option<CorpusV> {
    if mem_present(c.mems, sid, wid) {
        Some(c)
    } else if c.mems.len() + 1 > 0x7fff_ffff {
        None
    } else {
        Some(
            CorpusV {
                lang: c.lang,
                sentences: c.sentences,
                words: c.words,
                mems: c.mems.push(MemV { rowid: c.mems.len() as int + 1, sentence: sid, word: wid }),
            },
        )
    }
}

/// Ingests one token of sentence `sid`: a known text gets its frequency
/// bumped, a new text a fresh sequential word id with frequency one; either
/// way the membership is recorded. `None` when a counter would overflow.
pub open spec fn ingest_token(c: CorpusV, sid: int, tok: Seq<char>) -> Option<CorpusV> {
    let j = word_index(c.words, tok);
    if j >= 0 {
        let w = c.words[j];
        if w.freq + 1 > 0x7fff_ffff {
            None
        } else {
            let c1 = CorpusV {
                lang: c.lang,
                sentences: c.sentences,
                words: c.words.update(
                    j,
                    WordV { rowid: w.rowid, lang: w.lang, text: w.text, freq: w.freq + 1 },
                ),
                mems: c.mems,
            };
            add_membership(c1, sid, w.rowid)
        }
    } else {
        if c.words.len() + 1 > 0x7fff_ffff {
            None
        } else {
            let c1 = CorpusV {
                lang: c.lang,
                sentences: c.sentences,
                words: c.words.push(
                    WordV { rowid: c.words.len() as int + 1, lang: c.lang, text: tok, freq: 1 },
                ),
                mems: c.mems,
            };
            add_membership(c1, sid, c.words.len() as int + 1)
        }
    }
}

/// Ingests the tokens of sentence `sid` from position `i` on, in order.
pub open spec fn ingest_tokens(c: CorpusV, sid: int, toks: Seq<Seq<char>>, i: int) -> Option<
    CorpusV,
>
    decreases toks.len() - i,
{
    if i < 0 || i >= toks.len() {
        Some(c)
    } else {
        match ingest_token(c, sid, toks[i]) {
            Some(c2) => ingest_tokens(c2, sid, toks, i + 1),
            None => None,
        }
    }
}

/// Ingests one parsed sentence: a duplicate row id or text is rejected whole
/// (not re-tokenized); otherwise the sentence is stored and its word tokens
/// ingested.
pub open spec fn ingest_sentence(c: CorpusV, sv: SentV) -> Option<CorpusV> {
    if sent_dup(c.sentences, sv) {
        Some(c)
    } else {
        let c1 = CorpusV {
            lang: c.lang,
            sentences: c.sentences.push(sv),
            words: c.words,
            mems: c.mems,
        };
        ingest_tokens(c1, sv.rowid, clean_tokens(sv.text), 0)
    }
}

/// The sentence a well-formed corpus line describes: four tab-separated
/// fields, the first an integer row id, the third the text (the second names
/// the language, the fourth is carried by the feed and ignored). `None` for
/// a malformed line.
pub open spec fn line_sentence(line: Seq<char>, lang: int) -> Option<SentV> {
    let fs = tsv_fields(line);
    if fs.len() == 4 && parses_to_i32(fs[0]) {
        Some(SentV { rowid: int_literal_val(fs[0]), lang, text: fs[2] })
    } else {
        None
    }
}

/// Ingests the corpus lines from position `i` on: malformed lines are
/// skipped, well-formed ones ingested, in order.
pub open spec fn ingest_lines(c: CorpusV, lines: Seq<Seq<char>>, i: int) -> Option<CorpusV>
    decreases lines.len() - i,
{
    if i < 0 || i >= lines.len() {
        Some(c)
    } else {
        match line_sentence(lines[i], c.lang) {
            None => ingest_lines(c, lines, i + 1),
            Some(sv) => match ingest_sentence(c, sv) {
                Some(c2) => ingest_lines(c2, lines, i + 1),
                None => None,
            },
        }
    }
}

// ---------------------------------------------------------------------------
// Row parsing
// ---------------------------------------------------------------------------

impl SentenceRow {
    /// Parses one corpus line: four tab-separated fields whose first is an
    /// integer sentence row id and whose third is the sentence text.
    /// `Malformed` exactly on every other line.
    pub fn from_tsv(tsv: &str, lang_rowid: i32) -> (r: Result<SentenceRow, Error>)
        ensures
            r is Ok <==> (tsv_fields(tsv@).len() == 4 && parses_to_i32(tsv_fields(tsv@)[0])),
            r matches Ok(row) ==> row.sentences_rowid as int == int_literal_val(tsv_fields(tsv@)[0])
                && row.lang_rowid == lang_rowid && row.text@ == tsv_fields(tsv@)[2],
            r matches Err(e) ==> e is Malformed,
    {
        let mut fields = split_tabs_owned(tsv);
        if fields.len() != 4 {
            return Err(Error::Malformed(String::from_str("expected four tab-separated fields")));
        }
        let id = match crate::text::parse_i32(fields[0].as_str()) {
            Ok(id) => id,
            Err(e) => {
                return Err(e);
            },
        };
        let text = fields.remove(2);
        Ok(SentenceRow { sentences_rowid: id, lang_rowid, text })
    }
}

// ---------------------------------------------------------------------------
// The corpus dataset
// ---------------------------------------------------------------------------

/// One language's corpus: its sentences, its words with frequencies, and the
/// sentence-to-word membership relation.
pub struct CorpusDb {
    lang_rowid: i32,
    sentences: Vec<SentenceRow>,
    words: Vec<WordRow>,
    memberships: Vec<SentenceMembershipRow>,
}

impl View for CorpusDb {
    type V = CorpusV;

    closed spec fn view(&self) -> CorpusV {
        mk_corpus(self.lang_rowid, self.sentences@, self.words@, self.memberships@)
    }
}

impl CorpusDb {
    pub open spec fn wf(&self) -> bool {
        corpus_wf(self@)
    }

    /// An empty corpus for the given language.
    pub fn open(lang_row: LangRow) -> (c: CorpusDb)
        ensures
            c@.lang == lang_row.langs_rowid as int,
            c@.sentences == Seq::<SentV>::empty(),
            c@.words == Seq::<WordV>::empty(),
            c@.mems == Seq::<MemV>::empty(),
            c.wf(),
    {
        let c = CorpusDb {
            lang_rowid: lang_row.langs_rowid,
            sentences: Vec::new(),
            words: Vec::new(),
            memberships: Vec::new(),
        };
        proof {
            assert(c@.sentences =~= Seq::<SentV>::empty());
            assert(c@.words =~= Seq::<WordV>::empty());
            assert(c@.mems =~= Seq::<MemV>::empty());
        }
        c
    }

    /// Imports a batch of corpus lines, atomically: malformed lines are
    /// skipped, well-formed ones indexed into the existing corpus, so a
    /// corpus grows across imports; a sentence whose row id or text is
    /// already stored is rejected whole (not re-tokenized), so re-importing
    /// the same lines changes nothing. When the row-id or frequency space
    /// runs out nothing of the batch is kept and `StorageFailure` comes
    /// back.
    pub fn populate(&mut self, lines: &Vec<String>) -> (r: Result<(), Error>)
        requires
            old(self).wf(),
        ensures
            final(self).wf(),
            final(self)@.lang == old(self)@.lang,
            (match ingest_lines(old(self)@, lines_view(lines@), 0) {
                Some(c) => r is Ok && final(self)@ == c,
                None => r matches Err(e) && e is StorageFailure && final(self)@ == old(self)@,
            }),
    {
        let ghost c0 = self@;
        let ghost lines_v = lines_view(lines@);
        let lang = self.lang_rowid;
        let mut sentences: Vec<SentenceRow> = Vec::new();
        let mut words: Vec<WordRow> = Vec::new();
        let mut mems: Vec<SentenceMembershipRow> = Vec::new();
        let stored_s = self.sentences.len();
        let mut ci: usize = 0;
        while ci < stored_s
            invariant
                stored_s == self.sentences@.len(),
                0 <= ci <= stored_s,
                *self == *old(self),
                sentences@ == self.sentences@.take(ci as int),
            decreases stored_s - ci,
        {
            let row = self.sentences[ci].clone();
            sentences.push(row);
            proof {
                assert(sentences@ =~= self.sentences@.take(ci + 1));
            }
            ci = ci + 1;
        }
        let stored_w = self.words.len();
        let mut cw: usize = 0;
        while cw < stored_w
            invariant
                stored_w == self.words@.len(),
                0 <= cw <= stored_w,
                *self == *old(self),
                words@ == self.words@.take(cw as int),
            decreases stored_w - cw,
        {
            let row = self.words[cw].clone();
            words.push(row);
            proof {
                assert(words@ =~= self.words@.take(cw + 1));
            }
            cw = cw + 1;
        }
        let stored_m = self.memberships.len();
        let mut cm: usize = 0;
        while cm < stored_m
            invariant
                stored_m == self.memberships@.len(),
                0 <= cm <= stored_m,
                *self == *old(self),
                mems@ == self.memberships@.take(cm as int),
            decreases stored_m - cm,
        {
            let row = self.memberships[cm];
            mems.push(row);
            proof {
                assert(mems@ =~= self.memberships@.take(cm + 1));
            }
            cm = cm + 1;
        }
        proof {
            assert(sentences@ =~= self.sentences@);
            assert(words@ =~= self.words@);
            assert(mems@ =~= self.memberships@);
            assert(mk_corpus(lang, sentences@, words@, mems@) =~= c0);
        }
        let n = lines.len();
        let mut li: usize = 0;
        while li < n
            invariant
                n == lines@.len(),
                0 <= li <= n,
                lines_v == lines_view(lines@),
                c0 == old(self)@,
                *self == *old(self),
                old(self).wf(),
                corpus_wf(mk_corpus(lang, sentences@, words@, mems@)),
                mk_corpus(lang, sentences@, words@, mems@).lang == lang as int,
                ingest_lines(c0, lines_v, 0) == ingest_lines(
                    mk_corpus(lang, sentences@, words@, mems@),
                    lines_v,
                    li as int,
                ),
            decreases n - li,
        {
            let ghost cur = mk_corpus(lang, sentences@, words@, mems@);
            let line = &lines[li];
            match SentenceRow::from_tsv(line.as_str(), lang) {
                Err(_) => {
                    proof {
                        assert(lines_v[li as int] == lines@[li as int]@);
                        assert(line_sentence(lines_v[li as int], cur.lang) is None);
                    }
                },
                Ok(row) => {
                    let ghost sv = row@;
                    proof {
                        assert(lines_v[li as int] == lines@[li as int]@);
                        assert(sv =~= (SentV {
                            rowid: int_literal_val(tsv_fields(lines_v[li as int])[0]),
                            lang: lang as int,
                            text: tsv_fields(lines_v[li as int])[2],
                        }));
                        assert(line_sentence(lines_v[li as int], cur.lang) == Some(sv));
                    }
                    if sent_dup_exec(&sentences, &row) {
                        proof {
                            assert(ingest_sentence(cur, sv) == Some(cur));
                        }
                    } else {
                        let sid = row.sentences_rowid;
                        let tokens = crate::text::tokenize(row.text.as_str());
                        let ghost toks = tokens@.map_values(|t: String| t@);
                        sentences.push(row);
                        let ghost sents_v = sentences@.map_values(|s: SentenceRow| s@);
                        proof {
                            assert(sents_v =~= cur.sentences.push(sv));
                            let c1 = mk_corpus(lang, sentences@, words@, mems@);
                            assert(c1 =~= (CorpusV {
                                lang: cur.lang,
                                sentences: cur.sentences.push(sv),
                                words: cur.words,
                                mems: cur.mems,
                            }));
                            lemma_wf_push_sentence(cur, sv, c1);
                            assert(sents_v[sents_v.len() - 1].rowid == sid as int);
                            assert(sent_present(sents_v, sid as int));
                            assert(toks == clean_tokens(sv.text));
                            assert(ingest_sentence(cur, sv) == ingest_tokens(
                                c1,
                                sv.rowid,
                                toks,
                                0,
                            ));
                        }
                        let tn = tokens.len();
                        let mut ti: usize = 0;
                        while ti < tn
                            invariant
                                tn == tokens@.len(),
                                0 <= ti <= tn,
                                toks == tokens@.map_values(|t: String| t@),
                                sentences@.map_values(|s: SentenceRow| s@) == sents_v,
                                sent_present(sents_v, sid as int),
                                lines_v == lines_view(lines@),
                                c0 == old(self)@,
                                *self == *old(self),
                                old(self).wf(),
                                corpus_wf(mk_corpus(lang, sentences@, words@, mems@)),
                                ingest_lines(c0, lines_v, 0) == (match ingest_tokens(
                                    mk_corpus(lang, sentences@, words@, mems@),
                                    sid as int,
                                    toks,
                                    ti as int,
                                ) {
                                    Some(c2) => ingest_lines(c2, lines_v, li + 1),
                                    None => None,
                                }),
                            decreases tn - ti,
                        {
                            let tok = &tokens[ti];
                            let ghost curt = mk_corpus(lang, sentences@, words@, mems@);
                            proof {
                                assert(mk_parts(lang, sents_v, words@, mems@) =~= curt);
                                assert(tok@ == toks[ti as int]);
                            }
                            match ingest_token_exec(
                                lang,
                                Ghost(sents_v),
                                &mut words,
                                &mut mems,
                                sid,
                                tok,
                            ) {
                                Ok(_) => {
                                    proof {
                                        assert(mk_parts(lang, sents_v, words@, mems@) =~= mk_corpus(
                                            lang,
                                            sentences@,
                                            words@,
                                            mems@,
                                        ));
                                    }
                                },
                                Err(e) => {
                                    proof {
                                        assert(mk_parts(lang, sents_v, words@, mems@) =~= curt);
                                        assert(ingest_token(
                                            curt,
                                            sid as int,
                                            toks[ti as int],
                                        ) is None);
                                        assert(ingest_tokens(
                                            curt,
                                            sid as int,
                                            toks,
                                            ti as int,
                                        ) is None);
                                        assert(ingest_lines(c0, lines_v, 0) is None);
                                    }
                                    return Err(e);
                                },
                            }
                            ti = ti + 1;
                        }
                        proof {
                            assert(ingest_tokens(
                                mk_corpus(lang, sentences@, words@, mems@),
                                sid as int,
                                toks,
                                tn as int,
                            ) == Some(mk_corpus(lang, sentences@, words@, mems@)));
                        }
                    }
                },
            }
            li = li + 1;
        }
        proof {
            assert(ingest_lines(mk_corpus(lang, sentences@, words@, mems@), lines_v, n as int)
                == Some(mk_corpus(lang, sentences@, words@, mems@)));
        }
        let ghost result_v = mk_corpus(lang, sentences@, words@, mems@);
        self.sentences = sentences;
        self.words = words;
        self.memberships = mems;
        proof {
            assert(self@ =~= result_v);
        }
        Ok(())
    }
}

/// Index of the first sentence with the given row id, or -1.
pub open spec fn sent_index(sentences: Seq<SentV>, rowid: int) -> int
    decreases sentences.len(),
{
    if sentences.len() == 0 {
        -1
    } else if sentences[0].rowid == rowid {
        0
    } else {
        let r = sent_index(sentences.drop_first(), rowid);
        if r < 0 {
            -1
        } else {
            r + 1
        }
    }
}

pub proof fn lemma_sent_index(sentences: Seq<SentV>, rowid: int)
    ensures
        sent_index(sentences, rowid) >= 0 <==> sent_present(sentences, rowid),
        sent_index(sentences, rowid) >= 0 ==> sent_index(sentences, rowid) < sentences.len()
            && sentences[sent_index(sentences, rowid)].rowid == rowid,
    decreases sentences.len(),
{
    if sentences.len() > 0 {
        lemma_sent_index(sentences.drop_first(), rowid);
        if sent_present(sentences, rowid) && sentences[0].rowid != rowid {
            let j = choose|j: int| 0 <= j < sentences.len() && sentences[j].rowid == rowid;
            assert(sentences.drop_first()[j - 1].rowid == rowid);
        }
    }
}

proof fn lemma_sent_index_first(sentences: Seq<SentV>, rowid: int, j: int)
    requires
        0 <= j < sentences.len(),
        sentences[j].rowid == rowid,
        forall|k: int| 0 <= k < j ==> sentences[k].rowid != rowid,
    ensures
        sent_index(sentences, rowid) == j,
    decreases sentences.len(),
{
    if j > 0 {
        lemma_sent_index_first(sentences.drop_first(), rowid, j - 1);
    }
}

impl CorpusDb {
    /// Number of stored sentences.
    pub fn num_sentences(&self) -> (n: usize)
        ensures
            n == self@.sentences.len(),
    {
        self.sentences.len()
    }

    /// The sentence at a storage position.
    pub fn sentence_at(&self, i: usize) -> (s: &SentenceRow)
        requires
            i < self@.sentences.len(),
        ensures
            s@ == self@.sentences[i as int],
    {
        &self.sentences[i]
    }

    /// Number of stored words.
    pub fn num_words(&self) -> (n: usize)
        ensures
            n == self@.words.len(),
    {
        self.words.len()
    }

    /// The word at a storage position.
    pub fn word_at(&self, i: usize) -> (w: &WordRow)
        requires
            i < self@.words.len(),
        ensures
            w@ == self@.words[i as int],
    {
        &self.words[i]
    }

    /// Number of stored memberships.
    pub fn num_memberships(&self) -> (n: usize)
        ensures
            n == self@.mems.len(),
    {
        self.memberships.len()
    }

    /// The membership at a storage position.
    pub fn membership_at(&self, i: usize) -> (m: SentenceMembershipRow)
        requires
            i < self@.mems.len(),
        ensures
            m@ == self@.mems[i as int],
    {
        self.memberships[i]
    }

    /// Finds the storage position of the sentence with the given row id;
    /// `None` exactly when no sentence carries it.
    pub fn find_sentence(&self, rowid: i32) -> (r: Option<usize>)
        ensures
            (r matches Some(j) ==> j < self@.sentences.len() && sent_index(
                self@.sentences,
                rowid as int,
            ) == j as int),
            r is None ==> !sent_present(self@.sentences, rowid as int),
    {
        let ghost sv = self@.sentences;
        let n = self.sentences.len();
        let mut j: usize = 0;
        while j < n
            invariant
                sv == self@.sentences,
                n == self.sentences@.len(),
                n == sv.len(),
                0 <= j <= n,
                forall|k: int| 0 <= k < j ==> sv[k].rowid != rowid as int,
            decreases n - j,
        {
            if self.sentences[j].sentences_rowid == rowid {
                proof {
                    assert(sv[j as int].rowid == rowid as int);
                    lemma_sent_index_first(sv, rowid as int, j as int);
                }
                return Some(j);
            }
            j = j + 1;
        }
        None
    }
}

/// Assembles a corpus view from a sentence view and row storage.
pub open spec fn mk_parts(
    lang: i32,
    sentences: Seq<SentV>,
    words: Seq<WordRow>,
    mems: Seq<SentenceMembershipRow>,
) -> CorpusV {
    CorpusV {
        lang: lang as int,
        sentences,
        words: words.map_values(|r: WordRow| r@),
        mems: mems.map_values(|r: SentenceMembershipRow| r@),
    }
}

/// First stored word with the given text, if any.
fn find_word_idx(words: &Vec<WordRow>, tok: &String) -> (r: Option<usize>)
    ensures
        (r matches Some(j) ==> j < words@.len() && word_index(
            words@.map_values(|w: WordRow| w@),
            tok@,
        ) == j as int),
        r is None ==> word_index(words@.map_values(|w: WordRow| w@), tok@) == -1,
{
    let ghost wv = words@.map_values(|w: WordRow| w@);
    let n = words.len();
    let mut j: usize = 0;
    while j < n
        invariant
            wv == words@.map_values(|w: WordRow| w@),
            n == words@.len(),
            0 <= j <= n,
            forall|k: int| 0 <= k < j ==> wv[k].text != tok@,
        decreases n - j,
    {
        if words[j].text == *tok {
            proof {
                lemma_word_index_first(wv, tok@, j as int);
            }
            return Some(j);
        }
        j = j + 1;
    }
    proof {
        lemma_word_index(wv, tok@);
    }
    None
}

/// Whether the membership `(sid, wid)` is stored.
fn mem_exists(mems: &Vec<SentenceMembershipRow>, sid: i32, wid: i32) -> (r: bool)
    ensures
        r == mem_present(mems@.map_values(|m: SentenceMembershipRow| m@), sid as int, wid as int),
{
    let ghost mv = mems@.map_values(|m: SentenceMembershipRow| m@);
    let n = mems.len();
    let mut j: usize = 0;
    while j < n
        invariant
            mv == mems@.map_values(|m: SentenceMembershipRow| m@),
            n == mems@.len(),
            0 <= j <= n,
            forall|k: int| 0 <= k < j ==> !(mv[k].sentence == sid as int && mv[k].word == wid as int),
        decreases n - j,
    {
        let m = mems[j];
        if m.sentence_rowid == sid && m.word_rowid == wid {
            assert(mv[j as int].sentence == sid as int && mv[j as int].word == wid as int);
            return true;
        }
        j = j + 1;
    }
    false
}

/// Whether a sentence with this row id or text is stored.
fn sent_dup_exec(sentences: &Vec<SentenceRow>, row: &SentenceRow) -> (r: bool)
    ensures
        r == sent_dup(sentences@.map_values(|s: SentenceRow| s@), row@),
{
    let ghost sv = sentences@.map_values(|s: SentenceRow| s@);
    let n = sentences.len();
    let mut j: usize = 0;
    while j < n
        invariant
            sv == sentences@.map_values(|s: SentenceRow| s@),
            n == sentences@.len(),
            0 <= j <= n,
            forall|k: int|
                0 <= k < j ==> !(sv[k].rowid == row@.rowid || sv[k].text == row@.text),
        decreases n - j,
    {
        let s = &sentences[j];
        if s.sentences_rowid == row.sentences_rowid || s.text == row.text {
            assert(sv[j as int].rowid == row@.rowid || sv[j as int].text == row@.text);
            return true;
        }
        j = j + 1;
    }
    false
}

proof fn lemma_wf_bump(c: CorpusV, j: int, c2: CorpusV)
    requires
        corpus_wf(c),
        0 <= j < c.words.len(),
        c.words[j].freq + 1 <= 0x7fff_ffff,
        c2 == (CorpusV {
            lang: c.lang,
            sentences: c.sentences,
            words: c.words.update(
                j,
                WordV {
                    rowid: c.words[j].rowid,
                    lang: c.words[j].lang,
                    text: c.words[j].text,
                    freq: c.words[j].freq + 1,
                },
            ),
            mems: c.mems,
        }),
    ensures
        corpus_wf(c2),
{
    assert forall|i: int| 0 <= i < c2.words.len() implies (#[trigger] c2.words[i]).rowid == i + 1
        && c2.words[i].lang == c2.lang && 1 <= c2.words[i].freq <= 0x7fff_ffff by {
        assert(c.words[i].rowid == i + 1);
    }
    assert forall|a: int, b: int| 0 <= a < b < c2.words.len() implies (#[trigger] c2.words[a]).text
        != (#[trigger] c2.words[b]).text by {
        assert(c.words[a].text != c.words[b].text);
    }
}

proof fn lemma_wf_push_word(c: CorpusV, tok: Seq<char>, c2: CorpusV)
    requires
        corpus_wf(c),
        forall|k: int| 0 <= k < c.words.len() ==> (#[trigger] c.words[k]).text != tok,
        c.words.len() + 1 <= 0x7fff_ffff,
        c2 == (CorpusV {
            lang: c.lang,
            sentences: c.sentences,
            words: c.words.push(
                WordV { rowid: c.words.len() as int + 1, lang: c.lang, text: tok, freq: 1 },
            ),
            mems: c.mems,
        }),
    ensures
        corpus_wf(c2),
{
    assert forall|i: int| 0 <= i < c2.words.len() implies (#[trigger] c2.words[i]).rowid == i + 1
        && c2.words[i].lang == c2.lang && 1 <= c2.words[i].freq <= 0x7fff_ffff by {
        if i < c.words.len() {
            assert(c.words[i].rowid == i + 1);
        }
    }
    assert forall|a: int, b: int| 0 <= a < b < c2.words.len() implies (#[trigger] c2.words[a]).text
        != (#[trigger] c2.words[b]).text by {
        if b < c.words.len() {
            assert(c.words[a].text != c.words[b].text);
        } else {
            assert(c.words[a].text != tok);
        }
    }
    assert forall|i: int| 0 <= i < c2.mems.len() implies (#[trigger] c2.mems[i]).rowid == i + 1 && 1
        <= c2.mems[i].word <= c2.words.len() && sent_present(c2.sentences, c2.mems[i].sentence) by {
        assert(c.mems[i].rowid == i + 1);
        assert(1 <= c.mems[i].word <= c.words.len());
        assert(sent_present(c.sentences, c.mems[i].sentence));
    }
    assert forall|a: int, b: int| 0 <= a < b < c2.mems.len() implies !((
    #[trigger] c2.mems[a]).sentence == (#[trigger] c2.mems[b]).sentence && c2.mems[a].word
        == c2.mems[b].word) by {
        assert(!(c.mems[a].sentence == c.mems[b].sentence && c.mems[a].word == c.mems[b].word));
    }
    assert forall|i: int| 0 <= i < c2.sentences.len() implies (#[trigger] c2.sentences[i]).lang
        == c2.lang by {
        assert(c.sentences[i].lang == c.lang);
    }
    assert forall|a: int, b: int| 0 <= a < b < c2.sentences.len() implies (
    #[trigger] c2.sentences[a]).rowid != (#[trigger] c2.sentences[b]).rowid && c2.sentences[a].text
        != c2.sentences[b].text by {
        assert(c.sentences[a].rowid != c.sentences[b].rowid && c.sentences[a].text
            != c.sentences[b].text);
    }
}

proof fn lemma_wf_push_mem(c: CorpusV, sid: int, wid: int, c2: CorpusV)
    requires
        corpus_wf(c),
        !mem_present(c.mems, sid, wid),
        1 <= wid <= c.words.len(),
        sent_present(c.sentences, sid),
        c.mems.len() + 1 <= 0x7fff_ffff,
        c2 == (CorpusV {
            lang: c.lang,
            sentences: c.sentences,
            words: c.words,
            mems: c.mems.push(MemV { rowid: c.mems.len() as int + 1, sentence: sid, word: wid }),
        }),
    ensures
        corpus_wf(c2),
{
    assert forall|i: int| 0 <= i < c2.mems.len() implies (#[trigger] c2.mems[i]).rowid == i + 1 && 1
        <= c2.mems[i].word <= c2.words.len() && sent_present(c2.sentences, c2.mems[i].sentence) by {
        if i < c.mems.len() {
            assert(c.mems[i].rowid == i + 1);
        }
    }
    assert forall|a: int, b: int| 0 <= a < b < c2.mems.len() implies !((
    #[trigger] c2.mems[a]).sentence == (#[trigger] c2.mems[b]).sentence && c2.mems[a].word
        == c2.mems[b].word) by {
        if b < c.mems.len() {
            assert(!(c.mems[a].sentence == c.mems[b].sentence && c.mems[a].word == c.mems[b].word));
        } else {
            assert(!(c.mems[a].sentence == sid && c.mems[a].word == wid));
        }
    }
    assert forall|i: int| 0 <= i < c2.words.len() implies (#[trigger] c2.words[i]).rowid == i + 1
        && c2.words[i].lang == c2.lang && 1 <= c2.words[i].freq <= 0x7fff_ffff by {
        assert(c.words[i].rowid == i + 1);
        assert(c.words[i].lang == c.lang && 1 <= c.words[i].freq <= 0x7fff_ffff);
    }
    assert forall|a: int, b: int| 0 <= a < b < c2.words.len() implies (#[trigger] c2.words[a]).text
        != (#[trigger] c2.words[b]).text by {
        assert(c.words[a].text != c.words[b].text);
    }
    assert forall|i: int| 0 <= i < c2.sentences.len() implies (#[trigger] c2.sentences[i]).lang
        == c2.lang by {
        assert(c.sentences[i].lang == c.lang);
    }
    assert forall|a: int, b: int| 0 <= a < b < c2.sentences.len() implies (
    #[trigger] c2.sentences[a]).rowid != (#[trigger] c2.sentences[b]).rowid && c2.sentences[a].text
        != c2.sentences[b].text by {
        assert(c.sentences[a].rowid != c.sentences[b].rowid && c.sentences[a].text
            != c.sentences[b].text);
    }
}

proof fn lemma_wf_push_sentence(c: CorpusV, sv: SentV, c2: CorpusV)
    requires
        corpus_wf(c),
        !sent_dup(c.sentences, sv),
        sv.lang == c.lang,
        c2 == (CorpusV {
            lang: c.lang,
            sentences: c.sentences.push(sv),
            words: c.words,
            mems: c.mems,
        }),
    ensures
        corpus_wf(c2),
{
    assert forall|i: int| 0 <= i < c2.sentences.len() implies (#[trigger] c2.sentences[i]).lang
        == c2.lang by {
        if i < c.sentences.len() {
            assert(c.sentences[i].lang == c.lang);
        }
    }
    assert forall|a: int, b: int| 0 <= a < b < c2.sentences.len() implies (
    #[trigger] c2.sentences[a]).rowid != (#[trigger] c2.sentences[b]).rowid && c2.sentences[a].text
        != c2.sentences[b].text by {
        if b < c.sentences.len() {
            assert(c.sentences[a].rowid != c.sentences[b].rowid && c.sentences[a].text
                != c.sentences[b].text);
        } else {
            assert(!(c.sentences[a].rowid == sv.rowid || c.sentences[a].text == sv.text));
        }
    }
    assert forall|i: int| 0 <= i < c2.words.len() implies (#[trigger] c2.words[i]).rowid == i + 1
        && c2.words[i].lang == c2.lang && 1 <= c2.words[i].freq <= 0x7fff_ffff by {
        assert(c.words[i].rowid == i + 1);
        assert(c.words[i].lang == c.lang && 1 <= c.words[i].freq <= 0x7fff_ffff);
    }
    assert forall|a: int, b: int| 0 <= a < b < c2.words.len() implies (#[trigger] c2.words[a]).text
        != (#[trigger] c2.words[b]).text by {
        assert(c.words[a].text != c.words[b].text);
    }
    assert forall|i: int| 0 <= i < c2.mems.len() implies (#[trigger] c2.mems[i]).rowid == i + 1 && 1
        <= c2.mems[i].word <= c2.words.len() && sent_present(c2.sentences, c2.mems[i].sentence) by {
        assert(c.mems[i].rowid == i + 1);
        assert(1 <= c.mems[i].word <= c.words.len());
        assert(sent_present(c.sentences, c.mems[i].sentence));
        let j = choose|j: int|
            0 <= j < c.sentences.len() && c.sentences[j].rowid == c.mems[i].sentence;
        assert(c2.sentences[j].rowid == c.mems[i].sentence);
    }
    assert forall|a: int, b: int| 0 <= a < b < c2.mems.len() implies !((
    #[trigger] c2.mems[a]).sentence == (#[trigger] c2.mems[b]).sentence && c2.mems[a].word
        == c2.mems[b].word) by {
        assert(!(c.mems[a].sentence == c.mems[b].sentence && c.mems[a].word == c.mems[b].word));
    }
}

/// Ingests one token into the word and membership storage, exactly as the
/// `ingest_token` model says; fails, changing nothing, exactly when the model
/// says the row-id or frequency space is exhausted.
fn ingest_token_exec(
    lang: i32,
    sents: Ghost<Seq<SentV>>,
    words: &mut Vec<WordRow>,
    mems: &mut Vec<SentenceMembershipRow>,
    sid: i32,
    tok: &String,
) -> (r: Result<(), Error>)
    requires
        corpus_wf(mk_parts(lang, sents@, old(words)@, old(mems)@)),
        sent_present(sents@, sid as int),
    ensures
        (match ingest_token(mk_parts(lang, sents@, old(words)@, old(mems)@), sid as int, tok@) {
            Some(c2) => r is Ok && mk_parts(lang, sents@, final(words)@, final(mems)@) == c2
                && corpus_wf(c2),
            None => r matches Err(e) && e is StorageFailure && final(words)@ == old(words)@
                && final(mems)@ == old(mems)@,
        }),
{
    let ghost cur = mk_parts(lang, sents@, words@, mems@);
    let found = find_word_idx(words, tok);
    // the word id the token will have, and the overflow checks, before any change
    let wid: i32;
    match found {
        Some(j) => {
            if words[j].freq == 0x7fff_ffff {
                return Err(Error::StorageFailure);
            }
            wid = words[j].words_rowid;
        },
        None => {
            if words.len() >= 0x7fff_ffff {
                return Err(Error::StorageFailure);
            }
            wid = (words.len() + 1) as i32;
        },
    }
    let need_mem = !mem_exists(mems, sid, wid);
    if need_mem && mems.len() >= 0x7fff_ffff {
        return Err(Error::StorageFailure);
    }
    // now apply the changes
    match found {
        Some(j) => {
            let f = words[j].freq;
            words[j].freq = f + 1;
            proof {
                let w = cur.words[j as int];
                assert(words@.map_values(|r: WordRow| r@) =~= cur.words.update(
                    j as int,
                    WordV { rowid: w.rowid, lang: w.lang, text: w.text, freq: w.freq + 1 },
                ));
                let c1 = mk_parts(lang, sents@, words@, mems@);
                assert(c1 =~= (CorpusV {
                    lang: cur.lang,
                    sentences: cur.sentences,
                    words: cur.words.update(
                        j as int,
                        WordV { rowid: w.rowid, lang: w.lang, text: w.text, freq: w.freq + 1 },
                    ),
                    mems: cur.mems,
                }));
                lemma_wf_bump(cur, j as int, c1);
                assert(wid as int == w.rowid);
            }
        },
        None => {
            let row = WordRow {
                words_rowid: wid,
                lang_rowid: lang,
                text: tok.clone(),
                freq: 1,
            };
            words.push(row);
            proof {
                lemma_word_index(cur.words, tok@);
                assert(words@.map_values(|r: WordRow| r@) =~= cur.words.push(
                    WordV { rowid: cur.words.len() as int + 1, lang: lang as int, text: tok@, freq: 1 },
                ));
                let c1 = mk_parts(lang, sents@, words@, mems@);
                assert(c1 =~= (CorpusV {
                    lang: cur.lang,
                    sentences: cur.sentences,
                    words: cur.words.push(
                        WordV {
                            rowid: cur.words.len() as int + 1,
                            lang: cur.lang,
                            text: tok@,
                            freq: 1,
                        },
                    ),
                    mems: cur.mems,
                }));
                lemma_wf_push_word(cur, tok@, c1);
            }
        },
    }
    let ghost c1 = mk_parts(lang, sents@, words@, mems@);
    proof {
        assert(corpus_wf(c1));
        assert(c1.mems == cur.mems);
        assert(1 <= wid as int <= c1.words.len());
    }
    if need_mem {
        let mid = (mems.len() + 1) as i32;
        let m = SentenceMembershipRow {
            sentence_memberships_rowid: mid,
            sentence_rowid: sid,
            word_rowid: wid,
        };
        mems.push(m);
        proof {
            assert(mems@.map_values(|r: SentenceMembershipRow| r@) =~= c1.mems.push(
                MemV { rowid: c1.mems.len() as int + 1, sentence: sid as int, word: wid as int },
            ));
            let c2 = mk_parts(lang, sents@, words@, mems@);
            assert(c2 =~= (CorpusV {
                lang: c1.lang,
                sentences: c1.sentences,
                words: c1.words,
                mems: c1.mems.push(
                    MemV { rowid: c1.mems.len() as int + 1, sentence: sid as int, word: wid as int },
                ),
            }));
            lemma_wf_push_mem(c1, sid as int, wid as int, c2);
        }
    }
    proof {
        let c2 = mk_parts(lang, sents@, words@, mems@);
        assert(ingest_token(cur, sid as int, tok@) == Some(c2));
        assert(corpus_wf(c2));
    }
    Ok(())
}

fn split_tabs_owned(s: &str) -> (fields: Vec<String>)
    ensures
        fields@.map_values(|f: String| f@) == tsv_fields(s@),
        fields@.len() == tsv_fields(s@).len(),
{
    let fields = crate::text::split_tabs(s);
    proof {
        assert(fields@.len() == fields@.map_values(|f: String| f@).len());
    }
    fields
}

} // verus!
