use wordfrontier::{
    CorpusDb, DbHub, DbHubConfig, Error, Lang, LangRow, LangsDb, Order, Range, TranslationsDb,
};

fn registry() -> Vec<Lang> {
    vec![
        Lang {
            short: "deu".to_string(),
            long_english: "German".to_string(),
            long_native: "Deutsch".to_string(),
        },
        Lang {
            short: "eng".to_string(),
            long_english: "English".to_string(),
            long_native: "English".to_string(),
        },
    ]
}

fn to_strings(v: Vec<&str>) -> Vec<String> {
    v.into_iter().map(|s| s.to_string()).collect()
}

fn hub_with(target: Vec<&str>, reference: Vec<&str>, links: Vec<&str>) -> DbHub {
    let mut langs_db = LangsDb::new();
    langs_db.create_and_populate_if_missing(&registry()).unwrap();
    let config = DbHubConfig::new("deu", "eng", None, &registry()).unwrap();
    let mut hub = DbHub::from_config(config, langs_db).unwrap();
    hub.create_and_populate_missing_databases(
        &to_strings(target),
        &to_strings(reference),
        &to_strings(links),
    )
    .unwrap();
    hub
}

/// Word id of the word with the given text among the memberships of a
/// sentence.
fn word_id_in_sentence(hub: &DbHub, sentence_rowid: i32, text: &str) -> i32 {
    hub.query_sentence_membership_with_text_etc_v(sentence_rowid)
        .unwrap()
        .into_iter()
        .find(|m| m.word_text == text)
        .expect("word not in sentence")
        .word_rowid
}

#[test]
fn test_db_hub_query_word_frontier() {
    let target_lang_short = "deu";
    let reference_lang_short = "eng";

    let mut langs_db = LangsDb::new();
    langs_db.create_and_populate_if_missing(&registry()).unwrap();
    let db_hub = DbHub::from_config(
        DbHubConfig::new(target_lang_short, reference_lang_short, None, &registry()).unwrap(),
        langs_db,
    )
    .unwrap();
    let word_frontier_v = db_hub
        .query_word_frontier_v(Range(1, 1), Order::Ascending)
        .unwrap();
    println!("word_frontier_v: {:#?}", word_frontier_v);
    println!("word_frontier_v.len(): {:#?}", word_frontier_v.len());
}

#[test]
fn test_db_hub_query_known_word_with_text() {
    let target_lang_short = "deu";
    let reference_lang_short = "eng";

    let mut langs_db = LangsDb::new();
    langs_db.create_and_populate_if_missing(&registry()).unwrap();
    let db_hub = DbHub::from_config(
        DbHubConfig::new(target_lang_short, reference_lang_short, None, &registry()).unwrap(),
        langs_db,
    )
    .unwrap();
    let known_word_with_text_v = db_hub.query_known_word_with_text_v().unwrap();
    println!("known_word_with_text_v: {:#?}", known_word_with_text_v);
    println!("known_word_with_text_v.len(): {:#?}", known_word_with_text_v.len());
}

#[test]
fn test_db_hub_config_unknown_language() {
    let r = DbHubConfig::new("deu", "zzz", None, &registry());
    assert!(matches!(r, Err(Error::NotFound)));
}

#[test]
fn test_from_config_language_missing_in_registry_dataset() {
    // the config resolves against the injected registry, the hub against the
    // populated dataset: a language absent there is NotFound
    let langs_db = LangsDb::new();  // never populated
    let config = DbHubConfig::new("deu", "eng", None, &registry()).unwrap();
    assert!(matches!(DbHub::from_config(config, langs_db), Err(Error::NotFound)));
}

#[test]
fn test_rank_scenario_two_sentences() {
    let mut hub = hub_with(
        vec![
            "1\tdeu\tDer Hund lauft.\tcc",
            "2\tdeu\tDer Hund schlaft.\tcc",
        ],
        vec![
            "101\teng\tThe dog runs.\tcc",
            "102\teng\tThe dog sleeps.\tcc",
        ],
        vec!["1\t101", "2\t102"],
    );

    // with no known words both sentences have three unknown words
    let rows = hub.query_word_frontier_v(Range(3, 3), Order::Unordered).unwrap();
    assert_eq!(rows.len(), 2);
    assert_eq!(rows[0].sentences_rowid, 1);
    assert_eq!(rows[1].sentences_rowid, 2);
    assert_eq!(rows[0].unknown_word_count, 3);
    assert_eq!(rows[1].unknown_word_count, 3);

    // mark "Der" and "Hund" known
    let der = word_id_in_sentence(&hub, 1, "Der");
    let hund = word_id_in_sentence(&hub, 1, "Hund");
    hub.add_known_word(der).unwrap();
    hub.add_known_word(hund).unwrap();

    // each sentence now has exactly one unknown word
    let rows = hub.query_word_frontier_v(Range(1, 1), Order::Unordered).unwrap();
    assert_eq!(rows.len(), 2);
    assert_eq!(rows[0].sentences_rowid, 1);
    assert_eq!(rows[1].sentences_rowid, 2);
    assert_eq!(rows[0].unknown_word_count, 1);
    assert_eq!(rows[1].unknown_word_count, 1);
}

#[test]
fn test_malformed_corpus_line_skipped() {
    // the first line has only three tab-separated fields and is skipped; the
    // rest of the batch still imports
    let hub = hub_with(
        vec![
            "1\tdeu\tDer Hund lauft.",
            "2\tdeu\tDer Hund schlaft.\tcc",
        ],
        vec!["102\teng\tThe dog sleeps.\tcc"],
        vec!["1\t101", "2\t102"],
    );
    let rows = hub.query_word_frontier_v(Range(0, 100), Order::Unordered).unwrap();
    assert_eq!(rows.len(), 1);
    assert_eq!(rows[0].sentences_rowid, 2);
    assert_eq!(rows[0].unknown_word_count, 3);
}

#[test]
fn test_add_known_word_idempotent() {
    let mut hub = hub_with(
        vec!["1\tdeu\tDer Hund lauft.\tcc"],
        vec!["101\teng\tThe dog runs.\tcc"],
        vec!["1\t101"],
    );
    let der = word_id_in_sentence(&hub, 1, "Der");
    hub.add_known_word(der).unwrap();
    assert_eq!(hub.query_known_word_with_text_v().unwrap().len(), 1);
    // marking the same word again raises no error and adds no entry
    hub.add_known_word(der).unwrap();
    let known = hub.query_known_word_with_text_v().unwrap();
    assert_eq!(known.len(), 1);
    assert_eq!(known[0].word_text, "Der".to_string());
}

#[test]
fn test_remove_known_word_idempotent() {
    let mut hub = hub_with(
        vec!["1\tdeu\tDer Hund lauft.\tcc"],
        vec!["101\teng\tThe dog runs.\tcc"],
        vec!["1\t101"],
    );
    let der = word_id_in_sentence(&hub, 1, "Der");
    hub.add_known_word(der).unwrap();
    hub.remove_known_word(der).unwrap();
    assert_eq!(hub.query_known_word_with_text_v().unwrap().len(), 0);
    hub.remove_known_word(der).unwrap();
    assert_eq!(hub.query_known_word_with_text_v().unwrap().len(), 0);
}

#[test]
fn test_mark_round_trip_restores_counts() {
    let mut hub = hub_with(
        vec![
            "1\tdeu\tDer Hund lauft.\tcc",
            "2\tdeu\tDer Hund schlaft.\tcc",
        ],
        vec![
            "101\teng\tThe dog runs.\tcc",
            "102\teng\tThe dog sleeps.\tcc",
        ],
        vec!["1\t101", "2\t102"],
    );
    let counts_before: Vec<i32> = hub
        .query_word_frontier_v(Range(0, 100), Order::Unordered)
        .unwrap()
        .iter()
        .map(|m| m.unknown_word_count)
        .collect();
    let der = word_id_in_sentence(&hub, 1, "Der");
    hub.add_known_word(der).unwrap();
    hub.remove_known_word(der).unwrap();
    let counts_after: Vec<i32> = hub
        .query_word_frontier_v(Range(0, 100), Order::Unordered)
        .unwrap()
        .iter()
        .map(|m| m.unknown_word_count)
        .collect();
    assert_eq!(counts_before, counts_after);
}

#[test]
fn test_unknown_word_count_exact() {
    let mut hub = hub_with(
        vec!["1\tdeu\tDer Hund lauft.\tcc"],
        vec!["101\teng\tThe dog runs.\tcc"],
        vec!["1\t101"],
    );
    let rows = hub.query_word_frontier_v(Range(3, 3), Order::Unordered).unwrap();
    assert_eq!(rows.len(), 1);
    assert_eq!(rows[0].unknown_word_count, 3);

    let der = word_id_in_sentence(&hub, 1, "Der");
    hub.add_known_word(der).unwrap();
    let rows = hub.query_word_frontier_v(Range(2, 2), Order::Unordered).unwrap();
    assert_eq!(rows.len(), 1);
    assert_eq!(rows[0].unknown_word_count, 2);
}

#[test]
fn test_rank_range_filter() {
    // sentence 1 has three unknown words, sentence 2 has two ("Der" is
    // marked known), sentence 3 has one
    let mut hub = hub_with(
        vec![
            "1\tdeu\tgross klein schnell\tcc",
            "2\tdeu\tDer Hund\tcc",
            "3\tdeu\tDer\tcc",
        ],
        vec![
            "101\teng\tbig small fast\tcc",
            "102\teng\tThe dog\tcc",
            "103\teng\tThe\tcc",
        ],
        vec!["1\t101", "2\t102", "3\t103"],
    );
    let rows = hub.query_word_frontier_v(Range(2, 2), Order::Unordered).unwrap();
    assert_eq!(rows.len(), 1);
    assert_eq!(rows[0].sentences_rowid, 2);
    assert_eq!(rows[0].unknown_word_count, 2);

    // after marking "Der" known, only sentence 1 has more than one unknown
    let der = word_id_in_sentence(&hub, 2, "Der");
    hub.add_known_word(der).unwrap();
    let rows = hub.query_word_frontier_v(Range(1, 1), Order::Unordered).unwrap();
    assert_eq!(rows.len(), 1);
    assert_eq!(rows[0].sentences_rowid, 2);
}

#[test]
fn test_rank_ordering_ascending_descending() {
    // one unknown word per sentence, with frequencies one, two and three
    let hub = hub_with(
        vec![
            "1\tdeu\teins\tcc",
            "2\tdeu\tzwei zwei\tcc",
            "3\tdeu\tdrei drei drei\tcc",
        ],
        vec![
            "101\teng\tone\tcc",
            "102\teng\ttwo\tcc",
            "103\teng\tthree\tcc",
        ],
        vec!["1\t101", "2\t102", "3\t103"],
    );
    let asc = hub.query_word_frontier_v(Range(1, 1), Order::Ascending).unwrap();
    assert_eq!(asc.len(), 3);
    let freqs: Vec<i32> = asc.iter().map(|m| m.unknown_word_freq).collect();
    assert_eq!(freqs, vec![1, 2, 3]);
    for pair in asc.windows(2) {
        assert!(pair[0].unknown_word_freq <= pair[1].unknown_word_freq);
    }

    let desc = hub.query_word_frontier_v(Range(1, 1), Order::Descending).unwrap();
    let freqs: Vec<i32> = desc.iter().map(|m| m.unknown_word_freq).collect();
    assert_eq!(freqs, vec![3, 2, 1]);
    for pair in desc.windows(2) {
        assert!(pair[0].unknown_word_freq >= pair[1].unknown_word_freq);
    }
}

#[test]
fn test_untranslated_sentence_not_in_frontier() {
    let hub = hub_with(
        vec![
            "1\tdeu\tDer Hund lauft.\tcc",
            "2\tdeu\tKatzen schlafen gern.\tcc",
        ],
        vec!["101\teng\tThe dog runs.\tcc"],
        vec!["1\t101"],
    );
    let rows = hub.query_word_frontier_v(Range(0, 100), Order::Unordered).unwrap();
    assert_eq!(rows.len(), 1);
    assert_eq!(rows[0].sentences_rowid, 1);
}

#[test]
fn test_word_frequency_counts_every_occurrence() {
    // "Der" appears in both sentences: frequency two; each membership is
    // recorded once per sentence
    let hub = hub_with(
        vec![
            "1\tdeu\tDer Hund\tcc",
            "2\tdeu\tDer Ball\tcc",
        ],
        vec!["101\teng\tThe dog\tcc", "102\teng\tThe ball\tcc"],
        vec!["1\t101", "2\t102"],
    );
    let members = hub.query_sentence_membership_with_text_etc_v(1).unwrap();
    let der = members.iter().find(|m| m.word_text == "Der").unwrap();
    assert_eq!(der.word_freq, 2);
    let hund = members.iter().find(|m| m.word_text == "Hund").unwrap();
    assert_eq!(hund.word_freq, 1);
}

#[test]
fn test_duplicate_sentence_rejected() {
    // the second line repeats the row id and is rejected whole
    let hub = hub_with(
        vec![
            "1\tdeu\tDer Hund\tcc",
            "1\tdeu\tDer Ball\tcc",
        ],
        vec!["101\teng\tThe dog\tcc"],
        vec!["1\t101"],
    );
    let members = hub.query_sentence_membership_with_text_etc_v(1).unwrap();
    let texts: Vec<String> = members.iter().map(|m| m.word_text.clone()).collect();
    assert_eq!(texts, vec!["Der".to_string(), "Hund".to_string()]);
    // its words were never tokenized: frequency of "Der" stays one
    assert_eq!(members.iter().find(|m| m.word_text == "Der").unwrap().word_freq, 1);
}

#[test]
fn test_query_translation_with_text() {
    let hub = hub_with(
        vec!["1\tdeu\tDer Hund lauft.\tcc"],
        vec![
            "101\teng\tThe dog runs.\tcc",
            "102\teng\tThe dog is running.\tcc",
        ],
        vec!["1\t101", "1\t102", "1\t101"],
    );
    let rows = hub.query_translation_with_text_v(1).unwrap();
    // the duplicate link was ignored at ingestion
    assert_eq!(rows.len(), 2);
    assert_eq!(rows[0].reference_lang_sentence_rowid, 101);
    assert_eq!(rows[0].reference_lang_sentence_text, "The dog runs.".to_string());
    assert_eq!(rows[1].reference_lang_sentence_rowid, 102);
    assert_eq!(rows[1].reference_lang_sentence_text, "The dog is running.".to_string());
}

#[test]
fn test_membership_query_unknown_words_first() {
    let mut hub = hub_with(
        vec!["1\tdeu\tDer Hund lauft.\tcc"],
        vec!["101\teng\tThe dog runs.\tcc"],
        vec!["1\t101"],
    );
    let der = word_id_in_sentence(&hub, 1, "Der");
    hub.add_known_word(der).unwrap();
    let members = hub.query_sentence_membership_with_text_etc_v(1).unwrap();
    assert_eq!(members.len(), 3);
    // unknown words precede known words
    assert!(!members[0].word_is_known);
    assert!(!members[1].word_is_known);
    assert!(members[2].word_is_known);
    assert_eq!(members[2].word_text, "Der".to_string());
}

#[test]
fn test_rank_includes_fully_known_sentences() {
    let mut hub = hub_with(
        vec!["1\tdeu\tDer Hund\tcc", "2\tdeu\tDie Katze\tcc"],
        vec!["101\teng\tThe dog\tcc", "102\teng\tThe cat\tcc"],
        vec!["1\t101", "2\t102"],
    );
    let der = word_id_in_sentence(&hub, 1, "Der");
    let hund = word_id_in_sentence(&hub, 1, "Hund");
    hub.add_known_word(der).unwrap();
    hub.add_known_word(hund).unwrap();

    // sentence one is fully comprehensible: a range admitting zero includes
    // it, with count zero and frequency zero (no unknown word)
    let rows = hub.query_word_frontier_v(Range(0, 0), Order::Unordered).unwrap();
    assert_eq!(rows.len(), 1);
    assert_eq!(rows[0].sentences_rowid, 1);
    assert_eq!(rows[0].unknown_word_count, 0);
    assert_eq!(rows[0].unknown_word_freq, 0);

    let rows = hub.query_word_frontier_v(Range(0, 2), Order::Unordered).unwrap();
    assert_eq!(rows.len(), 2);
    assert_eq!(rows[0].sentences_rowid, 1);
    assert_eq!(rows[0].unknown_word_count, 0);
    assert_eq!(rows[1].sentences_rowid, 2);
    assert_eq!(rows[1].unknown_word_count, 2);

    // a range starting above zero still excludes it
    let rows = hub.query_word_frontier_v(Range(1, 2), Order::Unordered).unwrap();
    assert_eq!(rows.len(), 1);
    assert_eq!(rows[0].sentences_rowid, 2);
}

#[test]
fn test_corpus_grows_across_imports() {
    let lang_row = LangRow { langs_rowid: 1, short: "deu".to_string(), long: "Deutsch".to_string() };
    let mut corpus = CorpusDb::open(lang_row);
    corpus.populate(&to_strings(vec!["1\tdeu\tDer Hund\tcc"])).unwrap();
    assert_eq!(corpus.num_sentences(), 1);
    assert_eq!(corpus.num_words(), 2);
    assert_eq!(corpus.word_at(0).text, "Der".to_string());
    assert_eq!(corpus.word_at(0).freq, 1);

    // a later import grows the corpus: the shared word's frequency rises,
    // the new word continues the sequential ids
    corpus.populate(&to_strings(vec!["2\tdeu\tDer Ball\tcc"])).unwrap();
    assert_eq!(corpus.num_sentences(), 2);
    assert_eq!(corpus.num_words(), 3);
    assert_eq!(corpus.word_at(0).freq, 2);
    assert_eq!(corpus.word_at(2).text, "Ball".to_string());
    assert_eq!(corpus.word_at(2).words_rowid, 3);

    // re-importing a stored sentence changes nothing: it is rejected whole
    corpus.populate(&to_strings(vec!["1\tdeu\tDer Hund\tcc"])).unwrap();
    assert_eq!(corpus.num_sentences(), 2);
    assert_eq!(corpus.word_at(0).freq, 2);
}

#[test]
fn test_translations_grow_across_imports() {
    let mut links = TranslationsDb::open("deu", "eng");
    links.populate(&to_strings(vec!["1\t101"])).unwrap();
    assert_eq!(links.num_rows(), 1);
    // the duplicate is ignored, the new pair is added
    links.populate(&to_strings(vec!["1\t101", "2\t102"])).unwrap();
    assert_eq!(links.num_rows(), 2);
    assert_eq!(links.row_at(1).target_lang_sentence_rowid, 2);
    assert_eq!(links.row_at(1).translations_rowid, 2);
}

#[test]
fn test_rank_deterministic_across_calls() {
    let hub = hub_with(
        vec![
            "1\tdeu\teins zwei\tcc",
            "2\tdeu\tzwei drei\tcc",
            "3\tdeu\tvier\tcc",
        ],
        vec![
            "101\teng\tone two\tcc",
            "102\teng\ttwo three\tcc",
            "103\teng\tfour\tcc",
        ],
        vec!["1\t101", "2\t102", "3\t103"],
    );
    // equal minimum-frequency keys: the stable order keeps storage order,
    // and two equal queries return element-wise identical results
    let a = hub.query_word_frontier_v(Range(1, 2), Order::Ascending).unwrap();
    let b = hub.query_word_frontier_v(Range(1, 2), Order::Ascending).unwrap();
    let ids_a: Vec<i32> = a.iter().map(|m| m.sentences_rowid).collect();
    let ids_b: Vec<i32> = b.iter().map(|m| m.sentences_rowid).collect();
    assert_eq!(ids_a, ids_b);
    assert_eq!(ids_a, vec![1, 2, 3]);
}

#[test]
fn test_populate_is_idempotent() {
    let mut hub = hub_with(
        vec!["1\tdeu\tDer Hund\tcc"],
        vec!["101\teng\tThe dog\tcc"],
        vec!["1\t101"],
    );
    // a second bootstrap run with different content changes nothing
    hub.create_and_populate_missing_databases(
        &to_strings(vec!["2\tdeu\tNeu\tcc"]),
        &to_strings(vec!["102\teng\tNew\tcc"]),
        &to_strings(vec!["2\t102"]),
    )
    .unwrap();
    let rows = hub.query_word_frontier_v(Range(0, 100), Order::Unordered).unwrap();
    assert_eq!(rows.len(), 1);
    assert_eq!(rows[0].sentences_rowid, 1);
}
