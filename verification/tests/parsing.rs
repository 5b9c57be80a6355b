use wordfrontier::text::{parse_i32, split_tabs, tokenize};
use wordfrontier::{
    CorpusPurpose, Error, Lang, LangsDb, OnConflict, SentenceRow, UserDb,
};

fn registry() -> Vec<Lang> {
    vec![
        Lang {
            short: "deu".to_string(),
            long_english: "German".to_string(),
            long_native: "Deutsch".to_string(),
        },
        Lang {
            short: "eng".to_string(),
            long_english: "English".to_string(),
            long_native: "English".to_string(),
        },
    ]
}

#[test]
fn test_tokenize_strips_punctuation() {
    let toks = tokenize("Der Hund lauft.");
    assert_eq!(toks, vec!["Der".to_string(), "Hund".to_string(), "lauft".to_string()]);
}

#[test]
fn test_tokenize_inverted_marks() {
    let toks = tokenize("¿Donde esta? ¡Aqui!");
    assert_eq!(toks, vec!["Donde".to_string(), "esta".to_string(), "Aqui".to_string()]);
}

#[test]
fn test_tokenize_drops_empty_tokens() {
    // a run that is punctuation only must not yield an empty-string word
    let toks = tokenize("  ...  !? ");
    assert_eq!(toks, Vec::<String>::new());
    let toks = tokenize("");
    assert_eq!(toks, Vec::<String>::new());
}

#[test]
fn test_tokenize_unicode_whitespace() {
    // the no-break space and the ideographic space split tokens too
    let toks = tokenize("ein\u{a0}zwei drei\u{3000}vier");
    assert_eq!(
        toks,
        vec!["ein".to_string(), "zwei".to_string(), "drei".to_string(), "vier".to_string()]
    );
}

#[test]
fn test_tokenize_keeps_inner_punctuation() {
    let toks = tokenize("don't \"quote\"");
    assert_eq!(toks, vec!["don't".to_string(), "quote".to_string()]);
}

#[test]
fn test_parse_i32_values() {
    assert_eq!(parse_i32("123").unwrap(), 123);
    assert_eq!(parse_i32("-45").unwrap(), -45);
    assert_eq!(parse_i32("+7").unwrap(), 7);
    assert_eq!(parse_i32("0").unwrap(), 0);
    assert_eq!(parse_i32("2147483647").unwrap(), 2147483647);
    assert_eq!(parse_i32("-2147483648").unwrap(), -2147483648);
}

#[test]
fn test_parse_i32_rejects() {
    assert!(matches!(parse_i32(""), Err(Error::Malformed(_))));
    assert!(matches!(parse_i32("-"), Err(Error::Malformed(_))));
    assert!(matches!(parse_i32("12a"), Err(Error::Malformed(_))));
    assert!(matches!(parse_i32("2147483648"), Err(Error::Malformed(_))));
    assert!(matches!(parse_i32("-2147483649"), Err(Error::Malformed(_))));
    assert!(matches!(parse_i32("1 2"), Err(Error::Malformed(_))));
}

#[test]
fn test_split_tabs_keeps_empty_fields() {
    assert_eq!(split_tabs("a\tb\t"), vec!["a".to_string(), "b".to_string(), "".to_string()]);
    assert_eq!(split_tabs(""), vec!["".to_string()]);
    assert_eq!(split_tabs("one"), vec!["one".to_string()]);
}

#[test]
fn test_from_tsv_well_formed() {
    let row = SentenceRow::from_tsv("42\tdeu\tDer Hund lauft.\tcc-by", 7).unwrap();
    assert_eq!(row.sentences_rowid, 42);
    assert_eq!(row.lang_rowid, 7);
    assert_eq!(row.text, "Der Hund lauft.".to_string());
}

#[test]
fn test_from_tsv_three_fields_rejected() {
    let r = SentenceRow::from_tsv("42\tdeu\tDer Hund lauft.", 7);
    assert!(matches!(r, Err(Error::Malformed(_))));
}

#[test]
fn test_from_tsv_bad_id_rejected() {
    let r = SentenceRow::from_tsv("x42\tdeu\ttext\tcc", 7);
    assert!(matches!(r, Err(Error::Malformed(_))));
}

#[test]
fn test_parse_link_line() {
    assert_eq!(wordfrontier::translations::parse_link_line("3\t44").unwrap(), (3, 44));
    assert!(matches!(
        wordfrontier::translations::parse_link_line("3"),
        Err(Error::Malformed(_))
    ));
    assert!(matches!(
        wordfrontier::translations::parse_link_line("3\t44\t5"),
        Err(Error::Malformed(_))
    ));
    assert!(matches!(
        wordfrontier::translations::parse_link_line("3\tx"),
        Err(Error::Malformed(_))
    ));
}

#[test]
fn test_on_conflict_keywords() {
    assert_eq!(OnConflict::Abort.sql_keyword(), "ABORT".to_string());
    assert_eq!(OnConflict::Fail.sql_keyword(), "FAIL".to_string());
    assert_eq!(OnConflict::Ignore.sql_keyword(), "IGNORE".to_string());
    assert_eq!(OnConflict::Replace.sql_keyword(), "REPLACE".to_string());
    assert_eq!(OnConflict::Rollback.sql_keyword(), "ROLLBACK".to_string());
}

#[test]
fn test_corpus_purpose_database_names() {
    assert_eq!(CorpusPurpose::TargetLang.database_name(), "target_corpus_db");
    assert_eq!(CorpusPurpose::ReferenceLang.database_name(), "reference_corpus_db");
}

#[test]
fn test_langs_db_create_and_populate() {
    let mut langs_db = LangsDb::new();
    langs_db.create_and_populate_if_missing(&registry()).unwrap();

    let lang_row = langs_db.query_lang_row("deu").unwrap();
    println!("lang_row: {:#?}", lang_row);
    assert_eq!(lang_row.langs_rowid, 1);
    assert_eq!(lang_row.short, "deu".to_string());
    assert_eq!(lang_row.long, "Deutsch".to_string());

    let eng = langs_db.query_lang_row("eng").unwrap();
    assert_eq!(eng.langs_rowid, 2);
}

#[test]
fn test_langs_db_unknown_short_not_found() {
    let mut langs_db = LangsDb::new();
    langs_db.create_and_populate_if_missing(&registry()).unwrap();
    assert!(matches!(langs_db.query_lang_row("zzz"), Err(Error::NotFound)));
}

#[test]
fn test_langs_db_populate_ignores_duplicates() {
    let mut langs_db = LangsDb::new();
    let mut langs = registry();
    langs.push(Lang {
        short: "deu".to_string(),
        long_english: "German again".to_string(),
        long_native: "Deutsch".to_string(),
    });
    langs_db.populate(&langs).unwrap();
    // the duplicate short code added no row: "eng" still has the second id
    assert_eq!(langs_db.query_lang_row("eng").unwrap().langs_rowid, 2);
    assert_eq!(langs_db.query_lang_row("deu").unwrap().langs_rowid, 1);
    // populating again adds nothing either
    langs_db.populate(&registry()).unwrap();
    assert_eq!(langs_db.query_lang_row("eng").unwrap().langs_rowid, 2);
}

#[test]
fn test_user_db_create() {
    let user_db = UserDb::new();
    assert_eq!(user_db.num_entries(), 0);
}

#[test]
fn test_user_db_add_remove() {
    let mut user = UserDb::new();
    assert!(!user.is_known(1, 5));
    user.add(1, 5).unwrap();
    assert!(user.is_known(1, 5));
    assert_eq!(user.num_entries(), 1);
    // adding the same pair again is a no-op, not an error
    user.add(1, 5).unwrap();
    assert_eq!(user.num_entries(), 1);
    // a different language is a different entry
    user.add(2, 5).unwrap();
    assert_eq!(user.num_entries(), 2);
    user.remove(1, 5).unwrap();
    assert!(!user.is_known(1, 5));
    assert!(user.is_known(2, 5));
    // removing an absent pair is a no-op, not an error
    user.remove(1, 5).unwrap();
    assert_eq!(user.num_entries(), 1);
}
