use wordfrontier::ui_state::{StatefulList, TabsState};
use wordfrontier::{App, DbHub, DbHubConfig, Lang, LangsDb};

fn registry() -> Vec<Lang> {
    vec![
        Lang {
            short: "deu".to_string(),
            long_english: "German".to_string(),
            long_native: "Deutsch".to_string(),
        },
        Lang {
            short: "eng".to_string(),
            long_english: "English".to_string(),
            long_native: "English".to_string(),
        },
    ]
}

fn to_strings(v: Vec<&str>) -> Vec<String> {
    v.into_iter().map(|s| s.to_string()).collect()
}

/// A hub whose frontier (one unknown word, after marking "Der" and "Hund"
/// known) holds both sentences.
fn demo_hub() -> DbHub {
    let mut langs_db = LangsDb::new();
    langs_db.create_and_populate_if_missing(&registry()).unwrap();
    let config = DbHubConfig::new("deu", "eng", None, &registry()).unwrap();
    let mut hub = DbHub::from_config(config, langs_db).unwrap();
    hub.create_and_populate_missing_databases(
        &to_strings(vec![
            "1\tdeu\tDer Hund lauft.\tcc",
            "2\tdeu\tDer Hund schlaft.\tcc",
        ]),
        &to_strings(vec![
            "101\teng\tThe dog runs.\tcc",
            "102\teng\tThe dog sleeps.\tcc",
        ]),
        &to_strings(vec!["1\t101", "2\t102"]),
    )
    .unwrap();
    let members = hub.query_sentence_membership_with_text_etc_v(1).unwrap();
    let der = members.iter().find(|m| m.word_text == "Der").unwrap().word_rowid;
    let hund = members.iter().find(|m| m.word_text == "Hund").unwrap().word_rowid;
    hub.add_known_word(der).unwrap();
    hub.add_known_word(hund).unwrap();
    hub
}

#[test]
fn test_stateful_list_navigation() {
    let mut list = StatefulList::with_items(vec![10, 20, 30]);
    assert_eq!(list.selected(), None);
    list.next();
    assert_eq!(list.selected(), Some(0));
    list.next();
    assert_eq!(list.selected(), Some(1));
    list.next();
    list.next();
    assert_eq!(list.selected(), Some(0));
    list.previous();
    assert_eq!(list.selected(), Some(2));
    list.previous();
    assert_eq!(list.selected(), Some(1));
}

#[test]
fn test_stateful_list_empty() {
    let mut list: StatefulList<i32> = StatefulList::new();
    list.next();
    assert_eq!(list.selected(), None);
    list.previous();
    assert_eq!(list.selected(), None);
}

#[test]
fn test_tabs_state_wraps() {
    let mut tabs = TabsState::new(vec!["a".to_string(), "b".to_string(), "c".to_string()]);
    assert_eq!(tabs.current_index(), 0);
    tabs.next();
    assert_eq!(tabs.current_index(), 1);
    tabs.next();
    tabs.next();
    assert_eq!(tabs.current_index(), 0);
    tabs.previous();
    assert_eq!(tabs.current_index(), 2);
}

#[test]
fn test_app_new_fills_panes() {
    let app = App::new("frontier".to_string(), false, demo_hub());
    assert!(!app.should_quit);
    assert_eq!(app.title, "frontier".to_string());
    // both sentences have exactly one unknown word; the cursor rests on the
    // first frontier row
    assert_eq!(app.word_frontier.items.len(), 2);
    assert_eq!(app.word_frontier.selected(), Some(0));
    // the panes follow the selected sentence
    assert_eq!(app.translations.items.len(), 1);
    assert_eq!(app.sentence_memberships.items.len(), 3);
    assert_eq!(app.known_words.items.len(), 2);
}

#[test]
fn test_app_navigation_updates_panes() {
    let mut app = App::new("frontier".to_string(), false, demo_hub());
    // descending order by minimum unknown frequency; both sentences have a
    // frequency-one unknown word, so storage order is kept by the stable sort
    let first = app.word_frontier.items[0].sentences_rowid;
    let second = app.word_frontier.items[1].sentences_rowid;
    assert_eq!(first, 1);
    assert_eq!(second, 2);
    app.on_down();
    assert_eq!(app.word_frontier.selected(), Some(1));
    let texts: Vec<String> = app
        .translations
        .items
        .iter()
        .map(|t| t.reference_lang_sentence_text.clone())
        .collect();
    assert_eq!(texts, vec!["The dog sleeps.".to_string()]);
    app.on_up();
    assert_eq!(app.word_frontier.selected(), Some(0));
    app.on_right();
    assert_eq!(app.sentence_memberships.selected(), Some(1));
    app.on_left();
    assert_eq!(app.sentence_memberships.selected(), Some(0));
}

#[test]
fn test_app_on_key_quit() {
    let mut app = App::new("frontier".to_string(), false, demo_hub());
    app.on_key('x');
    assert!(!app.should_quit);
    app.on_key('q');
    assert!(app.should_quit);
}

#[test]
fn test_app_on_key_marks_word_known() {
    let mut app = App::new("frontier".to_string(), false, demo_hub());
    // the membership cursor rests on the first row: an unknown word
    assert!(!app.sentence_memberships.items[0].word_is_known);
    let known_before = app.known_words.items.len();
    app.on_key('+');
    assert_eq!(app.known_words.items.len(), known_before + 1);
    // marking it unknown again shrinks the ledger pane back
    app.on_key('-');
    assert_eq!(app.known_words.items.len(), known_before);
}

#[test]
fn test_app_on_tab_cycles() {
    let mut app = App::new("frontier".to_string(), false, demo_hub());
    let n = app.tabs.titles.len();
    assert!(n > 0);
    app.on_tab();
    assert_eq!(app.tabs.current_index(), 1 % n);
    app.on_back_tab();
    assert_eq!(app.tabs.current_index(), 0);
}

#[test]
fn test_app_on_reload_reflects_ledger_change() {
    let mut app = App::new("frontier".to_string(), false, demo_hub());
    assert_eq!(app.word_frontier.items.len(), 2);
    // learning the last unknown word of sentence one empties its frontier row
    app.on_key('+');
    app.on_reload();
    assert_eq!(app.word_frontier.items.len(), 1);
    assert_eq!(app.word_frontier.items[0].sentences_rowid, 2);
}
