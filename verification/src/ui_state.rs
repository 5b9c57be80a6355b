use vstd::prelude::*;

verus! {

use crate::hub::{
    frontier_query_post, known_with_text_of, memberships_with_status, translations_with_text_of,
    DbHub, KnownWordWithText, SentenceMembershipWithTextEtc, TranslationWithText,
    WordFrontierMember,
};
use crate::user::{add_known, known_pair_at, remove_known};
use crate::{Order, Range};

/// The user-facing configuration: which language to learn and which language
/// translations are shown in.
#[derive(Debug)]
pub struct Config {
    pub target_lang_short_name: String,
    pub reference_lang_short_name: String,
}

// ---------------------------------------------------------------------------
// Cursor-carrying lists
// ---------------------------------------------------------------------------

/// The selection after one step forward: wraps at the end, lands on the
/// first entry when nothing was selected, clears on an empty list.
pub open spec fn next_selection(len: nat, cur: Option<usize>) -> Option<usize> {
    if len == 0 {
        None
    } else {
        match cur {
            Some(i) => if i as int + 1 >= len {
                Some(0usize)
            } else {
                Some((i + 1) as usize)
            },
            None => Some(0usize),
        }
    }
}

/// The selection after one step back: wraps at the front, lands on the first
/// entry when nothing was selected, clears on an empty list.
pub open spec fn prev_selection(len: nat, cur: Option<usize>) -> Option<usize> {
    if len == 0 {
        None
    } else {
        match cur {
            Some(i) => if i == 0 {
                Some((len - 1) as usize)
            } else {
                Some((i - 1) as usize)
            },
            None => Some(0usize),
        }
    }
}

/// A list of rows with a movable cursor.
pub struct StatefulList<T> {
    pub selected_o: Option<usize>,
    pub items: Vec<T>,
}

impl<T> StatefulList<T> {
    /// The current selection.
    pub closed spec fn selection(&self) -> Option<usize> {
        self.selected_o
    }

    /// The selection, when there is one, points into the items.
    pub open spec fn wf(&self) -> bool {
        self.selection() matches Some(i) ==> (i as int) < self.items@.len()
    }

    /// An empty list without selection.
    pub fn new() -> (r: StatefulList<T>)
        ensures
            r.items@ == Seq::<T>::empty(),
            r.selection() is None,
            r.wf(),
    {
        StatefulList { selected_o: None, items: Vec::new() }
    }

    /// The given rows, nothing selected yet.
    pub fn with_items(items: Vec<T>) -> (r: StatefulList<T>)
        ensures
            r.items == items,
            r.selection() is None,
            r.wf(),
    {
        StatefulList { selected_o: None, items }
    }

    /// Moves the cursor one row down, wrapping at the end.
    pub fn next(&mut self)
        requires
            old(self).wf(),
        ensures
            final(self).wf(),
            final(self).items == old(self).items,
            final(self).selection() == next_selection(
                old(self).items@.len(),
                old(self).selection(),
            ),
    {
        if self.items.len() == 0 {
            self.selected_o = None;
        } else {
            let len = self.items.len();
            self.selected_o = match self.selected_o {
                Some(i) => if i + 1 >= len {
                    Some(0)
                } else {
                    Some(i + 1)
                },
                None => Some(0),
            };
        }
    }

    /// Moves the cursor one row up, wrapping at the front.
    pub fn previous(&mut self)
        requires
            old(self).wf(),
        ensures
            final(self).wf(),
            final(self).items == old(self).items,
            final(self).selection() == prev_selection(
                old(self).items@.len(),
                old(self).selection(),
            ),
    {
        if self.items.len() == 0 {
            self.selected_o = None;
        } else {
            let len = self.items.len();
            self.selected_o = match self.selected_o {
                Some(i) => if i == 0 {
                    Some(len - 1)
                } else {
                    Some(i - 1)
                },
                None => Some(0),
            };
        }
    }

    /// The current selection.
    pub fn selected(&self) -> (r: Option<usize>)
        ensures
            r == self.selection(),
    {
        self.selected_o
    }
}

// ---------------------------------------------------------------------------
// Tab strip
// ---------------------------------------------------------------------------

/// A strip of tab titles with the index of the active one.
pub struct TabsState {
    pub titles: Vec<String>,
    pub index: usize,
}

impl TabsState {
    /// The active tab position.
    pub closed spec fn tab_index(&self) -> int {
        self.index as int
    }

    pub open spec fn wf(&self) -> bool {
        if self.titles@.len() == 0 {
            self.tab_index() == 0
        } else {
            self.tab_index() < self.titles@.len()
        }
    }

    /// The given titles with the first tab active.
    pub fn new(titles: Vec<String>) -> (r: TabsState)
        ensures
            r.titles == titles,
            r.tab_index() == 0,
            r.wf(),
    {
        TabsState { titles, index: 0 }
    }

    /// The active tab position.
    pub fn current_index(&self) -> (r: usize)
        ensures
            r as int == self.tab_index(),
    {
        self.index
    }

    /// Activates the next tab, wrapping around.
    pub fn next(&mut self)
        requires
            old(self).wf(),
        ensures
            final(self).wf(),
            final(self).titles == old(self).titles,
            old(self).titles@.len() == 0 ==> final(self).tab_index() == 0,
            old(self).titles@.len() > 0 ==> final(self).tab_index() == (old(self).tab_index() + 1)
                % (old(self).titles@.len() as int),
    {
        let len = self.titles.len();
        if len > 0 {
            self.index = (self.index + 1) % len;
        }
    }

    /// Activates the previous tab, wrapping around.
    pub fn previous(&mut self)
        requires
            old(self).wf(),
        ensures
            final(self).wf(),
            final(self).titles == old(self).titles,
            old(self).titles@.len() == 0 ==> final(self).tab_index() == 0,
            old(self).titles@.len() > 0 ==> final(self).tab_index() == (if old(self).tab_index()
                == 0 {
                old(self).titles@.len() as int - 1
            } else {
                old(self).tab_index() - 1
            }),
    {
        let len = self.titles.len();
        if len > 0 {
            if self.index == 0 {
                self.index = len - 1;
            } else {
                self.index = self.index - 1;
            }
        }
    }
}

// ---------------------------------------------------------------------------
// The interactive application state
// ---------------------------------------------------------------------------

/// The frontier pane shows sentences with exactly one unknown word, hardest
/// ones first.
pub open spec fn frontier_pane_lo() -> int {
    1
}

pub open spec fn frontier_pane_hi() -> int {
    1
}

/// The interactive state around the engine: the composite store plus the
/// four result panes and their cursors.
pub struct App {
    pub title: String,
    pub should_quit: bool,
    pub tabs: TabsState,
    pub enhanced_graphics: bool,
    pub db_hub: DbHub,
    pub word_frontier: StatefulList<WordFrontierMember>,
    pub translations: StatefulList<TranslationWithText>,
    pub sentence_memberships: StatefulList<SentenceMembershipWithTextEtc>,
    pub known_words: StatefulList<KnownWordWithText>,
}

/// The transition the mark-known interaction makes: without a membership
/// selection nothing changes; with one, the selected word is marked known in
/// the ledger (unchanged at ledger exhaustion) and the membership and
/// known-words panes are refreshed; everything else is kept.
pub open spec fn add_selected_transition(pre: App, post: App) -> bool {
    &&& post.title == pre.title
    &&& post.should_quit == pre.should_quit
    &&& post.tabs == pre.tabs
    &&& post.enhanced_graphics == pre.enhanced_graphics
    &&& post.word_frontier == pre.word_frontier
    &&& post.translations == pre.translations
    &&& crate::hub::hub_unchanged_but_ledger(&pre.db_hub, &post.db_hub)
    &&& (match pre.sentence_memberships.selection() {
        None => post == pre,
        Some(i) => {
            let word = pre.sentence_memberships.items@[i as int].word_rowid;
            let known0 = pre.db_hub.known_v();
            let next0 = pre.db_hub.user_next_id();
            let lang = pre.db_hub.target_lang_i32();
            &&& (known_pair_at(known0, lang, word) || next0 < 0x7fff_ffff ==> (
                post.db_hub.known_v(),
                post.db_hub.user_next_id(),
            ) == add_known(known0, next0, lang, word))
            &&& (!(known_pair_at(known0, lang, word) || next0 < 0x7fff_ffff)
                ==> post.db_hub.known_v() == known0 && post.db_hub.user_next_id() == next0)
            &&& post.memberships_fresh()
            &&& post.known_words_fresh()
        },
    })
}

/// The transition the mark-unknown interaction makes: without a membership
/// selection nothing changes; with one, the selected word is removed from the
/// ledger and the known-words pane is refreshed; everything else is kept.
pub open spec fn remove_selected_transition(pre: App, post: App) -> bool {
    &&& post.title == pre.title
    &&& post.should_quit == pre.should_quit
    &&& post.tabs == pre.tabs
    &&& post.enhanced_graphics == pre.enhanced_graphics
    &&& post.word_frontier == pre.word_frontier
    &&& post.translations == pre.translations
    &&& post.sentence_memberships == pre.sentence_memberships
    &&& crate::hub::hub_unchanged_but_ledger(&pre.db_hub, &post.db_hub)
    &&& post.db_hub.user_next_id() == pre.db_hub.user_next_id()
    &&& (match pre.sentence_memberships.selection() {
        None => post == pre,
        Some(i) => {
            let word = pre.sentence_memberships.items@[i as int].word_rowid;
            &&& post.db_hub.known_v() == remove_known(
                pre.db_hub.known_v(),
                pre.db_hub.target_lang_i32(),
                word,
            )
            &&& post.known_words_fresh()
        },
    })
}

impl App {
    pub open spec fn wf(&self) -> bool {
        &&& self.db_hub.wf()
        &&& self.tabs.wf()
        &&& self.word_frontier.wf()
        &&& self.translations.wf()
        &&& self.sentence_memberships.wf()
        &&& self.known_words.wf()
    }

    /// The frontier pane holds a current answer of the frontier query.
    pub open spec fn frontier_fresh(&self) -> bool {
        frontier_query_post(
            &self.db_hub,
            frontier_pane_lo(),
            frontier_pane_hi(),
            Order::Descending,
            self.word_frontier.items@.map_values(|m: WordFrontierMember| m@),
        )
    }

    /// The sentence the frontier cursor rests on, if any.
    pub open spec fn selected_sentence(&self) -> Option<int> {
        match self.word_frontier.selection() {
            Some(i) => Some(self.word_frontier.items@[i as int].sentences_rowid as int),
            None => None,
        }
    }

    /// The translations pane holds the translations of the selected frontier
    /// sentence (empty without a selection).
    pub open spec fn translations_fresh(&self) -> bool {
        self.translations.items@.map_values(|t: TranslationWithText| t@) == (
        match self.selected_sentence() {
            Some(sid) => translations_with_text_of(
                self.db_hub.translations_v(),
                self.db_hub.reference_corpus_v(),
                sid,
            ),
            None => Seq::empty(),
        })
    }

    /// The membership pane holds the words of the selected frontier sentence
    /// with their status (empty without a selection).
    pub open spec fn memberships_fresh(&self) -> bool {
        self.sentence_memberships.items@.map_values(|m: SentenceMembershipWithTextEtc| m@) == (
        match self.selected_sentence() {
            Some(sid) => memberships_with_status(
                self.db_hub.target_corpus_v(),
                self.db_hub.known_v(),
                sid,
            ),
            None => Seq::empty(),
        })
    }

    /// The known-words pane holds the current known words with their texts.
    pub open spec fn known_words_fresh(&self) -> bool {
        self.known_words.items@.map_values(|k: KnownWordWithText| k@) == known_with_text_of(
            self.db_hub.target_corpus_v(),
            self.db_hub.known_v(),
            self.db_hub.target_lang(),
        )
    }

    /// Builds the application state around an opened store and fills all
    /// four panes; the frontier and membership cursors rest on the first row
    /// where there is one.
    pub fn new(title: String, enhanced_graphics: bool, db_hub: DbHub) -> (r: App)
        requires
            db_hub.wf(),
        ensures
            r.wf(),
            r.title == title,
            !r.should_quit,
            r.enhanced_graphics == enhanced_graphics,
            r.db_hub == db_hub,
            r.frontier_fresh(),
            r.translations_fresh(),
            r.memberships_fresh(),
            r.known_words_fresh(),
            r.word_frontier.selection() == next_selection(r.word_frontier.items@.len(), None),
            r.sentence_memberships.selection() == next_selection(
                r.sentence_memberships.items@.len(),
                None,
            ),
            r.translations.selection() is None,
            r.known_words.selection() is None,
            r.tabs.tab_index() == 0,
    {
        let mut tab_titles: Vec<String> = Vec::new();
        tab_titles.push(String::from_str("Frontier"));
        tab_titles.push(String::from_str("Corpus"));
        tab_titles.push(String::from_str("Help"));
        let mut app = App {
            title,
            should_quit: false,
            tabs: TabsState::new(tab_titles),
            enhanced_graphics,
            db_hub,
            word_frontier: StatefulList::new(),
            translations: StatefulList::new(),
            sentence_memberships: StatefulList::new(),
            known_words: StatefulList::new(),
        };
        app.update_word_frontier();
        app.update_translations();
        app.update_sentence_membership();
        app.update_known_words();
        app
    }

    /// Recomputes the frontier pane and rests its cursor on the first row.
    fn update_word_frontier(&mut self)
        requires
            old(self).wf(),
        ensures
            final(self).wf(),
            final(self).db_hub == old(self).db_hub,
            final(self).title == old(self).title,
            final(self).should_quit == old(self).should_quit,
            final(self).tabs == old(self).tabs,
            final(self).enhanced_graphics == old(self).enhanced_graphics,
            final(self).translations == old(self).translations,
            final(self).sentence_memberships == old(self).sentence_memberships,
            final(self).known_words == old(self).known_words,
            final(self).frontier_fresh(),
            final(self).word_frontier.selection() == next_selection(
                final(self).word_frontier.items@.len(),
                None,
            ),
    {
        let rows = match self.db_hub.query_word_frontier_v(
            Range(1, 1),
            Order::Descending,
        ) {
            Ok(rows) => rows,
            Err(_) => {
                proof {
                    assert(false);
                }
                Vec::new()
            },
        };
        self.word_frontier = StatefulList::with_items(rows);
        self.word_frontier.next();
    }

    /// Recomputes the translations pane for the selected frontier sentence.
    fn update_translations(&mut self)
        requires
            old(self).wf(),
        ensures
            final(self).wf(),
            final(self).db_hub == old(self).db_hub,
            final(self).title == old(self).title,
            final(self).should_quit == old(self).should_quit,
            final(self).tabs == old(self).tabs,
            final(self).enhanced_graphics == old(self).enhanced_graphics,
            final(self).word_frontier == old(self).word_frontier,
            final(self).sentence_memberships == old(self).sentence_memberships,
            final(self).known_words == old(self).known_words,
            final(self).translations_fresh(),
            final(self).translations.selection() is None,
    {
        let rows = match self.word_frontier.selected() {
            Some(i) => {
                let sid = self.word_frontier.items[i].sentences_rowid;
                match self.db_hub.query_translation_with_text_v(sid) {
                    Ok(rows) => rows,
                    Err(_) => {
                        proof {
                            assert(false);
                        }
                        Vec::new()
                    },
                }
            },
            None => Vec::new(),
        };
        self.translations = StatefulList::with_items(rows);
        proof {
            if self.word_frontier.selection() is None {
                assert(self.translations.items@.map_values(|t: TranslationWithText| t@) =~= Seq::<
                    crate::hub::TwtV,
                >::empty());
            }
        }
    }

    /// Recomputes the membership pane for the selected frontier sentence and
    /// rests its cursor on the first row.
    fn update_sentence_membership(&mut self)
        requires
            old(self).wf(),
        ensures
            final(self).wf(),
            final(self).db_hub == old(self).db_hub,
            final(self).title == old(self).title,
            final(self).should_quit == old(self).should_quit,
            final(self).tabs == old(self).tabs,
            final(self).enhanced_graphics == old(self).enhanced_graphics,
            final(self).word_frontier == old(self).word_frontier,
            final(self).translations == old(self).translations,
            final(self).known_words == old(self).known_words,
            final(self).memberships_fresh(),
            final(self).sentence_memberships.selection() == next_selection(
                final(self).sentence_memberships.items@.len(),
                None,
            ),
    {
        let rows = match self.word_frontier.selected() {
            Some(i) => {
                let sid = self.word_frontier.items[i].sentences_rowid;
                match self.db_hub.query_sentence_membership_with_text_etc_v(sid) {
                    Ok(rows) => rows,
                    Err(_) => {
                        proof {
                            assert(false);
                        }
                        Vec::new()
                    },
                }
            },
            None => Vec::new(),
        };
        self.sentence_memberships = StatefulList::with_items(rows);
        self.sentence_memberships.next();
        proof {
            if self.word_frontier.selection() is None {
                assert(self.sentence_memberships.items@.map_values(
                    |m: SentenceMembershipWithTextEtc| m@,
                ) =~= Seq::<crate::hub::SmtV>::empty());
            }
        }
    }

    /// Recomputes the known-words pane.
    fn update_known_words(&mut self)
        requires
            old(self).wf(),
        ensures
            final(self).wf(),
            final(self).db_hub == old(self).db_hub,
            final(self).title == old(self).title,
            final(self).should_quit == old(self).should_quit,
            final(self).tabs == old(self).tabs,
            final(self).enhanced_graphics == old(self).enhanced_graphics,
            final(self).word_frontier == old(self).word_frontier,
            final(self).translations == old(self).translations,
            final(self).sentence_memberships == old(self).sentence_memberships,
            final(self).known_words_fresh(),
            final(self).known_words.selection() is None,
    {
        let rows = match self.db_hub.query_known_word_with_text_v() {
            Ok(rows) => rows,
            Err(_) => {
                proof {
                    assert(false);
                }
                Vec::new()
            },
        };
        self.known_words = StatefulList::with_items(rows);
    }

    /// Marks the word under the membership cursor known, then refreshes the
    /// membership and known-words panes. Without a selection nothing
    /// changes. A ledger whose row-id space is exhausted leaves the ledger
    /// unchanged (the panes are refreshed all the same).
    fn add_selected_sentence_member_to_known_words(&mut self)
        requires
            old(self).wf(),
        ensures
            final(self).wf(),
            add_selected_transition(*old(self), *final(self)),
    {
        match self.sentence_memberships.selected() {
            Some(i) => {
                let word_rowid = self.sentence_memberships.items[i].word_rowid;
                match self.db_hub.add_known_word(word_rowid) {
                    Ok(_) => {},
                    Err(_) => {},
                }
                self.update_sentence_membership();
                self.update_known_words();
            },
            None => {},
        }
    }

    /// Marks the word under the membership cursor unknown, then refreshes the
    /// known-words pane; the membership pane keeps its rows until the next
    /// navigation or reload. Without a selection nothing changes.
    fn remove_selected_sentence_member_from_known_words(&mut self)
        requires
            old(self).wf(),
        ensures
            final(self).wf(),
            remove_selected_transition(*old(self), *final(self)),
    {
        match self.sentence_memberships.selected() {
            Some(i) => {
                let word_rowid = self.sentence_memberships.items[i].word_rowid;
                match self.db_hub.remove_known_word(word_rowid) {
                    Ok(_) => {},
                    Err(_) => {},
                }
                self.update_known_words();
            },
            None => {},
        }
    }

    /// Moves the frontier cursor one row up and refreshes the translation
    /// and membership panes for the newly selected sentence.
    pub fn on_up(&mut self)
        requires
            old(self).wf(),
        ensures
            final(self).wf(),
            final(self).db_hub == old(self).db_hub,
            final(self).word_frontier.items == old(self).word_frontier.items,
            final(self).word_frontier.selection() == prev_selection(
                old(self).word_frontier.items@.len(),
                old(self).word_frontier.selection(),
            ),
            final(self).translations_fresh(),
            final(self).memberships_fresh(),
            final(self).known_words == old(self).known_words,
            final(self).title == old(self).title,
            final(self).should_quit == old(self).should_quit,
            final(self).tabs == old(self).tabs,
            final(self).enhanced_graphics == old(self).enhanced_graphics,
    {
        self.word_frontier.previous();
        self.update_translations();
        self.update_sentence_membership();
    }

    /// Moves the frontier cursor one row down and refreshes the translation
    /// and membership panes for the newly selected sentence.
    pub fn on_down(&mut self)
        requires
            old(self).wf(),
        ensures
            final(self).wf(),
            final(self).db_hub == old(self).db_hub,
            final(self).word_frontier.items == old(self).word_frontier.items,
            final(self).word_frontier.selection() == next_selection(
                old(self).word_frontier.items@.len(),
                old(self).word_frontier.selection(),
            ),
            final(self).translations_fresh(),
            final(self).memberships_fresh(),
            final(self).known_words == old(self).known_words,
            final(self).title == old(self).title,
            final(self).should_quit == old(self).should_quit,
            final(self).tabs == old(self).tabs,
            final(self).enhanced_graphics == old(self).enhanced_graphics,
    {
        self.word_frontier.next();
        self.update_translations();
        self.update_sentence_membership();
    }

    /// Moves the membership cursor one row down.
    pub fn on_right(&mut self)
        requires
            old(self).wf(),
        ensures
            final(self).wf(),
            final(self).db_hub == old(self).db_hub,
            final(self).word_frontier == old(self).word_frontier,
            final(self).translations == old(self).translations,
            final(self).known_words == old(self).known_words,
            final(self).sentence_memberships.items == old(self).sentence_memberships.items,
            final(self).sentence_memberships.selection() == next_selection(
                old(self).sentence_memberships.items@.len(),
                old(self).sentence_memberships.selection(),
            ),
            final(self).title == old(self).title,
            final(self).should_quit == old(self).should_quit,
            final(self).tabs == old(self).tabs,
            final(self).enhanced_graphics == old(self).enhanced_graphics,
    {
        self.sentence_memberships.next();
    }

    /// Moves the membership cursor one row up.
    pub fn on_left(&mut self)
        requires
            old(self).wf(),
        ensures
            final(self).wf(),
            final(self).db_hub == old(self).db_hub,
            final(self).word_frontier == old(self).word_frontier,
            final(self).translations == old(self).translations,
            final(self).known_words == old(self).known_words,
            final(self).sentence_memberships.items == old(self).sentence_memberships.items,
            final(self).sentence_memberships.selection() == prev_selection(
                old(self).sentence_memberships.items@.len(),
                old(self).sentence_memberships.selection(),
            ),
            final(self).title == old(self).title,
            final(self).should_quit == old(self).should_quit,
            final(self).tabs == old(self).tabs,
            final(self).enhanced_graphics == old(self).enhanced_graphics,
    {
        self.sentence_memberships.previous();
    }

    /// Activates the next tab.
    pub fn on_tab(&mut self)
        requires
            old(self).wf(),
        ensures
            final(self).wf(),
            final(self).db_hub == old(self).db_hub,
            final(self).tabs.titles == old(self).tabs.titles,
            old(self).tabs.titles@.len() > 0 ==> final(self).tabs.tab_index() == (old(self).tabs.tab_index() + 1) % (old(self).tabs.titles@.len() as int),
            final(self).word_frontier == old(self).word_frontier,
            final(self).translations == old(self).translations,
            final(self).sentence_memberships == old(self).sentence_memberships,
            final(self).known_words == old(self).known_words,
            final(self).should_quit == old(self).should_quit,
            final(self).title == old(self).title,
            final(self).enhanced_graphics == old(self).enhanced_graphics,
            old(self).tabs.titles@.len() == 0 ==> final(self).tabs.tab_index() == 0,
    {
        self.tabs.next();
    }

    /// Activates the previous tab.
    pub fn on_back_tab(&mut self)
        requires
            old(self).wf(),
        ensures
            final(self).wf(),
            final(self).db_hub == old(self).db_hub,
            final(self).tabs.titles == old(self).tabs.titles,
            old(self).tabs.titles@.len() > 0 ==> final(self).tabs.tab_index() == (if old(self).tabs.tab_index() == 0 {
                old(self).tabs.titles@.len() as int - 1
            } else {
                old(self).tabs.tab_index() - 1
            }),
            final(self).word_frontier == old(self).word_frontier,
            final(self).translations == old(self).translations,
            final(self).sentence_memberships == old(self).sentence_memberships,
            final(self).known_words == old(self).known_words,
            final(self).should_quit == old(self).should_quit,
            final(self).title == old(self).title,
            final(self).enhanced_graphics == old(self).enhanced_graphics,
            old(self).tabs.titles@.len() == 0 ==> final(self).tabs.tab_index() == 0,
    {
        self.tabs.previous();
    }

    /// Dispatches a character key: mark known, mark unknown, or quit; any
    /// other key changes nothing.
    pub fn on_key(&mut self, c: char)
        requires
            old(self).wf(),
        ensures
            final(self).wf(),
            c == 'q' ==> final(self).should_quit && final(self).title == old(self).title && final(self).tabs == old(self).tabs && final(self).enhanced_graphics == old(self).enhanced_graphics && final(self).db_hub == old(self).db_hub && final(self).word_frontier == old(self).word_frontier && final(self).translations == old(self).translations && final(self).sentence_memberships == old(self).sentence_memberships
                && final(self).known_words == old(self).known_words,
            c != 'q' && c != '+' && c != '-' ==> *final(self) == *old(self),
            c == '+' ==> add_selected_transition(*old(self), *final(self)),
            c == '-' ==> remove_selected_transition(*old(self), *final(self)),
    {
        if c == '+' {
            self.add_selected_sentence_member_to_known_words();
        } else if c == '-' {
            self.remove_selected_sentence_member_from_known_words();
        } else if c == 'q' {
            self.should_quit = true;
        }
    }

    /// Recomputes every pane against the engine's current state: the frontier
    /// query runs afresh, so a ledger change made since the last reload shows
    /// up here.
    pub fn on_reload(&mut self)
        requires
            old(self).wf(),
        ensures
            final(self).wf(),
            final(self).db_hub == old(self).db_hub,
            final(self).frontier_fresh(),
            final(self).translations_fresh(),
            final(self).memberships_fresh(),
            final(self).known_words_fresh(),
            final(self).title == old(self).title,
            final(self).should_quit == old(self).should_quit,
            final(self).tabs == old(self).tabs,
            final(self).enhanced_graphics == old(self).enhanced_graphics,
    {
        self.update_word_frontier();
        self.update_translations();
        self.update_sentence_membership();
        self.update_known_words();
    }
}

} // verus!
