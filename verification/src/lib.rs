use vstd::prelude::*;

pub mod corpus;
pub mod error;
pub mod hub;
pub mod langs;
pub mod laws;
pub mod text;
pub mod translations;
pub mod ui_state;
pub mod user;

pub use crate::corpus::{
    CorpusDb, CorpusPurpose, SentenceMembershipRow, SentenceRow, WordFrontierWithTranslation,
    WordRow,
};
pub use crate::error::Error;
pub use crate::hub::{
    DbHub, DbHubConfig, KnownWordWithText, SentenceMembershipWithTextEtc, TranslationWithText,
    WordFrontierMember,
};
pub use crate::langs::{Lang, LangRow, LangsDb};
pub use crate::translations::{TranslationRow, TranslationsDb};
pub use crate::ui_state::{App, Config, StatefulList, TabsState};
pub use crate::user::{KnownWordEntry, KnownWordRow, UserDb};

verus! {

/// Conflict policy for an insert into a dataset with a uniqueness constraint.
/// `Ignore` (skip the duplicate) is what bulk ingestion uses throughout; the
/// other policies mirror the conflict resolutions a relational store offers.
#[derive(Debug, Clone, Copy)]
pub enum OnConflict {
    Abort,
    Fail,
    Ignore,
    Replace,
    Rollback,
}

/// The keyword a relational store uses for each conflict policy.
pub open spec fn conflict_keyword(c: OnConflict) -> Seq<char> {
    match c {
        OnConflict::Abort => "ABORT"@,
        OnConflict::Fail => "FAIL"@,
        OnConflict::Ignore => "IGNORE"@,
        OnConflict::Replace => "REPLACE"@,
        OnConflict::Rollback => "ROLLBACK"@,
    }
}

impl OnConflict {
    /// Renders the policy as the keyword a SQL `INSERT OR <keyword>` expects.
    pub fn sql_keyword(&self) -> (s: String)
        ensures
            s@ == conflict_keyword(*self),
    {
        match self {
            OnConflict::Abort => "ABORT".to_owned(),
            OnConflict::Fail => "FAIL".to_owned(),
            OnConflict::Ignore => "IGNORE".to_owned(),
            OnConflict::Replace => "REPLACE".to_owned(),
            OnConflict::Rollback => "ROLLBACK".to_owned(),
        }
    }
}

/// Ordering criterion for the frontier query: by the minimum frequency among
/// a sentence's unknown words, lowest first (`Ascending`), highest first
/// (`Descending`), or in storage order (`Unordered`).
#[derive(Debug, Clone, Copy)]
pub enum Order {
    Ascending,
    Descending,
    Unordered,
}

/// Inclusive range `[lo, hi]` of unknown-word counts for the frontier query.
pub struct Range(pub i32, pub i32);

} // verus!
