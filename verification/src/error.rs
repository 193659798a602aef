//! The ways a feed can fail to build.

use vstd::prelude::*;
use crate::clock::Date;

verus! {

/// Why a feed could not be built. Every variant stops the synchronizer
/// before it overwrites data that was good.
#[derive(PartialEq, Eq, Debug)]
pub enum FeedError {
    /// Noon in New York does not exist on this date.
    InvalidEasternDate(Date),
    /// A computed instant would leave the range that `chrono` can represent.
    TimeOutOfRange,
    /// One of the crate's regular expressions did not compile.
    InvalidPattern,
    /// One of the crate's CSS selectors did not parse.
    InvalidSelector,
    /// The events page address is not a URL.
    InvalidBaseUrl,
    /// No monthly Atomic Shop article was found for the months tried.
    ArticleNotFound,
    /// The Atomic Shop tables held no offers.
    NoOffers,
    /// The Minerva page held no sale.
    NoMinervaSchedule,
    /// A Minerva list number did not fit in a `u32`.
    InvalidListNumber,
    /// The event calendar held no event.
    NoEvents,
    /// A challenge widget was not found.
    MissingChallenges,
    /// A challenge widget held no challenge.
    NoChallenges,
    /// The Daily Ops widget was not found.
    MissingDailyOps,
    /// The Daily Ops widget has no period text.
    MissingDailyOpsPeriod,
    /// The Daily Ops period text did not parse.
    InvalidDailyOpsPeriod,
    /// The Daily Ops widget lacks its mode or its columns.
    IncompleteDailyOps,
    /// A local reset time does not exist.
    InvalidLocalResetTime,
    /// The weekly challenge start does not exist.
    InvalidWeeklyStart,
    /// The nuke-code row was not found.
    MissingNukeCodes,
    /// The nuke-code row has fewer than four cells.
    IncompleteNukeCodes,
    /// A nuke-code cell holds no eight-digit code.
    InvalidNukeCode,
    /// The nuke-code period text did not parse.
    InvalidNukePeriod,
    /// A month name in the nuke-code period is unknown.
    InvalidNukeMonth,
    /// A number in the nuke-code period did not parse.
    InvalidNukeNumber,
    /// The start of the nuke-code period does not exist.
    InvalidNukeStart,
    /// The end of the nuke-code period does not exist.
    InvalidNukeReset,
    /// The season widget was not found.
    MissingSeason,
    /// The season name did not parse.
    InvalidSeasonName,
    /// The season number did not fit in a `u32`.
    InvalidSeasonNumber,
}

} // verus!
