//! The locales that are published, and where each one's data comes from.

use vstd::prelude::*;
use crate::clock::Zone;

verus! {

/// One published locale.
#[derive(Clone, Copy, Debug)]
pub struct LocaleConfig {
    pub code: &'static str,
    pub timezone: Zone,
    pub nuka_home_url: &'static str,
    pub nuka_minerva_url: &'static str,
    pub nuka_events_url: &'static str,
    pub bethesda_locale: &'static str,
}

/// The published locales, German first.
pub fn locales() -> (res: Vec<LocaleConfig>)
    ensures
        res.len() == 2,
        res[0].code@ == "de-DE"@,
        res[0].timezone == Zone::Berlin,
        res[0].nuka_home_url@ == "https://nukaknights.com/"@,
        res[0].nuka_minerva_url@ == "https://nukaknights.com/minerva.html"@,
        res[0].nuka_events_url@ == "https://nukaknights.com/events-kalender.html"@,
        res[0].bethesda_locale@ == "de-DE"@,
        res[1].code@ == "en-US"@,
        res[1].timezone == Zone::NewYork,
        res[1].nuka_home_url@ == "https://nukaknights.com/en/"@,
        res[1].nuka_minerva_url@ == "https://nukaknights.com/minerva-dates-inventory.html"@,
        res[1].nuka_events_url@ == "https://nukaknights.com/events-calendar.html"@,
        res[1].bethesda_locale@ == "en-US"@,
{
    let mut v: Vec<LocaleConfig> = Vec::new();
    v.push(
        LocaleConfig {
            code: "de-DE",
            timezone: Zone::Berlin,
            nuka_home_url: "https://nukaknights.com/",
            nuka_minerva_url: "https://nukaknights.com/minerva.html",
            nuka_events_url: "https://nukaknights.com/events-kalender.html",
            bethesda_locale: "de-DE",
        },
    );
    v.push(
        LocaleConfig {
            code: "en-US",
            timezone: Zone::NewYork,
            nuka_home_url: "https://nukaknights.com/en/",
            nuka_minerva_url: "https://nukaknights.com/minerva-dates-inventory.html",
            nuka_events_url: "https://nukaknights.com/events-calendar.html",
            bethesda_locale: "en-US",
        },
    );
    v
}

} // verus!
