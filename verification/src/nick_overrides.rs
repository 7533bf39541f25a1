//! A fixed per-user label table: a few well-known users get a pinned
//! label regardless of detected activity.

use vstd::prelude::*;

verus! {

/// The label the table pins for a user, if the user is listed.
pub open spec fn spec_nick_override(user_id: u64) -> Option<Seq<char>> {
    if user_id == 1112524192450105346 {
        Some("Pokemon Go 100 Notifier"@)
    } else if user_id == 454536016728948746 {
        Some("nilah"@)
    } else if user_id == 183737687713251329 {
        Some("Jarvan the 1st"@)
    } else if user_id == 170303322488700928 {
        Some("Nasus"@)
    } else if user_id == 186575396366450688 {
        Some("Riven"@)
    } else if user_id == 210820678222479371 {
        Some("seJuani"@)
    } else if user_id == 148944778267066368 {
        Some("Braum"@)
    } else if user_id == 235839235490316288 {
        Some("Nidalee"@)
    } else if user_id == 171089305475743746 {
        Some("Xayah"@)
    } else if user_id == 173466314504011776 {
        Some("Poppy"@)
    } else if user_id == 279379471604252674 {
        Some("Nami"@)
    } else if user_id == 341691789994098711 {
        Some("Mundo--Assistant Physician"@)
    } else if user_id == 184707796791590914 {
        Some("KEVIN"@)
    } else if user_id == 191381161627484161 {
        Some("Twitch"@)
    } else if user_id == 117837849830752258 {
        Some("Jhin"@)
    } else if user_id == 180458252125995008 {
        Some("Udyr"@)
    } else if user_id == 266978219905908736 {
        Some("Sett"@)
    } else if user_id == 645968972776472605 {
        Some("Vayne"@)
    } else if user_id == 244490091932680194 {
        Some("Sivir"@)
    } else {
        None
    }
}

/// The pinned label for a user, exactly as the table records it.
pub fn nick_override(user_id: u64) -> (r: Option<&'static str>)
    ensures
        match r {
            Some(s) => spec_nick_override(user_id) == Some(s@),
            None => spec_nick_override(user_id) is None,
        },
{
    if user_id == 1112524192450105346 {
        Some("Pokemon Go 100 Notifier")
    } else if user_id == 454536016728948746 {
        Some("nilah")
    } else if user_id == 183737687713251329 {
        Some("Jarvan the 1st")
    } else if user_id == 170303322488700928 {
        Some("Nasus")
    } else if user_id == 186575396366450688 {
        Some("Riven")
    } else if user_id == 210820678222479371 {
        Some("seJuani")
    } else if user_id == 148944778267066368 {
        Some("Braum")
    } else if user_id == 235839235490316288 {
        Some("Nidalee")
    } else if user_id == 171089305475743746 {
        Some("Xayah")
    } else if user_id == 173466314504011776 {
        Some("Poppy")
    } else if user_id == 279379471604252674 {
        Some("Nami")
    } else if user_id == 341691789994098711 {
        Some("Mundo--Assistant Physician")
    } else if user_id == 184707796791590914 {
        Some("KEVIN")
    } else if user_id == 191381161627484161 {
        Some("Twitch")
    } else if user_id == 117837849830752258 {
        Some("Jhin")
    } else if user_id == 180458252125995008 {
        Some("Udyr")
    } else if user_id == 266978219905908736 {
        Some("Sett")
    } else if user_id == 645968972776472605 {
        Some("Vayne")
    } else if user_id == 244490091932680194 {
        Some("Sivir")
    } else {
        None
    }
}

} // verus!
