//! Device-profile switching support: deriving the card behind an output
//! node, reading the active profile out of the card listing, and the fixed
//! retry plan of the profile-switch helper.

use vstd::prelude::*;
use crate::strutil::{
    spec_trim,
    trim_range,
    match_at,
    match_at_exec,
    split_sub,
    split_on,
    subvec,
    chars_eq,
    str_chars,
};
use crate::devices::{line_value, line_value_exec};
use crate::tags::append_chars;

verus! {

/// How often the profile switch is retried, and the pause between tries in
/// milliseconds.
pub const PROFILE_RETRIES: u32 = 3;

/// The pause between profile-switch tries, in milliseconds.
pub const PROFILE_RETRY_DELAY_MS: u64 = 120;

/// Whether `s` ends with `pat`.
pub open spec fn ends_with_seq(s: Seq<char>, pat: Seq<char>) -> bool {
    pat.len() <= s.len() && match_at(s, pat, s.len() - pat.len())
}

/// The node-name core with a known port suffix stripped: the first matching
/// suffix of the fixed list is removed.
pub open spec fn strip_port_suffix(core: Seq<char>) -> Seq<char> {
    if ends_with_seq(core, ".analog-stereo"@) {
        core.take(core.len() - ".analog-stereo"@.len())
    } else if ends_with_seq(core, ".pro-output-0"@) {
        core.take(core.len() - ".pro-output-0"@.len())
    } else if ends_with_seq(core, ".pro-output-1"@) {
        core.take(core.len() - ".pro-output-1"@.len())
    } else if ends_with_seq(core, ".pro-output-2"@) {
        core.take(core.len() - ".pro-output-2"@.len())
    } else if ends_with_seq(core, ".pro-output-3"@) {
        core.take(core.len() - ".pro-output-3"@.len())
    } else if ends_with_seq(core, ".multichannel-output"@) {
        core.take(core.len() - ".multichannel-output"@.len())
    } else if ends_with_seq(core, ".iec958-stereo"@) {
        core.take(core.len() - ".iec958-stereo"@.len())
    } else {
        core
    }
}

/// The card object behind an output node's identifier: `alsa_output.`
/// becomes `alsa_card.` with the port suffix stripped; anything else names
/// no card.
pub open spec fn spec_card_of_output_node(dev_id: Seq<char>) -> Option<Seq<char>> {
    let dev = spec_trim(dev_id);
    if !match_at(dev, "alsa_output."@, 0) {
        None
    } else {
        let core = strip_port_suffix(dev.skip("alsa_output."@.len() as int));
        if core.len() == 0 {
            None
        } else {
            Some(Seq::<char>::empty() + "alsa_card."@ + core)
        }
    }
}

/// Whether `s` ends with `pat`.
fn ends_with_exec(s: &Vec<char>, pat: &Vec<char>) -> (r: bool)
    ensures
        r == ends_with_seq(s@, pat@),
{
    if pat.len() > s.len() {
        false
    } else {
        match_at_exec(s, pat, s.len() - pat.len())
    }
}

/// Derive the card object behind an output node's identifier.
pub fn card_of_output_node(dev_id: &Vec<char>) -> (r: Option<Vec<char>>)
    ensures
        match (r, spec_card_of_output_node(dev_id@)) {
            (Some(a), Some(b)) => a@ == b,
            (None, None) => true,
            _ => false,
        },
{
    let dev = trim_range(dev_id, 0, dev_id.len());
    proof {
        assert(dev_id@.subrange(0, dev_id@.len() as int) =~= dev_id@);
    }
    let prefix = str_chars("alsa_output.");
    proof {
        reveal_strlit("alsa_output.");
    }
    if !match_at_exec(&dev, &prefix, 0) {
        return None;
    }
    let core0 = subvec(&dev, prefix.len(), dev.len());
    proof {
        assert(core0@ =~= dev@.skip("alsa_output."@.len() as int));
    }
    let s1 = str_chars(".analog-stereo");
    let s2 = str_chars(".pro-output-0");
    let s3 = str_chars(".pro-output-1");
    let s4 = str_chars(".pro-output-2");
    let s5 = str_chars(".pro-output-3");
    let s6 = str_chars(".multichannel-output");
    let s7 = str_chars(".iec958-stereo");
    let core: Vec<char> = if ends_with_exec(&core0, &s1) {
        subvec(&core0, 0, core0.len() - s1.len())
    } else if ends_with_exec(&core0, &s2) {
        subvec(&core0, 0, core0.len() - s2.len())
    } else if ends_with_exec(&core0, &s3) {
        subvec(&core0, 0, core0.len() - s3.len())
    } else if ends_with_exec(&core0, &s4) {
        subvec(&core0, 0, core0.len() - s4.len())
    } else if ends_with_exec(&core0, &s5) {
        subvec(&core0, 0, core0.len() - s5.len())
    } else if ends_with_exec(&core0, &s6) {
        subvec(&core0, 0, core0.len() - s6.len())
    } else if ends_with_exec(&core0, &s7) {
        subvec(&core0, 0, core0.len() - s7.len())
    } else {
        subvec(&core0, 0, core0.len())
    };
    proof {
        assert(core0@.subrange(0, core0@.len() as int) =~= core0@);
        assert(core@ == strip_port_suffix(core0@));
    }
    if core.len() == 0 {
        return None;
    }
    let mut r = str_chars("alsa_card.");
    append_chars(&mut r, &core);
    proof {
        assert(r@ =~= Seq::<char>::empty() + "alsa_card."@ + core@);
    }
    Some(r)
}

/// How one line of the card listing updates the scan: a `Name:` line names
/// the current card; the first `Active Profile:` line of the wanted card
/// answers the scan.
pub open spec fn profile_step(
    st: (Seq<char>, Option<Seq<char>>),
    l: Seq<char>,
    card: Seq<char>,
) -> (Seq<char>, Option<Seq<char>>) {
    match line_value(l, "Name:"@) {
        Some(v) => (v, st.1),
        None => {
            if st.0 == card && st.1 is None {
                match line_value(l, "Active Profile:"@) {
                    Some(v) => (st.0, Some(v)),
                    None => st,
                }
            } else {
                st
            }
        },
    }
}

/// The scan state after the listing's lines.
pub open spec fn profile_fold(
    lines: Seq<Seq<char>>,
    card: Seq<char>,
) -> (Seq<char>, Option<Seq<char>>)
    decreases lines.len(),
{
    if lines.len() == 0 {
        (Seq::empty(), None)
    } else {
        profile_step(profile_fold(lines.drop_last(), card), lines.last(), card)
    }
}

/// The active profile the card listing reports for `card`, if any.
pub open spec fn spec_active_profile(text: Seq<char>, card: Seq<char>) -> Option<Seq<char>> {
    profile_fold(split_sub(text, seq!['\n']), card).1
}

/// Read the active profile of `card` out of the textual card listing.
pub fn active_profile(text: &Vec<char>, card: &Vec<char>) -> (r: Option<Vec<char>>)
    ensures
        match (r, spec_active_profile(text@, card@)) {
            (Some(a), Some(b)) => a@ == b,
            (None, None) => true,
            _ => false,
        },
{
    let mut nl: Vec<char> = Vec::new();
    nl.push('\n');
    proof {
        assert(nl@ =~= seq!['\n']);
    }
    let lines = split_on(text, &nl);
    let ghost lms = lines@.map_values(|p: Vec<char>| p@);
    let mut current: Vec<char> = Vec::new();
    let mut result: Option<Vec<char>> = None;
    let mut i: usize = 0;
    proof {
        assert(lms.take(0) =~= Seq::<Seq<char>>::empty());
        assert(current@ =~= Seq::<char>::empty());
    }
    while i < lines.len()
        invariant
            0 <= i <= lines@.len(),
            lms == lines@.map_values(|p: Vec<char>| p@),
            (current@, match result {
                Some(ref t) => Some(t@),
                None => None,
            }) == profile_fold(lms.take(i as int), card@),
        decreases lines@.len() - i,
    {
        proof {
            assert(lms.take(i + 1).drop_last() =~= lms.take(i as int));
            assert(lms.take(i + 1).last() == lms[i as int]);
        }
        let name_pat = str_chars("Name:");
        let prof_pat = str_chars("Active Profile:");
        match line_value_exec(&lines[i], &name_pat) {
            Some(v) => {
                current = v;
            },
            None => {
                let is_none = match &result {
                    Some(_) => false,
                    None => true,
                };
                if is_none && chars_eq(&current, card) {
                    match line_value_exec(&lines[i], &prof_pat) {
                        Some(v) => {
                            result = Some(v);
                        },
                        None => {},
                    }
                }
            },
        }
        i = i + 1;
    }
    proof {
        assert(lms.take(lines@.len() as int) =~= lms);
    }
    result
}

/// Whether a profile name is the pro-audio profile.
pub fn is_pro_audio(p: &Vec<char>) -> (r: bool)
    ensures
        r == (p@ == "pro-audio"@),
{
    let pat = str_chars("pro-audio");
    chars_eq(p, &pat)
}

/// The error text when the profile switch gives up: the card and the last
/// error seen.
pub open spec fn spec_switch_failed_text(card: Seq<char>, last_err: Seq<char>) -> Seq<char> {
    Seq::<char>::empty() + "failed to switch "@ + card + " to pro-audio: "@ + last_err
}

/// Build the error text for an abandoned profile switch.
pub fn switch_failed_text(card: &Vec<char>, last_err: &Vec<char>) -> (r: Vec<char>)
    ensures
        r@ == spec_switch_failed_text(card@, last_err@),
{
    let mut t = str_chars("failed to switch ");
    append_chars(&mut t, card);
    let mid = str_chars(" to pro-audio: ");
    append_chars(&mut t, &mid);
    append_chars(&mut t, last_err);
    proof {
        assert(t@ =~= spec_switch_failed_text(card@, last_err@));
    }
    t
}

} // verus!
