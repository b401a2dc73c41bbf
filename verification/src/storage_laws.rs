//! What is kept across a restart, and which network the machine is on.

use crate::profiles::{key_of, loaded_over, BrewProfile, ProfileModel};
use crate::settings::{writes_of, FlashUpdateModel, FlashWriteModel, StoredModel, WifiModel};
use crate::single::Single;
use crate::wifi::{opens_access_point, Link, LinkEvent};
use vstd::prelude::*;
use vstd::utf8::*;

verus! {

/// A section that is stored is loaded as it is, and one that is not has its
/// default, whatever the others hold.
pub proof fn law_sections_are_loaded_one_by_one(stored: StoredModel)
    ensures
        ({
            let s = stored.over_defaults();
            &&& stored.machine matches Some(m) ==> s.machine == m
            &&& stored.temp_pid matches Some(g) ==> s.temp_pid == g
            &&& stored.press_pid matches Some(g) ==> s.press_pid == g
            &&& stored.flow_pid matches Some(g) ==> s.flow_pid == g
            &&& stored.wifi matches Some(w) ==> s.wifi == w
            &&& stored.machine is None ==> {
                &&& s.machine.brew_temp == Single::whole(92)
                &&& s.machine.steam_temp == Single::whole(135)
                &&& s.machine.steam_time_limit_s == Single::whole(120)
                &&& s.machine.sleep_timeout_min == Single::whole(20)
                &&& s.machine.temp_offset == Single::whole(10)
                &&& s.machine.flow_pulses_per_liter == Single::whole(98_324)
                &&& s.machine.feed_forward_percents == Single::whole(100)
            }
            &&& stored.temp_pid is None ==> s.temp_pid.kp == Single::whole(8) && s.temp_pid.ki
                == Single::fraction(4, 5) && s.temp_pid.kd == Single::whole(20)
            &&& stored.press_pid is None ==> s.press_pid.kp == Single::whole(10) && s.press_pid.ki
                == Single::whole(20) && s.press_pid.kd == Single::whole(0)
            &&& stored.flow_pid is None ==> s.flow_pid.kp == Single::whole(4) && s.flow_pid.ki
                == Single::whole(30) && s.flow_pid.kd == Single::whole(0)
            &&& stored.wifi is None ==> s.wifi.ssid.len() == 0 && s.wifi.password.len() == 0
        }),
{
    Single::lemma_fraction_reduced(4, 5, 2);
}

/// A profile is stored under `prof_` and its slot's digit.
pub proof fn law_profile_key_names_the_slot(slot: u8)
    requires
        slot < 10,
    ensures
        key_of(slot).len() == 6,
        key_of(slot).take(5) == encode_utf8("prof_"@),
        key_of(slot)[5] == 48 + slot,
{
    reveal_strlit("prof_");
    assert(is_ascii_chars("prof_"@));
    is_ascii_chars_encode_utf8("prof_"@);
    let text = encode_utf8("prof_"@);
    assert forall|i: int| 0 <= i < 5 implies key_of(slot)[i] == #[trigger] text[i] by {
        assert("prof_"@[i] as u8 == text[i]);
    }
    assert(key_of(slot).take(5) =~= text);
}

/// A profile that was written is what a restart finds in its slot: the write
/// holds what the slot holds, under the slot's key, and a load takes over what
/// is found and leaves the other slots.
pub proof fn law_written_profile_is_loaded(
    cache: Seq<Option<ProfileModel>>,
    fresh: Seq<Option<ProfileModel>>,
    found: Seq<Option<BrewProfile>>,
    slot: u8,
)
    requires
        slot < 10,
        cache.len() == 10,
        fresh.len() == 10,
        found.len() == 10,
    ensures
        ({
            let writes = writes_of(FlashUpdateModel::SaveProfile(slot), cache);
            let loaded = loaded_over(fresh, found, 10);
            &&& cache[slot as int] matches Some(p) ==> writes.len() == 1 && writes[0]
                == FlashWriteModel::Profile(key_of(slot), p)
            &&& cache[slot as int] is None ==> writes.len() == 0
            &&& loaded.len() == 10
            &&& found[slot as int] matches Some(p) ==> loaded[slot as int] == Some(p@)
            &&& found[slot as int] is None ==> loaded[slot as int] == fresh[slot as int]
            &&& writes_of(FlashUpdateModel::DeleteProfile(slot), cache) =~= seq![
                FlashWriteModel::RemoveProfile(key_of(slot)),
            ]
        }),
{
}

/// The machine is its own access point when that is forced or when there is no
/// network to join, and only then.
pub proof fn law_access_point_is_for_setup(wifi: WifiModel)
    ensures
        opens_access_point(true, wifi),
        opens_access_point(false, wifi) <==> wifi.ssid == Seq::<char>::empty(),
{
    if wifi.ssid.len() == 0 {
        assert(wifi.ssid =~= Seq::<char>::empty());
    }
}

/// A failed join is tried again after five seconds. After a join the link is
/// looked at every 100 ms; once it is up every 500 ms; and one that is lost is
/// joined again at once.
pub proof fn law_link_is_watched(n: u8)
    requires
        n < 50,
    ensures
        ({
            let failed = Link::Joining.next(LinkEvent::Joined(false));
            let joined = Link::Joining.next(LinkEvent::Joined(true));
            let up = Link::Checking(n).next(LinkEvent::Up(true));
            let down = Link::Checking(n).next(LinkEvent::Up(false));
            let stays = Link::Watching.next(LinkEvent::Up(true));
            let lost = Link::Watching.next(LinkEvent::Up(false));
            &&& failed.0 is Joining && failed.1 == 5000
            &&& joined.0 == Link::Checking(0) && joined.1 == 0
            &&& up.0 is Watching
            &&& down.1 == 100
            &&& n < 49 ==> down.0 == Link::Checking((n + 1) as u8)
            &&& n == 49 ==> down.0 is Joining
            &&& stays.0 is Watching && stays.1 == 500
            &&& lost.0 is Joining && lost.1 == 0
        }),
{
}

} // verus!
