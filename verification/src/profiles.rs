//! Brew profile model, RAM cache and the keys profiles are stored under.
//!
//! Profiles share the key/value area with settings but live under their own
//! `prof_N` keys. They are mirrored in a RAM cache so the brew path never has
//! to touch flash.

use crate::bounded::{text32_clone, text32_from};
use crate::single::Single;
use vstd::prelude::*;

verus! {

/// Slots a profile can be saved in.
pub const MAX_PROFILES: u8 = 10;

/// Maximum steps in a brew profile.
///
/// This bounds `MachineCommand::SaveProfile`, which travels through the
/// command queue. Five covers pre-infuse, ramp, hold, decline and a tail.
pub const MAX_STEPS: usize = 5;

#[derive(Clone, Copy, Debug)]
pub struct BrewProfileStep {
    pub time_s: Option<Single>,
    pub volume: Option<Single>,
    pub pressure: Option<Single>,
    pub flow: Option<Single>,
}

pub struct BrewProfile {
    pub name: heapless::String<32>,
    pub steps: heapless::Vec<BrewProfileStep, 5>,
}

/// What a [`BrewProfile`] holds.
#[verifier::ext_equal]
pub struct ProfileModel {
    pub name: Seq<char>,
    pub steps: Seq<BrewProfileStep>,
}

/// The steps a profile's list holds, in order.
pub uninterp spec fn step_list(v: heapless::Vec<BrewProfileStep, 5>) -> Seq<BrewProfileStep>;

/// The saved profiles a listing holds, in order, each with its slot.
pub uninterp spec fn slot_list(v: heapless::Vec<(u8, BrewProfile), 10>) -> Seq<(u8, ProfileModel)>;

impl View for BrewProfile {
    type V = ProfileModel;

    open spec fn view(&self) -> ProfileModel {
        ProfileModel { name: crate::bounded::text32(self.name), steps: step_list(self.steps) }
    }
}

/// `heapless::Vec::new`: an empty list.
#[verifier::external_body]
fn steps_new() -> (r: heapless::Vec<BrewProfileStep, 5>)
    ensures
        step_list(r) == Seq::<BrewProfileStep>::empty(),
{
    heapless::Vec::new()
}

/// `heapless::Vec::push`: appends the item, or hands it back when the list
/// already holds five.
#[verifier::external_body]
fn steps_push(v: &mut heapless::Vec<BrewProfileStep, 5>, step: BrewProfileStep) -> (r: Result<
    (),
    BrewProfileStep,
>)
    ensures
        step_list(*old(v)).len() < 5 ==> r is Ok && step_list(*final(v)) == step_list(
            *old(v),
        ).push(step),
        step_list(*old(v)).len() >= 5 ==> r is Err && r->Err_0 == step && step_list(
            *final(v),
        ) == step_list(*old(v)),
{
    v.push(step)
}

/// `heapless::Vec::as_slice`: the items held, of which there are at most five.
#[verifier::external_body]
pub(crate) fn steps_as_slice(v: &heapless::Vec<BrewProfileStep, 5>) -> (r: &[BrewProfileStep])
    ensures
        r@ == step_list(*v),
        r@.len() <= 5,
{
    v.as_slice()
}

/// `heapless::Vec::clone`: a list of copies of the items.
#[verifier::external_body]
fn steps_clone(v: &heapless::Vec<BrewProfileStep, 5>) -> (r: heapless::Vec<BrewProfileStep, 5>)
    ensures
        step_list(r) == step_list(*v),
{
    v.clone()
}

/// `heapless::Vec::new`: an empty listing.
#[verifier::external_body]
fn listing_new() -> (r: heapless::Vec<(u8, BrewProfile), 10>)
    ensures
        slot_list(r) == Seq::<(u8, ProfileModel)>::empty(),
{
    heapless::Vec::new()
}

/// `heapless::Vec::push`: appends the item, or hands it back when the listing
/// already holds ten.
#[verifier::external_body]
fn listing_push(v: &mut heapless::Vec<(u8, BrewProfile), 10>, item: (u8, BrewProfile)) -> (r: Result<
    (),
    (u8, BrewProfile),
>)
    ensures
        slot_list(*old(v)).len() < 10 ==> r is Ok && slot_list(*final(v)) == slot_list(
            *old(v),
        ).push((item.0, item.1@)),
        slot_list(*old(v)).len() >= 10 ==> r is Err && r->Err_0 == item && slot_list(
            *final(v),
        ) == slot_list(*old(v)),
{
    v.push(item)
}

impl Clone for BrewProfile {
    fn clone(&self) -> (r: BrewProfile)
        ensures
            r@ == self@,
    {
        BrewProfile { name: text32_clone(&self.name), steps: steps_clone(&self.steps) }
    }
}

/// The RAM copy of the saved profiles, one place per slot.
pub struct ProfileCache {
    slots: [Option<BrewProfile>; 10],
}

impl View for ProfileCache {
    type V = Seq<Option<ProfileModel>>;

    closed spec fn view(&self) -> Seq<Option<ProfileModel>> {
        Seq::new(
            10,
            |i: int|
                match self.slots@[i] {
                    Some(p) => Some(p@),
                    None => None,
                },
        )
    }
}

/// What a slot holds; nothing for a slot that does not exist.
pub open spec fn profile_in(cache: Seq<Option<ProfileModel>>, slot: u8) -> Option<ProfileModel> {
    if slot < MAX_PROFILES {
        cache[slot as int]
    } else {
        None
    }
}

/// The cache with a slot replaced; unchanged for a slot that does not exist.
pub open spec fn with_profile(
    cache: Seq<Option<ProfileModel>>,
    slot: u8,
    profile: Option<ProfileModel>,
) -> Seq<Option<ProfileModel>> {
    if slot < MAX_PROFILES {
        cache.update(slot as int, profile)
    } else {
        cache
    }
}

/// The profiles saved in the first `n` slots, in slot order.
pub open spec fn saved_profiles(cache: Seq<Option<ProfileModel>>, n: int) -> Seq<
    (u8, ProfileModel),
>
    decreases n,
{
    if n <= 0 {
        Seq::empty()
    } else {
        let rest = saved_profiles(cache, n - 1);
        match cache[n - 1] {
            Some(p) => rest.push(((n - 1) as u8, p)),
            None => rest,
        }
    }
}

/// The built-in shot: 9 bar until 36 ml or 30 s, so the machine is usable out
/// of the box.
pub open spec fn standard_profile() -> ProfileModel {
    ProfileModel {
        name: "Standard"@,
        steps: seq![
            BrewProfileStep {
                time_s: Some(Single::whole(30)),
                volume: Some(Single::whole(36)),
                pressure: Some(Single::whole(9)),
                flow: Some(Single::whole(0)),
            },
        ],
    }
}

/// The profile of a bare `Brew` command.
pub open spec fn default_profile(cache: Seq<Option<ProfileModel>>) -> ProfileModel {
    match profile_in(cache, 0) {
        Some(p) => p,
        None => standard_profile(),
    }
}

impl ProfileCache {
    /// No profile saved.
    pub fn new() -> (r: ProfileCache)
        ensures
            r@ == Seq::new(10, |i: int| None::<ProfileModel>),
    {
        let slots: [Option<BrewProfile>; 10] = [
            None, None, None, None, None, None, None, None, None, None,
        ];
        ProfileCache { slots }
    }
}

/// Profile used by a bare `Brew` command: slot 0 if one is saved, otherwise a
/// built-in 9 bar / 36 ml shot.
pub fn get_default_profile(cache: &ProfileCache) -> (r: BrewProfile)
    ensures
        r@ == default_profile(cache@),
{
    if let Some(profile) = get_profile_from_ram(cache, 0) {
        return profile;
    }
    proof {
        reveal_strlit("Standard");
        vstd::string::is_ascii_spec_bytes("Standard");
    }
    let name: heapless::String<32> = text32_from("Standard").unwrap();
    let mut steps: heapless::Vec<BrewProfileStep, 5> = steps_new();
    let _ = steps_push(
        &mut steps,
        BrewProfileStep {
            time_s: Some(Single::from_u32(30)),
            volume: Some(Single::from_u32(36)),
            pressure: Some(Single::from_u32(9)),
            flow: Some(Single::from_u32(0)),
        },
    );
    let p: BrewProfile = BrewProfile { name, steps };
    assert(p@ =~= standard_profile());
    p
}

/// The key a slot is stored under. Past the last slot that has a character the
/// key would not fit its byte.
pub fn profile_key(slot: u8) -> (r: [u8; 6])
    requires
        48 + slot <= u8::MAX,
    ensures
        r@ == key_of(slot),
{
    [112, 114, 111, 102, 95, 48 + slot]
}

/// `prof_` and the slot's character, counted from `0`.
pub open spec fn key_of(slot: u8) -> Seq<u8> {
    seq![112u8, 114, 111, 102, 95, (48 + slot) as u8]
}

pub fn get_profile_from_ram(cache: &ProfileCache, slot: u8) -> (r: Option<BrewProfile>)
    ensures
        match r {
            Some(p) => profile_in(cache@, slot) == Some(p@),
            None => profile_in(cache@, slot) is None,
        },
{
    if slot >= MAX_PROFILES {
        return None;
    }
    match &cache.slots[slot as usize] {
        Some(p) => Some(p.clone()),
        None => None,
    }
}

pub fn get_all_profiles_from_ram(cache: &ProfileCache) -> (list: heapless::Vec<
    (u8, BrewProfile),
    10,
>)
    ensures
        slot_list(list) == saved_profiles(cache@, MAX_PROFILES as int),
{
    let mut list: heapless::Vec<(u8, BrewProfile), 10> = listing_new();
    let mut i: u8 = 0;
    while i < MAX_PROFILES
        invariant
            i <= MAX_PROFILES,
            slot_list(list) == saved_profiles(cache@, i as int),
            slot_list(list).len() <= i,
        decreases MAX_PROFILES - i,
    {
        if let Some(p) = get_profile_from_ram(cache, i) {
            let _ = listing_push(&mut list, (i, p));
        }
        i = i + 1;
    }
    list
}

pub fn save_profile_to_ram(cache: &mut ProfileCache, slot: u8, profile: BrewProfile)
    ensures
        final(cache)@ == with_profile(old(cache)@, slot, Some(profile@)),
{
    if slot < MAX_PROFILES {
        cache.slots[slot as usize] = Some(profile);
    }
    assert(cache@ =~= with_profile(old(cache)@, slot, Some(profile@)));
}

pub fn delete_profile_from_ram(cache: &mut ProfileCache, slot: u8)
    ensures
        final(cache)@ == with_profile(old(cache)@, slot, None),
{
    if slot < MAX_PROFILES {
        cache.slots[slot as usize] = None;
    }
    assert(cache@ =~= with_profile(old(cache)@, slot, None));
}

/// What each slot holds after boot: what could be read for it, else what it
/// held.
pub open spec fn loaded_over(
    cache: Seq<Option<ProfileModel>>,
    found: Seq<Option<BrewProfile>>,
    n: int,
) -> Seq<Option<ProfileModel>> {
    Seq::new(
        cache.len(),
        |i: int|
            match found[i] {
                Some(p) if i < n && i < found.len() => Some(p@),
                _ => cache[i],
            },
    )
}

/// Takes over the profiles found in flash, `found[slot]` being absent where
/// nothing is stored or what is stored does not parse.
pub fn load_all_profiles_from_flash(cache: &mut ProfileCache, found: &[Option<BrewProfile>])
    ensures
        final(cache)@ == loaded_over(old(cache)@, found@, MAX_PROFILES as int),
{
    let mut slot: u8 = 0;
    assert(cache@ =~= loaded_over(old(cache)@, found@, 0));
    while slot < MAX_PROFILES && (slot as usize) < found.len()
        invariant
            slot <= MAX_PROFILES,
            slot <= found@.len(),
            cache@.len() == 10,
            old(cache)@.len() == 10,
            cache@ == loaded_over(old(cache)@, found@, slot as int),
        decreases MAX_PROFILES - slot,
    {
        if let Some(p) = &found[slot as usize] {
            save_profile_to_ram(cache, slot, p.clone());
        }
        slot = slot + 1;
        assert(cache@ =~= loaded_over(old(cache)@, found@, slot as int));
    }
    assert(cache@ =~= loaded_over(old(cache)@, found@, MAX_PROFILES as int));
}

/// The key to store a slot's profile under, or an error for a slot that does
/// not exist.
pub fn save_profile_to_flash(slot: u8) -> (r: Result<[u8; 6], ()>)
    ensures
        slot < MAX_PROFILES ==> r is Ok && r->Ok_0@ == key_of(slot),
        slot >= MAX_PROFILES ==> r is Err,
{
    if slot >= MAX_PROFILES {
        return Err(());
    }
    Ok(profile_key(slot))
}

/// The key to remove for a slot, or an error for a slot that does not exist.
pub fn delete_profile_from_flash(slot: u8) -> (r: Result<[u8; 6], ()>)
    ensures
        slot < MAX_PROFILES ==> r is Ok && r->Ok_0@ == key_of(slot),
        slot >= MAX_PROFILES ==> r is Err,
{
    if slot >= MAX_PROFILES {
        return Err(());
    }
    Ok(profile_key(slot))
}

/// A profile saved in an existing slot is what that slot gives back, and no
/// other slot changes.
pub proof fn law_saved_profile_is_read_back(
    cache: Seq<Option<ProfileModel>>,
    slot: u8,
    profile: ProfileModel,
    other: u8,
)
    requires
        cache.len() == MAX_PROFILES,
        slot < MAX_PROFILES,
    ensures
        profile_in(with_profile(cache, slot, Some(profile)), slot) == Some(profile),
        other != slot ==> profile_in(with_profile(cache, slot, Some(profile)), other)
            == profile_in(cache, other),
{
}

/// A deleted slot is empty, and no other slot changes.
pub proof fn law_deleted_profile_is_gone(cache: Seq<Option<ProfileModel>>, slot: u8, other: u8)
    requires
        cache.len() == MAX_PROFILES,
    ensures
        profile_in(with_profile(cache, slot, None), slot) is None,
        other != slot ==> profile_in(with_profile(cache, slot, None), other) == profile_in(
            cache,
            other,
        ),
{
}

/// A listing names exactly the slots that hold a profile, each with what it
/// holds.
pub proof fn law_listing_is_complete(cache: Seq<Option<ProfileModel>>, n: int, slot: u8)
    requires
        cache.len() == MAX_PROFILES,
        0 <= n <= MAX_PROFILES,
        slot < MAX_PROFILES,
    ensures
        saved_profiles(cache, n).len() <= n,
        forall|p: ProfileModel|
            saved_profiles(cache, n).contains((slot, p)) <==> slot < n && cache[slot as int]
                == Some(p),
    decreases n,
{
    if n > 0 {
        law_listing_is_complete(cache, n - 1, slot);
        let rest = saved_profiles(cache, n - 1);
        let all = saved_profiles(cache, n);
        assert forall|p: ProfileModel|
            all.contains((slot, p)) <==> slot < n && cache[slot as int] == Some(p) by {
            if rest.contains((slot, p)) {
                let k = choose|k: int| 0 <= k < rest.len() && rest[k] == (slot, p);
                assert(all[k] == (slot, p));
            }
            if slot == n - 1 && cache[slot as int] == Some(p) {
                assert(all[rest.len() as int] == (slot, p));
            }
            if all.contains((slot, p)) {
                let k = choose|k: int| 0 <= k < all.len() && all[k] == (slot, p);
                if k < rest.len() {
                    assert(rest[k] == (slot, p));
                }
            }
        }
    }
}

/// A cache has a place for every slot, and no more.
pub proof fn law_cache_has_a_place_for_every_slot(cache: &ProfileCache)
    ensures
        cache@.len() == MAX_PROFILES,
{
}

/// Different slots are stored under different keys.
pub proof fn law_keys_are_distinct(a: u8, b: u8)
    requires
        48 + a <= u8::MAX,
        48 + b <= u8::MAX,
        a != b,
    ensures
        key_of(a) != key_of(b),
{
    assert(key_of(a)[5] != key_of(b)[5]);
}

} // verus!
