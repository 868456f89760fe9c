//! Laws of the state: what every operation keeps, and how operations go
//! together.

use vstd::prelude::*;

use crate::ipv4::is_dotted_quad;
use crate::json::{json_array_of, json_read};
use crate::netsh::ChangeView;
use crate::order::{
    in_order, listed_interfaces_are_sorted, listing_interfaces_only_reorders, sorted_interfaces,
    without_repeats, without_repeats_keeps_names, without_repeats_separates,
};
use crate::profile::{
    complete_profiles_are_loaded, loaded_profiles_are_complete, name_from_edit, profile_rows,
    profiles_loaded, ProfileView,
};
use crate::settings::SettingsView;
use crate::state::{
    action_list, profile_interfaces, profiles_without, with_profile_interfaces, ActionView, AppView,
    MessageView, StatusTone,
};
use crate::text::{is_blank, trim_is_idempotent};

verus! {

impl AppView {
    /// Whether every profile is complete.
    pub open spec fn profiles_complete(self) -> bool {
        forall|i: int| 0 <= i < self.profiles.len() ==> (#[trigger] self.profiles[i]).is_complete()
    }
}

impl AppView {
    /// Whether the interfaces are offered in order.
    pub open spec fn interfaces_in_order(self) -> bool {
        in_order(self.interface_category_by_name, self.interfaces)
    }

    /// Whether the interface of every profile is offered, but for blank ones.
    pub open spec fn offers_profile_interfaces(self) -> bool {
        forall|i: int|
            0 <= i < self.profiles.len() && !is_blank(self.profiles[i].net_interface)
                ==> self.interfaces.contains((#[trigger] self.profiles[i]).net_interface)
    }
}

impl MessageView {
    /// Whether the profile that a message brings, if any, is complete.
    pub open spec fn brings_complete(self) -> bool {
        match self {
            MessageView::ApplyCompleted { profile_to_save: Some(p), .. } => p.is_complete(),
            _ => true,
        }
    }
}

/// The profiles on disk after some work, where it held some before: those that
/// were saved last.
pub open spec fn on_disk(before: Seq<ProfileView>, work: Seq<ActionView>) -> Seq<ProfileView>
    decreases work.len(),
{
    if work.len() == 0 {
        before
    } else {
        match work.last() {
            ActionView::SaveProfiles { profiles } => profiles,
            _ => on_disk(before, work.drop_last()),
        }
    }
}

proof fn lemma_on_disk_one(before: Seq<ProfileView>, work: Option<ActionView>)
    ensures
        on_disk(before, action_list(work)) == match work {
            Some(ActionView::SaveProfiles { profiles }) => profiles,
            _ => before,
        },
{
    reveal_with_fuel(on_disk, 2);
    if work is Some {
        assert(seq![work->0].drop_last() =~= Seq::<ActionView>::empty());
    }
}

proof fn lemma_on_disk_add(before: Seq<ProfileView>, one: Seq<ActionView>, other: Seq<ActionView>)
    ensures
        on_disk(before, one + other) == on_disk(on_disk(before, one), other),
    decreases other.len(),
{
    if other.len() == 0 {
        assert(one + other =~= one);
    } else {
        assert((one + other).drop_last() =~= one + other.drop_last());
        lemma_on_disk_add(before, one, other.drop_last());
    }
}

/// Starting with the profiles of a file, every profile is complete.
pub proof fn initial_profiles_are_complete(content: Option<Seq<char>>, elevation_missing: bool)
    ensures
        AppView::initial(profiles_loaded(content), elevation_missing).0.profiles_complete(),
        AppView::initial(profiles_loaded(content), elevation_missing).0.profiles
            == profiles_loaded(content),
{
    let profiles = profiles_loaded(content);
    assert forall|i: int| 0 <= i < profiles.len() implies (
    #[trigger] profiles[i]).is_complete() by {
        loaded_profiles_are_complete(content, i);
    }
}

/// When the program starts again with what it wrote, it has the profiles that
/// it had.
pub proof fn profiles_last_over_a_restart(
    state: AppView,
    text: Seq<char>,
    elevation_missing: bool,
)
    requires
        state.profiles_complete(),
        json_read(text) == Some(json_array_of(profile_rows(state.profiles))),
    ensures
        AppView::initial(profiles_loaded(Some(text)), elevation_missing).0.profiles
            == state.profiles,
{
    complete_profiles_are_loaded(state.profiles, text);
}

/// Every operation keeps the profiles complete.
pub proof fn profiles_stay_complete(
    state: AppView,
    profile: ProfileView,
    index: int,
    text: Seq<char>,
    flag: bool,
    other_flag: bool,
    active: bool,
)
    requires
        state.profiles_complete(),
    ensures
        state.reload().0.profiles_complete(),
        state.request(text, flag).0.profiles_complete(),
        state.apply_static().0.profiles_complete(),
        state.apply_dhcp().0.profiles_complete(),
        profile.is_complete() ==> state.add(profile).0.profiles_complete(),
        state.save().0.profiles_complete(),
        state.remove(profile).0.profiles_complete(),
        state.delete(profile).0.profiles_complete(),
        state.rename(index, text).0.profiles_complete(),
        state.click_profile(profile, flag, other_flag, active).0.profiles_complete(),
        state.select(text).0.profiles_complete(),
        state.with_default_mask().profiles_complete(),
{
    lemma_profiles_without(state.profiles, profile);
    let kept = state.remove(profile).0.profiles;
    assert forall|i: int| 0 <= i < kept.len() implies (#[trigger] kept[i]).is_complete() by {
        assert(kept.contains(kept[i]));
        let k = choose|k: int| 0 <= k < state.profiles.len() && state.profiles[k] == kept[i];
        assert(state.profiles[k].is_complete());
    }
    let renamed = state.rename(index, text).0.profiles;
    assert forall|i: int| 0 <= i < renamed.len() implies (#[trigger] renamed[i]).is_complete() by {
        assert(state.profiles[i].is_complete());
    }
    assert forall|p: ProfileView| p.is_complete() implies #[trigger] state.add(
        p,
    ).0.profiles_complete() by {
        let added = state.add(p).0.profiles;
        assert forall|i: int| 0 <= i < added.len() implies (#[trigger] added[i]).is_complete() by {
            if i < state.profiles.len() {
                assert(added[i] == state.profiles[i]);
            }
        }
    }
    assert(state.form_profile().is_complete() ==> state.add(
        state.form_profile(),
    ).0.profiles_complete());
}

/// What is in the profiles without one: all but that one.
proof fn lemma_profiles_without(profiles: Seq<ProfileView>, profile: ProfileView)
    ensures
        forall|p: ProfileView| #[trigger]
            profiles_without(profiles, profile).contains(p) <==> p != profile && profiles.contains(
                p,
            ),
    decreases profiles.len(),
{
    reveal(Seq::filter);
    if profiles.len() > 0 {
        let rest = profiles.drop_last();
        let last = profiles.last();
        let kept = profiles_without(rest, profile);
        lemma_profiles_without(rest, profile);
        assert(profiles_without(profiles, profile) == if last != profile {
            kept.push(last)
        } else {
            kept
        });
        assert forall|p: ProfileView| #[trigger]
            profiles_without(profiles, profile).contains(p) <==> p != profile && profiles.contains(
                p,
            ) by {
            assert(profiles =~= rest.push(last));
            lemma_push_contains(rest, last, p);
            lemma_push_contains(kept, last, p);
            assert(kept.contains(p) <==> p != profile && rest.contains(p));
        }
    }
}

proof fn lemma_push_contains(profiles: Seq<ProfileView>, last: ProfileView, p: ProfileView)
    ensures
        profiles.push(last).contains(p) <==> profiles.contains(p) || p == last,
{
    let all = profiles.push(last);
    assert(all[profiles.len() as int] == last);
    if profiles.contains(p) {
        let i = choose|i: int| 0 <= i < profiles.len() && profiles[i] == p;
        assert(all[i] == p);
    }
    if all.contains(p) && p != last {
        let i = choose|i: int| 0 <= i < all.len() && all[i] == p;
        assert(profiles[i] == p);
    }
}

/// Messages keep the profiles complete. The only profile that a message brings
/// is that of a change, and a change that was asked for has a complete one.
pub proof fn messages_keep_profiles_complete(state: AppView, messages: Seq<MessageView>)
    requires
        state.profiles_complete(),
        forall|i: int| 0 <= i < messages.len() ==> (#[trigger] messages[i]).brings_complete(),
    ensures
        state.receive_all(messages).0.profiles_complete(),
    decreases messages.len(),
{
    if messages.len() > 0 {
        let rest = messages.drop_last();
        assert forall|i: int| 0 <= i < rest.len() implies (
        #[trigger] rest[i]).brings_complete() by {
            assert(rest[i] == messages[i]);
        }
        messages_keep_profiles_complete(state, rest);
        let before = state.receive_all(rest).0;
        let last = messages.last();
        assert(messages[messages.len() - 1].brings_complete());
        match last {
            MessageView::ApplyCompleted { profile_to_save: Some(p), .. } => {
                profiles_stay_complete(before, p, 0, Seq::empty(), true, true, true);
            },
            _ => {},
        }
    }
}

/// A change to static settings is asked for only with an interface, with an
/// address, a mask and a gateway that are IPv4 values, and with the profile
/// that holds them.
pub proof fn static_change_is_valid(state: AppView)
    ensures
        state.apply_static().1 matches Some(action) ==> {
            let p = state.form_profile();
            &&& action == (ActionView::Apply {
                change: ChangeView {
                    interface: p.net_interface,
                    ip: Some(p.ip),
                    mask: Some(p.mask),
                    gateway: Some(p.gateway),
                },
                profile_to_save: Some(p),
                success_message: "Static IP applied and saved."@,
            })
            &&& p.is_complete()
            &&& is_dotted_quad(p.ip) && is_dotted_quad(p.mask) && is_dotted_quad(p.gateway)
        },
{
}

/// A form that is refused changes nothing but the status message, and leads to
/// no work; it is refused exactly if it has no interface, or no address, mask
/// or gateway, or one that is not an IPv4 value.
pub proof fn refused_form_changes_nothing(state: AppView)
    ensures
        ({
            let p = state.form_profile();
            let valid = p.is_complete() && is_dotted_quad(p.ip) && is_dotted_quad(p.mask)
                && is_dotted_quad(p.gateway);
            &&& state.apply_static().1 is Some <==> valid
            &&& !valid ==> state.save().1 is None
            &&& !valid ==> state.save().0 == state.with_status(
                state.save().0.status_message,
                StatusTone::Danger,
            )
            &&& !valid ==> state.apply_static().0 == state.with_status(
                state.apply_static().0.status_message,
                StatusTone::Danger,
            )
            &&& valid ==> state.save().0.status_tone == StatusTone::Success
            &&& valid ==> state.save().0.profiles.contains(p)
        }),
{
    let p = state.form_profile();
    added_profile_is_there(state, p);
}

/// What is on disk stays what is in memory, whatever is done.
pub proof fn disk_follows_operations(
    state: AppView,
    profile: ProfileView,
    index: int,
    text: Seq<char>,
    flag: bool,
    other_flag: bool,
    active: bool,
)
    ensures
        on_disk(state.profiles, action_list(state.reload().1)) == state.reload().0.profiles,
        on_disk(state.profiles, action_list(state.request(text, flag).1)) == state.request(
            text,
            flag,
        ).0.profiles,
        on_disk(state.profiles, action_list(state.apply_static().1))
            == state.apply_static().0.profiles,
        on_disk(state.profiles, action_list(Some(state.apply_dhcp().1)))
            == state.apply_dhcp().0.profiles,
        on_disk(state.profiles, action_list(state.add(profile).1)) == state.add(
            profile,
        ).0.profiles,
        on_disk(state.profiles, action_list(state.save().1)) == state.save().0.profiles,
        on_disk(state.profiles, action_list(Some(state.remove(profile).1))) == state.remove(
            profile,
        ).0.profiles,
        on_disk(state.profiles, action_list(Some(state.delete(profile).1))) == state.delete(
            profile,
        ).0.profiles,
        on_disk(state.profiles, action_list(state.rename(index, text).1)) == state.rename(
            index,
            text,
        ).0.profiles,
        on_disk(
            state.profiles,
            action_list(state.click_profile(profile, flag, other_flag, active).1),
        ) == state.click_profile(profile, flag, other_flag, active).0.profiles,
        on_disk(state.profiles, action_list(state.select(text).1)) == state.select(
            text,
        ).0.profiles,
{
    let disk = state.profiles;
    lemma_on_disk_one(disk, state.reload().1);
    lemma_on_disk_one(disk, state.request(text, flag).1);
    lemma_on_disk_one(disk, state.apply_static().1);
    lemma_on_disk_one(disk, Some(state.apply_dhcp().1));
    lemma_on_disk_one(disk, state.add(profile).1);
    lemma_on_disk_one(disk, state.save().1);
    lemma_on_disk_one(disk, Some(state.remove(profile).1));
    lemma_on_disk_one(disk, Some(state.delete(profile).1));
    lemma_on_disk_one(disk, state.rename(index, text).1);
    lemma_on_disk_one(disk, state.click_profile(profile, flag, other_flag, active).1);
    lemma_on_disk_one(disk, state.select(text).1);
}

/// What is on disk stays what is in memory, whatever messages come.
pub proof fn disk_follows_messages(state: AppView, messages: Seq<MessageView>)
    ensures
        on_disk(state.profiles, state.receive_all(messages).1) == state.receive_all(
            messages,
        ).0.profiles,
    decreases messages.len(),
{
    if messages.len() > 0 {
        let before = state.receive_all(messages.drop_last());
        let last = before.0.receive(messages.last());
        disk_follows_messages(state, messages.drop_last());
        lemma_on_disk_add(state.profiles, before.1, last.1);
        lemma_disk_follows_message(before.0, messages.last());
    }
}

proof fn lemma_disk_follows_message(state: AppView, message: MessageView)
    ensures
        on_disk(state.profiles, state.receive(message).1) == state.receive(message).0.profiles,
{
    match message {
        MessageView::InterfacesLoaded { interfaces, categories, device_names } => {
            let loaded = state.interfaces_loaded(interfaces, categories, device_names);
            lemma_on_disk_one(state.profiles, loaded.1);
        },
        MessageView::SettingsLoaded { .. } => {},
        MessageView::ApplyCompleted {
            interface_name,
            result,
            profile_to_save,
            success_message,
        } => match result {
            Ok(()) => {
                let added = match profile_to_save {
                    Some(profile) => state.add(profile),
                    None => (state, None),
                };
                let asked = added.0.with_status(success_message, StatusTone::Success).request(
                    interface_name,
                    true,
                );
                lemma_on_disk_add(state.profiles, action_list(added.1), action_list(asked.1));
                lemma_on_disk_one(state.profiles, added.1);
                lemma_on_disk_one(added.0.profiles, asked.1);
            },
            Err(_) => {},
        },
    }
}

/// Settings that answer to another request than the latest, or that are those
/// of another interface than the chosen one, change nothing.
pub proof fn stale_settings_change_nothing(
    state: AppView,
    interface_name: Seq<char>,
    settings: Option<SettingsView>,
    request_id: u64,
    fill_form: bool,
)
    requires
        request_id != state.request_id || interface_name != state.selected_interface,
    ensures
        state.receive(
            MessageView::SettingsLoaded { interface_name, settings, request_id, fill_form },
        ) == (state, Seq::<ActionView>::empty()),
{
}

/// Once the settings of an interface have been asked for, settings that answer
/// to an earlier request change nothing, as long as the numbers of requests
/// last.
pub proof fn new_request_outdates_earlier_ones(
    state: AppView,
    asked: Seq<char>,
    fill: bool,
    interface_name: Seq<char>,
    settings: Option<SettingsView>,
    request_id: u64,
    fill_form: bool,
)
    requires
        !is_blank(asked),
        request_id <= state.request_id < u64::MAX,
    ensures
        state.request(asked, fill).0.settings_loaded(
            interface_name,
            settings,
            request_id,
            fill_form,
        ) == state.request(asked, fill).0,
{
}

/// The settings that were asked for of the chosen interface are taken: the
/// selector is free of them again, and the form is filled if that was asked.
pub proof fn requested_settings_are_taken(
    state: AppView,
    settings: SettingsView,
    fill_form: bool,
)
    requires
        !is_blank(state.selected_interface),
    ensures
        ({
            let asked = state.request(state.selected_interface, fill_form);
            let loaded = asked.0.settings_loaded(
                state.selected_interface,
                Some(settings),
                asked.0.request_id,
                fill_form,
            );
            &&& asked.1 == Some(
                ActionView::ReadSettings {
                    interface_name: state.selected_interface,
                    request_id: asked.0.request_id,
                    fill_form,
                },
            )
            &&& asked.0.interface_details_loading
            &&& !loaded.interface_details_loading
            &&& fill_form ==> loaded.ip_text == settings.ip && loaded.mask_text == settings.mask
                && loaded.gateway_text == settings.gateway
            &&& !fill_form ==> loaded.ip_text == state.ip_text && loaded.mask_text
                == state.mask_text && loaded.gateway_text == state.gateway_text
        }),
{
}

/// A profile that was added is there, and adding it again changes nothing.
pub proof fn added_profile_is_there(state: AppView, profile: ProfileView)
    ensures
        state.add(profile).0.profiles.contains(profile),
        state.add(profile).0.add(profile) == (state.add(profile).0, None::<ActionView>),
{
    if !state.profiles.contains(profile) {
        let added = state.add(profile).0.profiles;
        assert(added[added.len() - 1] == profile);
    }
}

/// A list in which no profile comes twice stays so when a profile is added.
pub proof fn adding_keeps_profiles_distinct(state: AppView, profile: ProfileView)
    requires
        state.profiles.no_duplicates(),
    ensures
        state.add(profile).0.profiles.no_duplicates(),
{
}

/// A profile that was removed is not there; the others stay, in their order.
pub proof fn removed_profile_is_gone(state: AppView, profile: ProfileView)
    ensures
        !state.remove(profile).0.profiles.contains(profile),
        forall|p: ProfileView|
            p != profile ==> (#[trigger] state.remove(profile).0.profiles.contains(p)
                <==> state.profiles.contains(p)),
        state.remove(profile).0.remove(profile).0 == state.remove(profile).0,
{
    let kept = profiles_without(state.profiles, profile);
    lemma_profiles_without(state.profiles, profile);
    lemma_without_absent(kept, profile);
}

proof fn lemma_without_absent(profiles: Seq<ProfileView>, profile: ProfileView)
    requires
        !profiles.contains(profile),
    ensures
        profiles_without(profiles, profile) == profiles,
    decreases profiles.len(),
{
    reveal(Seq::filter);
    if profiles.len() > 0 {
        let rest = profiles.drop_last();
        assert forall|p: ProfileView| rest.contains(p) implies profiles.contains(p) by {
            let i = choose|i: int| 0 <= i < rest.len() && rest[i] == p;
            assert(profiles[i] == p);
        }
        lemma_without_absent(rest, profile);
        assert(profiles.contains(profiles.last()));
        assert(profiles_without(profiles, profile) == profiles_without(rest, profile).push(
            profiles.last(),
        ));
        assert(rest.push(profiles.last()) =~= profiles);
    }
}

/// Removing a profile that was just added to a list without it gives the list
/// back.
pub proof fn removing_undoes_adding(state: AppView, profile: ProfileView)
    requires
        !state.profiles.contains(profile),
    ensures
        state.add(profile).0.remove(profile).0.profiles == state.profiles,
{
    let added = state.profiles.push(profile);
    reveal(Seq::filter);
    assert(added.drop_last() =~= state.profiles);
    assert(profiles_without(added, profile) == profiles_without(added.drop_last(), profile));
    lemma_without_absent(state.profiles, profile);
}

/// Renaming a profile changes its name and nothing else of the profiles.
pub proof fn renaming_changes_one_name(state: AppView, index: int, typed: Seq<char>)
    requires
        0 <= index < state.profiles.len(),
    ensures
        state.rename(index, typed).0.profiles.len() == state.profiles.len(),
        forall|i: int|
            0 <= i < state.profiles.len() && i != index ==> #[trigger] state.rename(
                index,
                typed,
            ).0.profiles[i] == state.profiles[i],
        state.rename(index, typed).0.profiles[index] == (ProfileView {
            name: name_from_edit(typed, state.profiles[index].net_interface),
            ..state.profiles[index]
        }),
{
}

proof fn lemma_with_profile_interfaces(interfaces: Seq<Seq<char>>, profiles: Seq<ProfileView>)
    ensures
        forall|n: Seq<char>| #[trigger]
            with_profile_interfaces(interfaces, profiles).contains(n) <==> interfaces.contains(n)
                || (n.len() > 0 && exists|i: int|
                0 <= i < profiles.len() && (#[trigger] profiles[i]).net_interface == n),
        interfaces.no_duplicates() ==> with_profile_interfaces(
            interfaces,
            profiles,
        ).no_duplicates(),
    decreases profiles.len(),
{
    if profiles.len() > 0 {
        let rest = profiles.drop_last();
        let name = profiles.last().net_interface;
        let before = with_profile_interfaces(interfaces, rest);
        let after = with_profile_interfaces(interfaces, profiles);
        lemma_with_profile_interfaces(interfaces, rest);
        assert forall|n: Seq<char>| #[trigger] after.contains(n) <==> interfaces.contains(n) || (
        n.len() > 0 && exists|i: int|
            0 <= i < profiles.len() && (#[trigger] profiles[i]).net_interface == n) by {
            assert(before.contains(n) <==> interfaces.contains(n) || (n.len() > 0 && exists|i: int|
                0 <= i < rest.len() && (#[trigger] rest[i]).net_interface == n));
            if exists|i: int| 0 <= i < rest.len() && (#[trigger] rest[i]).net_interface == n {
                let i = choose|i: int|
                    0 <= i < rest.len() && (#[trigger] rest[i]).net_interface == n;
                assert(profiles[i].net_interface == n);
            }
            if exists|i: int|
                0 <= i < profiles.len() && (#[trigger] profiles[i]).net_interface == n {
                let i = choose|i: int|
                    0 <= i < profiles.len() && (#[trigger] profiles[i]).net_interface == n;
                if i < rest.len() {
                    assert(rest[i].net_interface == n);
                }
            }
            if n == name {
                assert(profiles[profiles.len() - 1].net_interface == n);
            }
            if after != before {
                assert(after[after.len() - 1] == name);
                if before.contains(n) {
                    let i = choose|i: int| 0 <= i < before.len() && before[i] == n;
                    assert(after[i] == n);
                }
            }
        }
    }
}

/// When the interfaces have been listed, those are offered that were listed or
/// that a profile has, no others, and in order; none twice if none was listed
/// twice. The list is then no longer under way.
pub proof fn loaded_interfaces_are_offered(
    state: AppView,
    interfaces: Seq<Seq<char>>,
    categories: Map<Seq<char>, u8>,
    device_names: Map<Seq<char>, Seq<char>>,
)
    ensures
        ({
            let loaded = state.interfaces_loaded(interfaces, categories, device_names).0;
            &&& !loaded.interfaces_loading
            &&& forall|n: Seq<char>| #[trigger]
                loaded.interfaces.contains(n) <==> interfaces.contains(n) || (n.len() > 0
                    && exists|i: int|
                    0 <= i < state.profiles.len() && (
                    #[trigger] state.profiles[i]).net_interface == n)
            &&& interfaces.no_duplicates() ==> loaded.interfaces.no_duplicates()
            &&& interfaces.no_duplicates() ==> loaded.interfaces == sorted_interfaces(
                categories,
                with_profile_interfaces(interfaces, state.profiles),
            )
        }),
{
    let merged = with_profile_interfaces(interfaces, state.profiles);
    let sorted = sorted_interfaces(categories, merged);
    lemma_with_profile_interfaces(interfaces, state.profiles);
    listing_interfaces_only_reorders(categories, merged);
    without_repeats_keeps_names(sorted);
    let loaded = state.interfaces_loaded(interfaces, categories, device_names).0;
    assert(loaded.interfaces == without_repeats(sorted));
    assert forall|n: Seq<char>| #[trigger]
        loaded.interfaces.contains(n) <==> interfaces.contains(n) || (n.len() > 0 && exists|i: int|
            0 <= i < state.profiles.len() && (#[trigger] state.profiles[i]).net_interface == n) by {
        assert(without_repeats(sorted).contains(n) <==> sorted.contains(n));
        assert(sorted.contains(n) <==> merged.contains(n));
        assert(merged.contains(n) <==> interfaces.contains(n) || (n.len() > 0 && exists|i: int|
            0 <= i < state.profiles.len() && (#[trigger] state.profiles[i]).net_interface == n));
    }
}

/// While the interfaces are being listed, those of the profiles are offered,
/// but for blank ones, and no others.
pub proof fn profile_interfaces_are_offered_meanwhile(state: AppView, n: Seq<char>)
    requires
        !state.interfaces_loading,
    ensures
        state.reload().0.interfaces.contains(n) <==> !is_blank(n) && exists|i: int|
            0 <= i < state.profiles.len() && (#[trigger] state.profiles[i]).net_interface == n,
{
    let named = |m: Seq<char>| !is_blank(m);
    let all = state.profiles.map_values(|p: ProfileView| p.net_interface);
    let from = profile_interfaces(state.profiles);
    let sorted = sorted_interfaces(state.interface_category_by_name, from);
    listing_interfaces_only_reorders(state.interface_category_by_name, from);
    without_repeats_keeps_names(sorted);
    assert(without_repeats(sorted).contains(n) <==> sorted.contains(n));
    assert(sorted.contains(n) <==> from.contains(n));
    if from.contains(n) {
        let i = choose|i: int| 0 <= i < from.len() && from[i] == n;
        all.lemma_filter_pred(named, i);
        all.lemma_filter_contains_rev(named, n);
        let k = choose|k: int| 0 <= k < all.len() && all[k] == n;
        assert(state.profiles[k].net_interface == n);
    }
    if !is_blank(n) && exists|i: int|
        0 <= i < state.profiles.len() && (#[trigger] state.profiles[i]).net_interface == n {
        let i = choose|i: int|
            0 <= i < state.profiles.len() && (#[trigger] state.profiles[i]).net_interface == n;
        assert(all[i] == n);
        all.lemma_filter_contains(named, i);
    }
}

/// The list of interfaces is not asked for again while it is under way.
pub proof fn reload_starts_once(state: AppView)
    ensures
        state.reload().0.interfaces_loading,
        state.reload().0.reload() == (state.reload().0, None::<ActionView>),
{
}

/// Messages can be taken in one go or in two: the state and the work are the
/// same.
pub proof fn messages_are_taken_in_order(
    state: AppView,
    one: Seq<MessageView>,
    other: Seq<MessageView>,
)
    ensures
        state.receive_all(one + other).0 == state.receive_all(one).0.receive_all(other).0,
        state.receive_all(one + other).1 == state.receive_all(one).1 + state.receive_all(
            one,
        ).0.receive_all(other).1,
    decreases other.len(),
{
    let first = state.receive_all(one);
    if other.len() == 0 {
        assert(one + other =~= one);
        assert(first.1 + Seq::<ActionView>::empty() =~= first.1);
    } else {
        messages_are_taken_in_order(state, one, other.drop_last());
        assert((one + other).drop_last() =~= one + other.drop_last());
        assert((one + other).last() == other.last());
        let before = first.0.receive_all(other.drop_last());
        let last = before.0.receive(other.last());
        assert(first.1 + (before.1 + last.1) =~= (first.1 + before.1) + last.1);
    }
}

/// The usual mask is filled in only where there is none, and then once.
pub proof fn default_mask_replaces_nothing(state: AppView)
    ensures
        state.mask_text.len() > 0 ==> state.with_default_mask() == state,
        state.with_default_mask().with_default_mask() == state.with_default_mask(),
{
    reveal_strlit("255.255.255.0");
}

/// A change that is asked for is whole: it has an interface, and it has its
/// commands.
pub proof fn asked_change_is_whole(state: AppView)
    ensures
        state.apply_static().1 matches Some(action) ==> action is Apply
            && action->change.interface.len() > 0 && action->change.commands() is Some,
        state.apply_dhcp().1 is Apply,
        state.apply_dhcp().1->change.interface.len() > 0,
        state.apply_dhcp().1->change.commands() is Some,
{
    reveal_strlit("Ethernet");
}

/// When a change succeeds, its profile is saved, and the settings of its
/// interface are read again; when it fails, only the status message changes.
pub proof fn ended_change_is_told(
    state: AppView,
    interface_name: Seq<char>,
    result: Result<(), Seq<char>>,
    profile: ProfileView,
    success_message: Seq<char>,
)
    requires
        !is_blank(interface_name),
    ensures
        ({
            let ended = state.apply_completed(
                interface_name,
                result,
                Some(profile),
                success_message,
            );
            match result {
                Ok(()) => {
                    &&& ended.0.profiles.contains(profile)
                    &&& ended.0.status_message == success_message
                    &&& ended.0.status_tone == StatusTone::Success
                    &&& ended.1.last() == (ActionView::ReadSettings {
                        interface_name,
                        request_id: ended.0.request_id,
                        fill_form: true,
                    })
                },
                Err(message) => ended == (
                    state.with_status(message, StatusTone::Danger),
                    Seq::<ActionView>::empty(),
                ),
            }
        }),
{
    added_profile_is_there(state, profile);
}

/// A profile that was taken from the form comes back into the form as it was:
/// whoever loads it and saves it again changes nothing but the status message
/// and the form.
pub proof fn saved_profile_loads_back(state: AppView, other: AppView)
    requires
        other.profiles.contains(state.form_profile()),
    ensures
        other.with_form(state.form_profile()).form_profile() == state.form_profile(),
        other.with_form(state.form_profile()).save().0.profiles == other.profiles,
        other.with_form(state.form_profile()).save().1 is None,
{
    trim_is_idempotent(state.preset_name_text);
    trim_is_idempotent(state.selected_interface);
    trim_is_idempotent(state.ip_text);
    trim_is_idempotent(state.mask_text);
    trim_is_idempotent(state.gateway_text);
}

proof fn lemma_in_order(state: AppView, names: Seq<Seq<char>>)
    ensures
        in_order(
            state.interface_category_by_name,
            sorted_interfaces(state.interface_category_by_name, names),
        ),
        in_order(
            state.interface_category_by_name,
            without_repeats(sorted_interfaces(state.interface_category_by_name, names)),
        ),
{
    listed_interfaces_are_sorted(state.interface_category_by_name, names);
    without_repeats_separates(
        state.interface_category_by_name,
        sorted_interfaces(state.interface_category_by_name, names),
    );
}

/// Every operation keeps the interfaces in order.
pub proof fn interfaces_stay_in_order(
    state: AppView,
    profile: ProfileView,
    index: int,
    text: Seq<char>,
    flag: bool,
    other_flag: bool,
    active: bool,
)
    requires
        state.interfaces_in_order(),
    ensures
        state.reload().0.interfaces_in_order(),
        state.request(text, flag).0.interfaces_in_order(),
        state.apply_static().0.interfaces_in_order(),
        state.apply_dhcp().0.interfaces_in_order(),
        state.add(profile).0.interfaces_in_order(),
        state.save().0.interfaces_in_order(),
        state.remove(profile).0.interfaces_in_order(),
        state.delete(profile).0.interfaces_in_order(),
        state.rename(index, text).0.interfaces_in_order(),
        state.click_profile(profile, flag, other_flag, active).0.interfaces_in_order(),
        state.select(text).0.interfaces_in_order(),
        state.with_default_mask().interfaces_in_order(),
{
    lemma_in_order(state, profile_interfaces(state.profiles));
    lemma_in_order(state, state.interfaces.push(profile.net_interface));
    lemma_in_order(state, state.interfaces.push(state.form_profile().net_interface));
}

/// Messages keep the interfaces in order.
pub proof fn messages_keep_interfaces_in_order(state: AppView, messages: Seq<MessageView>)
    requires
        state.interfaces_in_order(),
    ensures
        state.receive_all(messages).0.interfaces_in_order(),
    decreases messages.len(),
{
    if messages.len() > 0 {
        let before = state.receive_all(messages.drop_last()).0;
        messages_keep_interfaces_in_order(state, messages.drop_last());
        match messages.last() {
            MessageView::InterfacesLoaded { interfaces, categories, .. } => {
                lemma_in_order(
                    AppView { interface_category_by_name: categories, ..before },
                    with_profile_interfaces(interfaces, before.profiles),
                );
            },
            MessageView::SettingsLoaded { .. } => {},
            MessageView::ApplyCompleted { profile_to_save: Some(p), .. } => {
                lemma_in_order(before, before.interfaces.push(p.net_interface));
            },
            MessageView::ApplyCompleted { .. } => {},
        }
    }
}

proof fn lemma_added_is_offered(state: AppView, profile: ProfileView)
    requires
        state.offers_profile_interfaces(),
    ensures
        state.add(profile).0.offers_profile_interfaces(),
{
    let added = state.add(profile).0;
    let name = profile.net_interface;
    let all = state.interfaces.push(name);
    listing_interfaces_only_reorders(state.interface_category_by_name, all);
    assert forall|i: int|
        0 <= i < added.profiles.len() && !is_blank(
            added.profiles[i].net_interface,
        ) implies added.interfaces.contains((#[trigger] added.profiles[i]).net_interface) by {
        let n = added.profiles[i].net_interface;
        assert(all[state.interfaces.len() as int] == name);
        if i < state.profiles.len() {
            assert(added.profiles[i] == state.profiles[i]);
            assert(state.interfaces.contains(n));
            let k = choose|k: int| 0 <= k < state.interfaces.len() && state.interfaces[k] == n;
            assert(all[k] == n);
        }
        assert(all.contains(n));
    }
}

proof fn lemma_reload_offers(state: AppView)
    requires
        !state.interfaces_loading,
    ensures
        state.reload().0.offers_profile_interfaces(),
{
    let loading = state.reload().0;
    assert forall|i: int|
        0 <= i < loading.profiles.len() && !is_blank(
            loading.profiles[i].net_interface,
        ) implies loading.interfaces.contains((#[trigger] loading.profiles[i]).net_interface) by {
        assert(state.profiles[i].net_interface == loading.profiles[i].net_interface);
        profile_interfaces_are_offered_meanwhile(state, loading.profiles[i].net_interface);
    }
}

/// From the start the interface of every profile is offered, and in order.
pub proof fn initial_interfaces_are_offered(profiles: Seq<ProfileView>, elevation_missing: bool)
    ensures
        AppView::initial(profiles, elevation_missing).0.offers_profile_interfaces(),
        AppView::initial(profiles, elevation_missing).0.interfaces_in_order(),
{
    let none = Map::<Seq<char>, u8>::empty();
    listed_interfaces_are_sorted(none, profile_interfaces(profiles));
    without_repeats_separates(none, sorted_interfaces(none, profile_interfaces(profiles)));
    let initial = AppView::initial(profiles, elevation_missing).0;
    let start = AppView {
        interfaces_loading: false,
        interface_category_by_name: none,
        profiles,
        ..initial
    };
    lemma_reload_offers(start);
    assert(start.reload().0.interfaces == initial.interfaces);
    assert(start.reload().0.profiles == initial.profiles);
    assert forall|i: int|
        0 <= i < initial.profiles.len() && !is_blank(
            initial.profiles[i].net_interface,
        ) implies initial.interfaces.contains((#[trigger] initial.profiles[i]).net_interface) by {
        assert(start.reload().0.profiles[i].net_interface == initial.profiles[i].net_interface);
    }
}

/// Every operation keeps the interface of every profile offered.
pub proof fn profile_interfaces_stay_offered(
    state: AppView,
    profile: ProfileView,
    index: int,
    text: Seq<char>,
    flag: bool,
    other_flag: bool,
    active: bool,
)
    requires
        state.offers_profile_interfaces(),
    ensures
        state.reload().0.offers_profile_interfaces(),
        state.request(text, flag).0.offers_profile_interfaces(),
        state.apply_static().0.offers_profile_interfaces(),
        state.apply_dhcp().0.offers_profile_interfaces(),
        state.add(profile).0.offers_profile_interfaces(),
        state.save().0.offers_profile_interfaces(),
        state.remove(profile).0.offers_profile_interfaces(),
        state.delete(profile).0.offers_profile_interfaces(),
        state.rename(index, text).0.offers_profile_interfaces(),
        state.click_profile(profile, flag, other_flag, active).0.offers_profile_interfaces(),
        state.select(text).0.offers_profile_interfaces(),
        state.with_default_mask().offers_profile_interfaces(),
{
    if !state.interfaces_loading {
        lemma_reload_offers(state);
    }
    lemma_added_is_offered(state, profile);
    lemma_added_is_offered(state, state.form_profile());
    lemma_profiles_without(state.profiles, profile);
    let kept = state.remove(profile).0.profiles;
    assert forall|i: int|
        0 <= i < kept.len() && !is_blank(
            kept[i].net_interface,
        ) implies state.interfaces.contains((#[trigger] kept[i]).net_interface) by {
        assert(kept.contains(kept[i]));
        let k = choose|k: int| 0 <= k < state.profiles.len() && state.profiles[k] == kept[i];
        assert(state.profiles[k].net_interface == kept[i].net_interface);
    }
    let renamed = state.rename(index, text).0.profiles;
    assert forall|i: int|
        0 <= i < renamed.len() && !is_blank(
            renamed[i].net_interface,
        ) implies state.interfaces.contains((#[trigger] renamed[i]).net_interface) by {
        assert(state.profiles[i].net_interface == renamed[i].net_interface);
    }
}

/// Messages keep the interface of every profile offered.
pub proof fn messages_keep_profile_interfaces_offered(
    state: AppView,
    messages: Seq<MessageView>,
)
    requires
        state.offers_profile_interfaces(),
    ensures
        state.receive_all(messages).0.offers_profile_interfaces(),
    decreases messages.len(),
{
    if messages.len() > 0 {
        let before = state.receive_all(messages.drop_last()).0;
        let after = state.receive_all(messages).0;
        messages_keep_profile_interfaces_offered(state, messages.drop_last());
        match messages.last() {
            MessageView::InterfacesLoaded { interfaces, categories, device_names } => {
                loaded_interfaces_are_offered(before, interfaces, categories, device_names);
                assert forall|i: int|
                    0 <= i < after.profiles.len() && !is_blank(
                        after.profiles[i].net_interface,
                    ) implies after.interfaces.contains(
                    (#[trigger] after.profiles[i]).net_interface,
                ) by {
                    let n = after.profiles[i].net_interface;
                    assert(before.profiles[i].net_interface == n);
                    assert(n.len() > 0);
                    assert(after.interfaces.contains(n));
                }
            },
            MessageView::SettingsLoaded { .. } => {},
            MessageView::ApplyCompleted { profile_to_save: Some(p), .. } => {
                lemma_added_is_offered(before, p);
            },
            MessageView::ApplyCompleted { .. } => {},
        }
    }
}

} // verus!
