//! What each operation does to the state, field by field, and what it asks for.

use vstd::prelude::*;

use crate::ipv4::is_dotted_quad;
use crate::order::{listing_interfaces_only_reorders, sorted_interfaces, without_repeats};
use crate::profile::ProfileView;
use crate::settings::{settings_message, SettingsView};
use crate::state::{
    preset_name, profile_interfaces, profiles_without, with_profile_interfaces, ActionView, AppView,
    MessageView, StatusTone,
};
use crate::text::{is_blank, trimmed};

verus! {

/// The profile that is taken from the form has in each field the text of the
/// matching field of the form, without the white space around it.
pub proof fn profile_is_the_form_field_by_field(state: AppView)
    ensures
        state.form_profile().name == trimmed(state.preset_name_text),
        state.form_profile().net_interface == trimmed(state.selected_interface),
        state.form_profile().ip == trimmed(state.ip_text),
        state.form_profile().mask == trimmed(state.mask_text),
        state.form_profile().gateway == trimmed(state.gateway_text),
{
}

/// A change to static settings is that of the form: its interface, address,
/// mask and gateway, and those of the profile that goes with it, are the texts
/// of the matching fields of the form without the white space around them. It
/// is asked for exactly if none of them is blank and the three values are IPv4
/// values.
pub proof fn static_change_is_the_form_field_by_field(state: AppView)
    ensures
        state.apply_static().1 is Some <==> !is_blank(state.selected_interface) && is_dotted_quad(
            trimmed(state.ip_text),
        ) && is_dotted_quad(trimmed(state.mask_text)) && is_dotted_quad(
            trimmed(state.gateway_text),
        ) && !is_blank(state.ip_text) && !is_blank(state.mask_text) && !is_blank(
            state.gateway_text,
        ),
        state.apply_static().1 matches Some(action) ==> action is Apply && {
            let change = action->change;
            let saved = action->profile_to_save;
            &&& change.interface == trimmed(state.selected_interface)
            &&& change.ip == Some(trimmed(state.ip_text))
            &&& change.mask == Some(trimmed(state.mask_text))
            &&& change.gateway == Some(trimmed(state.gateway_text))
            &&& saved is Some
            &&& saved->0.name == trimmed(state.preset_name_text)
            &&& saved->0.net_interface == trimmed(state.selected_interface)
            &&& saved->0.ip == trimmed(state.ip_text)
            &&& saved->0.mask == trimmed(state.mask_text)
            &&& saved->0.gateway == trimmed(state.gateway_text)
            &&& action->success_message == "Static IP applied and saved."@
        },
{
}

/// What is asked for with the form depends on the form alone: states with the
/// same form ask for the same, whatever else is in them.
pub proof fn the_form_alone_decides(state: AppView, other: AppView)
    requires
        state.selected_interface == other.selected_interface,
        state.preset_name_text == other.preset_name_text,
        state.ip_text == other.ip_text,
        state.mask_text == other.mask_text,
        state.gateway_text == other.gateway_text,
    ensures
        state.apply_static().1 == other.apply_static().1,
        state.apply_dhcp().1 == other.apply_dhcp().1,
        state.apply_static().0.status_message == other.apply_static().0.status_message,
        state.save().0.status_message == other.save().0.status_message,
        state.profiles == other.profiles ==> state.save().1 == other.save().1,
{
    assert(state.form_profile() == other.form_profile());
}

/// Asking for static settings changes nothing but the status message, which
/// says what is wrong with the form, in this order: no interface, a blank value,
/// a value that is no IPv4 value; or else that the change is under way.
pub proof fn static_change_is_told(state: AppView)
    ensures
        state.apply_static().0 == (AppView {
            status_message: state.apply_static().0.status_message,
            status_tone: state.apply_static().0.status_tone,
            ..state
        }),
        ({
            let message = state.apply_static().0.status_message;
            let tone = state.apply_static().0.status_tone;
            let blank = is_blank(state.ip_text) || is_blank(state.mask_text) || is_blank(
                state.gateway_text,
            );
            if is_blank(state.selected_interface) {
                message == "Interface is required."@ && tone == StatusTone::Danger
            } else if blank {
                message == "For static mode, interface, ip, mask, and gateway are required."@
                    && tone == StatusTone::Danger
            } else if state.apply_static().1 is None {
                message == "IP, mask, and gateway must be valid IPv4 values."@ && tone
                    == StatusTone::Danger
            } else {
                message == "Applying static IP..."@ && tone == StatusTone::Neutral
            }
        }),
{
}

/// A change to DHCP is of the chosen interface, whatever interfaces are on
/// offer: its name is that of the chosen one without the white space around it,
/// and Ethernet only if that is blank. No profile goes with it, and nothing but
/// the status message changes.
pub proof fn dhcp_change_is_of_the_chosen_interface(state: AppView)
    ensures
        state.apply_dhcp().1 is Apply,
        !is_blank(state.selected_interface) ==> state.apply_dhcp().1->change.interface == trimmed(
            state.selected_interface,
        ),
        is_blank(state.selected_interface) ==> state.apply_dhcp().1->change.interface
            == "Ethernet"@,
        state.apply_dhcp().1->change.ip is None,
        state.apply_dhcp().1->change.mask is None,
        state.apply_dhcp().1->change.gateway is None,
        state.apply_dhcp().1->profile_to_save is None,
        state.apply_dhcp().1->success_message == "Automatic IP (DHCP) applied."@,
        state.apply_dhcp().0 == (AppView {
            status_message: "Applying DHCP..."@,
            status_tone: StatusTone::Neutral,
            ..state
        }),
{
}

/// Adding a profile that is there changes nothing. Any other one comes after
/// those that were there, as it is; its name is put into the form, its interface
/// is on offer, and the new list is to be saved. Nothing else changes.
pub proof fn added_profile_comes_last(state: AppView, profile: ProfileView, n: Seq<char>)
    ensures
        (exists|i: int| 0 <= i < state.profiles.len() && #[trigger] state.profiles[i] == profile)
            ==> state.add(profile) == (state, None::<ActionView>),
        !state.profiles.contains(profile) ==> {
            let added = state.add(profile);
            &&& added.0.profiles == state.profiles + seq![profile]
            &&& added.1 == Some(ActionView::SaveProfiles { profiles: state.profiles + seq![profile] })
            &&& added.0 == (AppView {
                profiles: added.0.profiles,
                preset_name_text: profile.name,
                interfaces: added.0.interfaces,
                ..state
            })
            &&& added.0.interfaces.contains(n) <==> state.interfaces.contains(n) || (n.len() > 0
                && n == profile.net_interface)
            &&& profile.net_interface.len() == 0 || state.interfaces.contains(profile.net_interface)
                ==> added.0.interfaces == state.interfaces
            &&& added.0.interfaces.len() <= state.interfaces.len() + 1
        },
{
    let name = profile.net_interface;
    let all = state.interfaces.push(name);
    listing_interfaces_only_reorders(state.interface_category_by_name, all);
    assert(state.profiles.push(profile) =~= state.profiles + seq![profile]);
    assert(all[state.interfaces.len() as int] == name);
    assert(all.contains(n) <==> state.interfaces.contains(n) || n == name) by {
        if state.interfaces.contains(n) {
            let k = choose|k: int| 0 <= k < state.interfaces.len() && state.interfaces[k] == n;
            assert(all[k] == n);
        }
    }
    assert(sorted_interfaces(state.interface_category_by_name, all).contains(n) <==> all.contains(
        n,
    ));
}

/// Saving the form, where it is valid, adds the profile whose fields are the
/// texts of the form without the white space around them, and says so. Where it
/// is not, nothing is added, and the status message says why.
pub proof fn saved_profile_is_the_form_field_by_field(state: AppView)
    ensures
        ({
            let p = ProfileView {
                name: trimmed(state.preset_name_text),
                net_interface: trimmed(state.selected_interface),
                ip: trimmed(state.ip_text),
                mask: trimmed(state.mask_text),
                gateway: trimmed(state.gateway_text),
            };
            let blank = is_blank(state.ip_text) || is_blank(state.mask_text) || is_blank(
                state.gateway_text,
            );
            let valid = is_dotted_quad(trimmed(state.ip_text)) && is_dotted_quad(
                trimmed(state.mask_text),
            ) && is_dotted_quad(trimmed(state.gateway_text));
            let saved = state.save();
            if is_blank(state.selected_interface) {
                saved == (
                    AppView {
                        status_message: "Interface is required."@,
                        status_tone: StatusTone::Danger,
                        ..state
                    },
                    None::<ActionView>,
                )
            } else if blank {
                saved == (
                    AppView {
                        status_message: "To save, interface, ip, mask, and gateway are required."@,
                        status_tone: StatusTone::Danger,
                        ..state
                    },
                    None::<ActionView>,
                )
            } else if !valid {
                saved == (
                    AppView {
                        status_message: "IP, mask, and gateway must be valid IPv4 values."@,
                        status_tone: StatusTone::Danger,
                        ..state
                    },
                    None::<ActionView>,
                )
            } else {
                &&& saved.0.status_message == "Configuration saved."@
                &&& saved.0.status_tone == StatusTone::Success
                &&& state.profiles.contains(p) ==> saved.0.profiles == state.profiles && saved.1
                    is None
                &&& !state.profiles.contains(p) ==> saved.0.profiles == state.profiles + seq![p]
                    && saved.1 == Some(
                    ActionView::SaveProfiles { profiles: state.profiles + seq![p] },
                )
                &&& state.profiles.contains(p) ==> saved.0.preset_name_text
                    == state.preset_name_text && saved.0.interfaces == state.interfaces
                &&& !state.profiles.contains(p) ==> saved.0.preset_name_text == p.name
                    && saved.0.interfaces == state.add(p).0.interfaces
                &&& saved.0.selected_interface == state.selected_interface
                &&& saved.0.ip_text == state.ip_text
                &&& saved.0.mask_text == state.mask_text
                &&& saved.0.gateway_text == state.gateway_text
                &&& saved.0 == (AppView {
                    profiles: saved.0.profiles,
                    preset_name_text: saved.0.preset_name_text,
                    interfaces: saved.0.interfaces,
                    status_message: saved.0.status_message,
                    status_tone: saved.0.status_tone,
                    ..state
                })
            }
        }),
{
    let p = ProfileView {
        name: trimmed(state.preset_name_text),
        net_interface: trimmed(state.selected_interface),
        ip: trimmed(state.ip_text),
        mask: trimmed(state.mask_text),
        gateway: trimmed(state.gateway_text),
    };
    added_profile_comes_last(state, p, p.net_interface);
    if state.profiles.contains(p) {
        let i = choose|i: int| 0 <= i < state.profiles.len() && state.profiles[i] == p;
        assert(state.profiles[i] == p);
    }
}

/// Removing a profile takes it out wherever it is, and leaves the others as
/// they are and in their order: a list is cleared of it part by part. The new
/// list is to be saved, and nothing else changes.
pub proof fn removing_works_part_by_part(
    state: AppView,
    one: Seq<ProfileView>,
    other: Seq<ProfileView>,
    profile: ProfileView,
    kept: ProfileView,
)
    ensures
        profiles_without(one + other, profile) == profiles_without(one, profile)
            + profiles_without(other, profile),
        profiles_without(seq![profile], profile).len() == 0,
        kept != profile ==> profiles_without(seq![kept], profile) == seq![kept],
        state.remove(profile) == (
            AppView { profiles: profiles_without(state.profiles, profile), ..state },
            ActionView::SaveProfiles { profiles: profiles_without(state.profiles, profile) },
        ),
        state.delete(profile) == (
            AppView {
                profiles: profiles_without(state.profiles, profile),
                status_message: "Profile deleted."@,
                status_tone: StatusTone::Neutral,
                ..state
            },
            ActionView::SaveProfiles { profiles: profiles_without(state.profiles, profile) },
        ),
{
    let others = |p: ProfileView| p != profile;
    Seq::filter_distributes_over_add(one, other, others);
    lemma_without_one(profile, profile);
    lemma_without_one(kept, profile);
}

proof fn lemma_without_one(p: ProfileView, profile: ProfileView)
    ensures
        profiles_without(seq![p], profile) == if p == profile {
            Seq::<ProfileView>::empty()
        } else {
            seq![p]
        },
{
    reveal_with_fuel(Seq::filter, 2);
    let others = |q: ProfileView| q != profile;
    let none = Seq::<ProfileView>::empty();
    assert(seq![p].drop_last() =~= none);
    assert(none.filter(others) =~= none);
    assert(profiles_without(seq![p], profile) == seq![p].filter(others));
    if p != profile {
        assert(none.push(p) =~= seq![p]);
    }
}

/// Reading the settings of an interface that has a name is asked for under the
/// next number, with the name as it is. For a blank name nothing is asked. Only
/// what is said of the current settings changes besides.
pub proof fn request_is_of_the_interface_given(state: AppView, name: Seq<char>, fill: bool)
    ensures
        !is_blank(name) ==> {
            let asked = state.request(name, fill);
            &&& asked.0.request_id == if state.request_id < u64::MAX {
                state.request_id + 1
            } else {
                u64::MAX as int
            }
            &&& asked.1 == Some(
                ActionView::ReadSettings {
                    interface_name: name,
                    request_id: asked.0.request_id,
                    fill_form: fill,
                },
            )
            &&& asked.0 == (AppView {
                request_id: asked.0.request_id,
                interface_details_loading: true,
                current_settings_message: "Reading "@ + name + "..."@,
                ..state
            })
        },
        is_blank(name) ==> state.request(name, fill) == (
            AppView {
                current_settings_message: "Select an interface."@,
                interface_details_loading: false,
                ..state
            },
            None::<ActionView>,
        ),
{
}

/// Listing the interfaces keeps the profiles and the form as they are, and the
/// chosen interface too; only where none is chosen the first one on offer is.
pub proof fn reload_keeps_the_choice(state: AppView)
    ensures
        state.interfaces_loading ==> state.reload() == (state, None::<ActionView>),
        !state.interfaces_loading ==> {
            let loading = state.reload();
            &&& loading.1 == Some(ActionView::LoadInterfaces)
            &&& state.selected_interface.len() > 0 ==> loading.0.selected_interface
                == state.selected_interface
            &&& state.selected_interface.len() == 0 && loading.0.interfaces.len() > 0
                ==> loading.0.selected_interface == loading.0.interfaces[0]
            &&& state.selected_interface.len() == 0 && loading.0.interfaces.len() == 0
                ==> loading.0.selected_interface.len() == 0
            &&& loading.0 == (AppView {
                interfaces: loading.0.interfaces,
                selected_interface: loading.0.selected_interface,
                interfaces_loading: true,
                status_message: "Loading network interfaces..."@,
                status_tone: StatusTone::Neutral,
                ..state
            })
        },
{
}

/// When the interfaces have been listed, what was told of them is kept as it
/// is. The chosen interface stays; only where none was chosen the first one on
/// offer is, and its settings are asked for. The message that the list is under
/// way goes, any other stays. The profiles and the form stay.
pub proof fn listing_keeps_the_choice(
    state: AppView,
    interfaces: Seq<Seq<char>>,
    categories: Map<Seq<char>, u8>,
    device_names: Map<Seq<char>, Seq<char>>,
)
    ensures
        ({
            let loaded = state.interfaces_loaded(interfaces, categories, device_names);
            let first = state.selected_interface.len() == 0 && loaded.0.interfaces.len() > 0;
            &&& !loaded.0.interfaces_loading
            &&& loaded.0.interface_category_by_name == categories
            &&& loaded.0.interface_device_name_by_name == device_names
            &&& !first ==> loaded.0.selected_interface == state.selected_interface
            &&& !first ==> loaded.1 is None && loaded.0.request_id == state.request_id
                && loaded.0.interface_details_loading == state.interface_details_loading
                && loaded.0.current_settings_message == state.current_settings_message
            &&& first ==> loaded.0.selected_interface == loaded.0.interfaces[0]
            &&& first && !is_blank(loaded.0.interfaces[0]) ==> loaded.1 == Some(
                ActionView::ReadSettings {
                    interface_name: loaded.0.interfaces[0],
                    request_id: loaded.0.request_id,
                    fill_form: true,
                },
            ) && loaded.0.interface_details_loading && loaded.0.current_settings_message
                == "Reading "@ + loaded.0.interfaces[0] + "..."@ && (state.request_id < u64::MAX
                ==> loaded.0.request_id == state.request_id + 1)
            &&& first && is_blank(loaded.0.interfaces[0]) ==> loaded.1 is None
                && !loaded.0.interface_details_loading && loaded.0.current_settings_message
                == "Select an interface."@ && loaded.0.request_id == state.request_id
            &&& state.request_id == u64::MAX ==> loaded.0.request_id == u64::MAX
            &&& state.status_message == "Loading network interfaces..."@
                ==> loaded.0.status_message.len() == 0
            &&& state.status_message != "Loading network interfaces..."@
                ==> loaded.0.status_message == state.status_message
            &&& loaded.0.status_tone == state.status_tone
            &&& loaded.0.profiles == state.profiles
            &&& loaded.0.preset_name_text == state.preset_name_text
            &&& loaded.0.ip_text == state.ip_text
            &&& loaded.0.mask_text == state.mask_text
            &&& loaded.0.gateway_text == state.gateway_text
        }),
{
}

/// Settings of the chosen interface that answer to the latest request are
/// shown, and go into the form, each into its own field, if that was asked;
/// settings that could not be read leave the form as it is. All others change
/// nothing.
pub proof fn settings_go_into_their_fields(
    state: AppView,
    interface_name: Seq<char>,
    settings: Option<SettingsView>,
    request_id: u64,
    fill_form: bool,
)
    ensures
        request_id != state.request_id || interface_name != state.selected_interface
            ==> state.settings_loaded(interface_name, settings, request_id, fill_form) == state,
        request_id == state.request_id && interface_name == state.selected_interface ==> {
            let loaded = state.settings_loaded(interface_name, settings, request_id, fill_form);
            let filled = fill_form && settings is Some;
            &&& filled ==> loaded.ip_text == settings->0.ip
            &&& filled ==> loaded.mask_text == settings->0.mask
            &&& filled ==> loaded.gateway_text == settings->0.gateway
            &&& !filled ==> loaded.ip_text == state.ip_text && loaded.mask_text == state.mask_text
                && loaded.gateway_text == state.gateway_text
            &&& loaded == (AppView {
                ip_text: loaded.ip_text,
                mask_text: loaded.mask_text,
                gateway_text: loaded.gateway_text,
                interface_details_loading: false,
                current_settings_message: settings_message(interface_name, settings),
                ..state
            })
        },
{
}

/// A change that succeeded adds the profile that goes with it, if one does, says
/// its message, and asks for the settings of its interface, into the form. The
/// choice and the values of the form stay. One that failed says why, and changes
/// nothing else.
pub proof fn ended_change_keeps_the_form(
    state: AppView,
    interface_name: Seq<char>,
    profile: Option<ProfileView>,
    message: Seq<char>,
    error: Seq<char>,
)
    ensures
        ({
            let ended = state.apply_completed(interface_name, Ok(()), profile, message);
            let asks = ActionView::ReadSettings {
                interface_name,
                request_id: ended.0.request_id,
                fill_form: true,
            };
            let adds = profile is Some && !state.profiles.contains(profile->0);
            &&& ended.0.status_message == message && ended.0.status_tone == StatusTone::Success
            &&& adds ==> ended.0.profiles == state.profiles + seq![profile->0]
            &&& adds ==> ended.0.preset_name_text == profile->0.name
            &&& !adds ==> ended.0.profiles == state.profiles && ended.0.interfaces
                == state.interfaces && ended.0.preset_name_text == state.preset_name_text
            &&& ended.0.selected_interface == state.selected_interface
            &&& ended.0.ip_text == state.ip_text
            &&& ended.0.mask_text == state.mask_text
            &&& ended.0.gateway_text == state.gateway_text
            &&& ended.0.interfaces_loading == state.interfaces_loading
            &&& ended.0.interface_category_by_name == state.interface_category_by_name
            &&& ended.0.interface_device_name_by_name == state.interface_device_name_by_name
            &&& !is_blank(interface_name) ==> ended.0.interface_details_loading
            &&& !is_blank(interface_name) && state.request_id < u64::MAX ==> ended.0.request_id
                == state.request_id + 1
            &&& !is_blank(interface_name) && adds ==> ended.1 == seq![
                ActionView::SaveProfiles { profiles: ended.0.profiles },
                asks,
            ]
            &&& !is_blank(interface_name) && !adds ==> ended.1 == seq![asks]
            &&& is_blank(interface_name) && !adds ==> ended.1.len() == 0
            &&& is_blank(interface_name) && adds ==> ended.1 == seq![
                ActionView::SaveProfiles { profiles: ended.0.profiles },
            ]
            &&& adds ==> ended.0.interfaces == state.add(profile->0).0.interfaces
            &&& !is_blank(interface_name) ==> ended.0.current_settings_message == "Reading "@
                + interface_name + "..."@
            &&& is_blank(interface_name) ==> ended.0.current_settings_message
                == "Select an interface."@ && !ended.0.interface_details_loading
                && ended.0.request_id == state.request_id
        }),
        state.apply_completed(interface_name, Err(error), profile, message) == (
            AppView { status_message: error, status_tone: StatusTone::Danger, ..state },
            Seq::<ActionView>::empty(),
        ),
{
    match profile {
        Some(p) => {
            assert(state.profiles.push(p) =~= state.profiles + seq![p]);
        },
        None => {},
    }
}

/// A message does what its kind says, with what it brings, and messages are
/// taken one after the other from none on.
pub proof fn messages_do_what_their_kind_says(state: AppView, message: MessageView)
    ensures
        message matches MessageView::InterfacesLoaded { interfaces, categories, device_names }
            ==> state.receive(message).0 == state.interfaces_loaded(
            interfaces,
            categories,
            device_names,
        ).0 && match state.interfaces_loaded(interfaces, categories, device_names).1 {
            Some(action) => state.receive(message).1 == seq![action],
            None => state.receive(message).1.len() == 0,
        },
        message matches MessageView::SettingsLoaded {
            interface_name,
            settings,
            request_id,
            fill_form,
        } ==> state.receive(message) == (
            state.settings_loaded(interface_name, settings, request_id, fill_form),
            Seq::<ActionView>::empty(),
        ),
        message matches MessageView::ApplyCompleted {
            interface_name,
            result,
            profile_to_save,
            success_message,
        } ==> state.receive(message) == state.apply_completed(
            interface_name,
            result,
            profile_to_save,
            success_message,
        ),
        state.receive_all(seq![message]) == state.receive(message),
        state.receive_all(Seq::empty()) == (state, Seq::<ActionView>::empty()),
{
    reveal_with_fuel(AppView::receive_all, 2);
    let none = Seq::<MessageView>::empty();
    assert(seq![message].drop_last() =~= none);
    assert(Seq::<ActionView>::empty() + state.receive(message).1 =~= state.receive(message).1);
}

/// The program starts with the profiles given and an empty form but for the
/// first profile, whose interface is chosen and whose name is shown. The list of
/// interfaces is asked for, and the settings of the chosen one.
pub proof fn start_chooses_the_first_profile(profiles: Seq<ProfileView>, elevation_missing: bool)
    ensures
        ({
            let initial = AppView::initial(profiles, elevation_missing);
            &&& initial.0.profiles == profiles
            &&& profiles.len() > 0 ==> initial.0.preset_name_text == profiles[0].name
            &&& profiles.len() > 0 && profiles[0].net_interface.len() > 0
                ==> initial.0.selected_interface == profiles[0].net_interface
            &&& profiles.len() == 0 ==> initial.0.preset_name_text.len() == 0
                && initial.0.selected_interface.len() == 0
            &&& initial.0.ip_text.len() == 0 && initial.0.mask_text.len() == 0
                && initial.0.gateway_text.len() == 0
            &&& initial.0.interfaces_loading
            &&& initial.0.status_message == "Loading network interfaces..."@
            &&& initial.0.status_tone == StatusTone::Neutral
            &&& initial.0.interface_category_by_name == Map::<Seq<char>, u8>::empty()
            &&& initial.0.interface_device_name_by_name == Map::<Seq<char>, Seq<char>>::empty()
            &&& !is_blank(initial.0.selected_interface) ==> initial.1 == seq![
                ActionView::LoadInterfaces,
                ActionView::ReadSettings {
                    interface_name: initial.0.selected_interface,
                    request_id: 1,
                    fill_form: true,
                },
            ] && initial.0.request_id == 1 && initial.0.interface_details_loading
                && initial.0.current_settings_message == "Reading "@
                + initial.0.selected_interface + "..."@
            &&& is_blank(initial.0.selected_interface) ==> initial.1 == seq![
                ActionView::LoadInterfaces,
            ] && initial.0.request_id == 0 && !initial.0.interface_details_loading
            &&& initial.0.selected_interface.len() == 0 ==> initial.0.current_settings_message
                == "Current settings will appear here."@
            &&& initial.0.selected_interface.len() > 0 && is_blank(initial.0.selected_interface)
                ==> initial.0.current_settings_message == "Select an interface."@
            &&& initial.0.interfaces == without_repeats(
                sorted_interfaces(Map::<Seq<char>, u8>::empty(), profile_interfaces(profiles)),
            )
            &&& profiles.len() > 0 && profiles[0].net_interface.len() == 0
                && initial.0.interfaces.len() > 0 ==> initial.0.selected_interface
                == initial.0.interfaces[0]
        }),
{
    let from = profile_interfaces(profiles);
    let sorted = sorted_interfaces(Map::empty(), from);
    if profiles.len() == 0 {
        assert(from.len() == 0) by {
            reveal(Seq::filter);
        }
        listing_interfaces_only_reorders(Map::empty(), from);
        assert(sorted.len() == 0);
        assert(without_repeats(sorted).len() == 0);
    }
}

/// After a click on a profile outside its name field the form holds the
/// profile, whatever it held before: its interface, name, address, mask and
/// gateway, each in its own field. After a double click too, and the change that
/// is asked for, if any, is that of the profile. A click into the name field
/// changes nothing.
pub proof fn clicked_profile_is_in_the_form(
    state: AppView,
    profile: ProfileView,
    clicked: bool,
    double_clicked: bool,
    name_field_active: bool,
)
    ensures
        ({
            let after = state.click_profile(profile, clicked, double_clicked, name_field_active);
            let loads = (clicked || double_clicked) && !name_field_active;
            &&& loads ==> after.0.selected_interface == profile.net_interface
            &&& loads ==> after.0.preset_name_text == profile.name
            &&& loads ==> after.0.ip_text == profile.ip
            &&& loads ==> after.0.mask_text == profile.mask
            &&& loads ==> after.0.gateway_text == profile.gateway
            &&& !loads ==> after == (state, None::<ActionView>)
            &&& loads && !double_clicked ==> after.1 is None && after.0.status_message
                == "Loaded saved profile into form."@ && after.0.status_tone
                == StatusTone::Neutral
            &&& double_clicked && loads ==> (after.1 is Some <==> !is_blank(profile.net_interface)
                && !is_blank(profile.ip) && !is_blank(profile.mask) && !is_blank(profile.gateway)
                && is_dotted_quad(trimmed(profile.ip)) && is_dotted_quad(trimmed(profile.mask))
                && is_dotted_quad(trimmed(profile.gateway)))
            &&& after.1 matches Some(action) ==> action is Apply && {
                &&& action->change.interface == trimmed(profile.net_interface)
                &&& action->change.ip == Some(trimmed(profile.ip))
                &&& action->change.mask == Some(trimmed(profile.mask))
                &&& action->change.gateway == Some(trimmed(profile.gateway))
                &&& action->profile_to_save == Some(
                    ProfileView {
                        name: trimmed(profile.name),
                        net_interface: trimmed(profile.net_interface),
                        ip: trimmed(profile.ip),
                        mask: trimmed(profile.mask),
                        gateway: trimmed(profile.gateway),
                    },
                )
                &&& after.0.status_message == "Applying static IP..."@
            }
            &&& after.0 == (AppView {
                selected_interface: after.0.selected_interface,
                preset_name_text: after.0.preset_name_text,
                ip_text: after.0.ip_text,
                mask_text: after.0.mask_text,
                gateway_text: after.0.gateway_text,
                status_message: after.0.status_message,
                status_tone: after.0.status_tone,
                ..state
            })
        }),
{
}

/// Clicks on one profile in two states put the same into the form, and double
/// clicks ask for the same.
pub proof fn clicks_do_not_depend_on_the_form(
    state: AppView,
    other: AppView,
    profile: ProfileView,
    clicked: bool,
)
    ensures
        state.click_profile(profile, clicked, true, false).1 == other.click_profile(
            profile,
            clicked,
            true,
            false,
        ).1,
        state.click_profile(profile, true, false, false).0.form_profile() == other.click_profile(
            profile,
            true,
            false,
            false,
        ).0.form_profile(),
{
    let one = state.click_profile(profile, clicked, true, false);
    let two = other.click_profile(profile, clicked, true, false);
    assert(one.1 == state.with_form(profile).apply_static().1);
    assert(two.1 == other.with_form(profile).apply_static().1);
    the_form_alone_decides(state.with_form(profile), other.with_form(profile));
}

/// Renaming a profile gives it what was typed, without the white space around
/// it, as its name, or none if that is its interface. The name in the form
/// follows exactly if the profile is of the chosen interface. The new list is to
/// be saved, and nothing else changes.
pub proof fn renamed_profile_has_the_typed_name(state: AppView, index: int, typed: Seq<char>)
    ensures
        !(0 <= index < state.profiles.len()) ==> state.rename(index, typed) == (
            state,
            None::<ActionView>,
        ),
        0 <= index < state.profiles.len() ==> {
            let renamed = state.rename(index, typed);
            let profile = state.profiles[index];
            let name = renamed.0.profiles[index].name;
            &&& trimmed(typed) != profile.net_interface ==> name == trimmed(typed)
            &&& trimmed(typed) == profile.net_interface ==> name.len() == 0
            &&& renamed.0.profiles == state.profiles.update(index, ProfileView { name, ..profile })
            &&& renamed.1 == Some(ActionView::SaveProfiles { profiles: renamed.0.profiles })
            &&& state.selected_interface == profile.net_interface
                ==> renamed.0.preset_name_text == name
            &&& state.selected_interface != profile.net_interface
                ==> renamed.0.preset_name_text == state.preset_name_text
            &&& renamed.0 == (AppView {
                profiles: renamed.0.profiles,
                preset_name_text: renamed.0.preset_name_text,
                ..state
            })
        },
{
}

/// The name that is shown of an interface is that of its first profile, and
/// none if it has no profile.
pub proof fn name_is_that_of_the_first_profile(
    profiles: Seq<ProfileView>,
    interface: Seq<char>,
    i: int,
)
    ensures
        0 <= i < profiles.len() && profiles[i].net_interface == interface && (forall|k: int|
            0 <= k < i ==> (#[trigger] profiles[k]).net_interface != interface) ==> preset_name(
            profiles,
            interface,
        ) == profiles[i].name,
        (forall|k: int|
            0 <= k < profiles.len() ==> (#[trigger] profiles[k]).net_interface != interface)
            ==> preset_name(profiles, interface).len() == 0,
    decreases profiles.len(),
{
    if profiles.len() > 0 {
        let rest = profiles.drop_first();
        name_is_that_of_the_first_profile(rest, interface, i - 1);
        assert(forall|k: int| 0 <= k < rest.len() ==> rest[k] == profiles[k + 1]);
        if 0 <= i < profiles.len() && profiles[i].net_interface == interface && (forall|k: int|
            0 <= k < i ==> (#[trigger] profiles[k]).net_interface != interface) {
            if i > 0 {
                assert(profiles[0].net_interface != interface);
                assert forall|k: int| 0 <= k < i - 1 implies (
                #[trigger] rest[k]).net_interface != interface by {
                    assert(rest[k] == profiles[k + 1]);
                }
            }
        }
        if forall|k: int|
            0 <= k < profiles.len() ==> (#[trigger] profiles[k]).net_interface != interface {
            assert(profiles[0].net_interface != interface);
            assert forall|k: int| 0 <= k < rest.len() implies (
            #[trigger] rest[k]).net_interface != interface by {
                assert(rest[k] == profiles[k + 1]);
            }
        }
    }
}

/// Choosing an interface chooses it as it is, shows the name of its first
/// profile, and asks for its settings, into the form. The profiles, the values
/// of the form and the status stay.
pub proof fn chosen_interface_is_shown(state: AppView, interface: Seq<char>)
    ensures
        ({
            let after = state.select(interface);
            &&& after.0.selected_interface == interface
            &&& after.0.preset_name_text == preset_name(state.profiles, interface)
            &&& !is_blank(interface) ==> after.1 == Some(
                ActionView::ReadSettings {
                    interface_name: interface,
                    request_id: after.0.request_id,
                    fill_form: true,
                },
            )
            &&& !is_blank(interface) && state.request_id < u64::MAX ==> after.0.request_id
                == state.request_id + 1
            &&& !is_blank(interface) ==> after.0.current_settings_message == "Reading "@
                + interface + "..."@
            &&& is_blank(interface) ==> after.1 is None && after.0.current_settings_message
                == "Select an interface."@ && after.0.request_id == state.request_id
            &&& after.0.interface_details_loading == !is_blank(interface)
            &&& after.0 == (AppView {
                selected_interface: interface,
                preset_name_text: after.0.preset_name_text,
                request_id: after.0.request_id,
                interface_details_loading: after.0.interface_details_loading,
                current_settings_message: after.0.current_settings_message,
                ..state
            })
        }),
        state.with_preset_name() == (AppView {
            preset_name_text: preset_name(state.profiles, state.selected_interface),
            ..state
        }),
{
}

/// The usual mask comes into the form exactly where there is an address and no
/// mask; nothing else changes.
pub proof fn usual_mask_fills_an_empty_one(state: AppView)
    ensures
        !is_blank(state.ip_text) && state.mask_text.len() == 0 ==> state.with_default_mask() == (
        AppView { mask_text: "255.255.255.0"@, ..state }),
        is_blank(state.ip_text) || state.mask_text.len() > 0 ==> state.with_default_mask() == state,
{
}

/// The selector shows the chosen interface as it is. Interfaces are offered by
/// their names, each with its device on a second line where that is known.
pub proof fn interfaces_are_shown_by_name(state: AppView, interface: Seq<char>)
    ensures
        state.selected_interface.len() > 0 ==> state.selector_text() == state.selected_interface,
        state.selected_interface.len() == 0 ==> state.selector_text() == "Select interface"@,
        state.interface_device_name_by_name.contains_key(interface) && !is_blank(
            state.interface_device_name_by_name[interface],
        ) ==> state.interface_label(interface) == interface + "\n"@
            + state.interface_device_name_by_name[interface],
        !state.interface_device_name_by_name.contains_key(interface) || is_blank(
            state.interface_device_name_by_name[interface],
        ) ==> state.interface_label(interface) == interface,
{
}

/// Setting the status sets the message and the tone as they are given, and
/// nothing else.
pub proof fn status_is_what_was_set(state: AppView, message: Seq<char>, tone: StatusTone)
    ensures
        state.with_status(message, tone) == (AppView {
            status_message: message,
            status_tone: tone,
            ..state
        }),
{
}

/// The interfaces of profiles join those that are there one after the other, in
/// the order of the profiles: one that has a name and is not there yet comes
/// last.
pub proof fn profile_interfaces_join_one_by_one(
    interfaces: Seq<Seq<char>>,
    one: Seq<ProfileView>,
    other: Seq<ProfileView>,
    p: ProfileView,
)
    ensures
        with_profile_interfaces(interfaces, one + other) == with_profile_interfaces(
            with_profile_interfaces(interfaces, one),
            other,
        ),
        p.net_interface.len() > 0 && !interfaces.contains(p.net_interface)
            ==> with_profile_interfaces(interfaces, seq![p]) == interfaces + seq![p.net_interface],
        p.net_interface.len() == 0 || interfaces.contains(p.net_interface)
            ==> with_profile_interfaces(interfaces, seq![p]) == interfaces,
        with_profile_interfaces(interfaces, Seq::empty()) == interfaces,
    decreases other.len(),
{
    reveal_with_fuel(with_profile_interfaces, 2);
    assert(seq![p].drop_last() =~= Seq::<ProfileView>::empty());
    assert(interfaces.push(p.net_interface) =~= interfaces + seq![p.net_interface]);
    if other.len() == 0 {
        assert(one + other =~= one);
    } else {
        profile_interfaces_join_one_by_one(interfaces, one, other.drop_last(), p);
        assert((one + other).drop_last() =~= one + other.drop_last());
        assert((one + other).last() == other.last());
    }
}

/// The interfaces of profiles are those of the profiles in their order, without
/// the blank ones.
pub proof fn profile_interfaces_are_taken_in_order(
    one: Seq<ProfileView>,
    other: Seq<ProfileView>,
    p: ProfileView,
)
    ensures
        profile_interfaces(one + other) == profile_interfaces(one) + profile_interfaces(other),
        !is_blank(p.net_interface) ==> profile_interfaces(seq![p]) == seq![p.net_interface],
        is_blank(p.net_interface) ==> profile_interfaces(seq![p]).len() == 0,
{
    let name = |q: ProfileView| q.net_interface;
    let named = |n: Seq<char>| !is_blank(n);
    assert((one + other).map_values(name) =~= one.map_values(name) + other.map_values(name));
    Seq::filter_distributes_over_add(one.map_values(name), other.map_values(name), named);
    let single = seq![p.net_interface];
    let none = Seq::<Seq<char>>::empty();
    assert(seq![p].map_values(name) =~= single);
    reveal_with_fuel(Seq::filter, 2);
    assert(single.drop_last() =~= none);
    assert(none.filter(named) =~= none);
    assert(profile_interfaces(seq![p]) == single.filter(named));
    if named(p.net_interface) {
        assert(none.push(p.net_interface) =~= single);
    }
}

/// What is on offer is in the order of the list, each run of one name cut to
/// one: while the interfaces are being listed those of the profiles, then those
/// that were listed with those of the profiles, and an added one takes its place
/// among them.
pub proof fn offers_are_in_the_order_of_the_list(
    state: AppView,
    interfaces: Seq<Seq<char>>,
    categories: Map<Seq<char>, u8>,
    device_names: Map<Seq<char>, Seq<char>>,
    profile: ProfileView,
)
    ensures
        !state.interfaces_loading ==> state.reload().0.interfaces == without_repeats(
            sorted_interfaces(
                state.interface_category_by_name,
                profile_interfaces(state.profiles),
            ),
        ),
        state.interfaces_loaded(interfaces, categories, device_names).0.interfaces
            == without_repeats(
            sorted_interfaces(categories, with_profile_interfaces(interfaces, state.profiles)),
        ),
        !state.profiles.contains(profile) && profile.net_interface.len() > 0
            && !state.interfaces.contains(profile.net_interface) ==> state.add(profile).0.interfaces
            == sorted_interfaces(
            state.interface_category_by_name,
            state.interfaces + seq![profile.net_interface],
        ),
{
    let name = profile.net_interface;
    assert(state.interfaces.push(name) =~= state.interfaces + seq![name]);
}

/// What was typed into the form is what the commands of its change say: the
/// chosen interface, and in a static change the address, the mask and the
/// gateway, without the white space around them.
pub proof fn commands_say_what_was_typed(state: AppView)
    ensures
        state.apply_static().1 matches Some(action) ==> {
            let commands = action->change.commands()->0;
            &&& action->change.commands() is Some
            &&& commands.len() == 1
            &&& commands[0].arguments.contains("name="@ + trimmed(state.selected_interface))
            &&& commands[0].arguments.contains("address="@ + trimmed(state.ip_text))
            &&& commands[0].arguments.contains("mask="@ + trimmed(state.mask_text))
            &&& commands[0].arguments.contains("gateway="@ + trimmed(state.gateway_text))
        },
        !is_blank(state.selected_interface) ==> {
            let commands = state.apply_dhcp().1->change.commands()->0;
            &&& state.apply_dhcp().1->change.commands() is Some
            &&& commands.len() == 2
            &&& commands[0].arguments.contains("name="@ + trimmed(state.selected_interface))
            &&& commands[1].arguments.contains("name="@ + trimmed(state.selected_interface))
        },
{
    match state.apply_static().1 {
        Some(action) => {
            let arguments = action->change.commands()->0[0].arguments;
            assert(arguments[4] == "name="@ + trimmed(state.selected_interface));
            assert(arguments[6] == "address="@ + trimmed(state.ip_text));
            assert(arguments[7] == "mask="@ + trimmed(state.mask_text));
            assert(arguments[8] == "gateway="@ + trimmed(state.gateway_text));
        },
        None => {},
    }
    if !is_blank(state.selected_interface) {
        let commands = state.apply_dhcp().1->change.commands()->0;
        assert(commands[0].arguments[4] == "name="@ + trimmed(state.selected_interface));
        assert(commands[1].arguments[4] == "name="@ + trimmed(state.selected_interface));
    }
}

} // verus!
