//! The state of the application: what it shows, and how it answers to what is
//! done and to what comes back from its work.

use vstd::prelude::*;

use crate::adapters::table_texts;
use crate::ipv4::is_dotted_quad;
use crate::netsh::{Change, ChangeView};
use crate::order::{sorted_interfaces, without_repeats};
use crate::profile::{name_from_edit, profile_views, IpProfile, ProfileView};
use crate::settings::{settings_message, settings_view, InterfaceSettings, SettingsView};
use crate::table::NameTable;
use crate::text::{is_blank, texts, trimmed};

verus! {

/// How a status message is meant.
#[derive(Debug, Clone, Copy, PartialEq, Eq, Structural)]
pub enum StatusTone {
    Neutral,
    Success,
    Danger,
}

/// Work that the state asks for.
pub ghost enum ActionView {
    LoadInterfaces,
    ReadSettings { interface_name: Seq<char>, request_id: u64, fill_form: bool },
    Apply {
        change: ChangeView,
        profile_to_save: Option<ProfileView>,
        success_message: Seq<char>,
    },
    SaveProfiles { profiles: Seq<ProfileView> },
}

/// Work that the state asks for: to list the interfaces, to read the settings
/// of one, to change them, or to save the profiles.
#[derive(Debug, PartialEq, Eq)]
pub enum Action {
    LoadInterfaces,
    ReadSettings { interface_name: String, request_id: u64, fill_form: bool },
    Apply { change: Change, profile_to_save: Option<IpProfile>, success_message: String },
    SaveProfiles { profiles: Vec<IpProfile> },
}

/// The view of a profile that may be missing.
pub open spec fn optional_profile(profile: Option<IpProfile>) -> Option<ProfileView> {
    match profile {
        Some(p) => Some(p@),
        None => None,
    }
}

impl View for Action {
    type V = ActionView;

    open spec fn view(&self) -> ActionView {
        match self {
            Action::LoadInterfaces => ActionView::LoadInterfaces,
            Action::ReadSettings { interface_name, request_id, fill_form } => {
                ActionView::ReadSettings {
                    interface_name: interface_name@,
                    request_id: *request_id,
                    fill_form: *fill_form,
                }
            },
            Action::Apply { change, profile_to_save, success_message } => ActionView::Apply {
                change: change@,
                profile_to_save: optional_profile(*profile_to_save),
                success_message: success_message@,
            },
            Action::SaveProfiles { profiles } => ActionView::SaveProfiles {
                profiles: profile_views(profiles@),
            },
        }
    }
}

/// The view of work that may be missing.
pub open spec fn optional_action(action: Option<Action>) -> Option<ActionView> {
    match action {
        Some(a) => Some(a@),
        None => None,
    }
}

/// The views of some work.
pub open spec fn action_views(actions: Seq<Action>) -> Seq<ActionView> {
    actions.map_values(|a: Action| a@)
}

/// A list of the work, if there is some.
pub open spec fn action_list(action: Option<ActionView>) -> Seq<ActionView> {
    match action {
        Some(a) => seq![a],
        None => Seq::empty(),
    }
}

/// What comes back from work.
pub ghost enum MessageView {
    InterfacesLoaded {
        interfaces: Seq<Seq<char>>,
        categories: Map<Seq<char>, u8>,
        device_names: Map<Seq<char>, Seq<char>>,
    },
    SettingsLoaded {
        interface_name: Seq<char>,
        settings: Option<SettingsView>,
        request_id: u64,
        fill_form: bool,
    },
    ApplyCompleted {
        interface_name: Seq<char>,
        result: Result<(), Seq<char>>,
        profile_to_save: Option<ProfileView>,
        success_message: Seq<char>,
    },
}

/// What comes back from work.
pub enum WorkerMessage {
    InterfacesLoaded {
        interfaces: Vec<String>,
        categories: NameTable<u8>,
        device_names: NameTable<String>,
    },
    SettingsLoaded {
        interface_name: String,
        settings: Option<InterfaceSettings>,
        request_id: u64,
        fill_form: bool,
    },
    ApplyCompleted {
        interface_name: String,
        result: Result<(), String>,
        profile_to_save: Option<IpProfile>,
        success_message: String,
    },
}

/// The view of how a change ended.
pub open spec fn result_view(result: Result<(), String>) -> Result<(), Seq<char>> {
    match result {
        Ok(()) => Ok(()),
        Err(message) => Err(message@),
    }
}

impl View for WorkerMessage {
    type V = MessageView;

    open spec fn view(&self) -> MessageView {
        match self {
            WorkerMessage::InterfacesLoaded { interfaces, categories, device_names } => {
                MessageView::InterfacesLoaded {
                    interfaces: texts(interfaces@),
                    categories: categories@,
                    device_names: table_texts(device_names@),
                }
            },
            WorkerMessage::SettingsLoaded { interface_name, settings, request_id, fill_form } => {
                MessageView::SettingsLoaded {
                    interface_name: interface_name@,
                    settings: settings_view(*settings),
                    request_id: *request_id,
                    fill_form: *fill_form,
                }
            },
            WorkerMessage::ApplyCompleted {
                interface_name,
                result,
                profile_to_save,
                success_message,
            } => MessageView::ApplyCompleted {
                interface_name: interface_name@,
                result: result_view(*result),
                profile_to_save: optional_profile(*profile_to_save),
                success_message: success_message@,
            },
        }
    }
}

/// The views of some messages.
pub open spec fn message_views(messages: Seq<WorkerMessage>) -> Seq<MessageView> {
    messages.map_values(|m: WorkerMessage| m@)
}

/// The state of the application.
#[verifier::ext_equal]
pub ghost struct AppView {
    pub profiles: Seq<ProfileView>,
    pub interfaces: Seq<Seq<char>>,
    pub interface_category_by_name: Map<Seq<char>, u8>,
    pub interface_device_name_by_name: Map<Seq<char>, Seq<char>>,
    pub selected_interface: Seq<char>,
    pub preset_name_text: Seq<char>,
    pub ip_text: Seq<char>,
    pub mask_text: Seq<char>,
    pub gateway_text: Seq<char>,
    pub current_settings_message: Seq<char>,
    pub status_message: Seq<char>,
    pub status_tone: StatusTone,
    pub request_id: u64,
    pub interfaces_loading: bool,
    pub interface_details_loading: bool,
}

/// The state of the application: the saved profiles, the interfaces with what
/// is known of them, the form, the messages, and the work that is under way.
pub struct IpFlipRustApp {
    pub profiles: Vec<IpProfile>,
    pub interfaces: Vec<String>,
    pub interface_category_by_name: NameTable<u8>,
    pub interface_device_name_by_name: NameTable<String>,
    pub selected_interface: String,
    pub preset_name_text: String,
    pub ip_text: String,
    pub mask_text: String,
    pub gateway_text: String,
    pub current_settings_message: String,
    pub status_message: String,
    pub status_tone: StatusTone,
    pub request_id: u64,
    pub interfaces_loading: bool,
    pub interface_details_loading: bool,
}

impl View for IpFlipRustApp {
    type V = AppView;

    open spec fn view(&self) -> AppView {
        AppView {
            profiles: profile_views(self.profiles@),
            interfaces: texts(self.interfaces@),
            interface_category_by_name: self.interface_category_by_name@,
            interface_device_name_by_name: table_texts(self.interface_device_name_by_name@),
            selected_interface: self.selected_interface@,
            preset_name_text: self.preset_name_text@,
            ip_text: self.ip_text@,
            mask_text: self.mask_text@,
            gateway_text: self.gateway_text@,
            current_settings_message: self.current_settings_message@,
            status_message: self.status_message@,
            status_tone: self.status_tone,
            request_id: self.request_id,
            interfaces_loading: self.interfaces_loading,
            interface_details_loading: self.interface_details_loading,
        }
    }
}

/// The name of the first profile of an interface; empty if there is none.
pub open spec fn preset_name(profiles: Seq<ProfileView>, interface: Seq<char>) -> Seq<char>
    decreases profiles.len(),
{
    if profiles.len() == 0 {
        Seq::empty()
    } else if profiles[0].net_interface == interface {
        profiles[0].name
    } else {
        preset_name(profiles.drop_first(), interface)
    }
}

/// The interfaces of some profiles, without those that are blank.
pub open spec fn profile_interfaces(profiles: Seq<ProfileView>) -> Seq<Seq<char>> {
    profiles.map_values(|p: ProfileView| p.net_interface).filter(|n: Seq<char>| !is_blank(n))
}

/// Some interfaces, and after them those of some profiles that are missing
/// among them, each once.
pub open spec fn with_profile_interfaces(
    interfaces: Seq<Seq<char>>,
    profiles: Seq<ProfileView>,
) -> Seq<Seq<char>>
    decreases profiles.len(),
{
    if profiles.len() == 0 {
        interfaces
    } else {
        let before = with_profile_interfaces(interfaces, profiles.drop_last());
        let name = profiles.last().net_interface;
        if name.len() == 0 || before.contains(name) {
            before
        } else {
            before.push(name)
        }
    }
}

/// The profiles that are not a given one.
pub open spec fn profiles_without(
    profiles: Seq<ProfileView>,
    profile: ProfileView,
) -> Seq<ProfileView> {
    profiles.filter(|p: ProfileView| p != profile)
}

/// The next number of a request.
pub open spec fn next_request_id(request_id: u64) -> u64 {
    if request_id == u64::MAX {
        u64::MAX
    } else {
        (request_id + 1) as u64
    }
}

impl AppView {
    /// The state with a status message.
    pub open spec fn with_status(self, message: Seq<char>, tone: StatusTone) -> AppView {
        AppView { status_message: message, status_tone: tone, ..self }
    }

    /// The state after the name field was set to that of the chosen interface.
    pub open spec fn with_preset_name(self) -> AppView {
        AppView {
            preset_name_text: preset_name(self.profiles, self.selected_interface),
            ..self
        }
    }

    /// The state with some interfaces to choose from, of which the first is
    /// chosen if none is.
    pub open spec fn with_interfaces(self, interfaces: Seq<Seq<char>>) -> AppView {
        AppView {
            interfaces,
            selected_interface: if self.selected_interface.len() == 0 && interfaces.len() > 0 {
                interfaces[0]
            } else {
                self.selected_interface
            },
            ..self
        }
    }

    /// Listing the interfaces: those of the profiles are offered meanwhile.
    /// While it is under way it is not started again.
    pub open spec fn reload(self) -> (AppView, Option<ActionView>) {
        if self.interfaces_loading {
            (self, None)
        } else {
            let state = self.with_interfaces(
                without_repeats(
                    sorted_interfaces(
                        self.interface_category_by_name,
                        profile_interfaces(self.profiles),
                    ),
                ),
            );
            (
                (AppView { interfaces_loading: true, ..state }).with_status(
                    "Loading network interfaces..."@,
                    StatusTone::Neutral,
                ),
                Some(ActionView::LoadInterfaces),
            )
        }
    }

    /// Reading the settings of an interface, under a number of its own; not of
    /// a blank one.
    pub open spec fn request(self, interface_name: Seq<char>, fill_form: bool) -> (
        AppView,
        Option<ActionView>,
    ) {
        if is_blank(interface_name) {
            (
                AppView {
                    current_settings_message: "Select an interface."@,
                    interface_details_loading: false,
                    ..self
                },
                None,
            )
        } else {
            let request_id = next_request_id(self.request_id);
            (
                AppView {
                    request_id,
                    interface_details_loading: true,
                    current_settings_message: "Reading "@ + interface_name + "..."@,
                    ..self
                },
                Some(ActionView::ReadSettings { interface_name, request_id, fill_form }),
            )
        }
    }

    /// The profile that is in the form.
    pub open spec fn form_profile(self) -> ProfileView {
        ProfileView {
            name: trimmed(self.preset_name_text),
            net_interface: trimmed(self.selected_interface),
            ip: trimmed(self.ip_text),
            mask: trimmed(self.mask_text),
            gateway: trimmed(self.gateway_text),
        }
    }

    /// What is wrong with the form, if something is.
    pub open spec fn form_problem(self, incomplete: Seq<char>) -> Option<Seq<char>> {
        let p = self.form_profile();
        if p.net_interface.len() == 0 {
            Some("Interface is required."@)
        } else if !p.is_complete() {
            Some(incomplete)
        } else if !is_dotted_quad(p.ip) || !is_dotted_quad(p.mask) || !is_dotted_quad(p.gateway) {
            Some("IP, mask, and gateway must be valid IPv4 values."@)
        } else {
            None
        }
    }

    /// Giving the chosen interface the static settings in the form.
    pub open spec fn apply_static(self) -> (AppView, Option<ActionView>) {
        match self.form_problem(
            "For static mode, interface, ip, mask, and gateway are required."@,
        ) {
            Some(problem) => (self.with_status(problem, StatusTone::Danger), None),
            None => {
                let p = self.form_profile();
                (
                    self.with_status("Applying static IP..."@, StatusTone::Neutral),
                    Some(
                        ActionView::Apply {
                            change: ChangeView {
                                interface: p.net_interface,
                                ip: Some(p.ip),
                                mask: Some(p.mask),
                                gateway: Some(p.gateway),
                            },
                            profile_to_save: Some(p),
                            success_message: "Static IP applied and saved."@,
                        },
                    ),
                )
            },
        }
    }

    /// Having the chosen interface use DHCP; Ethernet if none is chosen.
    pub open spec fn apply_dhcp(self) -> (AppView, ActionView) {
        let interface = if is_blank(self.selected_interface) {
            "Ethernet"@
        } else {
            trimmed(self.selected_interface)
        };
        (
            self.with_status("Applying DHCP..."@, StatusTone::Neutral),
            ActionView::Apply {
                change: ChangeView { interface, ip: None, mask: None, gateway: None },
                profile_to_save: None,
                success_message: "Automatic IP (DHCP) applied."@,
            },
        )
    }

    /// Adding a profile at the end, unless it is there already. Its interface
    /// is offered from then on.
    pub open spec fn add(self, profile: ProfileView) -> (AppView, Option<ActionView>) {
        if self.profiles.contains(profile) {
            (self, None)
        } else {
            let profiles = self.profiles.push(profile);
            let interfaces = if profile.net_interface.len() == 0 || self.interfaces.contains(
                profile.net_interface,
            ) {
                self.interfaces
            } else {
                sorted_interfaces(
                    self.interface_category_by_name,
                    self.interfaces.push(profile.net_interface),
                )
            };
            (
                AppView { profiles, preset_name_text: profile.name, interfaces, ..self },
                Some(ActionView::SaveProfiles { profiles }),
            )
        }
    }

    /// Saving the profile that is in the form.
    pub open spec fn save(self) -> (AppView, Option<ActionView>) {
        match self.form_problem("To save, interface, ip, mask, and gateway are required."@) {
            Some(problem) => (self.with_status(problem, StatusTone::Danger), None),
            None => {
                let added = self.add(self.form_profile());
                (added.0.with_status("Configuration saved."@, StatusTone::Success), added.1)
            },
        }
    }

    /// Removing a profile, wherever it is in the list.
    pub open spec fn remove(self, profile: ProfileView) -> (AppView, ActionView) {
        let profiles = profiles_without(self.profiles, profile);
        (AppView { profiles, ..self }, ActionView::SaveProfiles { profiles })
    }

    /// The state when the interfaces have been listed: those of the profiles
    /// are offered too. If none was chosen the first one is, and its settings
    /// are read.
    pub open spec fn interfaces_loaded(
        self,
        interfaces: Seq<Seq<char>>,
        categories: Map<Seq<char>, u8>,
        device_names: Map<Seq<char>, Seq<char>>,
    ) -> (AppView, Option<ActionView>) {
        let offered = without_repeats(
            sorted_interfaces(categories, with_profile_interfaces(interfaces, self.profiles)),
        );
        let state = (AppView {
            interfaces_loading: false,
            interface_category_by_name: categories,
            interface_device_name_by_name: device_names,
            ..self
        }).with_interfaces(offered);
        let asked = if self.selected_interface.len() == 0 && offered.len() > 0 {
            state.request(state.selected_interface, true)
        } else {
            (state, None)
        };
        if self.status_message == "Loading network interfaces..."@ {
            (AppView { status_message: Seq::empty(), ..asked.0 }, asked.1)
        } else {
            asked
        }
    }

    /// The state when settings have been read. They count only if they are
    /// those of the chosen interface, and answer to the latest request.
    pub open spec fn settings_loaded(
        self,
        interface_name: Seq<char>,
        settings: Option<SettingsView>,
        request_id: u64,
        fill_form: bool,
    ) -> AppView {
        if request_id != self.request_id || interface_name != self.selected_interface {
            self
        } else {
            let form = match settings {
                Some(s) => if fill_form {
                    AppView { ip_text: s.ip, mask_text: s.mask, gateway_text: s.gateway, ..self }
                } else {
                    self
                },
                None => self,
            };
            AppView {
                interface_details_loading: false,
                current_settings_message: settings_message(interface_name, settings),
                ..form
            }
        }
    }

    /// The state when a change has ended: after a success its profile is
    /// added, and the settings are read again.
    pub open spec fn apply_completed(
        self,
        interface_name: Seq<char>,
        result: Result<(), Seq<char>>,
        profile_to_save: Option<ProfileView>,
        success_message: Seq<char>,
    ) -> (AppView, Seq<ActionView>) {
        match result {
            Ok(()) => {
                let added = match profile_to_save {
                    Some(profile) => self.add(profile),
                    None => (self, None),
                };
                let asked = added.0.with_status(success_message, StatusTone::Success).request(
                    interface_name,
                    true,
                );
                (asked.0, action_list(added.1) + action_list(asked.1))
            },
            Err(message) => (self.with_status(message, StatusTone::Danger), Seq::empty()),
        }
    }

    /// The state after a message, and the work that it leads to.
    pub open spec fn receive(self, message: MessageView) -> (AppView, Seq<ActionView>) {
        match message {
            MessageView::InterfacesLoaded { interfaces, categories, device_names } => {
                let loaded = self.interfaces_loaded(interfaces, categories, device_names);
                (loaded.0, action_list(loaded.1))
            },
            MessageView::SettingsLoaded { interface_name, settings, request_id, fill_form } => (
                self.settings_loaded(interface_name, settings, request_id, fill_form),
                Seq::empty(),
            ),
            MessageView::ApplyCompleted {
                interface_name,
                result,
                profile_to_save,
                success_message,
            } => self.apply_completed(interface_name, result, profile_to_save, success_message),
        }
    }

    /// The state after some messages, one after the other, and the work that
    /// they lead to.
    pub open spec fn receive_all(self, messages: Seq<MessageView>) -> (AppView, Seq<ActionView>)
        decreases messages.len(),
    {
        if messages.len() == 0 {
            (self, Seq::empty())
        } else {
            let before = self.receive_all(messages.drop_last());
            let last = before.0.receive(messages.last());
            (last.0, before.1 + last.1)
        }
    }

    /// The state when the program starts, and the work that it starts with.
    pub open spec fn initial(profiles: Seq<ProfileView>, elevation_missing: bool) -> (
        AppView,
        Seq<ActionView>,
    ) {
        let empty = AppView {
            profiles,
            interfaces: Seq::empty(),
            interface_category_by_name: Map::empty(),
            interface_device_name_by_name: Map::empty(),
            selected_interface: if profiles.len() > 0 {
                profiles[0].net_interface
            } else {
                Seq::empty()
            },
            preset_name_text: if profiles.len() > 0 {
                profiles[0].name
            } else {
                Seq::empty()
            },
            ip_text: Seq::empty(),
            mask_text: Seq::empty(),
            gateway_text: Seq::empty(),
            current_settings_message: "Current settings will appear here."@,
            status_message: Seq::empty(),
            status_tone: StatusTone::Neutral,
            request_id: 0,
            interfaces_loading: false,
            interface_details_loading: false,
        };
        let warned = if elevation_missing {
            empty.with_status(
                "Run the app as administrator before applying network settings."@,
                StatusTone::Danger,
            )
        } else {
            empty
        };
        let loading = warned.reload();
        if loading.0.selected_interface.len() > 0 {
            let asked = loading.0.request(loading.0.selected_interface, true);
            (asked.0, action_list(loading.1) + action_list(asked.1))
        } else {
            (loading.0, action_list(loading.1))
        }
    }

    /// The state with a profile in the form.
    pub open spec fn with_form(self, profile: ProfileView) -> AppView {
        AppView {
            selected_interface: profile.net_interface,
            preset_name_text: profile.name,
            ip_text: profile.ip,
            mask_text: profile.mask,
            gateway_text: profile.gateway,
            ..self
        }
    }

    /// A click on a profile loads it into the form, a double click applies it
    /// too. A click into its name field does neither.
    pub open spec fn click_profile(
        self,
        profile: ProfileView,
        clicked: bool,
        double_clicked: bool,
        name_field_active: bool,
    ) -> (AppView, Option<ActionView>) {
        let loaded = if clicked && !name_field_active {
            self.with_form(profile).with_status(
                "Loaded saved profile into form."@,
                StatusTone::Neutral,
            )
        } else {
            self
        };
        if double_clicked && !name_field_active {
            loaded.with_form(profile).apply_static()
        } else {
            (loaded, None)
        }
    }

    /// Deleting a profile.
    pub open spec fn delete(self, profile: ProfileView) -> (AppView, ActionView) {
        let removed = self.remove(profile);
        (removed.0.with_status("Profile deleted."@, StatusTone::Neutral), removed.1)
    }

    /// Editing the name of a profile. The name field of the form follows if it
    /// is a profile of the chosen interface.
    pub open spec fn rename(self, index: int, typed: Seq<char>) -> (AppView, Option<ActionView>) {
        if 0 <= index < self.profiles.len() {
            let profile = self.profiles[index];
            let name = name_from_edit(typed, profile.net_interface);
            let profiles = self.profiles.update(index, ProfileView { name, ..profile });
            let preset_name_text = if self.selected_interface == profile.net_interface {
                name
            } else {
                self.preset_name_text
            };
            (
                AppView { profiles, preset_name_text, ..self },
                Some(ActionView::SaveProfiles { profiles }),
            )
        } else {
            (self, None)
        }
    }

    /// The state after another interface was chosen: its name is shown and its
    /// settings are read.
    pub open spec fn select(self, interface: Seq<char>) -> (AppView, Option<ActionView>) {
        (AppView { selected_interface: interface, ..self }).with_preset_name().request(
            interface,
            true,
        )
    }

    /// The state with the usual mask in the form, where there is an address
    /// but no mask.
    pub open spec fn with_default_mask(self) -> AppView {
        if self.mask_text.len() == 0 && !is_blank(self.ip_text) {
            AppView { mask_text: "255.255.255.0"@, ..self }
        } else {
            self
        }
    }

    /// What is shown as the chosen interface.
    pub open spec fn selector_text(self) -> Seq<char> {
        if self.selected_interface.len() == 0 {
            "Select interface"@
        } else {
            self.selected_interface
        }
    }

    /// An interface as it is offered: with its device on a second line, where
    /// that is known.
    pub open spec fn interface_label(self, interface: Seq<char>) -> Seq<char> {
        if self.interface_device_name_by_name.contains_key(interface) && !is_blank(
            self.interface_device_name_by_name[interface],
        ) {
            interface + "\n"@ + self.interface_device_name_by_name[interface]
        } else {
            interface
        }
    }
}

} // verus!
