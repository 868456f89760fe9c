//! What the application does: each operation on its state.

use vstd::prelude::*;

use crate::adapters::table_texts;
use crate::ipv4::is_ipv4;
use crate::netsh::Change;
use crate::order::{drop_repeats, sort_interfaces};
use crate::profile::{normalized_name, profile_views, IpProfile, ProfileView};
use crate::settings::{describe_settings, settings_view, InterfaceSettings};
use crate::state::{
    action_list, action_views, message_views, optional_action, preset_name, profile_interfaces,
    with_profile_interfaces, Action, ActionView, AppView, IpFlipRustApp, StatusTone, WorkerMessage,
};
use crate::table::NameTable;
use crate::text::{has_text, is_blank, same_text, texts, trim};

verus! {

fn clone_profiles(profiles: &Vec<IpProfile>) -> (r: Vec<IpProfile>)
    ensures
        profile_views(r@) == profile_views(profiles@),
{
    let mut r: Vec<IpProfile> = Vec::new();
    let mut i: usize = 0;
    while i < profiles.len()
        invariant
            i <= profiles@.len(),
            r@ == profiles@.take(i as int),
        decreases profiles@.len() - i,
    {
        r.push(profiles[i].clone());
        assert(r@ =~= profiles@.take(i + 1));
        i += 1;
    }
    assert(profiles@.take(i as int) =~= profiles@);
    r
}

fn has_profile(profiles: &Vec<IpProfile>, profile: &IpProfile) -> (r: bool)
    ensures
        r == profile_views(profiles@).contains(profile@),
{
    let mut i: usize = 0;
    while i < profiles.len()
        invariant
            i <= profiles@.len(),
            forall|k: int| 0 <= k < i ==> profile_views(profiles@)[k] != profile@,
        decreases profiles@.len() - i,
    {
        if profiles[i].same_as(profile) {
            assert(profile_views(profiles@)[i as int] == profile@);
            return true;
        }
        i += 1;
    }
    false
}

/// The interfaces of some profiles, without those that are blank.
fn interfaces_of(profiles: &Vec<IpProfile>) -> (r: Vec<String>)
    ensures
        texts(r@) == profile_interfaces(profile_views(profiles@)),
{
    let mut r: Vec<String> = Vec::new();
    let ghost all = profile_views(profiles@).map_values(|p: ProfileView| p.net_interface);
    let ghost named = |n: Seq<char>| !is_blank(n);
    let mut i: usize = 0;
    assert(texts(r@) =~= all.take(0).filter(named)) by {
        reveal(Seq::filter);
    }
    while i < profiles.len()
        invariant
            i <= profiles@.len(),
            all == profile_views(profiles@).map_values(|p: ProfileView| p.net_interface),
            named == |n: Seq<char>| !is_blank(n),
            texts(r@) == all.take(i as int).filter(named),
        decreases profiles@.len() - i,
    {
        let ghost before = texts(r@);
        proof {
            reveal(Seq::filter);
            assert(all.take(i + 1).drop_last() =~= all.take(i as int));
            assert(all.take(i + 1).last() == profiles@[i as int].net_interface@);
        }
        if !trim(&profiles[i].net_interface).is_empty() {
            r.push(profiles[i].net_interface.clone());
            assert(texts(r@) =~= before.push(profiles@[i as int].net_interface@));
        }
        i += 1;
    }
    assert(all.take(i as int) =~= all);
    r
}

fn add_profile_interfaces(interfaces: Vec<String>, profiles: &Vec<IpProfile>) -> (r: Vec<String>)
    ensures
        texts(r@) == with_profile_interfaces(texts(interfaces@), profile_views(profiles@)),
{
    let ghost all = profile_views(profiles@);
    let ghost given = texts(interfaces@);
    let mut r = interfaces;
    let mut i: usize = 0;
    assert(all.take(0).len() == 0);
    while i < profiles.len()
        invariant
            i <= profiles@.len(),
            all == profile_views(profiles@),
            texts(r@) == with_profile_interfaces(given, all.take(i as int)),
        decreases profiles@.len() - i,
    {
        proof {
            assert(all.take(i + 1).drop_last() =~= all.take(i as int));
            assert(all.take(i + 1).last() == profiles@[i as int]@);
        }
        let name = &profiles[i].net_interface;
        if !name.as_str().is_empty() && !has_text(&r, name) {
            let ghost before = texts(r@);
            r.push(name.clone());
            assert(texts(r@) =~= before.push(name@));
        }
        i += 1;
    }
    assert(all.take(i as int) =~= all);
    r
}

fn push_action(actions: &mut Vec<Action>, action: Option<Action>)
    ensures
        action_views(final(actions)@) == action_views(old(actions)@) + action_list(
            optional_action(action),
        ),
{
    let ghost before = action_views(actions@);
    match action {
        Some(a) => {
            actions.push(a);
            assert(action_views(actions@) =~= before + seq![a@]);
        },
        None => {
            assert(action_views(actions@) =~= before + Seq::<ActionView>::empty());
        },
    }
}

impl IpFlipRustApp {
    /// Sets the status message.
    pub fn set_status(&mut self, message: String, tone: StatusTone)
        ensures
            final(self)@ == old(self)@.with_status(message@, tone),
    {
        self.status_message = message;
        self.status_tone = tone;
    }

    /// Sets the name field to the name of the first profile of the chosen
    /// interface.
    pub fn sync_preset_name_from_selected(&mut self)
        ensures
            final(self)@ == old(self)@.with_preset_name(),
    {
        let ghost all = profile_views(self.profiles@);
        let mut name: String = String::new();
        let mut i: usize = 0;
        let n: usize = self.profiles.len();
        assert(all.skip(0) =~= all);
        while i < n
            invariant_except_break
                name@ == Seq::<char>::empty(),
                preset_name(all, self.selected_interface@) == preset_name(
                    all.skip(i as int),
                    self.selected_interface@,
                ),
            invariant
                i <= n,
                n == self.profiles@.len(),
                all == profile_views(self.profiles@),
                *self == *old(self),
            ensures
                name@ == preset_name(all, self.selected_interface@),
            decreases n - i,
        {
            assert(all.skip(i as int)[0] == self.profiles@[i as int]@);
            if same_text(&self.profiles[i].net_interface, &self.selected_interface) {
                name = self.profiles[i].name.clone();
                break;
            }
            assert(all.skip(i as int).drop_first() =~= all.skip(i + 1));
            i += 1;
        }
        self.preset_name_text = name;
    }

    /// Whether another interface cannot be chosen now.
    pub fn interface_selector_disabled(&self) -> (r: bool)
        ensures
            r == (self@.interfaces_loading || self@.interface_details_loading),
    {
        self.interfaces_loading || self.interface_details_loading
    }

    /// Starts to list the interfaces, and offers those of the profiles
    /// meanwhile.
    pub fn reload_interfaces_async(&mut self) -> (r: Option<Action>)
        ensures
            (final(self)@, optional_action(r)) == old(self)@.reload(),
    {
        if self.interfaces_loading {
            return None;
        }
        let from_profiles = interfaces_of(&self.profiles);
        let sorted = sort_interfaces(&from_profiles, &self.interface_category_by_name);
        self.interfaces = drop_repeats(&sorted);
        assert(texts(self.interfaces@).len() == self.interfaces@.len());
        if self.selected_interface.as_str().is_empty() && self.interfaces.len() > 0 {
            assert(texts(self.interfaces@)[0] == self.interfaces@[0]@);
            self.selected_interface = self.interfaces[0].clone();
        }
        self.interfaces_loading = true;
        self.set_status("Loading network interfaces...".to_owned(), StatusTone::Neutral);
        Some(Action::LoadInterfaces)
    }

    /// Starts to read the settings of an interface.
    pub fn request_interface_settings(&mut self, interface_name: String, fill_form: bool) -> (r:
        Option<Action>)
        ensures
            (final(self)@, optional_action(r)) == old(self)@.request(interface_name@, fill_form),
    {
        if trim(&interface_name).is_empty() {
            self.current_settings_message = "Select an interface.".to_owned();
            self.interface_details_loading = false;
            return None;
        }
        self.request_id = self.request_id.saturating_add(1);
        self.interface_details_loading = true;
        let mut message: String = "Reading ".to_owned();
        message.append(&interface_name);
        message.append("...");
        self.current_settings_message = message;
        Some(Action::ReadSettings { interface_name, request_id: self.request_id, fill_form })
    }

    fn form(&self) -> (r: IpProfile)
        ensures
            r@ == self@.form_profile(),
    {
        IpProfile {
            name: trim(&self.preset_name_text).to_owned(),
            net_interface: trim(&self.selected_interface).to_owned(),
            ip: trim(&self.ip_text).to_owned(),
            mask: trim(&self.mask_text).to_owned(),
            gateway: trim(&self.gateway_text).to_owned(),
        }
    }

    fn problem(&self, incomplete: &str) -> (r: Option<String>)
        ensures
            r is Some <==> self@.form_problem(incomplete@) is Some,
            r matches Some(problem) ==> self@.form_problem(incomplete@) == Some(problem@),
    {
        let p = self.form();
        if p.net_interface.as_str().is_empty() {
            return Some("Interface is required.".to_owned());
        }
        if p.ip.as_str().is_empty() || p.mask.as_str().is_empty() || p.gateway.as_str().is_empty() {
            return Some(incomplete.to_owned());
        }
        if !is_ipv4(&p.ip) || !is_ipv4(&p.mask) || !is_ipv4(&p.gateway) {
            return Some("IP, mask, and gateway must be valid IPv4 values.".to_owned());
        }
        None
    }

    /// Starts to give the chosen interface the static settings in the form.
    pub fn apply_static_async(&mut self) -> (r: Option<Action>)
        ensures
            (final(self)@, optional_action(r)) == old(self)@.apply_static(),
    {
        match self.problem("For static mode, interface, ip, mask, and gateway are required.") {
            Some(problem) => {
                self.set_status(problem, StatusTone::Danger);
                return None;
            },
            None => {},
        }
        let profile = self.form();
        self.set_status("Applying static IP...".to_owned(), StatusTone::Neutral);
        let change = Change {
            interface: profile.net_interface.clone(),
            ip: Some(profile.ip.clone()),
            mask: Some(profile.mask.clone()),
            gateway: Some(profile.gateway.clone()),
        };
        Some(
            Action::Apply {
                change,
                profile_to_save: Some(profile),
                success_message: "Static IP applied and saved.".to_owned(),
            },
        )
    }

    /// Starts to have the chosen interface use DHCP.
    pub fn apply_dhcp_async(&mut self) -> (r: Action)
        ensures
            (final(self)@, r@) == old(self)@.apply_dhcp(),
    {
        let interface = if trim(&self.selected_interface).is_empty() {
            "Ethernet".to_owned()
        } else {
            trim(&self.selected_interface).to_owned()
        };
        self.set_status("Applying DHCP...".to_owned(), StatusTone::Neutral);
        Action::Apply {
            change: Change { interface, ip: None, mask: None, gateway: None },
            profile_to_save: None,
            success_message: "Automatic IP (DHCP) applied.".to_owned(),
        }
    }

    /// Adds a profile, unless it is there already.
    pub fn add_profile(&mut self, profile: IpProfile) -> (r: Option<Action>)
        ensures
            (final(self)@, optional_action(r)) == old(self)@.add(profile@),
    {
        if has_profile(&self.profiles, &profile) {
            return None;
        }
        let ghost before = self@;
        self.preset_name_text = profile.name.clone();
        if !profile.net_interface.as_str().is_empty() && !has_text(
            &self.interfaces,
            &profile.net_interface,
        ) {
            self.interfaces.push(profile.net_interface.clone());
            assert(texts(self.interfaces@) =~= before.interfaces.push(profile.net_interface@));
            self.interfaces = sort_interfaces(&self.interfaces, &self.interface_category_by_name);
        }
        self.profiles.push(profile);
        assert(profile_views(self.profiles@) =~= before.profiles.push(profile@));
        Some(Action::SaveProfiles { profiles: clone_profiles(&self.profiles) })
    }

    /// Saves the profile that is in the form.
    pub fn save_profile(&mut self) -> (r: Option<Action>)
        ensures
            (final(self)@, optional_action(r)) == old(self)@.save(),
    {
        match self.problem("To save, interface, ip, mask, and gateway are required.") {
            Some(problem) => {
                self.set_status(problem, StatusTone::Danger);
                return None;
            },
            None => {},
        }
        let profile = self.form();
        let action = self.add_profile(profile);
        self.set_status("Configuration saved.".to_owned(), StatusTone::Success);
        action
    }

    /// Removes a profile, wherever it is in the list.
    pub fn remove_profile(&mut self, profile: &IpProfile) -> (r: Action)
        ensures
            (final(self)@, r@) == old(self)@.remove(profile@),
    {
        let ghost all = profile_views(self.profiles@);
        let ghost other = |p: ProfileView| p != profile@;
        let mut kept: Vec<IpProfile> = Vec::new();
        let mut i: usize = 0;
        assert(profile_views(kept@) =~= all.take(0).filter(other)) by {
            reveal(Seq::filter);
        }
        while i < self.profiles.len()
            invariant
                i <= self.profiles@.len(),
                *self == *old(self),
                all == profile_views(self.profiles@),
                other == |p: ProfileView| p != profile@,
                profile_views(kept@) == all.take(i as int).filter(other),
            decreases self.profiles@.len() - i,
        {
            let ghost before = profile_views(kept@);
            proof {
                reveal(Seq::filter);
                assert(all.take(i + 1).drop_last() =~= all.take(i as int));
                assert(all.take(i + 1).last() == self.profiles@[i as int]@);
            }
            if !self.profiles[i].same_as(profile) {
                kept.push(self.profiles[i].clone());
                assert(profile_views(kept@) =~= before.push(self.profiles@[i as int]@));
            }
            i += 1;
        }
        assert(all.take(i as int) =~= all);
        self.profiles = kept;
        Action::SaveProfiles { profiles: clone_profiles(&self.profiles) }
    }

    fn receive_interfaces(
        &mut self,
        interfaces: Vec<String>,
        categories: NameTable<u8>,
        device_names: NameTable<String>,
    ) -> (r: Option<Action>)
        ensures
            (final(self)@, optional_action(r)) == old(self)@.interfaces_loaded(
                texts(interfaces@),
                categories@,
                table_texts(device_names@),
            ),
    {
        self.interfaces_loading = false;
        self.interface_category_by_name = categories;
        self.interface_device_name_by_name = device_names;
        let merged = add_profile_interfaces(interfaces, &self.profiles);
        let sorted = sort_interfaces(&merged, &self.interface_category_by_name);
        self.interfaces = drop_repeats(&sorted);
        assert(texts(self.interfaces@).len() == self.interfaces@.len());
        let mut action: Option<Action> = None;
        if self.selected_interface.as_str().is_empty() && self.interfaces.len() > 0 {
            assert(texts(self.interfaces@)[0] == self.interfaces@[0]@);
            let first = self.interfaces[0].clone();
            self.selected_interface = first.clone();
            action = self.request_interface_settings(first, true);
        }
        if same_text(&self.status_message, "Loading network interfaces...") {
            self.status_message = String::new();
        }
        action
    }

    fn receive_settings(
        &mut self,
        interface_name: String,
        settings: Option<InterfaceSettings>,
        request_id: u64,
        fill_form: bool,
    )
        ensures
            final(self)@ == old(self)@.settings_loaded(
                interface_name@,
                settings_view(settings),
                request_id,
                fill_form,
            ),
    {
        if request_id != self.request_id || !same_text(&self.selected_interface, &interface_name) {
            return ;
        }
        self.interface_details_loading = false;
        self.current_settings_message = describe_settings(&interface_name, &settings);
        match settings {
            Some(s) => {
                if fill_form {
                    self.ip_text = s.ip;
                    self.mask_text = s.mask;
                    self.gateway_text = s.gateway;
                }
            },
            None => {},
        }
    }

    /// Takes one message.
    pub fn process_worker_message(&mut self, message: WorkerMessage) -> (r: Vec<Action>)
        ensures
            (final(self)@, action_views(r@)) == old(self)@.receive(message@),
    {
        let mut actions: Vec<Action> = Vec::new();
        assert(action_views(actions@) =~= Seq::<ActionView>::empty());
        match message {
            WorkerMessage::InterfacesLoaded { interfaces, categories, device_names } => {
                let action = self.receive_interfaces(interfaces, categories, device_names);
                push_action(&mut actions, action);
                assert(action_views(actions@) =~= action_list(optional_action(action)));
            },
            WorkerMessage::SettingsLoaded { interface_name, settings, request_id, fill_form } => {
                self.receive_settings(interface_name, settings, request_id, fill_form);
            },
            WorkerMessage::ApplyCompleted {
                interface_name,
                result,
                profile_to_save,
                success_message,
            } => match result {
                Ok(()) => {
                    let saving = match profile_to_save {
                        Some(profile) => self.add_profile(profile),
                        None => None,
                    };
                    self.set_status(success_message, StatusTone::Success);
                    let reading = self.request_interface_settings(interface_name, true);
                    push_action(&mut actions, saving);
                    push_action(&mut actions, reading);
                    assert(action_views(actions@) =~= action_list(optional_action(saving))
                        + action_list(optional_action(reading)));
                },
                Err(error) => {
                    self.set_status(error, StatusTone::Danger);
                },
            },
        }
        actions
    }

    /// Takes messages, one after the other.
    pub fn process_worker_messages(&mut self, messages: Vec<WorkerMessage>) -> (r: Vec<Action>)
        ensures
            (final(self)@, action_views(r@)) == old(self)@.receive_all(message_views(messages@)),
    {
        let ghost given = messages@;
        let ghost all = message_views(messages@);
        let mut actions: Vec<Action> = Vec::new();
        assert(action_views(actions@) =~= Seq::<ActionView>::empty());
        assert(all.take(0).len() == 0);
        for message in it: messages
            invariant
                it.seq() == given,
                all == message_views(given),
                (self@, action_views(actions@)) == old(self)@.receive_all(all.take(it.index())),
        {
            let ghost i = it.index();
            let ghost before = action_views(actions@);
            proof {
                assert(all.take(i + 1).drop_last() =~= all.take(i));
                assert(all.take(i + 1).last() == message@);
            }
            let mut more = self.process_worker_message(message);
            let ghost added = action_views(more@);
            actions.append(&mut more);
            assert(action_views(actions@) =~= before + added);
        }
        assert(all.take(all.len() as int) =~= all);
        actions
    }

    /// The state when the program starts, with the saved profiles, and the
    /// work that it starts with.
    pub fn new(profiles: Vec<IpProfile>, elevation_missing: bool) -> (r: (Self, Vec<Action>))
        ensures
            (r.0@, action_views(r.1@)) == AppView::initial(
                profile_views(profiles@),
                elevation_missing,
            ),
    {
        let mut selected_interface: String = String::new();
        let mut preset_name_text: String = String::new();
        if profiles.len() > 0 {
            selected_interface = profiles[0].net_interface.clone();
            preset_name_text = profiles[0].name.clone();
        }
        let mut app = IpFlipRustApp {
            profiles,
            interfaces: Vec::new(),
            interface_category_by_name: NameTable::new(),
            interface_device_name_by_name: NameTable::new(),
            selected_interface,
            preset_name_text,
            ip_text: String::new(),
            mask_text: String::new(),
            gateway_text: String::new(),
            current_settings_message: "Current settings will appear here.".to_owned(),
            status_message: String::new(),
            status_tone: StatusTone::Neutral,
            request_id: 0,
            interfaces_loading: false,
            interface_details_loading: false,
        };
        proof {
            assert(app@.interfaces =~= Seq::<Seq<char>>::empty());
            assert(app@.interface_device_name_by_name =~= Map::<Seq<char>, Seq<char>>::empty());
        }
        if elevation_missing {
            app.set_status(
                "Run the app as administrator before applying network settings.".to_owned(),
                StatusTone::Danger,
            );
        }
        let mut actions: Vec<Action> = Vec::new();
        assert(action_views(actions@) =~= Seq::<ActionView>::empty());
        let loading = app.reload_interfaces_async();
        push_action(&mut actions, loading);
        if !app.selected_interface.as_str().is_empty() {
            let interface_name = app.selected_interface.clone();
            let reading = app.request_interface_settings(interface_name, true);
            push_action(&mut actions, reading);
            assert(action_views(actions@) =~= action_list(optional_action(loading)) + action_list(
                optional_action(reading),
            ));
        } else {
            assert(action_views(actions@) =~= action_list(optional_action(loading)));
        }
        (app, actions)
    }

    fn load_into_form(&mut self, profile: &IpProfile)
        ensures
            final(self)@ == old(self)@.with_form(profile@),
    {
        self.selected_interface = profile.net_interface.clone();
        self.preset_name_text = profile.name.clone();
        self.ip_text = profile.ip.clone();
        self.mask_text = profile.mask.clone();
        self.gateway_text = profile.gateway.clone();
    }

    /// Takes a click or a double click on a profile.
    pub fn profile_clicked(
        &mut self,
        profile: &IpProfile,
        clicked: bool,
        double_clicked: bool,
        name_field_active: bool,
    ) -> (r: Option<Action>)
        ensures
            (final(self)@, optional_action(r)) == old(self)@.click_profile(
                profile@,
                clicked,
                double_clicked,
                name_field_active,
            ),
    {
        if clicked && !name_field_active {
            self.load_into_form(profile);
            self.set_status("Loaded saved profile into form.".to_owned(), StatusTone::Neutral);
        }
        if double_clicked && !name_field_active {
            self.load_into_form(profile);
            self.apply_static_async()
        } else {
            None
        }
    }

    /// Deletes a profile.
    pub fn delete_profile(&mut self, profile: &IpProfile) -> (r: Action)
        ensures
            (final(self)@, r@) == old(self)@.delete(profile@),
    {
        let action = self.remove_profile(profile);
        self.set_status("Profile deleted.".to_owned(), StatusTone::Neutral);
        action
    }

    /// Gives a profile the name that was typed for it.
    pub fn rename_profile(&mut self, index: usize, typed: &str) -> (r: Option<Action>)
        ensures
            (final(self)@, optional_action(r)) == old(self)@.rename(index as int, typed@),
    {
        if index >= self.profiles.len() {
            return None;
        }
        let ghost before = self@;
        let mut profile = self.profiles[index].clone();
        assert(before.profiles[index as int] == profile@);
        let name = normalized_name(typed, &profile.net_interface);
        profile.name = name.clone();
        if same_text(&self.selected_interface, &profile.net_interface) {
            self.preset_name_text = name;
        }
        let ghost renamed = profile@;
        self.profiles.set(index, profile);
        assert(profile_views(self.profiles@) =~= before.profiles.update(index as int, renamed));
        Some(Action::SaveProfiles { profiles: clone_profiles(&self.profiles) })
    }

    /// Takes the choice of another interface.
    pub fn interface_chosen(&mut self, interface: String) -> (r: Option<Action>)
        ensures
            (final(self)@, optional_action(r)) == old(self)@.select(interface@),
    {
        self.selected_interface = interface.clone();
        self.sync_preset_name_from_selected();
        self.request_interface_settings(interface, true)
    }

    /// Puts the usual mask into the form, where there is an address but no
    /// mask.
    pub fn fill_default_mask(&mut self)
        ensures
            final(self)@ == old(self)@.with_default_mask(),
    {
        if self.mask_text.as_str().is_empty() && !trim(&self.ip_text).is_empty() {
            self.mask_text = "255.255.255.0".to_owned();
        }
    }

    /// What is shown as the chosen interface.
    pub fn selector_text(&self) -> (r: String)
        ensures
            r@ == self@.selector_text(),
    {
        if self.selected_interface.as_str().is_empty() {
            "Select interface".to_owned()
        } else {
            self.selected_interface.clone()
        }
    }

    /// An interface as it is offered.
    pub fn interface_label(&self, interface: &str) -> (r: String)
        ensures
            r@ == self@.interface_label(interface@),
    {
        let mut label: String = interface.to_owned();
        match self.interface_device_name_by_name.get(interface) {
            Some(device) => {
                if !trim(device).is_empty() {
                    label.append("\n");
                    label.append(device);
                }
            },
            None => {},
        }
        label
    }
}

} // verus!
