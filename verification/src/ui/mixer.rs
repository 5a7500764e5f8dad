//! The decisions of the mixer window: what a tray click does to the
//! window, what happens when a program starts playing, how levels are saved
//! and applied, and how changes reported by the audio thread land in the
//! rows. Drawing, timers and the configuration file live outside this crate.

use vstd::prelude::*;

use crate::audio::{Command, SessionKind, SessionSnapshot};
use crate::config::{
    adopt_moves, clamp_volume, devices_after_adopt, devices_after_adopt_call, devices_after_set,
    legacy_after_adopt, CURRENT_VERSION, device_levels, lemma_get_after_set,
    lemma_set_keeps_other_levels, lists_levels, saved_level, AppView, Config, DeviceView,
    UnknownAppPolicy,
};
use crate::text::{decimal_spec, push_char, push_decimal, to_owned_string};
use crate::tray::TrayMessage;
use crate::ui::Panel;
use vstd::string::StringExecFns;

verus! {

/// What the window does in answer to a tray message.
#[derive(Debug, Clone, Copy, PartialEq, Eq, Structural)]
pub enum WindowAction {
    Hide,
    /// Show the window with this panel.
    Show(Panel),
    /// Save the configuration and close for real.
    Quit,
}

/// What the window does in answer to a tray message. Closing the window
/// any other way only hides it; quitting is limited to the tray menu.
pub open spec fn on_tray_message_spec(visible: bool, message: TrayMessage) -> WindowAction {
    match message {
        TrayMessage::Toggle => if visible {
            WindowAction::Hide
        } else {
            WindowAction::Show(Panel::Mixer)
        },
        TrayMessage::Show => WindowAction::Show(Panel::Mixer),
        TrayMessage::ShowSettings => WindowAction::Show(Panel::Settings),
        TrayMessage::Quit => WindowAction::Quit,
    }
}

/// What the window does in answer to a tray message.
pub fn on_tray_message(visible: bool, message: TrayMessage) -> (r: WindowAction)
    ensures
        r == on_tray_message_spec(visible, message),
{
    match message {
        TrayMessage::Toggle => {
            if visible {
                WindowAction::Hide
            } else {
                WindowAction::Show(Panel::Mixer)
            }
        },
        TrayMessage::Show => WindowAction::Show(Panel::Mixer),
        TrayMessage::ShowSettings => WindowAction::Show(Panel::Settings),
        TrayMessage::Quit => WindowAction::Quit,
    }
}

/// Only a left click on the icon hides the window, and only while it is
/// visible; "Open" and a second start always show the mixer, "Settings"
/// always shows the settings, "Quit" always quits, whatever the window's
/// state; a left click on a hidden window shows the mixer.
pub proof fn lemma_tray_messages(visible: bool, message: TrayMessage)
    ensures
        on_tray_message_spec(visible, message) == WindowAction::Hide <==> (message
            == TrayMessage::Toggle && visible),
        message == TrayMessage::Show ==> on_tray_message_spec(visible, message)
            == WindowAction::Show(Panel::Mixer),
        message == TrayMessage::ShowSettings ==> on_tray_message_spec(visible, message)
            == WindowAction::Show(Panel::Settings),
        message == TrayMessage::Toggle && !visible ==> on_tray_message_spec(visible, message)
            == WindowAction::Show(Panel::Mixer),
        on_tray_message_spec(visible, message) == WindowAction::Quit <==> message
            == TrayMessage::Quit,
{
}

/// The status line after a level was applied: `label: 42 %`.
pub open spec fn level_status_spec(label: Seq<char>, volume: u8) -> Seq<char> {
    label + seq![':', ' '] + decimal_spec(volume as nat) + seq![' ', '%']
}

fn level_status(label: &str, volume: u8) -> (r: String)
    ensures
        r@ == level_status_spec(label@, volume),
{
    let mut text = to_owned_string(label);
    push_char(&mut text, ':');
    push_char(&mut text, ' ');
    push_decimal(&mut text, volume as u32);
    push_char(&mut text, ' ');
    push_char(&mut text, '%');
    assert(text@ =~= level_status_spec(label@, volume));
    text
}

/// Whether `c` sets `key` to `volume`.
pub open spec fn sets_volume(c: Command, key: Seq<char>, volume: u8) -> bool {
    c matches Command::SetVolume { key: k, volume: v } && k@ == key && v == volume
}

/// Whether `c` sets the mute state of `key` to `muted`.
pub open spec fn sets_mute(c: Command, key: Seq<char>, muted: bool) -> bool {
    c matches Command::SetMute { key: k, muted: m } && k@ == key && m == muted
}

/// A program started playing on `device`: with automatic application on,
/// it gets the level saved for it on that device, volume and mute state;
/// a program with nothing saved gets the default level when the policy for
/// unknown programs says so, and is left alone otherwise. Returns the
/// commands for the audio thread and the status line to show.
pub fn on_session_added(config: &Config, device: &str, key: &str, label: &str) -> (r: (
    Vec<Command>,
    Option<String>,
))
    ensures
        !config.settings.auto_apply ==> r.0@.len() == 0 && r.1 is None,
        config.settings.auto_apply ==> match saved_level(config.devices@, device@, key@) {
            Some(entry) => {
                &&& r.0@.len() == 2
                &&& sets_volume(r.0@[0], key@, entry.volume)
                &&& sets_mute(r.0@[1], key@, entry.muted)
                &&& r.1 matches Some(status) && status@ == level_status_spec(label@, entry.volume)
            },
            None => if config.settings.unknown_app_policy == UnknownAppPolicy::ApplyDefault {
                &&& r.0@.len() == 1
                &&& sets_volume(r.0@[0], key@, config.settings.default_volume)
                &&& r.1 matches Some(status) && status@ == level_status_spec(
                    label@,
                    config.settings.default_volume,
                )
            } else {
                r.0@.len() == 0 && r.1 is None
            },
        },
{
    let mut commands: Vec<Command> = Vec::new();
    if !config.settings.auto_apply {
        return (commands, None);
    }
    match config.get(device, key) {
        Some(entry) => {
            commands.push(Command::SetVolume { key: to_owned_string(key), volume: entry.volume });
            commands.push(Command::SetMute { key: to_owned_string(key), muted: entry.muted });
            let status = level_status(label, entry.volume);
            (commands, Some(status))
        },
        None => {
            if config.settings.unknown_app_policy == UnknownAppPolicy::ApplyDefault {
                let volume = config.settings.default_volume;
                commands.push(Command::SetVolume { key: to_owned_string(key), volume });
                (commands, Some(level_status(label, volume)))
            } else {
                (commands, None)
            }
        },
    }
}

/// The devices after saving the level of every session in `sessions`, in
/// order, for `device`.
pub open spec fn devices_after_saving(
    devices: Map<Seq<char>, DeviceView>,
    device: Seq<char>,
    device_label: Seq<char>,
    sessions: Seq<SessionSnapshot>,
) -> Map<Seq<char>, DeviceView>
    decreases sessions.len(),
{
    if sessions.len() == 0 {
        devices
    } else {
        let last = sessions.last();
        devices_after_set(
            devices_after_saving(devices, device, device_label, sessions.drop_last()),
            device,
            device_label,
            last.key@,
            last.volume,
            last.muted,
            last.label@,
        )
    }
}

/// Store the current level of every row for `device`. Returns how many
/// levels the device has saved afterwards.
pub fn save_levels(
    config: &mut Config,
    device: &str,
    device_label: &str,
    sessions: &[SessionSnapshot],
) -> (count: usize)
    ensures
        final(config).devices@ == devices_after_saving(
            old(config).devices@,
            device@,
            device_label@,
            sessions@,
        ),
        count == device_levels(final(config).devices@, device@).dom().len(),
        final(config).apps@ == old(config).apps@,
        final(config).version == old(config).version,
        final(config).settings == old(config).settings,
{
    let n = sessions.len();
    let mut i: usize = 0;
    proof {
        assert(sessions@.take(0) =~= Seq::<SessionSnapshot>::empty());
    }
    while i < n
        invariant
            n == sessions@.len(),
            i <= n,
            config.devices@ == devices_after_saving(
                old(config).devices@,
                device@,
                device_label@,
                sessions@.take(i as int),
            ),
            config.apps@ == old(config).apps@,
            config.version == old(config).version,
            config.settings == old(config).settings,
        decreases n - i,
    {
        let session = &sessions[i];
        config.set(
            device,
            device_label,
            session.key.as_str(),
            session.volume,
            session.muted,
            session.label.as_str(),
        );
        proof {
            let next = sessions@.take(i + 1);
            assert(next.drop_last() =~= sessions@.take(i as int));
            assert(next.last() == sessions@[i as int]);
        }
        i = i + 1;
    }
    proof {
        assert(sessions@.take(n as int) =~= sessions@);
    }
    match config.device(device) {
        Some(entry) => entry.apps.len(),
        None => 0,
    }
}

/// After saving the rows, every row's level is saved for the device: the
/// last row wins where two rows share a key.
pub proof fn lemma_saved_rows(
    devices: Map<Seq<char>, DeviceView>,
    device: Seq<char>,
    device_label: Seq<char>,
    sessions: Seq<SessionSnapshot>,
    i: int,
)
    requires
        0 <= i < sessions.len(),
        forall|j: int| i < j < sessions.len() ==> (#[trigger] sessions[j]).key@ != sessions[i].key@,
    ensures
        saved_level(
            devices_after_saving(devices, device, device_label, sessions),
            device,
            sessions[i].key@,
        ) == Some(
            AppView {
                volume: clamp_volume(sessions[i].volume),
                muted: sessions[i].muted,
                label: sessions[i].label@,
            },
        ),
    decreases sessions.len(),
{
    let rest = sessions.drop_last();
    let last = sessions.last();
    let before = devices_after_saving(devices, device, device_label, rest);
    if i == sessions.len() - 1 {
        lemma_get_after_set(
            before,
            device,
            device_label,
            last.key@,
            last.volume,
            last.muted,
            last.label@,
        );
    } else {
        assert(sessions[sessions.len() - 1].key@ != sessions[i].key@);
        lemma_set_keeps_other_levels(
            before,
            device,
            device_label,
            last.key@,
            last.volume,
            last.muted,
            last.label@,
            device,
            sessions[i].key@,
        );
        assert forall|j: int| i < j < rest.len() implies (#[trigger] rest[j]).key@ != rest[i].key@ by {
            assert(rest[j] == sessions[j]);
        }
        lemma_saved_rows(devices, device, device_label, rest, i);
    }
}

/// Push the levels saved for `device` back onto whatever is playing: the
/// command for the audio thread and how many levels it carries.
pub fn sync_command(config: &Config, device: &str) -> (r: (Command, usize))
    ensures
        r.0 matches Command::ApplyAll(list) && lists_levels(
            list@,
            device_levels(config.devices@, device@),
        ) && r.1 == list@.len(),
{
    let list = config.apply_list(device);
    let count = list.len();
    (Command::ApplyAll(list), count)
}

/// The default playback device changed to `id`. Levels saved by version 1
/// move to it if they have not moved yet, and the levels saved for it are
/// applied: each device keeps its own set, and switching applies that
/// device's set. Returns whether the configuration changed and needs saving,
/// and the command for the audio thread.
pub fn on_device_changed(config: &mut Config, id: &str, name: &str) -> (r: (bool, Command))
    ensures
        r.0 == adopt_moves(old(config).apps@, id@),
        final(config).devices@ == devices_after_adopt_call(
            old(config).devices@,
            old(config).apps@,
            id@,
            name@,
        ),
        final(config).apps@ == legacy_after_adopt(old(config).apps@, id@),
        r.0 ==> final(config).version == CURRENT_VERSION,
        !r.0 ==> final(config).version == old(config).version,
        r.1 matches Command::ApplyAll(list) && lists_levels(
            list@,
            device_levels(final(config).devices@, id@),
        ),
        final(config).settings == old(config).settings,
{
    let moved = config.adopt_legacy(id, name);
    let (command, _) = sync_command(config, id);
    (moved, command)
}

/// Index of the first row with `key`, or the number of rows when none has it.
pub open spec fn first_with_key(sessions: Seq<SessionSnapshot>, key: Seq<char>) -> int
    decreases sessions.len(),
{
    if sessions.len() == 0 {
        0
    } else if sessions[0].key@ == key {
        0
    } else {
        1 + first_with_key(sessions.drop_first(), key)
    }
}

proof fn lemma_first_with_key(sessions: Seq<SessionSnapshot>, key: Seq<char>)
    ensures
        0 <= first_with_key(sessions, key) <= sessions.len(),
        first_with_key(sessions, key) < sessions.len() ==> sessions[first_with_key(
            sessions,
            key,
        )].key@ == key,
        forall|j: int|
            0 <= j < first_with_key(sessions, key) ==> (#[trigger] sessions[j]).key@ != key,
    decreases sessions.len(),
{
    if sessions.len() > 0 && sessions[0].key@ != key {
        lemma_first_with_key(sessions.drop_first(), key);
        assert forall|j: int| 0 <= j < first_with_key(sessions, key) implies (
        #[trigger] sessions[j]).key@ != key by {
            if j > 0 {
                assert(sessions[j] == sessions.drop_first()[j - 1]);
            }
        }
    }
}

/// A level changed outside this program: the first row with `key` takes the
/// new volume and mute state; nothing else changes.
pub fn apply_change(sessions: &mut Vec<SessionSnapshot>, key: &str, volume: u8, muted: bool)
    ensures
        ({
            let i = first_with_key(old(sessions)@, key@);
            if i < old(sessions)@.len() {
                final(sessions)@ == old(sessions)@.update(
                    i,
                    SessionSnapshot { volume, muted, ..old(sessions)@[i] },
                )
            } else {
                final(sessions)@ == old(sessions)@
            }
        }),
{
    proof {
        lemma_first_with_key(sessions@, key@);
    }
    let n = sessions.len();
    let mut i: usize = 0;
    while i < n
        invariant
            n == sessions@.len(),
            i <= n,
            sessions@ == old(sessions)@,
            forall|j: int| 0 <= j < i ==> (#[trigger] sessions@[j]).key@ != key@,
        decreases n - i,
    {
        if crate::text::compare_keys(sessions[i].key.as_str(), key) == crate::text::KeyOrder::Equal {
            proof {
                lemma_first_with_key(sessions@, key@);
                if first_with_key(sessions@, key@) < i {
                    let f = first_with_key(sessions@, key@);
                    assert(sessions@[f].key@ != key@);
                }
                if first_with_key(sessions@, key@) > i {
                    assert(sessions@[i as int].key@ != key@);
                }
            }
            let mut row = sessions.remove(i);
            row.volume = volume;
            row.muted = muted;
            sessions.insert(i, row);
            assert(sessions@ =~= old(sessions)@.update(
                i as int,
                SessionSnapshot { volume, muted, ..old(sessions)@[i as int] },
            ));
            return;
        }
        i = i + 1;
    }
    proof {
        lemma_first_with_key(sessions@, key@);
        if first_with_key(sessions@, key@) < n {
            let f = first_with_key(sessions@, key@);
            assert(sessions@[f].key@ != key@);
        }
    }
}

/// The label of the master row, which names the current device.
pub fn master_label(sessions: &[SessionSnapshot]) -> (r: Option<&String>)
    ensures
        match r {
            Some(label) => exists|i: int|
                0 <= i < sessions@.len() && sessions@[i].kind == SessionKind::Master
                    && sessions@[i].label == *label && forall|j: int|
                    0 <= j < i ==> (#[trigger] sessions@[j]).kind != SessionKind::Master,
            None => forall|i: int|
                0 <= i < sessions@.len() ==> (#[trigger] sessions@[i]).kind != SessionKind::Master,
        },
{
    let n = sessions.len();
    let mut i: usize = 0;
    while i < n
        invariant
            n == sessions@.len(),
            i <= n,
            forall|j: int| 0 <= j < i ==> (#[trigger] sessions@[j]).kind != SessionKind::Master,
        decreases n - i,
    {
        if sessions[i].kind == SessionKind::Master {
            return Some(&sessions[i].label);
        }
        i = i + 1;
    }
    None
}

} // verus!
