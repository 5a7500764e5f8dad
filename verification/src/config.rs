//! Persisted configuration: settings plus saved levels per playback device.
//!
//! Levels are kept per device because a program is usually wanted at a
//! different level on speakers than on a headset, and Windows itself keeps
//! per-application volume per device. Version 1 kept a single set of levels;
//! those wait in `Config::apps` until `adopt_legacy` moves them to the device
//! in use. Reading and writing the file happens outside this crate.

use vstd::prelude::*;
use vstd::string::StrSliceExecFns;

use crate::keyed::{lists_map, KeyedList};
use crate::text::{seq_lt, to_owned_string};

verus! {

/// Bumped only when the on-disk shape changes incompatibly.
pub const CURRENT_VERSION: u32 = 2;

/// Level a new program gets under `ApplyDefault` unless the user changes it.
pub const DEFAULT_VOLUME: u8 = 50;

/// Highest level, in percent.
pub const MAX_VOLUME: u8 = 100;

/// What happens to an application that starts playing and has no saved entry.
#[derive(Debug, Clone, Copy, PartialEq, Eq, Structural)]
pub enum UnknownAppPolicy {
    /// Leave it alone.
    LeaveAlone,
    /// Apply `Settings::default_volume`.
    ApplyDefault,
}

impl Default for UnknownAppPolicy {
    fn default() -> (r: Self)
        ensures
            r == UnknownAppPolicy::LeaveAlone,
    {
        UnknownAppPolicy::LeaveAlone
    }
}

/// The saved level of one program on one device.
#[derive(Debug, Clone, PartialEq, Eq)]
pub struct AppEntry {
    /// 0..=100.
    pub volume: u8,
    pub muted: bool,
    /// Label last seen for this executable, so the settings list stays
    /// readable even when the application is not running.
    pub label: String,
}

/// What an `AppEntry` holds.
pub struct AppView {
    pub volume: u8,
    pub muted: bool,
    pub label: Seq<char>,
}

impl View for AppEntry {
    type V = AppView;

    open spec fn view(&self) -> AppView {
        AppView { volume: self.volume, muted: self.muted, label: self.label@ }
    }
}

#[derive(Debug, Clone, PartialEq)]
pub struct Settings {
    /// Re-apply the saved level automatically when an application starts playing.
    pub auto_apply: bool,
    pub unknown_app_policy: UnknownAppPolicy,
    pub default_volume: u8,
    pub always_on_top: bool,
    pub start_with_windows: bool,
    /// Accent colour as `#rrggbb`.
    pub accent: String,
    /// Pure black background for OLED panels.
    pub oled_black: bool,
}

impl Default for Settings {
    fn default() -> (r: Self)
        ensures
            r.auto_apply,
            r.unknown_app_policy == UnknownAppPolicy::LeaveAlone,
            r.default_volume == DEFAULT_VOLUME,
            !r.always_on_top,
            !r.start_with_windows,
            r.accent@ == "#9AA3AD"@,
            r.oled_black,
    {
        Settings {
            auto_apply: true,
            unknown_app_policy: UnknownAppPolicy::LeaveAlone,
            default_volume: DEFAULT_VOLUME,
            always_on_top: false,
            start_with_windows: false,
            accent: to_owned_string("#9AA3AD"),
            oled_black: true,
        }
    }
}

/// Saved levels for one playback device.
pub struct DeviceEntry {
    /// Name the device had when last seen.
    pub label: String,
    /// Keyed by lower-cased executable name (`firefox.exe`) or `@master` / `@system`.
    pub apps: KeyedList<AppEntry>,
}

/// What a `DeviceEntry` holds.
pub struct DeviceView {
    pub label: Seq<char>,
    pub apps: Map<Seq<char>, AppView>,
}

impl View for DeviceEntry {
    type V = DeviceView;

    open spec fn view(&self) -> DeviceView {
        DeviceView { label: self.label@, apps: self.apps@ }
    }
}

impl Default for DeviceEntry {
    fn default() -> (r: Self)
        ensures
            r@.label.len() == 0,
            r@.apps == Map::<Seq<char>, AppView>::empty(),
    {
        DeviceEntry { label: String::new(), apps: KeyedList::new() }
    }
}

pub struct Config {
    pub version: u32,
    pub settings: Settings,
    /// One set of saved levels per playback device, keyed by endpoint id.
    pub devices: KeyedList<DeviceEntry>,
    /// Levels saved by version 1, waiting for `adopt_legacy`.
    pub apps: KeyedList<AppEntry>,
}

impl Default for Config {
    fn default() -> (r: Self)
        ensures
            r.version == CURRENT_VERSION,
            r.devices@ == Map::<Seq<char>, DeviceView>::empty(),
            r.apps@ == Map::<Seq<char>, AppView>::empty(),
            r.settings.auto_apply,
            r.settings.unknown_app_policy == UnknownAppPolicy::LeaveAlone,
            r.settings.default_volume == DEFAULT_VOLUME,
            !r.settings.always_on_top,
            !r.settings.start_with_windows,
            r.settings.accent@ == "#9AA3AD"@,
            r.settings.oled_black,
    {
        Config {
            version: CURRENT_VERSION,
            settings: Settings::default(),
            devices: KeyedList::new(),
            apps: KeyedList::new(),
        }
    }
}

/// The level saved for `key` on `device`, if any.
pub open spec fn saved_level(
    devices: Map<Seq<char>, DeviceView>,
    device: Seq<char>,
    key: Seq<char>,
) -> Option<AppView> {
    if devices.contains_key(device) && devices[device].apps.contains_key(key) {
        Some(devices[device].apps[key])
    } else {
        None
    }
}

/// The levels saved for `device`; none when the device has no entry.
pub open spec fn device_levels(devices: Map<Seq<char>, DeviceView>, device: Seq<char>) -> Map<
    Seq<char>,
    AppView,
> {
    if devices.contains_key(device) {
        devices[device].apps
    } else {
        Map::empty()
    }
}

/// `volume` limited to 100.
pub open spec fn clamp_volume(volume: u8) -> u8 {
    if volume > MAX_VOLUME {
        MAX_VOLUME
    } else {
        volume
    }
}

/// The devices after `Config::set`.
pub open spec fn devices_after_set(
    devices: Map<Seq<char>, DeviceView>,
    device: Seq<char>,
    device_label: Seq<char>,
    key: Seq<char>,
    volume: u8,
    muted: bool,
    label: Seq<char>,
) -> Map<Seq<char>, DeviceView> {
    devices.insert(
        device,
        DeviceView {
            label: device_label,
            apps: device_levels(devices, device).insert(
                key,
                AppView { volume: clamp_volume(volume), muted, label },
            ),
        },
    )
}

/// The devices after `Config::remove`.
pub open spec fn devices_after_remove(
    devices: Map<Seq<char>, DeviceView>,
    device: Seq<char>,
    key: Seq<char>,
) -> Map<Seq<char>, DeviceView> {
    if devices.contains_key(device) {
        let apps = devices[device].apps.remove(key);
        if apps == Map::<Seq<char>, AppView>::empty() {
            devices.remove(device)
        } else {
            devices.insert(device, DeviceView { label: devices[device].label, apps })
        }
    } else {
        devices
    }
}

/// The devices after `Config::adopt_legacy` moved `legacy` to `device`.
///
/// Levels already saved for the device win over legacy ones; the device
/// keeps its label unless it has none.
pub open spec fn devices_after_adopt(
    devices: Map<Seq<char>, DeviceView>,
    device: Seq<char>,
    device_label: Seq<char>,
    legacy: Map<Seq<char>, AppView>,
) -> Map<Seq<char>, DeviceView> {
    let label = if devices.contains_key(device) && devices[device].label.len() > 0 {
        devices[device].label
    } else {
        device_label
    };
    devices.insert(
        device,
        DeviceView { label, apps: legacy.union_prefer_right(device_levels(devices, device)) },
    )
}

/// Whether `Config::adopt_legacy` for `device` moves anything: there are
/// legacy levels, and a device to move them to.
pub open spec fn adopt_moves(legacy: Map<Seq<char>, AppView>, device: Seq<char>) -> bool {
    legacy != Map::<Seq<char>, AppView>::empty() && device.len() > 0
}

/// The legacy levels after `Config::adopt_legacy` for `device`.
pub open spec fn legacy_after_adopt(legacy: Map<Seq<char>, AppView>, device: Seq<char>) -> Map<
    Seq<char>,
    AppView,
> {
    if adopt_moves(legacy, device) {
        Map::empty()
    } else {
        legacy
    }
}

/// The devices after `Config::adopt_legacy` for `device`, whether or not
/// anything moved.
pub open spec fn devices_after_adopt_call(
    devices: Map<Seq<char>, DeviceView>,
    legacy: Map<Seq<char>, AppView>,
    device: Seq<char>,
    device_label: Seq<char>,
) -> Map<Seq<char>, DeviceView> {
    if adopt_moves(legacy, device) {
        devices_after_adopt(devices, device, device_label, legacy)
    } else {
        devices
    }
}

/// Whether `list` holds the saved levels `levels` as
/// `(key, volume, muted)`, in ascending key order.
pub open spec fn lists_levels(list: Seq<(String, u8, bool)>, levels: Map<Seq<char>, AppView>) -> bool {
    &&& forall|i: int, j: int|
        0 <= i < j < list.len() ==> seq_lt(#[trigger] list[i].0@, #[trigger] list[j].0@)
    &&& forall|i: int|
        0 <= i < list.len() ==> levels.contains_key(#[trigger] list[i].0@) && levels[list[i].0@].volume
            == list[i].1 && levels[list[i].0@].muted == list[i].2
    &&& forall|k: Seq<char>|
        levels.contains_key(k) ==> exists|i: int| 0 <= i < list.len() && #[trigger] list[i].0@ == k
}

impl Config {
    /// Saved levels for one device, if it has any.
    pub fn device(&self, device: &str) -> (r: Option<&DeviceEntry>)
        ensures
            match r {
                Some(entry) => self.devices@.contains_key(device@) && entry@ == self.devices@[device@],
                None => !self.devices@.contains_key(device@),
            },
    {
        self.devices.get(device)
    }

    /// The level saved for `key` on `device`.
    pub fn get(&self, device: &str, key: &str) -> (r: Option<&AppEntry>)
        ensures
            match r {
                Some(entry) => saved_level(self.devices@, device@, key@) == Some(entry@),
                None => saved_level(self.devices@, device@, key@) is None,
            },
    {
        match self.devices.get(device) {
            Some(entry) => entry.apps.get(key),
            None => None,
        }
    }

    /// Save a level for `key` on `device`, remembering the labels of both.
    /// Levels above 100 are stored as 100.
    pub fn set(
        &mut self,
        device: &str,
        device_label: &str,
        key: &str,
        volume: u8,
        muted: bool,
        label: &str,
    )
        ensures
            final(self).devices@ == devices_after_set(
                old(self).devices@,
                device@,
                device_label@,
                key@,
                volume,
                muted,
                label@,
            ),
            final(self).apps@ == old(self).apps@,
            final(self).version == old(self).version,
            final(self).settings == old(self).settings,
    {
        let ghost before = self.devices@;
        let mut entry = match self.devices.remove(device) {
            Some(entry) => entry,
            None => DeviceEntry::default(),
        };
        assert(entry@.apps == device_levels(before, device@));
        entry.label = to_owned_string(device_label);
        let stored = if volume > MAX_VOLUME {
            MAX_VOLUME
        } else {
            volume
        };
        entry.apps.insert(
            to_owned_string(key),
            AppEntry { volume: stored, muted, label: to_owned_string(label) },
        );
        self.devices.insert(to_owned_string(device), entry);
        assert(self.devices@ =~= devices_after_set(
            before,
            device@,
            device_label@,
            key@,
            volume,
            muted,
            label@,
        ));
    }

    /// Forget the level saved for `key` on `device`. A device left with no
    /// levels is dropped altogether.
    pub fn remove(&mut self, device: &str, key: &str)
        ensures
            final(self).devices@ == devices_after_remove(old(self).devices@, device@, key@),
            final(self).apps@ == old(self).apps@,
            final(self).version == old(self).version,
            final(self).settings == old(self).settings,
    {
        let ghost before = self.devices@;
        if let Some(mut entry) = self.devices.remove(device) {
            entry.apps.remove(key);
            if !entry.apps.is_empty() {
                self.devices.insert(to_owned_string(device), entry);
            }
            assert(self.devices@ =~= devices_after_remove(before, device@, key@));
        } else {
            assert(self.devices@ =~= before);
        }
    }

    /// Everything saved for one device as `(key, volume, muted)`, in key
    /// order, the shape `Command::ApplyAll` expects.
    pub fn apply_list(&self, device: &str) -> (r: Vec<(String, u8, bool)>)
        ensures
            lists_levels(r@, device_levels(self.devices@, device@)),
    {
        let mut list: Vec<(String, u8, bool)> = Vec::new();
        match self.devices.get(device) {
            None => {
                assert forall|k: Seq<char>|
                    device_levels(self.devices@, device@).contains_key(k) implies exists|i: int|
                    0 <= i < list@.len() && #[trigger] list@[i].0@ == k by {}
            },
            Some(entry) => {
                let apps = entry.apps.as_slice();
                let ghost levels = entry.apps@;
                let n = apps.len();
                let mut i: usize = 0;
                while i < n
                    invariant
                        n == apps@.len(),
                        i <= n,
                        lists_map(apps@, levels),
                        levels == device_levels(self.devices@, device@),
                        list@.len() == i,
                        forall|j: int|
                            0 <= j < i ==> (#[trigger] list@[j]).0@ == apps@[j].0@ && list@[j].1
                                == apps@[j].1.volume && list@[j].2 == apps@[j].1.muted,
                    decreases n - i,
                {
                    let (key, app) = &apps[i];
                    list.push((key.clone(), app.volume, app.muted));
                    i = i + 1;
                }
                assert forall|a: int, b: int| 0 <= a < b < list@.len() implies seq_lt(
                    #[trigger] list@[a].0@,
                    #[trigger] list@[b].0@,
                ) by {
                    assert(seq_lt(apps@[a].0@, apps@[b].0@));
                }
                assert forall|j: int| 0 <= j < list@.len() implies levels.contains_key(
                    #[trigger] list@[j].0@,
                ) && levels[list@[j].0@].volume == list@[j].1 && levels[list@[j].0@].muted
                    == list@[j].2 by {
                    assert(levels.contains_key(apps@[j].0@));
                }
                assert forall|k: Seq<char>| levels.contains_key(k) implies exists|j: int|
                    0 <= j < list@.len() && #[trigger] list@[j].0@ == k by {
                    let j = choose|j: int| 0 <= j < apps@.len() && #[trigger] apps@[j].0@ == k;
                    assert(list@[j].0@ == k);
                }
            },
        }
        list
    }

    /// Attach levels saved by version 1 to the device in use now.
    ///
    /// Version 1 kept one set of levels for whatever device was the default,
    /// so the default at the first start after upgrading is the best
    /// available guess. Entries already saved for that device win over
    /// legacy ones. Returns whether anything moved, so the caller knows to
    /// save.
    pub fn adopt_legacy(&mut self, device: &str, device_label: &str) -> (moved: bool)
        ensures
            moved == adopt_moves(old(self).apps@, device@),
            final(self).devices@ == devices_after_adopt_call(
                old(self).devices@,
                old(self).apps@,
                device@,
                device_label@,
            ),
            final(self).apps@ == legacy_after_adopt(old(self).apps@, device@),
            moved ==> final(self).devices@ == devices_after_adopt(
                old(self).devices@,
                device@,
                device_label@,
                old(self).apps@,
            ),
            moved ==> final(self).apps@ == Map::<Seq<char>, AppView>::empty(),
            moved ==> final(self).version == CURRENT_VERSION,
            !moved ==> final(self).devices@ == old(self).devices@ && final(self).apps@ == old(
                self,
            ).apps@ && final(self).version == old(self).version,
            final(self).settings == old(self).settings,
    {
        if self.apps.is_empty() || device.unicode_len() == 0 {
            return false;
        }
        let ghost before = self.devices@;
        let ghost legacy_view = self.apps@;
        let mut legacy_list: KeyedList<AppEntry> = KeyedList::new();
        std::mem::swap(&mut legacy_list, &mut self.apps);
        let mut entry = match self.devices.remove(device) {
            Some(entry) => entry,
            None => DeviceEntry::default(),
        };
        let ghost newer = entry.apps@;
        assert(newer == device_levels(before, device@));
        if entry.label.unicode_len() == 0 {
            entry.label = to_owned_string(device_label);
        }
        let ghost label = entry.label@;
        assert(label == devices_after_adopt(before, device@, device_label@, legacy_view)[device@].label);
        let mut legacy = legacy_list.into_vec();
        let ghost all = legacy@;
        proof {
            assert(all.skip(all.len() as int) =~= Seq::<(String, AppEntry)>::empty());
            assert(crate::keyed::seq_view(Seq::<(String, AppEntry)>::empty()) =~= Map::<
                Seq<char>,
                AppView,
            >::empty());
            assert(entry.apps@ =~= Map::<Seq<char>, AppView>::empty().union_prefer_right(newer));
        }
        while legacy.len() > 0
            invariant
                lists_map(all, legacy_view),
                legacy@ == all.take(legacy@.len() as int),
                legacy@.len() <= all.len(),
                entry.apps@ == crate::keyed::seq_view(
                    all.skip(legacy@.len() as int),
                ).union_prefer_right(newer),
                entry.label@ == label,
            decreases legacy@.len(),
        {
            let ghost len = legacy@.len() as int;
            let (key, app) = match legacy.pop() {
                Some(pair) => pair,
                None => {
                    return false;
                },
            };
            proof {
                let rest = all.skip(len);
                let e = all[len - 1];
                assert(e.0@ == key@ && e.1@ == app@);
                assert(all.skip(len - 1) =~= rest.insert(0, e));
                assert(crate::keyed::keys_ascending(rest)) by {
                    assert forall|a: int, b: int| 0 <= a < b < rest.len() implies seq_lt(
                        #[trigger] rest[a].0@,
                        #[trigger] rest[b].0@,
                    ) by {
                        assert(seq_lt(all[a + len].0@, all[b + len].0@));
                    }
                }
                assert forall|j: int| 0 <= j < rest.len() implies seq_lt(
                    e.0@,
                    #[trigger] rest[j].0@,
                ) by {
                    assert(seq_lt(all[len - 1].0@, all[j + len].0@));
                }
                crate::keyed::lemma_insert_new(rest, 0, e);
                assert(legacy@ =~= all.take(len - 1));
            }
            let present = entry.apps.contains_key(key.as_str());
            if !present {
                entry.apps.insert(key, app);
            }
            proof {
                let rest = all.skip(len);
                let e = all[len - 1];
                let before_map = crate::keyed::seq_view(rest);
                let after_map = crate::keyed::seq_view(all.skip(len - 1));
                assert(after_map == before_map.insert(e.0@, e.1@));
                assert(entry.apps@ =~= after_map.union_prefer_right(newer));
            }
        }
        proof {
            assert(all.skip(0) =~= all);
            crate::keyed::lemma_lists_map_view(all, legacy_view);
        }
        self.devices.insert(to_owned_string(device), entry);
        self.version = CURRENT_VERSION;
        proof {
            assert(self.devices@ =~= devices_after_adopt(before, device@, device_label@, legacy_view));
            assert(self.apps@ =~= Map::<Seq<char>, AppView>::empty());
        }
        true
    }
}

/// A level read back right after it was saved is the saved level, limited
/// to 100.
pub proof fn lemma_get_after_set(
    devices: Map<Seq<char>, DeviceView>,
    device: Seq<char>,
    device_label: Seq<char>,
    key: Seq<char>,
    volume: u8,
    muted: bool,
    label: Seq<char>,
)
    ensures
        saved_level(
            devices_after_set(devices, device, device_label, key, volume, muted, label),
            device,
            key,
        ) == Some(AppView { volume: clamp_volume(volume), muted, label }),
        clamp_volume(volume) <= MAX_VOLUME,
        volume <= MAX_VOLUME ==> clamp_volume(volume) == volume,
{
}

/// Saving a level for one program on one device leaves every other saved
/// level alone, on that device and on all others.
pub proof fn lemma_set_keeps_other_levels(
    devices: Map<Seq<char>, DeviceView>,
    device: Seq<char>,
    device_label: Seq<char>,
    key: Seq<char>,
    volume: u8,
    muted: bool,
    label: Seq<char>,
    other_device: Seq<char>,
    other_key: Seq<char>,
)
    requires
        other_device != device || other_key != key,
    ensures
        saved_level(
            devices_after_set(devices, device, device_label, key, volume, muted, label),
            other_device,
            other_key,
        ) == saved_level(devices, other_device, other_key),
{
}

/// After a level is removed it is no longer saved, and every other saved
/// level is unchanged.
pub proof fn lemma_remove_forgets(
    devices: Map<Seq<char>, DeviceView>,
    device: Seq<char>,
    key: Seq<char>,
    other_device: Seq<char>,
    other_key: Seq<char>,
)
    ensures
        saved_level(devices_after_remove(devices, device, key), device, key) is None,
        (other_device != device || other_key != key) ==> saved_level(
            devices_after_remove(devices, device, key),
            other_device,
            other_key,
        ) == saved_level(devices, other_device, other_key),
{
    if devices.contains_key(device) {
        let apps = devices[device].apps.remove(key);
        if apps == Map::<Seq<char>, AppView>::empty() && other_device == device {
            assert(!apps.contains_key(other_key));
        }
    }
}

/// Removing the last level saved for a device drops the device entry.
pub proof fn lemma_remove_last_drops_device(
    devices: Map<Seq<char>, DeviceView>,
    device: Seq<char>,
    key: Seq<char>,
)
    requires
        device_levels(devices, device).remove(key) == Map::<Seq<char>, AppView>::empty(),
    ensures
        !devices_after_remove(devices, device, key).contains_key(device),
{
}

/// Legacy levels never overwrite levels already saved for the device; a
/// program saved only by version 1 gets its legacy level; other devices are
/// not touched.
pub proof fn lemma_adopt_prefers_newer(
    devices: Map<Seq<char>, DeviceView>,
    device: Seq<char>,
    device_label: Seq<char>,
    legacy: Map<Seq<char>, AppView>,
    key: Seq<char>,
    other_device: Seq<char>,
)
    requires
        other_device != device,
    ensures
        saved_level(devices, device, key) is Some ==> saved_level(
            devices_after_adopt(devices, device, device_label, legacy),
            device,
            key,
        ) == saved_level(devices, device, key),
        saved_level(devices, device, key) is None && legacy.contains_key(key) ==> saved_level(
            devices_after_adopt(devices, device, device_label, legacy),
            device,
            key,
        ) == Some(legacy[key]),
        saved_level(devices, device, key) is None && !legacy.contains_key(key) ==> saved_level(
            devices_after_adopt(devices, device, device_label, legacy),
            device,
            key,
        ) is None,
        saved_level(
            devices_after_adopt(devices, device, device_label, legacy),
            other_device,
            key,
        ) == saved_level(devices, other_device, key),
{
}

/// Legacy levels move once: after an `adopt_legacy` that moved them, a
/// second `adopt_legacy`, for any device, moves nothing and changes neither
/// the saved levels nor the legacy ones.
pub proof fn lemma_adopt_moves_once(
    devices: Map<Seq<char>, DeviceView>,
    legacy: Map<Seq<char>, AppView>,
    device: Seq<char>,
    device_label: Seq<char>,
    second_device: Seq<char>,
    second_label: Seq<char>,
)
    requires
        adopt_moves(legacy, device),
    ensures
        ({
            let devices_after = devices_after_adopt_call(devices, legacy, device, device_label);
            let legacy_after = legacy_after_adopt(legacy, device);
            &&& !adopt_moves(legacy_after, second_device)
            &&& devices_after_adopt_call(devices_after, legacy_after, second_device, second_label)
                == devices_after
            &&& legacy_after_adopt(legacy_after, second_device) == legacy_after
        }),
{
}

/// `text` without a leading byte order mark.
///
/// Notepad and PowerShell's `Out-File -Encoding utf8` both prepend one,
/// and the JSON reader rejects it, so it is dropped before parsing.
pub fn without_byte_order_mark(text: &str) -> (r: &str)
    ensures
        r@ == (if text@.len() > 0 && text@[0] == '\u{feff}' {
            text@.drop_first()
        } else {
            text@
        }),
{
    let n = text.unicode_len();
    if n > 0 && text.get_char(0) == '\u{feff}' {
        let r = text.substring_char(1, n);
        assert(r@ =~= text@.drop_first());
        r
    } else {
        let r = text.substring_char(0, n);
        assert(r@ =~= text@);
        r
    }
}

} // verus!
