//! Audio sessions and devices as the rest of the program sees them.
//!
//! All COM/WASAPI work happens on one dedicated thread outside this crate.
//! The interface never touches COM: it sends `Command`s and receives
//! `Event`s. What is decided about sessions and devices — their keys, their
//! labels, which ones are listed and in what order — is decided here.

pub mod process;

use vstd::prelude::*;
use vstd::string::StrSliceExecFns;

use crate::text::{
    lemma_seq_lt_asymmetric, lemma_seq_lt_total, lemma_seq_lt_transitive, lowercase_of, seq_lt,
    to_lowercase, to_owned_string, trim_spec,
};
use process::{friendly_label, friendly_label_spec, usable_display_name, usable_display_name_spec};

verus! {

/// Identity of the master (endpoint) volume in configuration and commands.
pub const MASTER_KEY: &'static str = "@master";

/// Identity of the Windows system sounds session.
pub const SYSTEM_KEY: &'static str = "@system";

/// Label of the system sounds session.
pub const SYSTEM_LABEL: &'static str = "System sounds";

/// Label of the master volume.
pub const MASTER_LABEL: &'static str = "Master";

#[derive(Debug, Clone, Copy, PartialEq, Eq, Structural)]
pub enum SessionKind {
    Master,
    System,
    App,
}

/// Sort rank: master first, system sounds second, applications after.
pub open spec fn rank_spec(kind: SessionKind) -> u8 {
    match kind {
        SessionKind::Master => 0,
        SessionKind::System => 1,
        SessionKind::App => 2,
    }
}

impl SessionKind {
    /// Sort rank: master first, system sounds second, applications after.
    pub fn rank(self) -> (r: u8)
        ensures
            r == rank_spec(self),
    {
        match self {
            SessionKind::Master => 0,
            SessionKind::System => 1,
            SessionKind::App => 2,
        }
    }
}

/// An immutable view of one audio session, safe to send to the UI thread.
#[derive(Debug, Clone)]
pub struct SessionSnapshot {
    /// Stable identity used as the configuration key (`firefox.exe`, `@master`, ...).
    pub key: String,
    /// What the user sees.
    pub label: String,
    pub pid: u32,
    /// 0..=100.
    pub volume: u8,
    pub muted: bool,
    pub kind: SessionKind,
    /// Full path of the backing executable, used to load the application icon.
    pub executable: Option<String>,
}

/// An active playback device.
#[derive(Debug, Clone, PartialEq, Eq)]
pub struct DeviceInfo {
    /// Endpoint id. Stable across restarts for the same hardware, which is
    /// what makes it usable as the key for per-device saved volumes.
    pub id: String,
    pub name: String,
}

/// Sent from the UI to the audio thread.
#[derive(Debug, Clone)]
pub enum Command {
    SetVolume { key: String, volume: u8 },
    SetMute { key: String, muted: bool },
    /// Apply saved levels to everything currently playing ("sync").
    ApplyAll(Vec<(String, u8, bool)>),
    /// Re-enumerate sessions from scratch.
    Refresh,
    /// Make this endpoint the Windows default playback device.
    SetDefaultDevice(String),
    Shutdown,
}

/// Sent from the audio thread to the UI.
#[derive(Debug, Clone)]
pub enum Event {
    /// Full snapshot; sent whenever the set of sessions changes.
    Sessions(Vec<SessionSnapshot>),
    /// A single session changed, usually because something outside this app moved it.
    Changed { key: String, volume: u8, muted: bool },
    /// The default playback device changed.
    DeviceChanged { id: String, name: String },
    /// The playback devices that can be switched to, and which one is current.
    Devices { list: Vec<DeviceInfo>, current: String },
    /// A session that was not present before appeared.
    SessionAdded { key: String, label: String },
    /// The audio thread could not start; the UI shows this instead of silently failing.
    Fatal(String),
}

/// Something listed in an order: by rank first, then by its text compared
/// without regard to case.
pub trait Listed {
    spec fn list_rank(&self) -> u8;

    spec fn list_text(&self) -> Seq<char>;

    fn rank_of(&self) -> (r: u8)
        ensures
            r == self.list_rank(),
    ;

    fn text_of(&self) -> (r: &str)
        ensures
            r@ == self.list_text(),
    ;
}

impl Listed for SessionSnapshot {
    open spec fn list_rank(&self) -> u8 {
        rank_spec(self.kind)
    }

    open spec fn list_text(&self) -> Seq<char> {
        self.label@
    }

    fn rank_of(&self) -> (r: u8) {
        self.kind.rank()
    }

    fn text_of(&self) -> (r: &str) {
        self.label.as_str()
    }
}

impl Listed for DeviceInfo {
    open spec fn list_rank(&self) -> u8 {
        0
    }

    open spec fn list_text(&self) -> Seq<char> {
        self.name@
    }

    fn rank_of(&self) -> (r: u8) {
        0
    }

    fn text_of(&self) -> (r: &str) {
        self.name.as_str()
    }
}

/// Whether `a` is listed strictly before `b`.
pub open spec fn listed_before<T: Listed>(a: T, b: T) -> bool {
    ||| a.list_rank() < b.list_rank()
    ||| a.list_rank() == b.list_rank() && seq_lt(
        lowercase_of(a.list_text()),
        lowercase_of(b.list_text()),
    )
}

/// Whether no item of `s` is listed before one that comes earlier.
pub open spec fn listed_in_order<T: Listed>(s: Seq<T>) -> bool {
    forall|i: int, j: int| 0 <= i < j < s.len() ==> !listed_before(#[trigger] s[j], #[trigger] s[i])
}

proof fn lemma_listed_before_asymmetric<T: Listed>(a: T, b: T)
    ensures
        !(listed_before(a, b) && listed_before(b, a)),
{
    lemma_seq_lt_asymmetric(lowercase_of(a.list_text()), lowercase_of(b.list_text()));
}

proof fn lemma_not_before_transitive<T: Listed>(a: T, b: T, c: T)
    requires
        !listed_before(b, a),
        !listed_before(c, b),
    ensures
        !listed_before(c, a),
{
    let la = lowercase_of(a.list_text());
    let lb = lowercase_of(b.list_text());
    let lc = lowercase_of(c.list_text());
    lemma_seq_lt_total(la, lb);
    lemma_seq_lt_total(lb, lc);
    lemma_seq_lt_asymmetric(la, lc);
    if a.list_rank() == b.list_rank() && b.list_rank() == c.list_rank() {
        if seq_lt(la, lb) && seq_lt(lb, lc) {
            lemma_seq_lt_transitive(la, lb, lc);
        }
    }
}

fn before_exec<T: Listed>(a: &T, a_text: &str, b: &T, b_text: &str) -> (r: bool)
    requires
        a_text@ == lowercase_of(a.list_text()),
        b_text@ == lowercase_of(b.list_text()),
    ensures
        r == listed_before(*a, *b),
{
    let ra = a.rank_of();
    let rb = b.rank_of();
    if ra < rb {
        true
    } else if ra > rb {
        false
    } else {
        match crate::text::compare_keys(a_text, b_text) {
            crate::text::KeyOrder::Less => true,
            _ => false,
        }
    }
}

/// Whether `r` is `list` reordered by `order` — a permutation of the
/// positions of `list` — in listing order, with items that tie kept in the
/// order they had in `list`.
pub open spec fn stably_listed<T: Listed>(list: Seq<T>, r: Seq<T>, order: Seq<int>) -> bool {
    &&& order.len() == list.len()
    &&& r.len() == list.len()
    &&& forall|i: int| 0 <= i < order.len() ==> 0 <= #[trigger] order[i] < list.len()
    &&& forall|i: int| 0 <= i < order.len() ==> #[trigger] r[i] == list[order[i]]
    &&& forall|i: int, j: int| 0 <= i < j < order.len() ==> #[trigger] order[i] != #[trigger] order[j]
    &&& forall|i: int, j: int|
        0 <= i < j < r.len() ==> !listed_before(#[trigger] r[j], #[trigger] r[i]) && (
        !listed_before(r[i], r[j]) ==> order[i] < order[j])
}

/// `list` in listing order: by rank, then by text ignoring case. Items that
/// tie keep the order they had, as a stable sort leaves them.
pub fn sort_listed<T: Listed>(list: Vec<T>) -> (r: Vec<T>)
    ensures
        listed_in_order(r@),
        exists|order: Seq<int>| stably_listed(list@, r@, order),
{
    let ghost given = list@;
    let ghost mut order: Seq<int> = Seq::empty();
    let mut input = list;
    let mut out: Vec<T> = Vec::new();
    let mut texts: Vec<String> = Vec::new();
    let mut m: usize = 0;
    proof {
        assert(given.skip(0) =~= given);
    }
    while input.len() > 0
        invariant
            input@ == given.skip(m as int),
            m <= given.len(),
            out@.len() == m,
            order.len() == m,
            forall|i: int| 0 <= i < m ==> 0 <= #[trigger] order[i] < m,
            forall|i: int| 0 <= i < m ==> #[trigger] out@[i] == given[order[i]],
            forall|i: int, j: int| 0 <= i < j < m ==> #[trigger] order[i] != #[trigger] order[j],
            forall|i: int, j: int|
                0 <= i < j < m ==> !listed_before(#[trigger] out@[j], #[trigger] out@[i]) && (
                !listed_before(out@[i], out@[j]) ==> order[i] < order[j]),
            texts@.len() == out@.len(),
            forall|i: int|
                0 <= i < out@.len() ==> (#[trigger] texts@[i])@ == lowercase_of(out@[i].list_text()),
        decreases input@.len(),
    {
        let item = input.remove(0);
        proof {
            assert(item == given[m as int]);
            assert(input@ =~= given.skip(m + 1));
        }
        let text = to_lowercase(item.text_of());
        let mut p: usize = out.len();
        while p > 0 && before_exec(&item, text.as_str(), &out[p - 1], texts[p - 1].as_str())
            invariant
                p <= out@.len(),
                texts@.len() == out@.len(),
                forall|i: int|
                    0 <= i < out@.len() ==> (#[trigger] texts@[i])@ == lowercase_of(
                        out@[i].list_text(),
                    ),
                text@ == lowercase_of(item.list_text()),
                forall|j: int| p <= j < out@.len() ==> listed_before(item, #[trigger] out@[j]),
            decreases p,
        {
            p = p - 1;
        }
        let ghost old_out = out@;
        let ghost old_order = order;
        let ghost old_texts = texts@;
        out.insert(p, item);
        texts.insert(p, text);
        proof {
            order = old_order.insert(p as int, m as int);
            let s = out@;
            assert(s =~= old_out.insert(p as int, item));
            assert forall|i: int| 0 <= i < m + 1 implies 0 <= #[trigger] order[i] < m + 1 by {
                if i < p {
                    assert(order[i] == old_order[i]);
                } else if i > p {
                    assert(order[i] == old_order[i - 1]);
                }
            }
            assert forall|i: int| 0 <= i < m + 1 implies #[trigger] s[i] == given[order[i]] by {
                if i < p {
                    assert(order[i] == old_order[i] && s[i] == old_out[i]);
                } else if i > p {
                    assert(order[i] == old_order[i - 1] && s[i] == old_out[i - 1]);
                }
            }
            assert forall|a: int, b: int| 0 <= a < b < m + 1 implies #[trigger] order[a]
                != #[trigger] order[b] by {
                let a2 = if a < p { a } else { a - 1 };
                let b2 = if b < p { b } else { b - 1 };
                if a != p && b != p {
                    assert(order[a] == old_order[a2] && order[b] == old_order[b2]);
                } else if a == p {
                    assert(order[b] == old_order[b - 1]);
                } else {
                    assert(order[a] == old_order[a]);
                }
            }
            assert forall|a: int, b: int| 0 <= a < b < m + 1 implies !listed_before(
                #[trigger] s[b],
                #[trigger] s[a],
            ) && (!listed_before(s[a], s[b]) ==> order[a] < order[b]) by {
                if b < p {
                    assert(s[a] == old_out[a] && s[b] == old_out[b]);
                    assert(order[a] == old_order[a] && order[b] == old_order[b]);
                } else if b == p {
                    assert(s[a] == old_out[a] && order[a] == old_order[a]);
                    assert(!listed_before(item, old_out[p - 1]));
                    if a < p - 1 {
                        assert(!listed_before(old_out[p - 1], old_out[a]));
                        lemma_not_before_transitive(old_out[a], old_out[p - 1], item);
                    }
                } else if a == p {
                    assert(s[b] == old_out[b - 1]);
                    assert(listed_before(item, old_out[b - 1]));
                    lemma_listed_before_asymmetric(item, old_out[b - 1]);
                } else if a < p {
                    assert(s[a] == old_out[a] && s[b] == old_out[b - 1]);
                    assert(order[a] == old_order[a] && order[b] == old_order[b - 1]);
                    assert(a < b - 1);
                } else {
                    assert(s[a] == old_out[a - 1] && s[b] == old_out[b - 1]);
                    assert(order[a] == old_order[a - 1] && order[b] == old_order[b - 1]);
                }
            }
            assert forall|i: int| 0 <= i < out@.len() implies (#[trigger] texts@[i])@ == lowercase_of(
                out@[i].list_text(),
            ) by {
                if i < p {
                    assert(texts@[i] == old_texts[i] && out@[i] == old_out[i]);
                } else if i > p {
                    assert(texts@[i] == old_texts[i - 1] && out@[i] == old_out[i - 1]);
                }
            }
        }
        m = out.len();
    }
    proof {
        assert(stably_listed(given, out@, order));
    }
    out
}

/// Sessions in listing order are shown master first, then system sounds,
/// then programs, and sessions of one kind by the label the user sees,
/// compared in lower case.
pub proof fn lemma_sessions_listed_by_kind_then_label(r: Seq<SessionSnapshot>)
    requires
        listed_in_order(r),
    ensures
        forall|i: int, j: int|
            0 <= i < j < r.len() && (#[trigger] r[j]).kind == SessionKind::Master ==> (
            #[trigger] r[i]).kind == SessionKind::Master,
        forall|i: int, j: int|
            0 <= i < j < r.len() && (#[trigger] r[j]).kind == SessionKind::System ==> (
            #[trigger] r[i]).kind != SessionKind::App,
        forall|i: int, j: int|
            0 <= i < j < r.len() && (#[trigger] r[i]).kind == (#[trigger] r[j]).kind ==> !seq_lt(
                lowercase_of(r[j].label@),
                lowercase_of(r[i].label@),
            ),
{
    assert forall|i: int, j: int|
        0 <= i < j < r.len() && (#[trigger] r[j]).kind == SessionKind::Master implies (
        #[trigger] r[i]).kind == SessionKind::Master by {
        assert(!listed_before(r[j], r[i]));
    }
    assert forall|i: int, j: int|
        0 <= i < j < r.len() && (#[trigger] r[j]).kind == SessionKind::System implies (
        #[trigger] r[i]).kind != SessionKind::App by {
        assert(!listed_before(r[j], r[i]));
    }
    assert forall|i: int, j: int|
        0 <= i < j < r.len() && (#[trigger] r[i]).kind == (#[trigger] r[j]).kind implies !seq_lt(
            lowercase_of(r[j].label@),
            lowercase_of(r[i].label@),
        ) by {
        assert(!listed_before(r[j], r[i]));
    }
}

/// Playback devices in listing order are shown by name, compared in lower
/// case.
pub proof fn lemma_devices_listed_by_name(r: Seq<DeviceInfo>)
    requires
        listed_in_order(r),
    ensures
        forall|i: int, j: int|
            0 <= i < j < r.len() ==> !seq_lt(
                lowercase_of((#[trigger] r[j]).name@),
                lowercase_of((#[trigger] r[i]).name@),
            ),
{
    assert forall|i: int, j: int| 0 <= i < j < r.len() implies !seq_lt(
        lowercase_of((#[trigger] r[j]).name@),
        lowercase_of((#[trigger] r[i]).name@),
    ) by {
        assert(!listed_before(r[j], r[i]));
    }
}

/// The configuration key of a session: `@system` for the system sounds,
/// the executable name otherwise. A session whose executable cannot be
/// named gets no key and is not listed.
pub fn session_key(is_system: bool, executable_name: Option<String>) -> (r: Option<String>)
    ensures
        is_system ==> (r matches Some(k) && k@ == SYSTEM_KEY@),
        !is_system ==> r == executable_name,
{
    if is_system {
        Some(to_owned_string(SYSTEM_KEY))
    } else {
        executable_name
    }
}

/// Whether the label needs the executable's description: only for a program
/// whose session reports no usable display name.
pub fn needs_description(is_system: bool, display_name: Option<&str>) -> (r: bool)
    ensures
        r == (!is_system && match display_name {
            Some(raw) => usable_display_name_spec(raw@) is None,
            None => true,
        }),
{
    if is_system {
        return false;
    }
    match display_name {
        Some(raw) => usable_display_name(raw).is_none(),
        None => true,
    }
}

/// The label a session is shown with.
pub open spec fn session_label_spec(
    is_system: bool,
    display_name: Option<Seq<char>>,
    description: Option<Seq<char>>,
    key: Seq<char>,
) -> Seq<char> {
    if is_system {
        SYSTEM_LABEL@
    } else if usable_name(display_name) is Some {
        usable_name(display_name).unwrap()
    } else if usable_name(description) is Some {
        usable_name(description).unwrap()
    } else {
        friendly_label_spec(key)
    }
}

/// A usable name made from an optional raw one.
pub open spec fn usable_name(raw: Option<Seq<char>>) -> Option<Seq<char>> {
    match raw {
        Some(text) => usable_display_name_spec(text),
        None => None,
    }
}

/// The label of a session, in order of preference: the session's own
/// display name, then the executable's description (what Task Manager
/// shows), then a tidied up file name. The system sounds session is always
/// "System sounds".
pub fn session_label(
    is_system: bool,
    display_name: Option<&str>,
    description: Option<&str>,
    key: &str,
) -> (r: String)
    ensures
        r@ == session_label_spec(
            is_system,
            match display_name {
                Some(d) => Some(d@),
                None => None,
            },
            match description {
                Some(d) => Some(d@),
                None => None,
            },
            key@,
        ),
{
    if is_system {
        return to_owned_string(SYSTEM_LABEL);
    }
    if let Some(raw) = display_name {
        if let Some(name) = usable_display_name(raw) {
            return name;
        }
    }
    if let Some(raw) = description {
        if let Some(name) = usable_display_name(raw) {
            return name;
        }
    }
    friendly_label(key)
}

/// A session's label, in order of preference: "System sounds" for the
/// system sounds; otherwise its display name, trimmed, when that leaves
/// text that is no `@` indirect string; otherwise the executable's
/// description, trimmed, under the same condition; otherwise the friendly
/// form of its key.
pub proof fn lemma_session_label_preference(
    is_system: bool,
    display_name: Option<Seq<char>>,
    description: Option<Seq<char>>,
    key: Seq<char>,
)
    ensures
        ({
            let label = session_label_spec(is_system, display_name, description, key);
            let display_usable = display_name matches Some(d) && trim_spec(d).len() > 0
                && trim_spec(d)[0] != '@';
            let description_usable = description matches Some(t) && trim_spec(t).len() > 0
                && trim_spec(t)[0] != '@';
            &&& is_system ==> label == SYSTEM_LABEL@
            &&& !is_system && display_usable ==> label == trim_spec(display_name.unwrap())
            &&& !is_system && !display_usable && description_usable ==> label == trim_spec(
                description.unwrap(),
            )
            &&& !is_system && !display_usable && !description_usable ==> label
                == friendly_label_spec(key)
        }),
{
}

/// Whether an enumerated session is listed. This program's own session is
/// never shown, since muting Volume11 from inside Volume11 is confusing and
/// it plays nothing; expired sessions linger in the enumerator and are
/// skipped too.
pub fn lists_session(is_system: bool, pid: u32, own_pid: u32, expired: bool) -> (r: bool)
    ensures
        r == (!expired && (is_system || pid != own_pid)),
{
    !expired && (is_system || pid != own_pid)
}

fn contains_pid(pids: &[u32], pid: u32) -> (r: bool)
    ensures
        r == pids@.contains(pid),
{
    let mut i: usize = 0;
    while i < pids.len()
        invariant
            i <= pids@.len(),
            forall|j: int| 0 <= j < i ==> pids@[j] != pid,
        decreases pids.len() - i,
    {
        if pids[i] == pid {
            return true;
        }
        i = i + 1;
    }
    false
}

/// Whether a listed session needs a new cache entry: none of the cached
/// sessions belongs to its process. Sessions are cached by process id, so
/// a second session of the same process shares the first one's entry.
pub fn needs_entry(cached: &[u32], pid: u32) -> (r: bool)
    ensures
        r == !cached@.contains(pid),
{
    !contains_pid(cached, pid)
}

/// Which cached sessions survive a re-enumeration: exactly those whose
/// process is still listed. The rest are dropped from the cache.
pub fn cached_to_keep(cached: &[u32], listed: &[u32]) -> (keep: Vec<bool>)
    ensures
        keep@.len() == cached@.len(),
        forall|i: int| 0 <= i < cached@.len() ==> keep@[i] == listed@.contains(#[trigger] cached@[i]),
{
    let mut keep: Vec<bool> = Vec::new();
    let mut i: usize = 0;
    while i < cached.len()
        invariant
            i <= cached@.len(),
            keep@.len() == i,
            forall|j: int| 0 <= j < i ==> keep@[j] == listed@.contains(#[trigger] cached@[j]),
        decreases cached.len() - i,
    {
        keep.push(contains_pid(listed, cached[i]));
        i = i + 1;
    }
    keep
}

/// Where a level for `key` is written: the positions in `keys` (the keys of
/// the cached sessions) that hold `key`, in ascending order. Every session
/// of the program gets the level, since levels are saved per executable
/// and applied to everything currently playing.
pub fn sessions_with_key(keys: &[String], key: &str) -> (r: Vec<usize>)
    ensures
        forall|k: int| 0 <= k < r@.len() ==> (#[trigger] r@[k]) < keys@.len() && keys@[r@[k] as int]@ == key@,
        forall|i: int| 0 <= i < keys@.len() && (#[trigger] keys@[i])@ == key@ ==> r@.contains(i as usize),
        forall|a: int, b: int| 0 <= a < b < r@.len() ==> (#[trigger] r@[a]) < (#[trigger] r@[b]),
{
    let mut r: Vec<usize> = Vec::new();
    let mut i: usize = 0;
    while i < keys.len()
        invariant
            i <= keys@.len(),
            forall|k: int| 0 <= k < r@.len() ==> (#[trigger] r@[k]) < i && keys@[r@[k] as int]@ == key@,
            forall|j: int| 0 <= j < i && (#[trigger] keys@[j])@ == key@ ==> r@.contains(j as usize),
            forall|a: int, b: int| 0 <= a < b < r@.len() ==> (#[trigger] r@[a]) < (#[trigger] r@[b]),
        decreases keys.len() - i,
    {
        if crate::text::compare_keys(keys[i].as_str(), key) == crate::text::KeyOrder::Equal {
            let ghost before = r@;
            r.push(i);
            proof {
                assert forall|j: int| 0 <= j < i + 1 && (#[trigger] keys@[j])@ == key@ implies r@.contains(j as usize) by {
                    if j < i {
                        assert(before.contains(j as usize));
                        let w = choose|w: int| 0 <= w < before.len() && before[w] == j as usize;
                        assert(r@[w] == j as usize);
                    } else {
                        assert(r@[before.len() as int] == i);
                    }
                }
            }
        } else {
            proof {
                assert forall|j: int| 0 <= j < i + 1 && (#[trigger] keys@[j])@ == key@ implies r@.contains(j as usize) by {
                    if j == i {
                        assert(false);
                    }
                }
            }
        }
        i = i + 1;
    }
    r
}

/// Whether a session newly taken into the cache is announced to the
/// interface, so that its saved level can be applied: every such session
/// is, system sounds included. The master volume belongs to the device, not
/// to a session, and is never announced.
pub fn announces_new_session(kind: SessionKind) -> (r: bool)
    ensures
        r == (kind != SessionKind::Master),
{
    match kind {
        SessionKind::Master => false,
        _ => true,
    }
}

/// The name a saved level is listed under.
pub open spec fn saved_entry_name_spec(key: Seq<char>, label: Seq<char>) -> Seq<char> {
    if key == MASTER_KEY@ {
        MASTER_LABEL@
    } else if key == SYSTEM_KEY@ {
        SYSTEM_LABEL@
    } else if label.len() == 0 {
        key
    } else {
        label
    }
}

/// The name a saved level is listed under: "Master" and "System sounds" for
/// those two, otherwise the label last seen for the program, or its key when
/// no label was ever seen.
pub fn saved_entry_name(key: &str, label: &str) -> (r: String)
    ensures
        r@ == saved_entry_name_spec(key@, label@),
{
    if crate::text::compare_keys(key, MASTER_KEY) == crate::text::KeyOrder::Equal {
        to_owned_string(MASTER_LABEL)
    } else if crate::text::compare_keys(key, SYSTEM_KEY) == crate::text::KeyOrder::Equal {
        to_owned_string(SYSTEM_LABEL)
    } else if label.unicode_len() == 0 {
        to_owned_string(key)
    } else {
        to_owned_string(label)
    }
}

/// `AudioSessionStateExpired`: the process released the stream for good.
pub const SESSION_STATE_EXPIRED: i32 = 2;

/// `eRender`, the data flow of playback devices.
pub const FLOW_RENDER: i32 = 0;

/// `eMultimedia`, the device role this program follows.
pub const ROLE_MULTIMEDIA: i32 = 1;

/// Whether a session in `state` is gone for good and leaves the list.
pub fn session_expired(state: i32) -> (r: bool)
    ensures
        r == (state == SESSION_STATE_EXPIRED),
{
    state == SESSION_STATE_EXPIRED
}

/// Whether a change of default device concerns the device this program
/// controls: the multimedia playback device. Changes for recording devices
/// or other roles are ignored.
pub fn affects_default_output(flow: i32, role: i32) -> (r: bool)
    ensures
        r == (flow == FLOW_RENDER && role == ROLE_MULTIMEDIA),
{
    flow == FLOW_RENDER && role == ROLE_MULTIMEDIA
}

/// What the audio thread hears from Windows, levels already in percent.
#[derive(Debug, Clone, Copy, PartialEq, Eq, Structural)]
pub enum Signal {
    /// A new audio session was created.
    SessionCreated,
    /// A session changed state; `expired` when its process released it for good.
    SessionStateChanged { pid: u32, expired: bool },
    /// Volume or mute of a session changed. `own_echo` when the change carries
    /// this program's event context, i.e. it is the echo of its own write.
    SessionVolume { pid: u32, volume: u8, muted: bool, own_echo: bool },
    /// Master (endpoint) volume or mute changed.
    MasterVolume { volume: u8, muted: bool, own_echo: bool },
    /// The default playback device changed.
    DefaultDeviceChanged,
    /// A playback device was added, removed, enabled or disabled.
    DevicesChanged,
}

/// What the audio thread does about a signal.
#[derive(Debug, Clone, PartialEq, Eq)]
pub enum Reaction {
    /// Re-enumerate the sessions, publish them, and announce the new ones.
    Rebuild,
    /// Drop the cached session of this process and publish the rest.
    Forget(u32),
    /// Tell the UI that a level changed.
    Report { key: String, volume: u8, muted: bool },
    /// Rebind to the new default device, then publish the device list.
    SwitchDevice,
    /// Publish the device list.
    PublishDevices,
    /// Nothing to do.
    Ignore,
}

/// What the audio thread does about `signal`. `cached_key` is the key of the
/// cached session of the signal's process, if there is one. Echoes of this
/// program's own writes are ignored: without that the UI would fight the
/// user, pushing each written value straight back into the slider being
/// dragged.
pub fn react(signal: Signal, cached_key: Option<&str>) -> (r: Reaction)
    ensures
        match signal {
            Signal::SessionCreated => r == Reaction::Rebuild,
            Signal::SessionStateChanged { pid, expired } => r == if expired {
                Reaction::Forget(pid)
            } else {
                Reaction::Ignore
            },
            Signal::SessionVolume { pid, volume, muted, own_echo } => if own_echo {
                r == Reaction::Ignore
            } else {
                match cached_key {
                    Some(k) => r matches Reaction::Report { key, volume: v, muted: m } && key@ == k@
                        && v == volume && m == muted,
                    None => r == Reaction::Ignore,
                }
            },
            Signal::MasterVolume { volume, muted, own_echo } => if own_echo {
                r == Reaction::Ignore
            } else {
                r matches Reaction::Report { key, volume: v, muted: m } && key@ == MASTER_KEY@ && v
                    == volume && m == muted
            },
            Signal::DefaultDeviceChanged => r == Reaction::SwitchDevice,
            Signal::DevicesChanged => r == Reaction::PublishDevices,
        },
{
    match signal {
        Signal::SessionCreated => Reaction::Rebuild,
        Signal::SessionStateChanged { pid, expired } => {
            if expired {
                Reaction::Forget(pid)
            } else {
                Reaction::Ignore
            }
        },
        Signal::SessionVolume { pid: _, volume, muted, own_echo } => {
            if own_echo {
                return Reaction::Ignore;
            }
            match cached_key {
                Some(k) => Reaction::Report { key: to_owned_string(k), volume, muted },
                None => Reaction::Ignore,
            }
        },
        Signal::MasterVolume { volume, muted, own_echo } => {
            if own_echo {
                Reaction::Ignore
            } else {
                Reaction::Report { key: to_owned_string(MASTER_KEY), volume, muted }
            }
        },
        Signal::DefaultDeviceChanged => Reaction::SwitchDevice,
        Signal::DevicesChanged => Reaction::PublishDevices,
    }
}

} // verus!
