//! "Start with Windows", via the per-user `Run` key.
//!
//! Two registry locations are involved, because Task Manager's Startup tab
//! does not delete `Run` entries when one is switched off. It writes a status
//! record to `Explorer\StartupApproved\Run` instead and leaves the command in
//! place. Volume11 writes both: the command under `Run`, and the status
//! record next to it, so the checkbox here and the Task Manager switch mean
//! the same thing.
//!
//! This module decides what is written and how what is read is understood;
//! the registry itself is reached outside this crate.

use vstd::prelude::*;
use vstd::string::StrSliceExecFns;
use vstd::string::StringExecFns;

use crate::text::{from_utf16_lossy, push_char, trim, trim_spec, utf16_lossy};

verus! {

/// Length of the status record Task Manager keeps per entry.
pub const STATUS_LENGTH: usize = 12;

/// First byte of the record of an enabled entry. Bit 0 clear means enabled.
pub const STATUS_ENABLED: u8 = 0x02;

/// First byte of the record of a disabled entry. Bit 0 set means disabled.
pub const STATUS_DISABLED: u8 = 0x03;

/// Byte `i` (0..8) of `x` in little-endian order.
pub open spec fn le_byte(x: u64, i: int) -> u8 {
    ((x as int / pow256(i)) % 256) as u8
}

/// 256 to the power `i`, for `i` in 0..8.
pub open spec fn pow256(i: int) -> int {
    if i <= 0 {
        1
    } else if i == 1 {
        0x100
    } else if i == 2 {
        0x1_0000
    } else if i == 3 {
        0x100_0000
    } else if i == 4 {
        0x1_0000_0000
    } else if i == 5 {
        0x100_0000_0000
    } else if i == 6 {
        0x1_0000_0000_0000
    } else {
        0x100_0000_0000_0000
    }
}

/// The status record Task Manager reads: the state byte, three zero bytes,
/// then — for a disabled entry — the time it was switched off as a
/// little-endian `FILETIME`, zero for an enabled one.
pub open spec fn status_record_spec(enabled: bool, switched_off_at: u64) -> Seq<u8> {
    Seq::new(
        STATUS_LENGTH as nat,
        |i: int|
            if i == 0 {
                if enabled {
                    STATUS_ENABLED
                } else {
                    STATUS_DISABLED
                }
            } else if i < 4 || enabled {
                0u8
            } else {
                le_byte(switched_off_at, i - 4)
            },
    )
}

/// The status record to write for `enabled`. `switched_off_at` is the
/// current time as a `FILETIME`; it is recorded only when disabling.
pub fn status_record(enabled: bool, switched_off_at: u64) -> (r: Vec<u8>)
    ensures
        r@ == status_record_spec(enabled, switched_off_at),
{
    let mut record: Vec<u8> = Vec::new();
    record.push(if enabled {
        STATUS_ENABLED
    } else {
        STATUS_DISABLED
    });
    record.push(0);
    record.push(0);
    record.push(0);
    let t = if enabled {
        0u64
    } else {
        switched_off_at
    };
    record.push((t % 0x100) as u8);
    record.push(((t / 0x100) % 0x100) as u8);
    record.push(((t / 0x1_0000) % 0x100) as u8);
    record.push(((t / 0x100_0000) % 0x100) as u8);
    record.push(((t / 0x1_0000_0000) % 0x100) as u8);
    record.push(((t / 0x100_0000_0000) % 0x100) as u8);
    record.push(((t / 0x1_0000_0000_0000) % 0x100) as u8);
    record.push(((t / 0x100_0000_0000_0000) % 0x100) as u8);
    assert(record@ =~= status_record_spec(enabled, switched_off_at));
    record
}

/// Whether Windows will start the entry, read the way Task Manager reads it.
///
/// `status` is the record read from `StartupApproved\Run`, or `None` when
/// the key or the value is missing or could not be read. Without a record
/// the entry counts as enabled: nothing has ever switched it off.
pub open spec fn reads_as_enabled_spec(run_command_exists: bool, status: Option<Seq<u8>>) -> bool {
    run_command_exists && match status {
        None => true,
        Some(bytes) => bytes.len() == 0 || bytes[0] % 2 == 0,
    }
}

/// Whether Windows will start the entry, from what the two keys hold.
pub fn reads_as_enabled(run_command_exists: bool, status: Option<&[u8]>) -> (r: bool)
    ensures
        r == reads_as_enabled_spec(
            run_command_exists,
            match status {
                Some(bytes) => Some(bytes@),
                None => None,
            },
        ),
{
    if !run_command_exists {
        return false;
    }
    match status {
        None => true,
        Some(bytes) => bytes.len() == 0 || bytes[0] % 2 == 0,
    }
}

/// A record written by `status_record` reads back as the state it was
/// written for.
pub proof fn lemma_status_round_trip(enabled: bool, switched_off_at: u64)
    ensures
        reads_as_enabled_spec(true, Some(status_record_spec(enabled, switched_off_at))) == enabled,
{
    let r = status_record_spec(enabled, switched_off_at);
    assert(r[0] == if enabled {
        STATUS_ENABLED
    } else {
        STATUS_DISABLED
    });
}

/// The command stored under `Run` for an executable: its path in quotes,
/// because the path can contain spaces.
pub open spec fn run_command_spec(executable: Seq<char>) -> Seq<char> {
    seq!['"'] + executable + seq!['"']
}

/// What turning autostart on or off writes: the quoted command under `Run`
/// and the status record under `StartupApproved\Run`.
///
/// Switching off keeps the `Run` command and marks it disabled, so the entry
/// stays listed in Task Manager and can be switched back on from there.
pub fn set(enabled: bool, executable: &str, now: u64) -> (r: (String, Vec<u8>))
    ensures
        r.0@ == run_command_spec(executable@),
        r.1@ == status_record_spec(enabled, now),
{
    let mut command = String::new();
    push_char(&mut command, '"');
    command.append(executable);
    push_char(&mut command, '"');
    assert(command@ =~= run_command_spec(executable@));
    (command, status_record(enabled, now))
}

/// `s` up to its first `d`, or all of it.
pub open spec fn before_char(s: Seq<char>, d: char) -> Seq<char>
    decreases s.len(),
{
    if s.len() == 0 || s[0] == d {
        Seq::empty()
    } else {
        seq![s[0]] + before_char(s.drop_first(), d)
    }
}

/// The part of `s` from `from` up to the first `d` after it.
fn text_before<'a>(s: &'a str, from: usize, d: char) -> (r: &'a str)
    requires
        from <= s@.len(),
    ensures
        r@ == before_char(s@.skip(from as int), d),
{
    let n = s.unicode_len();
    let mut i: usize = from;
    proof {
        assert(s@.subrange(from as int, from as int) =~= Seq::<char>::empty());
    }
    while i < n && s.get_char(i) != d
        invariant
            from <= i <= n,
            n == s@.len(),
            before_char(s@.skip(from as int), d) == s@.subrange(from as int, i as int) + before_char(
                s@.skip(i as int),
                d,
            ),
        decreases n - i,
    {
        proof {
            let rest = s@.skip(i as int);
            assert(rest[0] == s@[i as int]);
            assert(rest.drop_first() =~= s@.skip(i + 1));
            assert(s@.subrange(from as int, i + 1) =~= s@.subrange(from as int, i as int) + seq![
                s@[i as int],
            ]);
        }
        i = i + 1;
    }
    proof {
        let rest = s@.skip(i as int);
        if i < n {
            assert(rest[0] == d);
        }
        assert(before_char(rest, d) =~= Seq::<char>::empty());
        assert(s@.subrange(from as int, i as int) + Seq::<char>::empty() =~= s@.subrange(
            from as int,
            i as int,
        ));
    }
    s.substring_char(from, i)
}

/// The executable a `Run` command starts, without quotes or arguments.
pub open spec fn command_target_spec(command: Seq<char>) -> Seq<char> {
    let t = trim_spec(command);
    if t.len() > 0 && t[0] == '"' {
        before_char(t.drop_first(), '"')
    } else {
        before_char(t, ' ')
    }
}

/// Path of the executable a `Run` command starts, without quotes or
/// arguments.
pub fn command_target(command: &str) -> (r: &str)
    ensures
        r@ == command_target_spec(command@),
{
    let t = trim(command);
    if t.unicode_len() > 0 && t.get_char(0) == '"' {
        proof {
            assert(t@.skip(1) =~= t@.drop_first());
        }
        text_before(t, 1, '"')
    } else {
        proof {
            assert(t@.skip(0) =~= t@);
        }
        text_before(t, 0, ' ')
    }
}

/// Whether an entry pointing at `target` should be rewritten: only when a
/// target is stored and the file it names is gone.
pub open spec fn needs_repair_spec(target: Seq<char>, target_exists: bool) -> bool {
    trim_spec(target).len() > 0 && !target_exists
}

/// Whether an entry pointing at `target` should be rewritten.
///
/// Only a *missing* target is replaced. Repointing whenever the running copy
/// differs would let any copy that is merely started once — a portable one
/// on a stick, a build being tested — take over a working entry.
pub fn needs_repair(target: &str, target_exists: bool) -> (r: bool)
    ensures
        r == needs_repair_spec(target@, target_exists),
{
    trim(target).unicode_len() > 0 && !target_exists
}

/// Whether a dead autostart entry must be pointed at the running executable.
///
/// `command` is what `Run` holds, if anything, and `target_exists` whether
/// the file its `command_target` names exists. Once the copy that switched
/// autostart on is deleted, Windows starts a file that is no longer there
/// while the settings panel still reports autostart as on; such an entry is
/// rewritten. The Task Manager status record is left alone, so a disabled
/// entry stays disabled.
pub fn repair(command: Option<&str>, target_exists: bool) -> (r: bool)
    ensures
        r == match command {
            Some(c) => needs_repair_spec(command_target_spec(c@), target_exists),
            None => false,
        },
{
    match command {
        Some(c) => needs_repair(command_target(c), target_exists),
        None => false,
    }
}

/// `s` without trailing NUL characters.
pub open spec fn trim_nuls_end(s: Seq<char>) -> Seq<char>
    decreases s.len(),
{
    if s.len() > 0 && s.last() == '\0' {
        trim_nuls_end(s.drop_last())
    } else {
        s
    }
}

/// The command text of a `Run` value read as UTF-16 units: decoded, with
/// the terminating NULs dropped.
pub fn decode_run_command(units: &[u16]) -> (r: String)
    ensures
        r@ == trim_nuls_end(utf16_lossy(units@)),
{
    let text = from_utf16_lossy(units);
    let n = text.unicode_len();
    let mut end: usize = n;
    proof {
        assert(text@.take(n as int) =~= text@);
    }
    while end > 0 && text.get_char(end - 1) == '\0'
        invariant
            end <= n,
            n == text@.len(),
            trim_nuls_end(text@) == trim_nuls_end(text@.take(end as int)),
        decreases end,
    {
        proof {
            let p = text@.take(end as int);
            assert(p.last() == text@[end - 1]);
            assert(p.drop_last() =~= text@.take(end - 1));
        }
        end = end - 1;
    }
    proof {
        let p = text@.take(end as int);
        if end > 0 {
            assert(p.last() == text@[end - 1]);
        }
        assert(trim_nuls_end(p) == p);
    }
    let kept = text.substring_char(0, end);
    crate::text::to_owned_string(kept)
}

} // verus!
