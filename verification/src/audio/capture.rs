//! Audio sources: the devices the user can pick, how they are named, and the
//! order in which they are offered.
use vstd::prelude::*;

pub use crate::text::capitalize_first;
use crate::text::{
    capitalized, decimal, decimal_string, lemma_lex_asymmetric, lemma_lex_total, lemma_lex_transitive,
    lex_lt, str_equals, str_less, strip_suffixes, trim_end_matches, uppercase_mapping,
};

verus! {

/// An application (or endpoint) that audio can be captured from.
#[derive(Debug, Clone)]
pub struct AudioDevice {
    /// For apps: the process ID as string. For system: the endpoint device ID.
    pub id: String,
    /// Display name: "Zoom Meetings", "Brave - YouTube", "Spotify", etc.
    pub name: String,
    /// Process executable name (e.g. "zoom.exe", "brave.exe")
    pub process_name: String,
    pub sample_rate: u32,
    pub channels: u16,
    pub is_active: bool,
}

/// The name shown for an audio session: the session's own display name when
/// it is a real one (not empty and not a resource reference starting with '@'
/// or '{'), else the process name without its ".exe" suffixes, capitalized.
pub open spec fn session_display_name(display: Seq<char>, process: Seq<char>) -> Seq<char> {
    if display.len() > 0 && display[0] != '@' && display[0] != '{' {
        display
    } else {
        capitalized(strip_suffixes(process, ".exe"@))
    }
}

/// Builds the name shown for an audio session (see [`session_display_name`]).
pub fn display_name_for(display_name: &str, process_name: &str) -> (res: String)
    ensures
        res@ == session_display_name(display_name@, process_name@),
        display_name@.len() > 0 && display_name@[0] != '@' && display_name@[0] != '{' ==> res@
            == display_name@,
        !(display_name@.len() > 0 && display_name@[0] != '@' && display_name@[0] != '{') ==> ({
            let stem = strip_suffixes(process_name@, ".exe"@);
            &&& stem.len() == 0 ==> res@.len() == 0
            &&& stem.len() > 0 ==> res@ == uppercase_mapping(stem[0]) + stem.drop_first()
            &&& stem.len() > 0 && (stem[0] as u32) < 128 ==> res@.len() == stem.len()
                && res@.drop_first() == stem.drop_first()
        }),
{
    let n = display_name.unicode_len();
    if n > 0 {
        let first = display_name.get_char(0);
        if first != '@' && first != '{' {
            return String::from_str(display_name);
        }
    }
    let clean = trim_end_matches(process_name, ".exe");
    capitalize_first(clean)
}

/// The state of an audio session.
#[derive(Debug, Clone, Copy)]
pub enum SessionState {
    /// Playing audio now.
    Active,
    /// Open, but silent.
    Inactive,
    /// Closed by its application.
    Expired,
}

/// Whether a session is offered at all: it belongs to a process (its
/// process ID is not 0) and has not expired.
pub open spec fn session_listed(pid: u32, state: SessionState) -> bool {
    pid != 0 && !(state is Expired)
}

/// The process name used when the executable of `pid` cannot be found.
pub open spec fn fallback_process_name(pid: u32) -> Seq<char> {
    "pid-"@ + decimal(pid as nat)
}

/// Decides whether a session is offered (see [`session_listed`]).
pub fn session_is_listed(pid: u32, state: SessionState) -> (res: bool)
    ensures
        res == session_listed(pid, state),
{
    pid != 0 && !matches!(state, SessionState::Expired)
}

/// The device offered for an audio session of the default output endpoint
/// `endpoint_id`, whose mix format is `sample_rate` and `channels`: none for
/// a session that is not listed; else one named as
/// [`session_display_name`] says, under the executable name of its process
/// or, when that is unknown, "pid-" and the process ID, and active when the
/// session is.
pub fn session_device(
    endpoint_id: &str,
    sample_rate: u32,
    channels: u16,
    pid: u32,
    state: SessionState,
    process_name: Option<String>,
    display_name: &str,
) -> (res: Option<AudioDevice>)
    ensures
        res is Some <==> session_listed(pid, state),
        res matches Some(d) ==> {
            &&& d.id@ == endpoint_id@
            &&& d.sample_rate == sample_rate
            &&& d.channels == channels
            &&& d.is_active == (state is Active)
            &&& d.process_name@ == (match process_name {
                Some(p) => p@,
                None => fallback_process_name(pid),
            })
            &&& d.name@ == session_display_name(display_name@, d.process_name@)
        },
{
    if !session_is_listed(pid, state) {
        return None;
    }
    let process_name = match process_name {
        Some(p) => p,
        None => {
            let mut p = String::from_str("pid-");
            let digits = decimal_string(pid);
            p.append(digits.as_str());
            p
        },
    };
    let name = display_name_for(display_name, process_name.as_str());
    Some(
        AudioDevice {
            id: String::from_str(endpoint_id),
            name,
            process_name,
            sample_rate,
            channels,
            is_active: matches!(state, SessionState::Active),
        },
    )
}

/// The order of the device list: active sessions first, then by name.
pub open spec fn device_before(a: AudioDevice, b: AudioDevice) -> bool {
    ||| (a.is_active && !b.is_active)
    ||| (a.is_active == b.is_active && lex_lt(a.name@, b.name@))
}

/// `s` with `x` inserted after every element that does not come after it.
pub open spec fn insert_stable(s: Seq<AudioDevice>, x: AudioDevice) -> Seq<AudioDevice>
    decreases s.len(),
{
    if s.len() == 0 {
        seq![x]
    } else if device_before(x, s.last()) {
        insert_stable(s.drop_last(), x).push(s.last())
    } else {
        s.push(x)
    }
}

/// The devices in [`device_before`] order; devices that compare equal keep
/// their relative order (a stable sort).
pub open spec fn sort_devices(s: Seq<AudioDevice>) -> Seq<AudioDevice>
    decreases s.len(),
{
    if s.len() == 0 {
        s
    } else {
        insert_stable(sort_devices(s.drop_last()), s.last())
    }
}

/// `s` keeping, of the devices of each process, only the first.
pub open spec fn dedup_by_process(s: Seq<AudioDevice>) -> Seq<AudioDevice>
    decreases s.len(),
{
    if s.len() == 0 {
        s
    } else {
        let prev = dedup_by_process(s.drop_last());
        if lists_process(prev, s.last().process_name@) {
            prev
        } else {
            prev.push(s.last())
        }
    }
}

/// The device list as offered: sorted, then one session per process (the
/// first in that order).
pub open spec fn ordered_devices(s: Seq<AudioDevice>) -> Seq<AudioDevice> {
    dedup_by_process(sort_devices(s))
}

/// Whether `a` comes before `b` in the device list.
pub fn comes_before(a: &AudioDevice, b: &AudioDevice) -> (res: bool)
    ensures
        res == device_before(*a, *b),
{
    (a.is_active && !b.is_active) || (a.is_active == b.is_active && str_less(
        a.name.as_str(),
        b.name.as_str(),
    ))
}

/// Inserts `x` into `sorted` where [`insert_stable`] puts it.
fn insert_device(sorted: &mut Vec<AudioDevice>, x: AudioDevice)
    ensures
        final(sorted)@ == insert_stable(old(sorted)@, x),
{
    let ghost s = sorted@;
    let mut p = sorted.len();
    assert(s.take(p as int) =~= s);
    assert(s.skip(p as int) =~= Seq::<AudioDevice>::empty());
    while p > 0 && comes_before(&x, &sorted[p - 1])
        invariant
            sorted@ == s,
            p <= s.len(),
            insert_stable(s, x) == insert_stable(s.take(p as int), x) + s.skip(p as int),
        decreases p,
    {
        let ghost t = s.take(p as int);
        assert(t.drop_last() =~= s.take(p - 1));
        assert(t.last() == s[p - 1]);
        assert(insert_stable(t, x) == insert_stable(s.take(p - 1), x).push(s[p - 1]));
        assert(insert_stable(s.take(p - 1), x).push(s[p - 1]) + s.skip(p as int)
            =~= insert_stable(s.take(p - 1), x) + s.skip(p - 1));
        p = p - 1;
    }
    proof {
        let t = s.take(p as int);
        if p == 0 {
            assert(insert_stable(t, x) == seq![x]);
        } else {
            assert(t.last() == s[p - 1]);
            assert(insert_stable(t, x) == t.push(x));
        }
        assert(insert_stable(t, x) + s.skip(p as int) =~= s.insert(p as int, x));
    }
    sorted.insert(p, x);
}

/// Sorts the devices: active sessions first, then alphabetically by name,
/// keeping the order of devices that compare equal.
pub fn sort_by_activity_and_name(devices: Vec<AudioDevice>) -> (res: Vec<AudioDevice>)
    ensures
        res@ == sort_devices(devices@),
{
    let ghost orig = devices@;
    let mut rest = devices;
    let mut sorted: Vec<AudioDevice> = Vec::new();
    let n = rest.len();
    let mut k: usize = 0;
    assert(orig.take(0) =~= Seq::<AudioDevice>::empty());
    assert(orig.skip(0) =~= orig);
    while k < n
        invariant
            n == orig.len(),
            k <= n,
            rest@ == orig.skip(k as int),
            sorted@ == sort_devices(orig.take(k as int)),
        decreases n - k,
    {
        let x = rest.remove(0);
        assert(orig.take(k + 1).drop_last() =~= orig.take(k as int));
        assert(orig.take(k + 1).last() == x);
        assert(rest@ =~= orig.skip(k + 1));
        insert_device(&mut sorted, x);
        k = k + 1;
    }
    assert(orig.take(n as int) =~= orig);
    sorted
}

/// Whether some device of `devices` belongs to the process named `name`.
fn has_process(devices: &Vec<AudioDevice>, name: &str) -> (res: bool)
    ensures
        res == lists_process(devices@, name@),
{
    let n = devices.len();
    let mut i: usize = 0;
    while i < n
        invariant
            n == devices@.len(),
            i <= n,
            forall|k: int| 0 <= k < i ==> #[trigger] devices@[k].process_name@ != name@,
        decreases n - i,
    {
        if str_equals(devices[i].process_name.as_str(), name) {
            return true;
        }
        i = i + 1;
    }
    false
}

/// Keeps, of the devices of each process, only the first.
pub fn dedup_process_names(devices: Vec<AudioDevice>) -> (res: Vec<AudioDevice>)
    ensures
        res@ == dedup_by_process(devices@),
{
    let ghost orig = devices@;
    let mut rest = devices;
    let mut out: Vec<AudioDevice> = Vec::new();
    let n = rest.len();
    let mut k: usize = 0;
    assert(orig.skip(0) =~= orig);
    assert(orig.take(0) =~= Seq::<AudioDevice>::empty());
    while k < n
        invariant
            n == orig.len(),
            k <= n,
            rest@ == orig.skip(k as int),
            out@ == dedup_by_process(orig.take(k as int)),
        decreases n - k,
    {
        let d = rest.remove(0);
        assert(rest@ =~= orig.skip(k + 1));
        let ghost t = orig.take(k + 1);
        assert(t.drop_last() =~= orig.take(k as int));
        assert(t.last() == d);
        let duplicate = has_process(&out, d.process_name.as_str());
        if !duplicate {
            out.push(d);
        }
        k = k + 1;
    }
    assert(orig.take(n as int) =~= orig);
    out
}

/// The device list as offered to the user: active sessions first, then by
/// name, and one session per process (some apps create several).
pub fn order_devices(devices: Vec<AudioDevice>) -> (res: Vec<AudioDevice>)
    ensures
        res@ == ordered_devices(devices@),
        forall|i: int, j: int|
            0 <= i < j < res@.len() ==> (#[trigger] res@[i].is_active || !(#[trigger] res@[
                j].is_active)),
        forall|i: int, j: int|
            0 <= i < j < res@.len() && #[trigger] res@[i].is_active == #[trigger] res@[j].is_active
                ==> !lex_lt(res@[j].name@, res@[i].name@),
        forall|i: int, j: int|
            0 <= i < j < res@.len() ==> #[trigger] res@[i].process_name@
                != #[trigger] res@[j].process_name@,
{
    let sorted = sort_by_activity_and_name(devices);
    let res = dedup_process_names(sorted);
    proof {
        lemma_device_list_by_shown_name(devices@);
    }
    res
}

/// No device in the list comes before an earlier one.
pub open spec fn devices_sorted(s: Seq<AudioDevice>) -> bool {
    forall|i: int, j: int| 0 <= i < j < s.len() ==> !device_before(s[j], s[i])
}

/// Whether some device of the list belongs to the process named `name`.
pub open spec fn lists_process(s: Seq<AudioDevice>, name: Seq<char>) -> bool {
    exists|k: int| 0 <= k < s.len() && #[trigger] s[k].process_name@ == name
}

/// No two devices in the list belong to the same process.
pub open spec fn one_per_process(s: Seq<AudioDevice>) -> bool {
    forall|i: int, j: int|
        0 <= i < j < s.len() ==> #[trigger] s[i].process_name@ != #[trigger] s[j].process_name@
}

proof fn lemma_before_strict_weak(x: AudioDevice, y: AudioDevice, z: AudioDevice)
    ensures
        !device_before(x, x),
        device_before(x, y) ==> !device_before(y, x),
        device_before(x, y) && device_before(y, z) ==> device_before(x, z),
        device_before(x, z) ==> device_before(x, y) || device_before(y, z),
{
    lemma_lex_asymmetric(x.name@, y.name@);
    lemma_lex_asymmetric(y.name@, z.name@);
    lemma_lex_asymmetric(x.name@, z.name@);
    if lex_lt(x.name@, y.name@) && lex_lt(y.name@, z.name@) {
        lemma_lex_transitive(x.name@, y.name@, z.name@);
    }
    lemma_lex_total(x.name@, y.name@);
    lemma_lex_total(y.name@, z.name@);
    if lex_lt(y.name@, x.name@) && lex_lt(z.name@, y.name@) {
        lemma_lex_transitive(z.name@, y.name@, x.name@);
    }
    if lex_lt(y.name@, x.name@) && z.name@ == y.name@ {
    }
}

proof fn lemma_insert_stable(s: Seq<AudioDevice>, x: AudioDevice)
    requires
        devices_sorted(s),
    ensures
        devices_sorted(insert_stable(s, x)),
        insert_stable(s, x).to_multiset() == s.to_multiset().insert(x),
    decreases s.len(),
{
    broadcast use vstd::seq_lib::group_to_multiset_ensures;

    if s.len() == 0 {
        assert(seq![x] =~= Seq::<AudioDevice>::empty().push(x));
        assert(s =~= Seq::<AudioDevice>::empty());
    } else {
        let last = s.last();
        let init = s.drop_last();
        assert(init.push(last) =~= s);
        assert(devices_sorted(init));
        if device_before(x, last) {
            lemma_insert_stable(init, x);
            let r = insert_stable(init, x);
            assert forall|e: AudioDevice| r.to_multiset().count(e) > 0 implies !device_before(
                last,
                e,
            ) by {
                if e == x {
                    lemma_before_strict_weak(x, last, x);
                } else {
                    assert(init.to_multiset().count(e) > 0);
                    assert(init.contains(e));
                    let k = choose|k: int| 0 <= k < init.len() && init[k] == e;
                    assert(s[k] == e);
                }
            }
            let out = r.push(last);
            assert forall|i: int, j: int| 0 <= i < j < out.len() implies !device_before(
                out[j],
                out[i],
            ) by {
                if j == out.len() - 1 {
                    assert(r.contains(out[i]));
                }
            }
        } else {
            let out = s.push(x);
            assert forall|i: int, j: int| 0 <= i < j < out.len() implies !device_before(
                out[j],
                out[i],
            ) by {
                if j == out.len() - 1 {
                    lemma_before_strict_weak(x, last, out[i]);
                    if i < s.len() - 1 {
                        assert(!device_before(s[s.len() - 1], s[i]));
                    }
                }
            }
        }
    }
}

proof fn lemma_sort_devices(s: Seq<AudioDevice>)
    ensures
        devices_sorted(sort_devices(s)),
        sort_devices(s).to_multiset() == s.to_multiset(),
    decreases s.len(),
{
    broadcast use vstd::seq_lib::group_to_multiset_ensures;

    if s.len() > 0 {
        lemma_sort_devices(s.drop_last());
        lemma_insert_stable(sort_devices(s.drop_last()), s.last());
        assert(s.drop_last().push(s.last()) =~= s);
    }
}

proof fn lemma_dedup(s: Seq<AudioDevice>)
    requires
        devices_sorted(s),
    ensures
        devices_sorted(dedup_by_process(s)),
        one_per_process(dedup_by_process(s)),
        forall|d: AudioDevice| #[trigger] dedup_by_process(s).contains(d) ==> s.contains(d),
        forall|i: int|
            0 <= i < s.len() ==> lists_process(dedup_by_process(s), #[trigger] s[i].process_name@),
    decreases s.len(),
{
    if s.len() > 0 {
        let init = s.drop_last();
        let last = s.last();
        assert(devices_sorted(init));
        lemma_dedup(init);
        let r = dedup_by_process(init);
        assert forall|d: AudioDevice| r.contains(d) implies s.contains(d) by {
            assert(init.contains(d));
            let k = choose|k: int| 0 <= k < init.len() && init[k] == d;
            assert(s[k] == d);
        }
        if lists_process(r, last.process_name@) {
            assert forall|i: int| 0 <= i < s.len() implies lists_process(
                r,
                #[trigger] s[i].process_name@,
            ) by {
                if i < s.len() - 1 {
                    assert(init[i] == s[i]);
                }
            }
        } else {
            let out = r.push(last);
            assert forall|i: int, j: int| 0 <= i < j < out.len() implies !device_before(
                out[j],
                out[i],
            ) by {
                if j == out.len() - 1 {
                    assert(r.contains(out[i]));
                    let k = choose|k: int| 0 <= k < s.len() && s[k] == out[i];
                    if k == s.len() - 1 {
                        lemma_before_strict_weak(last, last, last);
                    }
                }
            }
            assert forall|i: int, j: int| 0 <= i < j < out.len() implies #[trigger] out[i].process_name@
                != #[trigger] out[j].process_name@ by {
                if j == out.len() - 1 {
                    assert(out[i] == r[i]);
                    assert(r[i].process_name@ != last.process_name@);
                } else {
                    assert(out[i] == r[i] && out[j] == r[j]);
                }
            }
            assert forall|d: AudioDevice| out.contains(d) implies s.contains(d) by {
                if d != last {
                    let k = choose|k: int| 0 <= k < out.len() && out[k] == d;
                    assert(r.contains(d));
                }
            }
            assert forall|i: int| 0 <= i < s.len() implies lists_process(
                out,
                #[trigger] s[i].process_name@,
            ) by {
                if i < s.len() - 1 {
                    assert(init[i] == s[i]);
                    assert(lists_process(r, init[i].process_name@));
                    let k = choose|k: int|
                        0 <= k < r.len() && #[trigger] r[k].process_name@ == init[i].process_name@;
                    assert(out[k] == r[k]);
                } else {
                    assert(out[out.len() - 1] == s[i]);
                }
            }
        }
    }
}

/// Law: the device list offered to the user is sorted (active sessions first,
/// then by name), has one session per process at most, holds only
/// devices that were found, and keeps a session of every process found.
pub proof fn lemma_device_list_order(devices: Seq<AudioDevice>)
    ensures
        devices_sorted(ordered_devices(devices)),
        one_per_process(ordered_devices(devices)),
        forall|d: AudioDevice| #[trigger] ordered_devices(devices).contains(d) ==> devices.contains(d),
        forall|i: int|
            0 <= i < devices.len() ==> lists_process(
                ordered_devices(devices),
                #[trigger] devices[i].process_name@,
            ),
{
    broadcast use vstd::seq_lib::group_to_multiset_ensures;

    let sorted = sort_devices(devices);
    lemma_sort_devices(devices);
    lemma_dedup(sorted);
    assert forall|d: AudioDevice| sorted.contains(d) implies devices.contains(d) by {
        assert(sorted.to_multiset().count(d) > 0);
    }
    assert forall|i: int| 0 <= i < devices.len() implies lists_process(
        ordered_devices(devices),
        #[trigger] devices[i].process_name@,
    ) by {
        assert(devices.to_multiset().count(devices[i]) > 0);
        assert(sorted.contains(devices[i]));
        let j = choose|j: int| 0 <= j < sorted.len() && sorted[j] == devices[i];
        assert(lists_process(dedup_by_process(sorted), sorted[j].process_name@));
    }
}

/// Law: in the device list offered to the user, active sessions come before
/// inactive ones, sessions of equal activity are in alphabetical order of the
/// names shown for them, and no process appears twice.
pub proof fn lemma_device_list_by_shown_name(devices: Seq<AudioDevice>)
    ensures
        forall|i: int, j: int|
            0 <= i < j < ordered_devices(devices).len() ==> (
            #[trigger] ordered_devices(devices)[i].is_active || !(
            #[trigger] ordered_devices(devices)[j].is_active)),
        forall|i: int, j: int|
            0 <= i < j < ordered_devices(devices).len() && #[trigger] ordered_devices(
                devices,
            )[i].is_active == #[trigger] ordered_devices(devices)[j].is_active ==> !lex_lt(
                ordered_devices(devices)[j].name@,
                ordered_devices(devices)[i].name@,
            ),
        forall|i: int, j: int|
            0 <= i < j < ordered_devices(devices).len() ==> #[trigger] ordered_devices(
                devices,
            )[i].process_name@ != #[trigger] ordered_devices(devices)[j].process_name@,
{
    lemma_device_list_order(devices);
    let s = ordered_devices(devices);
    assert forall|i: int, j: int| 0 <= i < j < s.len() implies (#[trigger] s[i].is_active || !(
    #[trigger] s[j].is_active)) && (s[i].is_active == s[j].is_active ==> !lex_lt(
        s[j].name@,
        s[i].name@,
    )) by {
        assert(!device_before(s[j], s[i]));
    }
}

} // verus!
