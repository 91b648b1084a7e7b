use vstd::prelude::*;
use crate::text::{
    chars_eq_ignore_ascii_case, chars_of, chars_range, chars_start_with, eq_ignore_ascii_case, split_commas,
    starts_with, trim, trim_bounds,
};

verus! {

broadcast use vstd::string::group_string_axioms;

/// The suffix that makes a count plural: empty for exactly one, "s" otherwise.
pub open spec fn plural_suffix(n: nat) -> Seq<char> {
    if n == 1 {
        Seq::empty()
    } else {
        seq!['s']
    }
}

/// English plural suffix for a count of `n` things.
pub fn plural(n: usize) -> (r: &'static str)
    ensures
        r@ == plural_suffix(n as nat),
{
    proof {
        reveal_strlit("");
        reveal_strlit("s");
    }
    if n == 1 {
        ""
    } else {
        "s"
    }
}

/// The prefix of Windows raw disk and volume paths: `\\.\`.
pub open spec fn windows_device_prefix() -> Seq<char> {
    seq!['\\', '\\', '.', '\\']
}

/// The prefix of Linux device nodes: `/dev/`.
pub open spec fn unix_device_prefix() -> Seq<char> {
    seq!['/', 'd', 'e', 'v', '/']
}

/// A raw disk or volume, as opposed to a plain file.
pub open spec fn is_raw_path(p: Seq<char>) -> bool {
    starts_with(p, windows_device_prefix()) || starts_with(p, unix_device_prefix())
}

fn windows_device_prefix_chars() -> (r: Vec<char>)
    ensures
        r@ == windows_device_prefix(),
{
    let r = vec!['\\', '\\', '.', '\\'];
    assert(r@ =~= windows_device_prefix());
    r
}

fn unix_device_prefix_chars() -> (r: Vec<char>)
    ensures
        r@ == unix_device_prefix(),
{
    let r = vec!['/', 'd', 'e', 'v', '/'];
    assert(r@ =~= unix_device_prefix());
    r
}

fn chars_are_raw_device(cs: &Vec<char>) -> (r: bool)
    ensures
        r == is_raw_path(cs@),
{
    let w = windows_device_prefix_chars();
    let u = unix_device_prefix_chars();
    chars_start_with(cs, &w) || chars_start_with(cs, &u)
}

/// Whether `path` names a raw disk or volume (`\\.\...` or `/dev/...`) rather than a file.
pub fn is_raw_device(path: &str) -> (r: bool)
    ensures
        r == is_raw_path(path@),
{
    let cs = chars_of(path);
    chars_are_raw_device(&cs)
}


/// The views of a sequence of strings.
pub open spec fn string_views(v: Seq<String>) -> Seq<Seq<char>> {
    v.map_values(|s: String| s@)
}

/// The prefix of Windows physical drive paths: `\\.\PhysicalDrive`.
pub open spec fn physical_drive_prefix() -> Seq<char> {
    "\\\\.\\PhysicalDrive"@
}

/// Whether `c` is one of the ASCII digits `0` to `9`.
pub open spec fn is_ascii_digit(c: char) -> bool {
    48 <= c as u32 <= 57
}

/// A drive number: one or more ASCII digits.
pub open spec fn is_drive_number(s: Seq<char>) -> bool {
    &&& s.len() > 0
    &&& forall|i: int| 0 <= i < s.len() ==> is_ascii_digit(#[trigger] s[i])
}

/// The Windows form of a device path: a drive number `n` stands for
/// `\\.\PhysicalDriveN`; any other path is kept as it is.
pub open spec fn normalized_path(s: Seq<char>) -> Seq<char> {
    if is_drive_number(s) {
        physical_drive_prefix() + s
    } else {
        s
    }
}

/// A trimmed entry as a device: normalized on Windows, as it is elsewhere.
pub open spec fn device_entry(t: Seq<char>, windows: bool) -> Seq<char> {
    if windows {
        normalized_path(t)
    } else {
        t
    }
}

/// The entries that a list of comma-separated pieces contributes: each piece
/// trimmed, the empty ones left out, the others taken as devices, the order kept.
pub open spec fn kept_entries(pieces: Seq<Seq<char>>, windows: bool) -> Seq<Seq<char>>
    decreases pieces.len(),
{
    if pieces.len() == 0 {
        Seq::empty()
    } else {
        let init = kept_entries(pieces.drop_last(), windows);
        let t = trim(pieces.last());
        if t.len() == 0 {
            init
        } else {
            init.push(device_entry(t, windows))
        }
    }
}

/// The device entries of one `--device` argument.
pub open spec fn arg_entries(arg: Seq<char>, windows: bool) -> Seq<Seq<char>> {
    kept_entries(split_commas(arg), windows)
}

/// The device entries of all `--device` arguments, in the order given.
pub open spec fn listed_devices(args: Seq<Seq<char>>, windows: bool) -> Seq<Seq<char>>
    decreases args.len(),
{
    if args.len() == 0 {
        Seq::empty()
    } else {
        listed_devices(args.drop_last(), windows) + arg_entries(args.last(), windows)
    }
}

/// The position of the first entry that repeats an earlier one, ignoring ASCII case.
pub open spec fn first_repeat(c: Seq<Seq<char>>) -> Option<int>
    decreases c.len(),
{
    if c.len() == 0 {
        None
    } else {
        match first_repeat(c.drop_last()) {
            Some(k) => Some(k),
            None => if exists|i: int|
                0 <= i < c.len() - 1 && eq_ignore_ascii_case(#[trigger] c[i], c.last()) {
                Some(c.len() - 1)
            } else {
                None
            },
        }
    }
}

/// Whether a device list holds both raw devices and plain files.
pub open spec fn mixes_raw_and_files(c: Seq<Seq<char>>) -> bool {
    &&& exists|i: int| 0 <= i < c.len() && is_raw_path(#[trigger] c[i])
    &&& exists|j: int| 0 <= j < c.len() && !is_raw_path(#[trigger] c[j])
}

/// The error for a device listed twice.
pub open spec fn duplicate_message(d: Seq<char>) -> Seq<char> {
    "device "@ + d + " is listed more than once"@
}

/// The error for a device list with no entries.
pub open spec fn no_devices_message() -> Seq<char> {
    "no valid devices specified"@
}

/// The error for a device list that mixes raw devices and files.
pub open spec fn mixed_message() -> Seq<char> {
    "raw devices and file paths cannot be mixed in the same run"@
}

/// What the `--device` arguments `args` amount to: the device list, or the
/// reason it is refused. On Windows each entry is normalized before it is
/// checked. A repeated device is reported first (the earliest repeat), then an
/// empty list, then a mix of raw devices and files.
pub open spec fn device_list(args: Seq<Seq<char>>, windows: bool) -> Result<
    Seq<Seq<char>>,
    Seq<char>,
> {
    let c = listed_devices(args, windows);
    match first_repeat(c) {
        Some(k) => Err(duplicate_message(c[k])),
        None => if c.len() == 0 {
            Err(no_devices_message())
        } else if mixes_raw_and_files(c) {
            Err(mixed_message())
        } else {
            Ok(c)
        },
    }
}

/// Text has at least one piece between commas.
pub(crate) proof fn lemma_split_commas_nonempty(s: Seq<char>)
    ensures
        split_commas(s).len() >= 1,
    decreases s.len(),
{
    if s.len() > 0 {
        lemma_split_commas_nonempty(s.drop_last());
    }
}

/// The pieces completed within a prefix are the first completed pieces of the whole.
proof fn lemma_split_commas_prefix(s: Seq<char>, j: int)
    requires
        0 <= j <= s.len(),
    ensures
        split_commas(s.take(j)).drop_last().is_prefix_of(split_commas(s).drop_last()),
    decreases s.len(),
{
    if j == s.len() {
        assert(s.take(j) =~= s);
    } else {
        let d = s.drop_last();
        assert(d.take(j) =~= s.take(j));
        lemma_split_commas_prefix(d, j);
        lemma_split_commas_nonempty(d);
        let init = split_commas(d);
        if s.last() == ',' {
            assert(split_commas(s).drop_last() =~= init);
        } else {
            assert(split_commas(s).drop_last() =~= init.drop_last());
        }
    }
}

proof fn lemma_kept_entries_prefix(p: Seq<Seq<char>>, s: Seq<Seq<char>>, w: bool)
    requires
        p.is_prefix_of(s),
    ensures
        kept_entries(p, w).is_prefix_of(kept_entries(s, w)),
    decreases s.len(),
{
    if p.len() == s.len() {
        assert(p =~= s);
    } else {
        let d = s.drop_last();
        assert(p.is_prefix_of(d));
        lemma_kept_entries_prefix(p, d, w);
    }
}

proof fn lemma_kept_entries_push(p: Seq<Seq<char>>, x: Seq<char>, w: bool)
    ensures
        kept_entries(p.push(x), w) == (if trim(x).len() == 0 {
            kept_entries(p, w)
        } else {
            kept_entries(p, w).push(device_entry(trim(x), w))
        }),
{
    assert(p.push(x).drop_last() =~= p);
}

proof fn lemma_listed_devices_prefix(args: Seq<Seq<char>>, j: int, w: bool)
    requires
        0 <= j <= args.len(),
    ensures
        listed_devices(args.take(j), w).is_prefix_of(listed_devices(args, w)),
    decreases args.len(),
{
    if j == args.len() {
        assert(args.take(j) =~= args);
    } else {
        let d = args.drop_last();
        assert(d.take(j) =~= args.take(j));
        lemma_listed_devices_prefix(d, j, w);
    }
}

proof fn lemma_listed_devices_take_succ(args: Seq<Seq<char>>, j: int, w: bool)
    requires
        0 <= j < args.len(),
    ensures
        listed_devices(args.take(j + 1), w) == listed_devices(args.take(j), w) + arg_entries(
            args[j],
            w,
        ),
{
    assert(args.take(j + 1).drop_last() =~= args.take(j));
}

proof fn lemma_first_repeat_bounds(c: Seq<Seq<char>>)
    ensures
        first_repeat(c) matches Some(k) ==> 0 <= k < c.len(),
    decreases c.len(),
{
    if c.len() > 0 {
        lemma_first_repeat_bounds(c.drop_last());
    }
}

/// Once an entry repeats an earlier one, later entries do not change which one it is.
proof fn lemma_first_repeat_prefix(p: Seq<Seq<char>>, s: Seq<Seq<char>>)
    requires
        p.is_prefix_of(s),
        first_repeat(p) is Some,
    ensures
        first_repeat(s) == first_repeat(p),
    decreases s.len(),
{
    if p.len() < s.len() {
        let d = s.drop_last();
        assert(p.is_prefix_of(d));
        lemma_first_repeat_prefix(p, d);
    } else {
        assert(p =~= s);
    }
}

/// Whether the characters `cs` form a drive number.
fn chars_are_drive_number(cs: &Vec<char>) -> (r: bool)
    ensures
        r == is_drive_number(cs@),
{
    if cs.len() == 0 {
        return false;
    }
    let mut i: usize = 0;
    while i < cs.len()
        invariant
            i <= cs.len(),
            forall|k: int| 0 <= k < i ==> is_ascii_digit(#[trigger] cs@[k]),
        decreases cs.len() - i,
    {
        let u = cs[i] as u32;
        if u < 48 || u > 57 {
            assert(!is_ascii_digit(cs@[i as int]));
            return false;
        }
        i = i + 1;
    }
    true
}

/// The Windows form of a device path: a drive number such as `4` becomes
/// `\\.\PhysicalDrive4`; any other path is returned unchanged.
pub fn normalize_device_path(p: &str) -> (r: String)
    ensures
        r@ == normalized_path(p@),
{
    let cs = chars_of(p);
    if chars_are_drive_number(&cs) {
        let mut r = String::from_str("\\\\.\\PhysicalDrive");
        r.append(p);
        r
    } else {
        String::from_str(p)
    }
}

/// The error text for a device that is listed twice.
fn duplicate_error(name: &String) -> (e: String)
    ensures
        e@ == duplicate_message(name@),
{
    let mut e = String::from_str("device ");
    e.append(name.as_str());
    e.append(" is listed more than once");
    e
}

/// Whether `cand` repeats, ignoring ASCII case, one of `devices`.
fn listed_already(devices: &Vec<String>, cand: &Vec<char>) -> (r: bool)
    ensures
        r == exists|i: int|
            0 <= i < devices.len() && eq_ignore_ascii_case(
                #[trigger] string_views(devices@)[i],
                cand@,
            ),
{
    let mut j: usize = 0;
    while j < devices.len()
        invariant
            j <= devices.len(),
            forall|i: int|
                0 <= i < j ==> !eq_ignore_ascii_case(#[trigger] string_views(devices@)[i], cand@),
        decreases devices.len() - j,
    {
        let d = chars_of(devices[j].as_str());
        if chars_eq_ignore_ascii_case(&d, cand) {
            assert(eq_ignore_ascii_case(string_views(devices@)[j as int], cand@));
            return true;
        }
        j = j + 1;
    }
    false
}

/// Trims the piece `cs[lo..hi]` of `arg` and, where something is left, adds it
/// to `devices` unless it repeats one of them.
fn add_piece(
    arg: &String,
    cs: &Vec<char>,
    lo: usize,
    hi: usize,
    windows: bool,
    devices: &mut Vec<String>,
) -> (r: Result<(), String>)
    requires
        cs@ == arg@,
        lo <= hi <= cs.len(),
        first_repeat(string_views(old(devices)@)) is None,
    ensures
        ({
            let c = kept_entries(seq![cs@.subrange(lo as int, hi as int)], windows);
            let all = string_views(old(devices)@) + c;
            match r {
                Ok(()) => first_repeat(all) is None && string_views(final(devices)@) == all,
                Err(e) => first_repeat(all) == Some(all.len() - 1) && e@ == duplicate_message(
                    all.last(),
                ),
            }
        }),
{
    let ghost old_views = string_views(devices@);
    let ghost piece = cs@.subrange(lo as int, hi as int);
    proof {
        lemma_kept_entries_push(Seq::empty(), piece, windows);
        assert(seq![piece] =~= Seq::<Seq<char>>::empty().push(piece));
    }
    let (a, b) = trim_bounds(cs, lo, hi);
    if a == b {
        assert(old_views + kept_entries(seq![piece], windows) =~= old_views);
        return Ok(());
    }
    let trimmed = String::from_str(arg.as_str().substring_char(a, b));
    let name = if windows {
        normalize_device_path(trimmed.as_str())
    } else {
        trimmed
    };
    let cand = chars_of(name.as_str());
    let ghost all = old_views.push(cand@);
    assert(old_views + kept_entries(seq![piece], windows) =~= all);
    assert(all.drop_last() =~= old_views);
    if listed_already(devices, &cand) {
        return Err(duplicate_error(&name));
    }
    devices.push(name);
    assert(string_views(devices@) =~= all);
    Ok(())
}

/// Adds the entries of one `--device` argument to `devices`, stopping at the
/// first entry that repeats an earlier one.
fn add_arg_entries(arg: &String, windows: bool, devices: &mut Vec<String>) -> (r: Result<
    (),
    String,
>)
    requires
        first_repeat(string_views(old(devices)@)) is None,
    ensures
        ({
            let all = string_views(old(devices)@) + arg_entries(arg@, windows);
            match r {
                Ok(()) => first_repeat(all) is None && string_views(final(devices)@) == all,
                Err(e) => first_repeat(all) is Some && e@ == duplicate_message(
                    all[first_repeat(all)->0],
                ),
            }
        }),
{
    let ghost c0 = string_views(devices@);
    let cs = chars_of(arg.as_str());
    let n = cs.len();
    let ghost mut done: Seq<Seq<char>> = Seq::empty();
    let mut start: usize = 0;
    let mut i: usize = 0;
    proof {
        assert(cs@.take(0) =~= Seq::<char>::empty());
        assert(cs@.subrange(0, 0) =~= Seq::<char>::empty());
        assert(split_commas(cs@.take(0)) =~= done.push(cs@.subrange(0, 0)));
        assert(c0 + kept_entries(done, windows) =~= c0);
    }
    while i < n
        invariant
            n == cs.len(),
            cs@ == arg@,
            c0 == string_views(old(devices)@),
            start <= i <= n,
            split_commas(cs@.take(i as int)) == done.push(cs@.subrange(start as int, i as int)),
            string_views(devices@) == c0 + kept_entries(done, windows),
            first_repeat(string_views(devices@)) is None,
        decreases n - i,
    {
        let ghost pre = cs@.take(i as int);
        proof {
            assert(cs@.take(i + 1).drop_last() =~= pre);
        }
        if cs[i] == ',' {
            let ghost piece = cs@.subrange(start as int, i as int);
            let ghost before = string_views(devices@);
            let res = add_piece(arg, &cs, start, i, windows, devices);
            proof {
                lemma_kept_entries_push(done, piece, windows);
                lemma_kept_entries_push(Seq::empty(), piece, windows);
                assert(seq![piece] =~= Seq::<Seq<char>>::empty().push(piece));
                assert(c0 + kept_entries(done.push(piece), windows) =~= before + kept_entries(
                    seq![piece],
                    windows,
                ));
            }
            match res {
                Err(e) => {
                    proof {
                        let p = done.push(piece);
                        assert(split_commas(cs@.take(i + 1)) =~= p.push(Seq::empty()));
                        assert(split_commas(cs@.take(i + 1)).drop_last() =~= p);
                        lemma_split_commas_prefix(cs@, i + 1);
                        assert(cs@.take(n as int) =~= cs@);
                        lemma_split_commas_nonempty(cs@);
                        assert(split_commas(cs@).drop_last().is_prefix_of(split_commas(cs@)));
                        assert(p.is_prefix_of(split_commas(cs@)));
                        lemma_kept_entries_prefix(p, split_commas(cs@), windows);
                        let small = c0 + kept_entries(p, windows);
                        let all = c0 + arg_entries(arg@, windows);
                        assert(small.is_prefix_of(all));
                        lemma_first_repeat_prefix(small, all);
                        assert(all[small.len() - 1] == small[small.len() - 1]);
                    }
                    return Err(e);
                },
                Ok(()) => {},
            }
            proof {
                done = done.push(piece);
                assert(cs@.subrange(i + 1, i + 1) =~= Seq::<char>::empty());
                assert(split_commas(cs@.take(i + 1)) =~= done.push(cs@.subrange(i + 1, i + 1)));
            }
            start = i + 1;
        } else {
            proof {
                lemma_split_commas_nonempty(pre);
                assert(cs@.take(i + 1).last() == cs@[i as int]);
                assert(cs@.subrange(start as int, i as int).push(cs@[i as int]) =~= cs@.subrange(
                    start as int,
                    i + 1,
                ));
                assert(split_commas(cs@.take(i + 1)) =~= done.push(
                    cs@.subrange(start as int, i + 1),
                ));
            }
        }
        i = i + 1;
    }
    let ghost piece = cs@.subrange(start as int, n as int);
    let ghost before = string_views(devices@);
    let res = add_piece(arg, &cs, start, n, windows, devices);
    proof {
        assert(cs@.take(n as int) =~= cs@);
        lemma_kept_entries_push(done, piece, windows);
        lemma_kept_entries_push(Seq::empty(), piece, windows);
        assert(seq![piece] =~= Seq::<Seq<char>>::empty().push(piece));
        assert(c0 + arg_entries(arg@, windows) =~= before + kept_entries(seq![piece], windows));
    }
    res
}

/// Parses the `--device` arguments into the list of devices to test.
///
/// Each argument may hold several devices separated by commas; every entry is
/// trimmed of white space and empty entries are skipped. With `windows` set,
/// a drive number `n` stands for `\\.\PhysicalDriveN`. The list is refused
/// when a device is listed twice (compared without regard to ASCII case),
/// when it is empty, or when it mixes raw devices with plain files.
pub fn parse_devices(device_args: Vec<String>, windows: bool) -> (r: Result<Vec<String>, String>)
    ensures
        match r {
            Ok(v) => device_list(string_views(device_args@), windows) == Ok::<
                Seq<Seq<char>>,
                Seq<char>,
            >(string_views(v@)),
            Err(e) => device_list(string_views(device_args@), windows) == Err::<
                Seq<Seq<char>>,
                Seq<char>,
            >(e@),
        },
{
    let ghost args = string_views(device_args@);
    let mut devices: Vec<String> = Vec::new();
    let mut ai: usize = 0;
    proof {
        assert(args.take(0) =~= Seq::<Seq<char>>::empty());
        assert(string_views(devices@) =~= Seq::<Seq<char>>::empty());
    }
    while ai < device_args.len()
        invariant
            args == string_views(device_args@),
            ai <= device_args.len(),
            string_views(devices@) == listed_devices(args.take(ai as int), windows),
            first_repeat(string_views(devices@)) is None,
        decreases device_args.len() - ai,
    {
        proof {
            lemma_listed_devices_take_succ(args, ai as int, windows);
        }
        match add_arg_entries(&device_args[ai], windows, &mut devices) {
            Err(e) => {
                proof {
                    lemma_listed_devices_prefix(args, ai + 1, windows);
                    assert(args.take(args.len() as int) =~= args);
                    let small = listed_devices(args.take(ai + 1), windows);
                    lemma_first_repeat_prefix(small, listed_devices(args, windows));
                    lemma_first_repeat_bounds(small);
                }
                return Err(e);
            },
            Ok(()) => {},
        }
        ai = ai + 1;
    }
    assert(args.take(ai as int) =~= args);
    if devices.len() == 0 {
        return Err(String::from_str("no valid devices specified"));
    }
    let mut any_raw = false;
    let mut any_file = false;
    let mut j: usize = 0;
    while j < devices.len()
        invariant
            j <= devices.len(),
            any_raw == exists|i: int| 0 <= i < j && is_raw_path(#[trigger] string_views(devices@)[i]),
            any_file == exists|i: int|
                0 <= i < j && !is_raw_path(#[trigger] string_views(devices@)[i]),
        decreases devices.len() - j,
    {
        let raw = is_raw_device(devices[j].as_str());
        assert(raw == is_raw_path(string_views(devices@)[j as int]));
        if raw {
            any_raw = true;
        } else {
            any_file = true;
        }
        j = j + 1;
    }
    if any_raw && any_file {
        return Err(String::from_str("raw devices and file paths cannot be mixed in the same run"));
    }
    Ok(devices)
}

} // verus!
