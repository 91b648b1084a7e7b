use vstd::prelude::*;
use crate::devices::{
    arg_entries, device_entry, device_list, first_repeat, is_drive_number, is_raw_path,
    kept_entries, lemma_split_commas_nonempty, listed_devices, mixes_raw_and_files,
    normalized_path, physical_drive_prefix,
};
use crate::text::{eq_ignore_ascii_case, is_white_space, split_commas, trim, trim_end, trim_start};

verus! {

/// An entry as it can stand in a device list: not empty, without white space
/// at either end, without a comma, and already in its device form.
pub open spec fn is_clean_entry(e: Seq<char>, windows: bool) -> bool {
    &&& e.len() > 0
    &&& trim(e) == e
    &&& !e.contains(',')
    &&& device_entry(e, windows) == e
}

/// No two entries are the same device, ASCII case aside.
pub open spec fn repeat_free(c: Seq<Seq<char>>) -> bool {
    forall|i: int, j: int|
        0 <= i < j < c.len() ==> !eq_ignore_ascii_case(#[trigger] c[i], #[trigger] c[j])
}

/// Either every device is raw or none is.
pub open spec fn all_one_kind(c: Seq<Seq<char>>) -> bool {
    (forall|i: int| 0 <= i < c.len() ==> is_raw_path(#[trigger] c[i])) || (forall|i: int|
        0 <= i < c.len() ==> !is_raw_path(#[trigger] c[i]))
}

proof fn lemma_first_repeat_none(c: Seq<Seq<char>>)
    ensures
        first_repeat(c) is None <==> repeat_free(c),
    decreases c.len(),
{
    if c.len() > 0 {
        let d = c.drop_last();
        lemma_first_repeat_none(d);
        if repeat_free(c) {
            assert(repeat_free(d)) by {
                assert forall|i: int, j: int| 0 <= i < j < d.len() implies !eq_ignore_ascii_case(
                    #[trigger] d[i],
                    #[trigger] d[j],
                ) by {
                    assert(d[i] == c[i] && d[j] == c[j]);
                }
            }
            assert(!exists|i: int|
                0 <= i < c.len() - 1 && eq_ignore_ascii_case(#[trigger] c[i], c.last()));
        }
        if first_repeat(c) is None {
            assert forall|i: int, j: int| 0 <= i < j < c.len() implies !eq_ignore_ascii_case(
                #[trigger] c[i],
                #[trigger] c[j],
            ) by {
                if j < c.len() - 1 {
                    assert(d[i] == c[i] && d[j] == c[j]);
                }
            }
        }
    }
}

/// No piece between commas holds a comma.
proof fn lemma_split_commas_no_comma(s: Seq<char>)
    ensures
        forall|k: int| 0 <= k < split_commas(s).len() ==> !(#[trigger] split_commas(s)[k]).contains(
            ',',
        ),
    decreases s.len(),
{
    if s.len() > 0 {
        let d = s.drop_last();
        lemma_split_commas_no_comma(d);
        lemma_split_commas_nonempty(d);
        let init = split_commas(d);
        if s.last() != ',' {
            let p = init.last().push(s.last());
            assert(!p.contains(',')) by {
                if p.contains(',') {
                    let m = choose|m: int| 0 <= m < p.len() && p[m] == ',';
                    assert(init.last()[m] == ',');
                    assert(init[init.len() - 1].contains(','));
                }
            }
            assert forall|k: int| 0 <= k < split_commas(s).len() implies !(
            #[trigger] split_commas(s)[k]).contains(',') by {
                if k < init.len() - 1 {
                    assert(split_commas(s)[k] == init[k]);
                }
            }
        } else {
            assert forall|k: int| 0 <= k < split_commas(s).len() implies !(
            #[trigger] split_commas(s)[k]).contains(',') by {
                if k < init.len() {
                    assert(split_commas(s)[k] == init[k]);
                } else {
                    assert(split_commas(s)[k] =~= Seq::<char>::empty());
                }
            }
        }
    }
}

/// Text without a comma is a single piece.
proof fn lemma_split_commas_single(s: Seq<char>)
    requires
        !s.contains(','),
    ensures
        split_commas(s) == seq![s],
    decreases s.len(),
{
    if s.len() > 0 {
        let d = s.drop_last();
        assert(!d.contains(',')) by {
            if d.contains(',') {
                let m = choose|m: int| 0 <= m < d.len() && d[m] == ',';
                assert(s[m] == ',');
            }
        }
        lemma_split_commas_single(d);
        assert(s.last() != ',') by {
            assert(s[s.len() - 1] == s.last());
        }
        assert(split_commas(s) =~= seq![s]) by {
            assert(d.push(s.last()) =~= s);
        }
    } else {
        assert(s =~= Seq::<char>::empty());
        assert(split_commas(s) =~= seq![s]);
    }
}

proof fn lemma_trim_start_skip(s: Seq<char>) -> (k: int)
    ensures
        0 <= k <= s.len(),
        trim_start(s) == s.skip(k),
    decreases s.len(),
{
    if s.len() > 0 && is_white_space(s[0]) {
        let k = lemma_trim_start_skip(s.drop_first());
        assert(s.drop_first().skip(k) =~= s.skip(k + 1));
        k + 1
    } else {
        assert(s.skip(0) =~= s);
        0
    }
}

proof fn lemma_trim_end_take(s: Seq<char>) -> (k: int)
    ensures
        0 <= k <= s.len(),
        trim_end(s) == s.take(k),
    decreases s.len(),
{
    if s.len() > 0 && is_white_space(s.last()) {
        let k = lemma_trim_end_take(s.drop_last());
        assert(s.drop_last().take(k) =~= s.take(k));
        k
    } else {
        assert(s.take(s.len() as int) =~= s);
        s.len() as int
    }
}

proof fn lemma_trim_start_first(s: Seq<char>)
    ensures
        trim_start(s).len() > 0 ==> !is_white_space(trim_start(s)[0]),
    decreases s.len(),
{
    if s.len() > 0 && is_white_space(s[0]) {
        lemma_trim_start_first(s.drop_first());
    }
}

proof fn lemma_trim_end_last(s: Seq<char>)
    ensures
        trim_end(s).len() > 0 ==> !is_white_space(trim_end(s).last()),
    decreases s.len(),
{
    if s.len() > 0 && is_white_space(s.last()) {
        lemma_trim_end_last(s.drop_last());
    }
}

/// Trimming keeps a stretch of the text, and trimming twice changes nothing.
proof fn lemma_trim_props(s: Seq<char>)
    ensures
        exists|a: int, b: int| 0 <= a <= b <= s.len() && trim(s) == s.subrange(a, b),
        trim(trim(s)) == trim(s),
{
    let a = lemma_trim_start_skip(s);
    let u = trim_start(s);
    let b = lemma_trim_end_take(u);
    assert(trim(s) =~= s.subrange(a, a + b));
    let t = trim(s);
    lemma_trim_start_first(s);
    lemma_trim_end_last(u);
    if t.len() > 0 {
        assert(t.last() == trim_end(u).last());
        assert(!is_white_space(t.last()));
        assert(u.len() > 0);
        assert(!is_white_space(u[0]));
        assert(t[0] == u[0]);
        assert(trim_start(t) == t);
        let t2 = trim_start(t);
        assert(trim_end(t2) == t);
    } else {
        assert(t =~= Seq::<char>::empty());
    }
}

proof fn lemma_trim_no_comma(s: Seq<char>)
    requires
        !s.contains(','),
    ensures
        !trim(s).contains(','),
{
    lemma_trim_props(s);
    let (a, b) = choose|a: int, b: int| 0 <= a <= b <= s.len() && trim(s) == s.subrange(a, b);
    if trim(s).contains(',') {
        let m = choose|m: int| 0 <= m < trim(s).len() && trim(s)[m] == ',';
        assert(s[a + m] == ',');
    }
}

/// Text that starts and ends with something other than white space is
/// already trimmed.
proof fn lemma_trim_fixed(s: Seq<char>)
    requires
        s.len() > 0,
        !is_white_space(s[0]),
        !is_white_space(s.last()),
    ensures
        trim(s) == s,
{
    assert(trim_start(s) == s);
}

/// A trimmed, comma-free, non-empty entry, taken as a device, is clean.
proof fn lemma_device_entry_clean(t: Seq<char>, w: bool)
    requires
        t.len() > 0,
        trim(t) == t,
        !t.contains(','),
    ensures
        is_clean_entry(device_entry(t, w), w),
{
    if w && is_drive_number(t) {
        let pre = physical_drive_prefix();
        reveal_strlit("\\\\.\\PhysicalDrive");
        let e = pre + t;
        assert(pre.len() == 17);
        assert(e[0] == '\\');
        assert(!is_drive_number(e)) by {
            assert(!(48 <= e[0] as u32 <= 57));
        }
        assert(normalized_path(e) == e);
        assert(e.last() == t.last());
        assert(t.last() == t[t.len() - 1]);
        assert(48 <= t[t.len() - 1] as u32 <= 57);
        lemma_trim_fixed(e);
        assert(!e.contains(',')) by {
            if e.contains(',') {
                let m = choose|m: int| 0 <= m < e.len() && e[m] == ',';
                if m >= 17 {
                    assert(t[m - 17] == ',');
                }
            }
        }
    } else if w {
        assert(normalized_path(t) == t);
    }
}

proof fn lemma_kept_entries_clean(p: Seq<Seq<char>>, w: bool)
    requires
        forall|k: int| 0 <= k < p.len() ==> !(#[trigger] p[k]).contains(','),
    ensures
        forall|k: int|
            0 <= k < kept_entries(p, w).len() ==> is_clean_entry(
                #[trigger] kept_entries(p, w)[k],
                w,
            ),
    decreases p.len(),
{
    if p.len() > 0 {
        let d = p.drop_last();
        assert forall|k: int| 0 <= k < d.len() implies !(#[trigger] d[k]).contains(',') by {
            assert(d[k] == p[k]);
        }
        lemma_kept_entries_clean(d, w);
        let x = p.last();
        assert(!x.contains(',')) by {
            assert(p[p.len() - 1] == x);
        }
        lemma_trim_no_comma(x);
        lemma_trim_props(x);
        if trim(x).len() > 0 {
            lemma_device_entry_clean(trim(x), w);
        }
        let kd = kept_entries(d, w);
        assert forall|k: int| 0 <= k < kept_entries(p, w).len() implies is_clean_entry(
            #[trigger] kept_entries(p, w)[k],
            w,
        ) by {
            if k < kd.len() {
                assert(kept_entries(p, w)[k] == kd[k]);
            } else {
                assert(kept_entries(p, w)[k] == device_entry(trim(x), w));
            }
        }
    }
}

proof fn lemma_kept_entries_add(p: Seq<Seq<char>>, q: Seq<Seq<char>>, w: bool)
    ensures
        kept_entries(p + q, w) == kept_entries(p, w) + kept_entries(q, w),
    decreases q.len(),
{
    if q.len() == 0 {
        assert(p + q =~= p);
        assert(kept_entries(p, w) + kept_entries(q, w) =~= kept_entries(p, w));
    } else {
        let q0 = q.drop_last();
        lemma_kept_entries_add(p, q0, w);
        assert((p + q).drop_last() =~= p + q0);
        assert((p + q).last() == q.last());
        let t = trim(q.last());
        if t.len() > 0 {
            assert(kept_entries(p, w) + kept_entries(q, w) =~= (kept_entries(p, w) + kept_entries(
                q0,
                w,
            )).push(device_entry(t, w)));
        }
    }
}

/// The entries of the device list are clean.
proof fn lemma_listed_devices_clean(args: Seq<Seq<char>>, w: bool)
    ensures
        forall|k: int|
            0 <= k < listed_devices(args, w).len() ==> is_clean_entry(
                #[trigger] listed_devices(args, w)[k],
                w,
            ),
    decreases args.len(),
{
    if args.len() > 0 {
        let d = args.drop_last();
        lemma_listed_devices_clean(d, w);
        lemma_split_commas_no_comma(args.last());
        lemma_kept_entries_clean(split_commas(args.last()), w);
        let l = listed_devices(d, w);
        let e = arg_entries(args.last(), w);
        assert forall|k: int| 0 <= k < listed_devices(args, w).len() implies is_clean_entry(
            #[trigger] listed_devices(args, w)[k],
            w,
        ) by {
            if k < l.len() {
                assert(listed_devices(args, w)[k] == l[k]);
            } else {
                assert(listed_devices(args, w)[k] == e[k - l.len()]);
            }
        }
    }
}

/// A list of clean entries, each given as an argument of its own, lists
/// exactly those entries.
proof fn lemma_listed_devices_of_clean(c: Seq<Seq<char>>, w: bool)
    requires
        forall|k: int| 0 <= k < c.len() ==> is_clean_entry(#[trigger] c[k], w),
    ensures
        listed_devices(c, w) == c,
    decreases c.len(),
{
    if c.len() > 0 {
        let d = c.drop_last();
        assert forall|k: int| 0 <= k < d.len() implies is_clean_entry(#[trigger] d[k], w) by {
            assert(d[k] == c[k]);
        }
        lemma_listed_devices_of_clean(d, w);
        let x = c.last();
        assert(is_clean_entry(x, w)) by {
            assert(c[c.len() - 1] == x);
        }
        lemma_split_commas_single(x);
        assert(seq![x].drop_last() =~= Seq::<Seq<char>>::empty());
        assert(kept_entries(Seq::<Seq<char>>::empty(), w) == Seq::<Seq<char>>::empty());
        assert(seq![x].last() == x);
        assert(kept_entries(seq![x], w) =~= seq![x]);
        assert(arg_entries(x, w) =~= seq![x]);
        assert(d + seq![x] =~= c);
    }
}

/// What the device list promises: it is refused exactly when it is empty,
/// names a device twice (ASCII case aside) or mixes raw devices with files;
/// an accepted list holds every entry, trimmed and in device form, with no
/// empty entry and no comma.
pub proof fn law_device_list_accepted(args: Seq<Seq<char>>, windows: bool)
    ensures
        device_list(args, windows) is Ok <==> {
            let c = listed_devices(args, windows);
            c.len() > 0 && repeat_free(c) && all_one_kind(c)
        },
        device_list(args, windows) matches Ok(c) ==> c == listed_devices(args, windows) && forall|
            k: int,
        | 0 <= k < c.len() ==> is_clean_entry(#[trigger] c[k], windows),
{
    let c = listed_devices(args, windows);
    lemma_first_repeat_none(c);
    lemma_listed_devices_clean(args, windows);
    assert(!mixes_raw_and_files(c) <==> all_one_kind(c));
}

/// Parsing an accepted device list again, each device as an argument of its
/// own, gives the same list back.
pub proof fn law_device_list_idempotent(args: Seq<Seq<char>>, windows: bool)
    requires
        device_list(args, windows) is Ok,
    ensures
        device_list(device_list(args, windows)->Ok_0, windows) == device_list(args, windows),
{
    law_device_list_accepted(args, windows);
    let c = device_list(args, windows)->Ok_0;
    lemma_listed_devices_of_clean(c, windows);
}

/// A trimmed, comma-free, non-empty argument lists one device.
proof fn lemma_arg_entries_single(t: Seq<char>, w: bool)
    requires
        t.len() > 0,
        trim(t) == t,
        !t.contains(','),
    ensures
        arg_entries(t, w) == seq![device_entry(t, w)],
{
    lemma_split_commas_single(t);
    assert(seq![t].drop_last() =~= Seq::<Seq<char>>::empty());
    assert(kept_entries(Seq::<Seq<char>>::empty(), w) == Seq::<Seq<char>>::empty());
    assert(seq![t].last() == t);
    assert(kept_entries(seq![t], w) =~= seq![device_entry(t, w)]);
}

proof fn lemma_drive_number_trimmed(n: Seq<char>)
    requires
        is_drive_number(n),
    ensures
        !n.contains(','),
        trim(n) == n,
{
    assert forall|i: int| 0 <= i < n.len() implies n[i] != ',' by {
        assert(48 <= n[i] as u32 <= 57);
    }
    assert(n.last() == n[n.len() - 1]);
    assert(48 <= n[0] as u32 <= 57);
    assert(48 <= n[n.len() - 1] as u32 <= 57);
    lemma_trim_fixed(n);
}

/// On Windows a drive number and its full path are one device: `4` lists
/// `\\.\PhysicalDrive4`, so giving both is refused as a repeat.
pub proof fn law_drive_number_is_physical_drive(n: Seq<char>)
    requires
        is_drive_number(n),
    ensures
        normalized_path(n) == physical_drive_prefix() + n,
        arg_entries(n, true) == seq![physical_drive_prefix() + n],
        arg_entries(physical_drive_prefix() + n, true) == seq![physical_drive_prefix() + n],
        device_list(seq![n, physical_drive_prefix() + n], true) matches Err(_),
{
    let e = physical_drive_prefix() + n;
    lemma_drive_number_trimmed(n);
    lemma_arg_entries_single(n, true);
    lemma_device_entry_clean(n, true);
    assert(device_entry(n, true) == e);
    lemma_arg_entries_single(e, true);
    let args = seq![n, e];
    assert(args.drop_last() =~= seq![n]);
    assert(seq![n].drop_last() =~= Seq::<Seq<char>>::empty());
    assert(args.last() == e);
    assert(seq![n].last() == n);
    assert(listed_devices(Seq::<Seq<char>>::empty(), true) == Seq::<Seq<char>>::empty());
    assert(listed_devices(seq![n], true) == listed_devices(Seq::<Seq<char>>::empty(), true)
        + arg_entries(n, true));
    assert(listed_devices(seq![n], true) =~= seq![e]);
    assert(listed_devices(args, true) == listed_devices(seq![n], true) + arg_entries(e, true));
    let c = listed_devices(args, true);
    assert(c =~= seq![e, e]);
    assert(eq_ignore_ascii_case(c[0], c[1]));
    lemma_first_repeat_none(c);
}

/// Joining two `--device` values with a comma, the pieces of the join are
/// those of the first value followed by those of the second.
proof fn lemma_split_commas_join(a: Seq<char>, b: Seq<char>)
    ensures
        split_commas(a + seq![','] + b) == split_commas(a) + split_commas(b),
    decreases b.len(),
{
    let s = a + seq![','] + b;
    if b.len() == 0 {
        assert(s.drop_last() =~= a);
        assert(split_commas(a) + split_commas(b) =~= split_commas(a).push(Seq::empty()));
    } else {
        let b0 = b.drop_last();
        lemma_split_commas_join(a, b0);
        assert(s.drop_last() =~= a + seq![','] + b0);
        assert(s.last() == b.last());
        lemma_split_commas_nonempty(b0);
        let l = split_commas(a) + split_commas(b0);
        if b.last() == ',' {
            assert(split_commas(s) =~= split_commas(a) + split_commas(b));
        } else {
            let r = split_commas(b0);
            assert(l.update(l.len() - 1, l.last().push(b.last())) =~= split_commas(a) + r.update(
                r.len() - 1,
                r.last().push(b.last()),
            ));
        }
    }
}

/// Devices may be given comma-separated in one `--device` value or in
/// `--device` values of their own: `a,b` lists what `a` and `b` list.
pub proof fn law_comma_join_same_as_separate(a: Seq<char>, b: Seq<char>, windows: bool)
    ensures
        listed_devices(seq![a + seq![','] + b], windows) == listed_devices(seq![a, b], windows),
        device_list(seq![a + seq![','] + b], windows) == device_list(seq![a, b], windows),
{
    lemma_split_commas_join(a, b);
    lemma_kept_entries_add(split_commas(a), split_commas(b), windows);
    let j = a + seq![','] + b;
    assert(seq![j].drop_last() =~= Seq::<Seq<char>>::empty());
    assert(seq![a, b].drop_last() =~= seq![a]);
    assert(seq![a].drop_last() =~= Seq::<Seq<char>>::empty());
    assert(listed_devices(Seq::<Seq<char>>::empty(), windows) == Seq::<Seq<char>>::empty());
    assert(seq![j].last() == j);
    assert(seq![a].last() == a);
    assert(seq![a, b].last() == b);
    assert(listed_devices(seq![j], windows) =~= arg_entries(j, windows));
    assert(listed_devices(seq![a], windows) =~= arg_entries(a, windows));
}

/// On Windows every drive number, written with the digits `0` to `9`, stands
/// for the physical drive of that number: `0` is `\\.\PhysicalDrive0`, `10` is
/// `\\.\PhysicalDrive10`. An entry that is empty or holds a character outside
/// `0` to `9` is kept as it is.
pub proof fn law_drive_number_form(n: Seq<char>)
    ensures
        (n.len() > 0 && forall|i: int|
            0 <= i < n.len() ==> seq!['0', '1', '2', '3', '4', '5', '6', '7', '8', '9'].contains(
                #[trigger] n[i],
            )) ==> normalized_path(n) == seq![
            '\\', '\\', '.', '\\', 'P', 'h', 'y', 's', 'i', 'c', 'a', 'l', 'D', 'r', 'i', 'v', 'e',
        ] + n,
        (n.len() == 0 || exists|i: int|
            0 <= i < n.len() && !('0' as u32 <= (#[trigger] n[i]) as u32 <= '9' as u32))
            ==> normalized_path(n) == n,
{
    let digits = seq!['0', '1', '2', '3', '4', '5', '6', '7', '8', '9'];
    reveal_strlit("\\\\.\\PhysicalDrive");
    assert(physical_drive_prefix() =~= seq![
        '\\', '\\', '.', '\\', 'P', 'h', 'y', 's', 'i', 'c', 'a', 'l', 'D', 'r', 'i', 'v', 'e',
    ]);
    assert forall|i: int| 0 <= i < n.len() && digits.contains(#[trigger] n[i]) implies 48
        <= n[i] as u32 <= 57 by {
        let c = n[i];
        let j = choose|j: int| 0 <= j < digits.len() && digits[j] == c;
        assert(0 <= j < 10);
        if j == 0 { assert(c == '0'); } else if j == 1 { assert(c == '1'); }
        else if j == 2 { assert(c == '2'); } else if j == 3 { assert(c == '3'); }
        else if j == 4 { assert(c == '4'); } else if j == 5 { assert(c == '5'); }
        else if j == 6 { assert(c == '6'); } else if j == 7 { assert(c == '7'); }
        else if j == 8 { assert(c == '8'); } else { assert(c == '9'); }
    }
}

} // verus!
