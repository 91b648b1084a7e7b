use vstd::prelude::*;
use crate::devices::{is_raw_device, is_raw_path, string_views};
use crate::text::chars_of;

verus! {

broadcast use vstd::string::group_string_axioms;

/// Whether `needle` occurs in `s`.
pub open spec fn contains_text(s: Seq<char>, needle: Seq<char>) -> bool {
    exists|i: int|
        0 <= i <= s.len() - needle.len() && #[trigger] s.subrange(i, i + needle.len()) == needle
}

/// The four tests of a benchmark run.
#[derive(Debug, Clone, Copy, PartialEq, Eq)]
pub struct TestSelection {
    pub read_throughput: bool,
    pub write_throughput: bool,
    pub read_iops: bool,
    pub write_iops: bool,
}

/// Whether a `--tests` value picks the test named `name`: `all` picks every
/// test, any other value picks the tests whose names occur in it.
pub open spec fn picks(tests: Seq<char>, name: Seq<char>) -> bool {
    tests == "all"@ || contains_text(tests, name)
}

fn chars_eq(a: &Vec<char>, b: &Vec<char>) -> (r: bool)
    ensures
        r == (a@ == b@),
{
    if a.len() != b.len() {
        return false;
    }
    let mut i: usize = 0;
    while i < a.len()
        invariant
            a.len() == b.len(),
            i <= a.len(),
            forall|k: int| 0 <= k < i ==> a@[k] == b@[k],
        decreases a.len() - i,
    {
        if a[i] != b[i] {
            return false;
        }
        i = i + 1;
    }
    assert(a@ =~= b@);
    true
}

fn chars_contain(s: &Vec<char>, needle: &Vec<char>) -> (r: bool)
    ensures
        r == contains_text(s@, needle@),
{
    if needle.len() > s.len() {
        return false;
    }
    let last = s.len() - needle.len();
    let mut i: usize = 0;
    while i <= last
        invariant
            last == s.len() - needle.len(),
            i <= last + 1,
            forall|j: int| 0 <= j < i ==> #[trigger] s@.subrange(j, j + needle.len()) != needle@,
        decreases last + 1 - i,
    {
        let mut k: usize = 0;
        let mut same = true;
        while k < needle.len()
            invariant
                i <= last,
                last == s.len() - needle.len(),
                k <= needle.len(),
                same == forall|m: int| 0 <= m < k ==> s@[i + m] == needle@[m],
            decreases needle.len() - k,
        {
            if s[i + k] != needle[k] {
                same = false;
            }
            k = k + 1;
        }
        if same {
            assert(s@.subrange(i as int, i + needle.len()) =~= needle@);
            return true;
        }
        assert(s@.subrange(i as int, i + needle.len()) != needle@) by {
            let m = choose|m: int| 0 <= m < needle.len() && s@[i + m] != needle@[m];
            assert(s@.subrange(i as int, i + needle.len())[m] == s@[i + m]);
        }
        i = i + 1;
    }
    false
}

fn picks_test(tests: &Vec<char>, all: bool, name: &str) -> (r: bool)
    requires
        all == (tests@ == "all"@),
    ensures
        r == picks(tests@, name@),
{
    all || chars_contain(tests, &chars_of(name))
}

/// The tests that a `--tests` value selects.
pub fn select_tests(tests: &str) -> (r: TestSelection)
    ensures
        r.read_throughput == picks(tests@, "read-tp"@),
        r.write_throughput == picks(tests@, "write-tp"@),
        r.read_iops == picks(tests@, "read-iops"@),
        r.write_iops == picks(tests@, "write-iops"@),
{
    let cs = chars_of(tests);
    let all = chars_eq(&cs, &chars_of("all"));
    TestSelection {
        read_throughput: picks_test(&cs, all, "read-tp"),
        write_throughput: picks_test(&cs, all, "write-tp"),
        read_iops: picks_test(&cs, all, "read-iops"),
        write_iops: picks_test(&cs, all, "write-iops"),
    }
}

/// Whether any of `devices` is a raw device rather than a file.
pub fn any_raw_device(devices: &Vec<String>) -> (r: bool)
    ensures
        r == exists|i: int| 0 <= i < devices.len() && is_raw_path(#[trigger] string_views(devices@)[i]),
{
    let mut i: usize = 0;
    while i < devices.len()
        invariant
            i <= devices.len(),
            forall|j: int| 0 <= j < i ==> !is_raw_path(#[trigger] string_views(devices@)[j]),
        decreases devices.len() - i,
    {
        if is_raw_device(devices[i].as_str()) {
            assert(is_raw_path(string_views(devices@)[i as int]));
            return true;
        }
        i = i + 1;
    }
    false
}

/// What becomes of a request to prepare the devices.
#[derive(Debug, Clone, Copy, PartialEq, Eq)]
pub enum PrepStep {
    /// No preparation was asked for.
    NotRequested,
    /// The files were just created, already full of random data.
    SkipAfterCreate,
    /// The devices are prepared.
    Run,
}

/// Decides the preparation step: a request to prepare is skipped when the
/// files are being created in the same run.
pub fn prep_step(prep: bool, create_file: bool) -> (r: PrepStep)
    ensures
        r == (if prep && create_file {
            PrepStep::SkipAfterCreate
        } else if prep {
            PrepStep::Run
        } else {
            PrepStep::NotRequested
        }),
{
    if prep && create_file {
        PrepStep::SkipAfterCreate
    } else if prep {
        PrepStep::Run
    } else {
        PrepStep::NotRequested
    }
}

/// The decimal digit `d` as a character.
pub open spec fn digit_char(d: nat) -> char {
    ('0' as u32 + d) as char
}

/// The decimal notation of `n`.
pub open spec fn decimal(n: nat) -> Seq<char>
    decreases n,
{
    if n < 10 {
        seq![digit_char(n)]
    } else {
        decimal(n / 10).push(digit_char(n % 10))
    }
}

/// How the devices of a run are named in its reports: the device itself when
/// there is one, otherwise their number and the word "devices".
pub open spec fn device_label(devices: Seq<Seq<char>>) -> Seq<char> {
    if devices.len() == 1 {
        devices[0]
    } else {
        decimal(devices.len()) + " devices"@
    }
}

fn digit_str(d: usize) -> (r: &'static str)
    requires
        d < 10,
    ensures
        r@ == seq![digit_char(d as nat)],
{
    proof {
        reveal_strlit("0");
        reveal_strlit("1");
        reveal_strlit("2");
        reveal_strlit("3");
        reveal_strlit("4");
        reveal_strlit("5");
        reveal_strlit("6");
        reveal_strlit("7");
        reveal_strlit("8");
        reveal_strlit("9");
    }
    let r = match d {
        0 => "0",
        1 => "1",
        2 => "2",
        3 => "3",
        4 => "4",
        5 => "5",
        6 => "6",
        7 => "7",
        8 => "8",
        _ => "9",
    };
    assert(r@ =~= seq![digit_char(d as nat)]);
    r
}

/// Appends the decimal notation of `n` to `s`.
pub fn append_decimal(s: &mut String, n: usize)
    ensures
        final(s)@ == old(s)@ + decimal(n as nat),
    decreases n,
{
    if n >= 10 {
        append_decimal(s, n / 10);
    }
    s.append(digit_str(n % 10));
    assert(s@ =~= old(s)@ + decimal(n as nat)) by {
        if n >= 10 {
            assert(decimal(n as nat) == decimal((n / 10) as nat).push(digit_char((n % 10) as nat)));
        }
    }
}

/// The name of the devices of a run, as the reports show it.
pub fn device_display(devices: &Vec<String>) -> (r: String)
    ensures
        r@ == device_label(string_views(devices@)),
{
    if devices.len() == 1 {
        return devices[0].clone();
    }
    let mut r = String::new();
    append_decimal(&mut r, devices.len());
    r.append(" devices");
    assert(r@ =~= device_label(string_views(devices@)));
    r
}

/// A text occurs wherever it stands: in `a + needle + b` for every `a` and
/// `b`, and so in itself. In particular a `--tests` value that names a test,
/// alone or among others, selects that test.
pub proof fn law_text_occurs_where_it_stands(a: Seq<char>, needle: Seq<char>, b: Seq<char>)
    ensures
        contains_text(a + needle + b, needle),
        contains_text(needle, needle),
        picks(a + needle + b, needle),
{
    let s = a + needle + b;
    assert(s.subrange(a.len() as int, (a.len() + needle.len()) as int) =~= needle);
    assert(needle.subrange(0int, 0int + needle.len()) =~= needle);
}

/// Only a stretch of the text is found in it: whatever is found is `needle`
/// standing between some `a` and `b`.
pub proof fn law_found_text_stands_in_it(s: Seq<char>, needle: Seq<char>)
    requires
        contains_text(s, needle),
    ensures
        exists|a: Seq<char>, b: Seq<char>| #[trigger] (a + needle + b) == s,
{
    let i = choose|i: int|
        0 <= i <= s.len() - needle.len() && #[trigger] s.subrange(i, i + needle.len()) == needle;
    let a = s.subrange(0, i);
    let b = s.subrange(i + needle.len(), s.len() as int);
    assert(a + needle + b =~= s);
}

} // verus!
