//! Text that the profiler builds and reads: decimal numbers, sysfs paths
//! and the joined lines of `rocm-smi` output.
use vstd::prelude::*;
use vstd::string::{StrSliceExecFns, StringExecFns};

verus! {

/// The character of a decimal digit.
pub open spec fn digit_char(d: int) -> char {
    if d == 0 {
        '0'
    } else if d == 1 {
        '1'
    } else if d == 2 {
        '2'
    } else if d == 3 {
        '3'
    } else if d == 4 {
        '4'
    } else if d == 5 {
        '5'
    } else if d == 6 {
        '6'
    } else if d == 7 {
        '7'
    } else if d == 8 {
        '8'
    } else {
        '9'
    }
}

/// The decimal representation of `n`, without leading zeros.
pub open spec fn decimal(n: nat) -> Seq<char>
    decreases n,
{
    if n < 10 {
        seq![digit_char(n as int)]
    } else {
        decimal(n / 10).push(digit_char((n % 10) as int))
    }
}

fn digit_str(d: u64) -> (s: &'static str)
    requires
        d < 10,
    ensures
        s@ == seq![digit_char(d as int)],
{
    proof {
        reveal_strlit("0");
        reveal_strlit("1");
        reveal_strlit("2");
        reveal_strlit("3");
        reveal_strlit("4");
        reveal_strlit("5");
        reveal_strlit("6");
        reveal_strlit("7");
        reveal_strlit("8");
        reveal_strlit("9");
    }
    if d == 0 {
        "0"
    } else if d == 1 {
        "1"
    } else if d == 2 {
        "2"
    } else if d == 3 {
        "3"
    } else if d == 4 {
        "4"
    } else if d == 5 {
        "5"
    } else if d == 6 {
        "6"
    } else if d == 7 {
        "7"
    } else if d == 8 {
        "8"
    } else {
        "9"
    }
}

fn append_decimal(s: &mut String, n: u64)
    ensures
        final(s)@ == old(s)@ + decimal(n as nat),
    decreases n,
{
    if n >= 10 {
        append_decimal(s, n / 10);
    }
    s.append(digit_str(n % 10));
}

/// Writes `n` in decimal, as `n.to_string()` does.
pub fn decimal_string(n: u64) -> (s: String)
    ensures
        s@ == decimal(n as nat),
{
    let mut s = String::new();
    append_decimal(&mut s, n);
    s
}

/// The sysfs files that the profiler reads for a card.
#[derive(Debug, Clone, Copy, PartialEq, Eq, Structural)]
pub enum SysfsFile {
    GpuBusy,
    VramUsed,
    VramTotal,
}

/// Path of a file below a card's device directory, from that directory.
pub open spec fn sysfs_suffix(f: SysfsFile) -> Seq<char> {
    match f {
        SysfsFile::GpuBusy => "/gpu_busy_percent"@,
        SysfsFile::VramUsed => "/mem_info_vram_used"@,
        SysfsFile::VramTotal => "/mem_info_vram_total"@,
    }
}

/// `/sys/class/drm/card<gpu_id>/device`.
pub open spec fn device_dir(gpu_id: nat) -> Seq<char> {
    "/sys/class/drm/card"@ + decimal(gpu_id) + "/device"@
}

fn suffix_str(f: SysfsFile) -> (s: &'static str)
    ensures
        s@ == sysfs_suffix(f),
{
    match f {
        SysfsFile::GpuBusy => "/gpu_busy_percent",
        SysfsFile::VramUsed => "/mem_info_vram_used",
        SysfsFile::VramTotal => "/mem_info_vram_total",
    }
}

/// The device directory of card `gpu_id` in sysfs.
pub fn device_dir_path(gpu_id: u32) -> (p: String)
    ensures
        p@ == device_dir(gpu_id as nat),
{
    let mut p = String::from_str("/sys/class/drm/card");
    append_decimal(&mut p, gpu_id as u64);
    p.append("/device");
    p
}

/// The sysfs file `f` of card `gpu_id`.
pub fn sysfs_path(gpu_id: u32, f: SysfsFile) -> (p: String)
    ensures
        p@ == device_dir(gpu_id as nat) + sysfs_suffix(f),
{
    let mut p = device_dir_path(gpu_id);
    p.append(suffix_str(f));
    p
}

/// The hwmon sensor files that the profiler reads for a card.
#[derive(Debug, Clone, Copy, PartialEq, Eq, Structural)]
pub enum HwmonFile {
    /// Average power draw, in microwatts.
    Power,
    /// Edge temperature, in millidegrees Celsius.
    Temperature,
}

/// Name of a sensor file inside a hwmon directory.
pub open spec fn hwmon_file_name(f: HwmonFile) -> Seq<char> {
    match f {
        HwmonFile::Power => "power1_average"@,
        HwmonFile::Temperature => "temp1_input"@,
    }
}

/// `/sys/class/drm/card<gpu_id>/device/hwmon`, the directory that holds
/// the card's hwmon devices.
pub open spec fn hwmon_root(gpu_id: nat) -> Seq<char> {
    device_dir(gpu_id) + "/hwmon"@
}

/// A hwmon device directory is named `hwmon` followed by its number.
pub open spec fn is_hwmon_name(name: Seq<char>) -> bool {
    &&& name.len() > 5
    &&& name.subrange(0, 5) == "hwmon"@
    &&& all_digits(name.subrange(5, name.len() as int))
}

/// The directory that lists the hwmon devices of card `gpu_id`.
pub fn hwmon_root_path(gpu_id: u32) -> (p: String)
    ensures
        p@ == hwmon_root(gpu_id as nat),
{
    let mut p = device_dir_path(gpu_id);
    p.append("/hwmon");
    p
}

fn is_digit_char(c: char) -> (b: bool)
    ensures
        b == is_digit(c),
{
    '0' <= c && c <= '9'
}

/// Tells whether a directory entry names a hwmon device (`hwmon<digits>`).
pub fn hwmon_name_matches(name: &str) -> (b: bool)
    ensures
        b == is_hwmon_name(name@),
{
    proof {
        reveal_strlit("hwmon");
    }
    let n: usize = name.unicode_len();
    if n <= 5 {
        return false;
    }
    if !(name.get_char(0) == 'h' && name.get_char(1) == 'w' && name.get_char(2) == 'm'
        && name.get_char(3) == 'o' && name.get_char(4) == 'n') {
        assert(name@.subrange(0, 5) != "hwmon"@) by {
            if name@.subrange(0, 5) == "hwmon"@ {
                assert(name@.subrange(0, 5)[0] == name@[0]);
                assert(name@.subrange(0, 5)[1] == name@[1]);
                assert(name@.subrange(0, 5)[2] == name@[2]);
                assert(name@.subrange(0, 5)[3] == name@[3]);
                assert(name@.subrange(0, 5)[4] == name@[4]);
            }
        }
        return false;
    }
    assert(name@.subrange(0, 5) =~= "hwmon"@);
    let mut i: usize = 5;
    while i < n
        invariant
            5 <= i <= n,
            n == name@.len(),
            forall|k: int| 5 <= k < i ==> is_digit(#[trigger] name@[k]),
        decreases n - i,
    {
        if !is_digit_char(name.get_char(i)) {
            assert(name@.subrange(5, n as int)[i - 5] == name@[i as int]);
            return false;
        }
        i = i + 1;
    }
    assert forall|k: int| 0 <= k < name@.subrange(5, n as int).len() implies is_digit(
        #[trigger] name@.subrange(5, n as int)[k],
    ) by {
        assert(name@.subrange(5, n as int)[k] == name@[k + 5]);
    }
    true
}

/// Picks the hwmon device among the entries of a card's hwmon directory:
/// the first entry named `hwmon<digits>`, or none where no entry is.
pub fn pick_hwmon(names: &Vec<String>) -> (r: Option<usize>)
    ensures
        match r {
            Some(i) => i < names@.len() && is_hwmon_name(names@[i as int]@) && forall|j: int|
                0 <= j < i ==> !is_hwmon_name(#[trigger] names@[j]@),
            None => forall|j: int| 0 <= j < names@.len() ==> !is_hwmon_name(#[trigger] names@[j]@),
        },
{
    let n: usize = names.len();
    for i in 0..n
        invariant
            n == names@.len(),
            forall|j: int| 0 <= j < i ==> !is_hwmon_name(#[trigger] names@[j]@),
    {
        if hwmon_name_matches(names[i].as_str()) {
            return Some(i);
        }
    }
    None
}

/// `<hwmon root of gpu_id>/<hwmon>/<file>`.
pub open spec fn hwmon_file(gpu_id: nat, hwmon: Seq<char>, f: HwmonFile) -> Seq<char> {
    hwmon_root(gpu_id) + "/"@ + hwmon + "/"@ + hwmon_file_name(f)
}

fn hwmon_file_str(f: HwmonFile) -> (s: &'static str)
    ensures
        s@ == hwmon_file_name(f),
{
    match f {
        HwmonFile::Power => "power1_average",
        HwmonFile::Temperature => "temp1_input",
    }
}

/// The sensor file `f` of the hwmon device `hwmon` (a directory name found
/// under the card's hwmon directory) of card `gpu_id`.
pub fn hwmon_path(gpu_id: u32, hwmon: &str, f: HwmonFile) -> (p: String)
    ensures
        p@ == hwmon_file(gpu_id as nat, hwmon@, f),
{
    let mut p = hwmon_root_path(gpu_id);
    p.append("/");
    p.append(hwmon);
    p.append("/");
    p.append(hwmon_file_str(f));
    p
}

/// Two cards never share a hwmon sensor file, whatever hwmon devices and
/// files are read on each.
pub proof fn lemma_hwmon_paths_distinct(
    g1: nat,
    h1: Seq<char>,
    f1: HwmonFile,
    g2: nat,
    h2: Seq<char>,
    f2: HwmonFile,
)
    requires
        g1 != g2,
    ensures
        hwmon_file(g1, h1, f1) != hwmon_file(g2, h2, f2),
{
    let pre = "/sys/class/drm/card"@;
    let post1 = "/device"@ + "/hwmon"@ + "/"@ + h1 + "/"@ + hwmon_file_name(f1);
    let post2 = "/device"@ + "/hwmon"@ + "/"@ + h2 + "/"@ + hwmon_file_name(f2);
    reveal_strlit("/sys/class/drm/card");
    reveal_strlit("/device");
    lemma_decimal_denotes(g1);
    lemma_decimal_denotes(g2);
    let p1 = hwmon_file(g1, h1, f1);
    let p2 = hwmon_file(g2, h2, f2);
    assert(p1 =~= pre + (decimal(g1) + post1));
    assert(p2 =~= pre + (decimal(g2) + post2));
    if p1 == p2 {
        assert(decimal(g1) + post1 =~= p1.subrange(pre.len() as int, p1.len() as int));
        assert(decimal(g2) + post2 =~= p2.subrange(pre.len() as int, p2.len() as int));
        assert(post1[0] == '/');
        assert(post2[0] == '/');
        lemma_digit_run_prefix(decimal(g1), post1, decimal(g2), post2);
        lemma_decimal_injective(g1, g2);
    }
}

/// `/tmp/rocprobe_trace_<gpu_id>.json`.
pub open spec fn trace_file(gpu_id: nat) -> Seq<char> {
    "/tmp/rocprobe_trace_"@ + decimal(gpu_id) + ".json"@
}

/// Two GPUs never share a trace file.
pub proof fn lemma_trace_files_distinct(g1: nat, g2: nat)
    requires
        g1 != g2,
    ensures
        trace_file(g1) != trace_file(g2),
{
    let pre = "/tmp/rocprobe_trace_"@;
    let post = ".json"@;
    reveal_strlit("/tmp/rocprobe_trace_");
    reveal_strlit(".json");
    lemma_decimal_denotes(g1);
    lemma_decimal_denotes(g2);
    let p1 = trace_file(g1);
    let p2 = trace_file(g2);
    assert(p1 =~= pre + (decimal(g1) + post));
    assert(p2 =~= pre + (decimal(g2) + post));
    if p1 == p2 {
        assert(decimal(g1) + post =~= p1.subrange(pre.len() as int, p1.len() as int));
        assert(decimal(g2) + post =~= p2.subrange(pre.len() as int, p2.len() as int));
        assert(post[0] == '.');
        lemma_digit_run_prefix(decimal(g1), post, decimal(g2), post);
        lemma_decimal_injective(g1, g2);
    }
}

/// The file in which rocprof leaves the trace of GPU `gpu_id`.
pub fn trace_file_path(gpu_id: u32) -> (p: String)
    ensures
        p@ == trace_file(gpu_id as nat),
{
    let mut p = String::from_str("/tmp/rocprobe_trace_");
    append_decimal(&mut p, gpu_id as u64);
    p.append(".json");
    p
}


pub open spec fn is_digit(c: char) -> bool {
    '0' <= c && c <= '9'
}

pub open spec fn all_digits(s: Seq<char>) -> bool {
    forall|i: int| 0 <= i < s.len() ==> is_digit(#[trigger] s[i])
}

/// The number that a string of decimal digits denotes.
pub open spec fn digits_value(s: Seq<char>) -> int
    decreases s.len(),
{
    if s.len() == 0 {
        0
    } else {
        digits_value(s.drop_last()) * 10 + (s.last() as int - '0' as int)
    }
}

proof fn lemma_digit_char(d: int)
    requires
        0 <= d < 10,
    ensures
        is_digit(digit_char(d)),
        digit_char(d) as int - '0' as int == d,
{
}

/// A decimal representation is a non-empty string of digits that denotes
/// the number.
pub proof fn lemma_decimal_denotes(n: nat)
    ensures
        decimal(n).len() > 0,
        all_digits(decimal(n)),
        digits_value(decimal(n)) == n,
    decreases n,
{
    if n < 10 {
        lemma_digit_char(n as int);
        assert(decimal(n).drop_last() =~= Seq::<char>::empty());
        assert(digits_value(Seq::<char>::empty()) == 0);
    } else {
        lemma_decimal_denotes(n / 10);
        lemma_digit_char((n % 10) as int);
        let d = decimal(n / 10);
        assert(decimal(n).drop_last() =~= d);
        assert(digits_value(decimal(n)) == digits_value(d) * 10 + (n % 10));
        assert((n / 10) * 10 + n % 10 == n) by (nonlinear_arith);
        assert forall|i: int| 0 <= i < decimal(n).len() implies is_digit(#[trigger] decimal(n)[i]) by {
            if i < d.len() {
                assert(decimal(n)[i] == d[i]);
            }
        }
    }
}

/// Distinct numbers have distinct decimal representations.
pub proof fn lemma_decimal_injective(a: nat, b: nat)
    requires
        decimal(a) == decimal(b),
    ensures
        a == b,
{
    lemma_decimal_denotes(a);
    lemma_decimal_denotes(b);
}

/// A run of digits followed by text that does not start with a digit can
/// be read back: if two such concatenations are equal, so are the runs.
proof fn lemma_digit_run_prefix(a: Seq<char>, x: Seq<char>, b: Seq<char>, y: Seq<char>)
    requires
        all_digits(a),
        all_digits(b),
        x.len() > 0,
        y.len() > 0,
        !is_digit(x[0]),
        !is_digit(y[0]),
        a + x == b + y,
    ensures
        a == b,
        x == y,
{
    if a.len() < b.len() {
        assert((a + x)[a.len() as int] == x[0]);
        assert((b + y)[a.len() as int] == b[a.len() as int]);
    } else if b.len() < a.len() {
        assert((a + x)[b.len() as int] == a[b.len() as int]);
        assert((b + y)[b.len() as int] == y[0]);
    }
    assert(a =~= (a + x).subrange(0, a.len() as int));
    assert(b =~= (b + y).subrange(0, b.len() as int));
    assert(x =~= (a + x).subrange(a.len() as int, (a + x).len() as int));
    assert(y =~= (b + y).subrange(b.len() as int, (b + y).len() as int));
}

/// Two cards never share a sysfs file: the paths of the same file of two
/// different cards differ, and so do the paths of two different files.
pub proof fn lemma_sysfs_paths_distinct(g1: nat, f1: SysfsFile, g2: nat, f2: SysfsFile)
    requires
        g1 != g2 || f1 != f2,
    ensures
        device_dir(g1) + sysfs_suffix(f1) != device_dir(g2) + sysfs_suffix(f2),
{
    let pre = "/sys/class/drm/card"@;
    let post1 = "/device"@ + sysfs_suffix(f1);
    let post2 = "/device"@ + sysfs_suffix(f2);
    reveal_strlit("/sys/class/drm/card");
    reveal_strlit("/device");
    reveal_strlit("/gpu_busy_percent");
    reveal_strlit("/mem_info_vram_used");
    reveal_strlit("/mem_info_vram_total");
    lemma_decimal_denotes(g1);
    lemma_decimal_denotes(g2);
    let p1 = device_dir(g1) + sysfs_suffix(f1);
    let p2 = device_dir(g2) + sysfs_suffix(f2);
    assert(p1 =~= pre + (decimal(g1) + post1));
    assert(p2 =~= pre + (decimal(g2) + post2));
    if p1 == p2 {
        assert(decimal(g1) + post1 =~= p1.subrange(pre.len() as int, p1.len() as int));
        assert(decimal(g2) + post2 =~= p2.subrange(pre.len() as int, p2.len() as int));
        assert(post1[0] == '/');
        assert(post2[0] == '/');
        lemma_digit_run_prefix(decimal(g1), post1, decimal(g2), post2);
        lemma_decimal_injective(g1, g2);
        assert(sysfs_suffix(f1) =~= post1.subrange(7, post1.len() as int));
        assert(sysfs_suffix(f2) =~= post2.subrange(7, post2.len() as int));
        assert(f1 == f2) by {
            if f1 != f2 {
                assert(sysfs_suffix(f1).len() != sysfs_suffix(f2).len());
            }
        }
    }
}


/// Index of the first line feed (byte 10) in `s`, or -1 where there is none.
pub open spec fn first_newline(s: Seq<u8>) -> int
    decreases s.len(),
{
    if s.len() == 0 {
        -1
    } else if s[0] == 10 {
        0
    } else if first_newline(s.drop_first()) < 0 {
        -1
    } else {
        first_newline(s.drop_first()) + 1
    }
}

/// The first line feed, where there is one, lies inside the text.
pub proof fn lemma_first_newline_range(s: Seq<u8>)
    ensures
        -1 <= first_newline(s) < s.len(),
        first_newline(s) >= 0 ==> s[first_newline(s)] == 10,
    decreases s.len(),
{
    if s.len() > 0 {
        lemma_first_newline_range(s.drop_first());
    }
}

/// A line without its line feed, and without the carriage return before it.
pub open spec fn strip_cr(l: Seq<u8>) -> Seq<u8> {
    if l.len() > 0 && l.last() == 13 {
        l.drop_last()
    } else {
        l
    }
}

/// The lines of a text, as `str::lines` yields them: split at each line
/// feed, with a carriage return before a line feed removed; a final line
/// without a line feed is kept as it is, and a text that ends in a line feed
/// has no empty last line.
pub open spec fn lines(s: Seq<u8>) -> Seq<Seq<u8>>
    decreases s.len(),
{
    if s.len() == 0 {
        Seq::empty()
    } else if first_newline(s) < 0 {
        seq![s]
    } else {
        proof {
            lemma_first_newline_range(s);
        }
        seq![strip_cr(s.take(first_newline(s)))] + lines(s.skip(first_newline(s) + 1))
    }
}

/// The pieces of `ls`, with `sep` between each two of them.
pub open spec fn join(ls: Seq<Seq<u8>>, sep: Seq<u8>) -> Seq<u8>
    decreases ls.len(),
{
    if ls.len() == 0 {
        Seq::empty()
    } else if ls.len() == 1 {
        ls[0]
    } else {
        join(ls.drop_last(), sep) + sep + ls.last()
    }
}

/// The separator that `memband` samples put between the lines of
/// `rocm-smi` output.
pub open spec fn line_separator() -> Seq<u8> {
    seq![32u8, 124u8, 32u8]
}

proof fn lemma_first_newline(s: Seq<u8>, m: int)
    requires
        0 <= m <= s.len(),
        forall|k: int| 0 <= k < m ==> s[k] != 10,
    ensures
        m < s.len() && s[m] == 10 ==> first_newline(s) == m,
        m == s.len() ==> first_newline(s) == -1,
    decreases m,
{
    if m > 0 {
        lemma_first_newline(s.drop_first(), m - 1);
    }
}

proof fn lemma_join_push(ls: Seq<Seq<u8>>, l: Seq<u8>, sep: Seq<u8>)
    ensures
        ls.len() == 0 ==> join(ls.push(l), sep) == l,
        ls.len() > 0 ==> join(ls.push(l), sep) == join(ls, sep) + sep + l,
{
    assert(ls.push(l).drop_last() =~= ls);
}

pub open spec fn no_newline(s: Seq<u8>) -> bool {
    forall|k: int| 0 <= k < s.len() ==> #[trigger] s[k] != 10
}

proof fn lemma_lines_no_newline(s: Seq<u8>)
    ensures
        forall|i: int| 0 <= i < lines(s).len() ==> no_newline(#[trigger] lines(s)[i]),
    decreases s.len(),
{
    if s.len() > 0 {
        let m: int = first_newline(s);
        lemma_first_newline_range(s);
        if m < 0 {
            lemma_no_newline_when_none(s);
        } else {
            lemma_first_newline_is_first(s);
            lemma_lines_no_newline(s.skip(m + 1));
            let head = strip_cr(s.take(m));
            assert(no_newline(head)) by {
                assert forall|k: int| 0 <= k < head.len() implies #[trigger] head[k] != 10 by {
                    assert(head[k] == s[k]);
                }
            }
            let ls = lines(s);
            assert forall|i: int| 0 <= i < ls.len() implies no_newline(#[trigger] ls[i]) by {
                if i > 0 {
                    assert(ls[i] == lines(s.skip(m + 1))[i - 1]);
                }
            }
        }
    }
}

proof fn lemma_first_newline_is_first(s: Seq<u8>)
    ensures
        forall|k: int| 0 <= k < first_newline(s) ==> s[k] != 10,
    decreases s.len(),
{
    if s.len() > 0 && s[0] != 10 {
        let t = s.drop_first();
        lemma_first_newline_is_first(t);
        lemma_first_newline_range(s);
        assert forall|k: int| 0 <= k < first_newline(s) implies s[k] != 10 by {
            if k > 0 {
                assert(s[k] == t[k - 1]);
            }
        }
    }
}

proof fn lemma_no_newline_when_none(s: Seq<u8>)
    requires
        first_newline(s) < 0,
    ensures
        no_newline(s),
    decreases s.len(),
{
    if s.len() > 0 {
        lemma_no_newline_when_none(s.drop_first());
        assert(forall|k: int| 0 <= k < s.len() - 1 ==> s.drop_first()[k] == s[k + 1]);
        assert forall|k: int| 0 <= k < s.len() implies #[trigger] s[k] != 10 by {
            if k > 0 {
                assert(s[k] == s.drop_first()[k - 1]);
            }
        }
    }
}

proof fn lemma_join_no_newline(ls: Seq<Seq<u8>>, sep: Seq<u8>)
    requires
        no_newline(sep),
        forall|i: int| 0 <= i < ls.len() ==> no_newline(#[trigger] ls[i]),
    ensures
        no_newline(join(ls, sep)),
    decreases ls.len(),
{
    if ls.len() > 1 {
        lemma_join_no_newline(ls.drop_last(), sep);
        let a = join(ls.drop_last(), sep);
        let l = ls.last();
        assert(no_newline(l));
        let j = a + sep + l;
        assert forall|k: int| 0 <= k < j.len() implies #[trigger] j[k] != 10 by {
            if k < a.len() {
                assert(j[k] == a[k]);
            } else if k < a.len() + sep.len() {
                assert(j[k] == sep[k - a.len()]);
            } else {
                assert(j[k] == l[k - a.len() - sep.len()]);
            }
        }
    } else if ls.len() == 1 {
        assert(no_newline(ls[0]));
    }
}

/// Each `memband` sample prints on one line: the joined output holds no
/// line feed, whatever `rocm-smi` printed.
pub proof fn lemma_joined_lines_are_one_line(text: Seq<u8>)
    ensures
        no_newline(join(lines(text), line_separator())),
{
    lemma_lines_no_newline(text);
    lemma_join_no_newline(lines(text), line_separator());
}

proof fn lemma_join_prepend(a: Seq<u8>, rest: Seq<Seq<u8>>, sep: Seq<u8>)
    ensures
        rest.len() == 0 ==> join(seq![a] + rest, sep) == a,
        rest.len() > 0 ==> join(seq![a] + rest, sep) == a + sep + join(rest, sep),
    decreases rest.len(),
{
    let all = seq![a] + rest;
    if rest.len() == 0 {
        assert(all =~= seq![a]);
    } else if rest.len() == 1 {
        assert(all.drop_last() =~= seq![a]);
        assert(all.last() == rest[0]);
        assert(join(seq![a], sep) == a);
        assert(join(rest, sep) == rest[0]);
        assert(join(all, sep) == join(all.drop_last(), sep) + sep + all.last());
    } else {
        lemma_join_prepend(a, rest.drop_last(), sep);
        assert(all.drop_last() =~= seq![a] + rest.drop_last());
        assert(all.last() == rest.last());
        assert(join(all, sep) == join(all.drop_last(), sep) + sep + all.last());
        assert(join(rest, sep) == join(rest.drop_last(), sep) + sep + rest.last());
        assert(join(all, sep) =~= a + sep + join(rest, sep));
    }
}

/// Splitting into lines and joining them again with line feeds gives the
/// text back, for text without carriage returns: the line feeds between
/// lines are restored and only a final line feed is lost. So no byte is
/// dropped, added or moved, and every line is cut at a line feed.
pub proof fn lemma_lines_rejoin(s: Seq<u8>)
    requires
        forall|k: int| 0 <= k < s.len() ==> #[trigger] s[k] != 13,
    ensures
        s.len() > 0 && s.last() == 10 ==> join(lines(s), seq![10u8]) == s.drop_last(),
        !(s.len() > 0 && s.last() == 10) ==> join(lines(s), seq![10u8]) == s,
    decreases s.len(),
{
    if s.len() > 0 {
        let m = first_newline(s);
        lemma_first_newline_range(s);
        if m < 0 {
            lemma_no_newline_when_none(s);
            assert(s[s.len() - 1] != 10);
            assert(lines(s) =~= seq![s]);
        } else {
            let head = s.take(m);
            let rest = s.skip(m + 1);
            assert(forall|k: int| 0 <= k < rest.len() ==> rest[k] == s[k + m + 1]);
            lemma_lines_rejoin(rest);
            if head.len() > 0 {
                assert(head.last() == s[m - 1]);
            }
            assert(strip_cr(head) == head);
            assert(lines(s) == seq![head] + lines(rest));
            lemma_join_prepend(head, lines(rest), seq![10u8]);
            if rest.len() == 0 {
                assert(lines(rest) =~= Seq::<Seq<u8>>::empty());
                assert(s.drop_last() =~= head);
            } else {
                assert(lines(rest).len() > 0);
                assert(rest.last() == s.last());
                if s.last() == 10 {
                    assert(s.drop_last() =~= head + seq![10u8] + rest.drop_last());
                } else {
                    assert(s =~= head + seq![10u8] + rest);
                }
            }
        }
    }
}

/// Joins the lines of `text` with " | ", as
/// `text.lines().collect::<Vec<_>>().join(" | ")` does, byte for byte.
pub fn join_lines(text: &[u8]) -> (r: Vec<u8>)
    ensures
        r@ == join(lines(text@), line_separator()),
{
    let n: usize = text.len();
    let mut out: Vec<u8> = Vec::new();
    let mut start: usize = 0;
    let ghost mut done: Seq<Seq<u8>> = Seq::empty();
    let mut first = true;
    let mut i: usize = 0;
    assert(text@.skip(0) =~= text@);
    while i < n
        invariant
            n == text@.len(),
            start <= i <= n,
            first == (done.len() == 0),
            forall|k: int| start <= k < i ==> text@[k] != 10,
            lines(text@) == done + lines(text@.skip(start as int)),
            out@ == join(done, line_separator()),
        decreases n - i,
    {
        if text[i] == 10 {
            let ghost rest = text@.skip(start as int);
            proof {
                lemma_first_newline(rest, i - start);
                assert(rest.take(i - start) =~= text@.subrange(start as int, i as int));
                assert(rest.skip(i - start + 1) =~= text@.skip(i + 1));
            }
            let mut end: usize = i;
            if end > start && text[end - 1] == 13 {
                end = end - 1;
            }
            let ghost line = strip_cr(text@.subrange(start as int, i as int));
            assert(line =~= text@.subrange(start as int, end as int));
            if !first {
                out.push(32);
                out.push(124);
                out.push(32);
            }
            let mut k: usize = start;
            let ghost before = out@;
            while k < end
                invariant
                    start <= k <= end <= n,
                    n == text@.len(),
                    out@ == before + text@.subrange(start as int, k as int),
                decreases end - k,
            {
                out.push(text[k]);
                k = k + 1;
                assert(out@ =~= before + text@.subrange(start as int, k as int));
            }
            proof {
                lemma_join_push(done, line, line_separator());
                if done.len() > 0 {
                    assert(before =~= join(done, line_separator()) + line_separator());
                } else {
                    assert(before =~= Seq::<u8>::empty());
                }
                assert(out@ =~= join(done.push(line), line_separator()));
                assert(done + lines(rest) =~= done.push(line) + lines(text@.skip(i + 1)));
                done = done.push(line);
            }
            start = i + 1;
            first = false;
        }
        i = i + 1;
    }
    let ghost rest = text@.skip(start as int);
    proof {
        lemma_first_newline(rest, n - start);
    }
    if start < n {
        let ghost line = rest;
        if !first {
            out.push(32);
            out.push(124);
            out.push(32);
        }
        let ghost before = out@;
        let mut k: usize = start;
        while k < n
            invariant
                start <= k <= n,
                n == text@.len(),
                out@ == before + text@.subrange(start as int, k as int),
            decreases n - k,
        {
            out.push(text[k]);
            k = k + 1;
            assert(out@ =~= before + text@.subrange(start as int, k as int));
        }
        proof {
            assert(text@.subrange(start as int, n as int) =~= rest);
            lemma_join_push(done, line, line_separator());
            if done.len() > 0 {
                assert(before =~= join(done, line_separator()) + line_separator());
            } else {
                assert(before =~= Seq::<u8>::empty());
            }
            assert(out@ =~= join(done.push(line), line_separator()));
            assert(lines(rest) =~= seq![rest]);
            assert(done + lines(rest) =~= done.push(line));
        }
    } else {
        assert(rest.len() == 0);
        assert(done + lines(rest) =~= done);
    }
    out
}


/// Unicode White_Space, the characters that `str::trim` removes.
pub open spec fn is_whitespace(c: char) -> bool {
    let u: int = c as int;
    ||| 0x09 <= u <= 0x0d
    ||| u == 0x20
    ||| u == 0x85
    ||| u == 0xa0
    ||| u == 0x1680
    ||| 0x2000 <= u <= 0x200a
    ||| u == 0x2028
    ||| u == 0x2029
    ||| u == 0x202f
    ||| u == 0x205f
    ||| u == 0x3000
}

/// `s` without its leading whitespace.
pub open spec fn trim_start(s: Seq<char>) -> Seq<char>
    decreases s.len(),
{
    if s.len() > 0 && is_whitespace(s[0]) {
        trim_start(s.drop_first())
    } else {
        s
    }
}

/// `s` without its trailing whitespace.
pub open spec fn trim_end(s: Seq<char>) -> Seq<char>
    decreases s.len(),
{
    if s.len() > 0 && is_whitespace(s.last()) {
        trim_end(s.drop_last())
    } else {
        s
    }
}

/// `s` without leading and trailing whitespace.
pub open spec fn trim(s: Seq<char>) -> Seq<char> {
    trim_end(trim_start(s))
}

proof fn lemma_trim_start_cut(s: Seq<char>) -> (lo: int)
    ensures
        0 <= lo <= s.len(),
        trim_start(s) == s.subrange(lo, s.len() as int),
        forall|k: int| 0 <= k < lo ==> is_whitespace(#[trigger] s[k]),
        lo < s.len() ==> !is_whitespace(s[lo]),
    decreases s.len(),
{
    if s.len() > 0 && is_whitespace(s[0]) {
        let t = s.drop_first();
        let l = lemma_trim_start_cut(t);
        assert(t.subrange(l, t.len() as int) =~= s.subrange(l + 1, s.len() as int));
        assert forall|k: int| 0 <= k < l + 1 implies is_whitespace(#[trigger] s[k]) by {
            if k > 0 {
                assert(s[k] == t[k - 1]);
            }
        }
        l + 1
    } else {
        assert(s.subrange(0, s.len() as int) =~= s);
        0
    }
}

proof fn lemma_trim_end_cut(s: Seq<char>) -> (hi: int)
    ensures
        0 <= hi <= s.len(),
        trim_end(s) == s.subrange(0, hi),
        forall|k: int| hi <= k < s.len() ==> is_whitespace(#[trigger] s[k]),
        hi > 0 ==> !is_whitespace(s[hi - 1]),
    decreases s.len(),
{
    if s.len() > 0 && is_whitespace(s.last()) {
        let t = s.drop_last();
        let h = lemma_trim_end_cut(t);
        assert(t.subrange(0, h) =~= s.subrange(0, h));
        assert forall|k: int| h <= k < s.len() implies is_whitespace(#[trigger] s[k]) by {
            if k < s.len() - 1 {
                assert(s[k] == t[k]);
            }
        }
        h
    } else {
        assert(s.subrange(0, s.len() as int) =~= s);
        s.len() as int
    }
}

/// Trimming cuts a run of whitespace from each end and nothing else: the
/// result is a piece of the input, everything before and after it is
/// whitespace, and the result neither starts nor ends with whitespace.
pub proof fn lemma_trim_cuts_whitespace(s: Seq<char>)
    ensures
        trim(s).len() > 0 ==> !is_whitespace(trim(s)[0]) && !is_whitespace(trim(s).last()),
        exists|lo: int, hi: int|
            0 <= lo <= hi <= s.len() && trim(s) == s.subrange(lo, hi) && (forall|k: int|
                0 <= k < lo ==> is_whitespace(#[trigger] s[k])) && (forall|k: int|
                hi <= k < s.len() ==> is_whitespace(#[trigger] s[k])),
{
    let lo = lemma_trim_start_cut(s);
    let mid = trim_start(s);
    let h = lemma_trim_end_cut(mid);
    let hi = lo + h;
    assert(trim(s) =~= s.subrange(lo, hi));
    assert forall|k: int| hi <= k < s.len() implies is_whitespace(#[trigger] s[k]) by {
        assert(s[k] == mid[k - lo]);
    }
    if trim(s).len() > 0 {
        assert(trim(s)[0] == s[lo]);
        assert(trim(s).last() == mid[h - 1]);
    }
}

fn is_whitespace_char(c: char) -> (b: bool)
    ensures
        b == is_whitespace(c),
{
    ('\u{9}' <= c && c <= '\u{d}') || c == ' ' || c == '\u{85}' || c == '\u{a0}' || c
        == '\u{1680}' || ('\u{2000}' <= c && c <= '\u{200a}') || c == '\u{2028}' || c
        == '\u{2029}' || c == '\u{202f}' || c == '\u{205f}' || c == '\u{3000}'
}

/// Removes leading and trailing whitespace, as `str::trim` does.
pub fn trim_whitespace(s: &str) -> (r: String)
    ensures
        r@ == trim(s@),
        r@.len() > 0 ==> !is_whitespace(r@[0]) && !is_whitespace(r@.last()),
{
    proof {
        lemma_trim_cuts_whitespace(s@);
    }
    let n: usize = s.unicode_len();
    let mut lo: usize = 0;
    assert(s@.subrange(0, n as int) =~= s@);
    while lo < n && is_whitespace_char(s.get_char(lo))
        invariant
            n == s@.len(),
            lo <= n,
            trim_start(s@) == trim_start(s@.subrange(lo as int, n as int)),
        decreases n - lo,
    {
        assert(s@.subrange(lo as int, n as int).drop_first() =~= s@.subrange(lo + 1, n as int));
        lo = lo + 1;
    }
    assert(trim_start(s@) == s@.subrange(lo as int, n as int));
    let mut hi: usize = n;
    while hi > lo && is_whitespace_char(s.get_char(hi - 1))
        invariant
            n == s@.len(),
            lo <= hi <= n,
            trim(s@) == trim_end(s@.subrange(lo as int, hi as int)),
        decreases hi - lo,
    {
        assert(s@.subrange(lo as int, hi as int).drop_last() =~= s@.subrange(lo as int, hi - 1));
        hi = hi - 1;
    }
    s.substring_char(lo, hi).to_owned()
}

/// The ROCm version, from the contents of `/opt/rocm/.info/version` where
/// that file could be read: the contents trimmed, or "7.2.0" without them.
pub fn rocm_version(contents: Option<&str>) -> (v: String)
    ensures
        contents is Some ==> v@ == trim(contents->0@),
        contents is None ==> v@ == "7.2.0"@,
{
    match contents {
        Some(c) => trim_whitespace(c),
        None => String::from_str("7.2.0"),
    }
}

} // verus!
