//! Decisions of the command line: reading `--since`, the enabled mods of a
//! mod list, and the name of a mod to upload.
use vstd::prelude::*;
use crate::archive::{item_text, zip_entry, zip_entry_text, zip_items, zip_len, zip_open, spec_zip_read, ZipItem};
use crate::flow::{views, ExtractError, ExtractStage, stage_of};
use crate::json::{json_mod_entries, json_str_field, spec_json_mod_entries, spec_json_str_field};
use crate::text::{concat2, concat3, concat4, str_ends_with, str_strip_suffix, strip_suffix_view, to_string};
use crate::time::{spec_utc_from_str, time_of, utc_from_str, UtcTime};

verus! {

/// The value of a decimal digit.
pub open spec fn digit_value(c: char) -> int {
    c as int - '0' as int
}

/// The value of a sequence of decimal digits.
pub open spec fn digits_value(s: Seq<char>) -> int
    decreases s.len(),
{
    if s.len() == 0 {
        0
    } else {
        digits_value(s.drop_last()) * 10 + digit_value(s.last())
    }
}

/// Every character is a decimal digit.
pub open spec fn all_digits(s: Seq<char>) -> bool {
    forall|i: int| 0 <= i < s.len() ==> '0' <= #[trigger] s[i] <= '9'
}

/// The `i64` that `str::parse::<i64>` reads: an optional `+` or `-`, then one
/// or more decimal digits, within the range of `i64`.
pub open spec fn i64_text_value(s: Seq<char>) -> Option<i64> {
    let negative = s.len() > 0 && s[0] == '-';
    let body = if s.len() > 0 && (s[0] == '-' || s[0] == '+') {
        s.drop_first()
    } else {
        s
    };
    if body.len() > 0 && all_digits(body) {
        let v = if negative {
            -digits_value(body)
        } else {
            digits_value(body)
        };
        if i64::MIN <= v <= i64::MAX {
            Some(v as i64)
        } else {
            None
        }
    } else {
        None
    }
}

/// A prefix of a run of digits is worth no more than the whole run.
proof fn lemma_digits_prefix(s: Seq<char>, k: int)
    requires
        0 <= k <= s.len(),
        forall|i: int| 0 <= i < s.len() ==> '0' <= #[trigger] s[i] <= '9',
    ensures
        0 <= digits_value(s.take(k)) <= digits_value(s),
    decreases s.len(),
{
    if s.len() > 0 {
        let init = s.drop_last();
        if k < s.len() {
            lemma_digits_prefix(init, k);
            assert(init.take(k) =~= s.take(k));
        } else {
            lemma_digits_prefix(init, init.len() as int);
            assert(init.take(init.len() as int) =~= init);
            assert(s.take(k) =~= s);
        }
    } else {
        assert(s.take(k) =~= s);
    }
}

/// Reads an `i64` as `str::parse::<i64>` does: an optional `+` or `-`, then
/// one or more decimal digits, within the range of `i64`.
fn parse_i64(s: &str) -> (r: Option<i64>)
    ensures
        r == i64_text_value(s@),
{
    let n = s.unicode_len();
    let mut negative = false;
    let mut start: usize = 0;
    if n > 0 {
        let c = s.get_char(0);
        if c == '-' {
            negative = true;
            start = 1;
        } else if c == '+' {
            start = 1;
        }
    }
    let ghost body = s@.skip(start as int);
    assert(start == 1 ==> body =~= s@.drop_first());
    assert(start == 0 ==> body =~= s@);
    if start >= n {
        return None;
    }
    let mut v: i128 = 0;
    let mut i: usize = start;
    assert(body.take(0) =~= Seq::<char>::empty());
    while i < n
        invariant
            start <= i <= n,
            start < n,
            n == s@.len(),
            body == s@.skip(start as int),
            start == 1 ==> body == s@.drop_first(),
            start == 0 ==> body == s@,
            start <= 1,
            (start == 1) == (s@[0] == '-' || s@[0] == '+'),
            negative == (s@[0] == '-'),
            forall|j: int| 0 <= j < i - start ==> '0' <= #[trigger] body[j] <= '9',
            v == digits_value(body.take(i - start)),
            0 <= v <= 0x8000_0000_0000_0000,
        decreases n - i,
    {
        let c = s.get_char(i);
        assert(body[i - start] == c);
        if !('0' <= c && c <= '9') {
            assert(!('0' <= body[i - start] <= '9'));
            assert(!all_digits(body));
            return None;
        }
        let d = c as u32 - '0' as u32;
        assert(d == digit_value(c));
        let nv: i128 = v * 10 + d as i128;
        assert(body.take(i - start + 1).drop_last() =~= body.take(i - start));
        assert(body.take(i - start + 1).last() == c);
        if nv > 0x8000_0000_0000_0000 {
            proof {
                if all_digits(body) {
                    lemma_digits_prefix(body, i - start + 1);
                    assert(digits_value(body) > 0x8000_0000_0000_0000);
                }
            }
            return None;
        }
        v = nv;
        i += 1;
    }
    assert(body.take(n - start) =~= body);
    if negative {
        Some((-v) as i64)
    } else if v > 0x7fff_ffff_ffff_ffff {
        None
    } else {
        Some(v as i64)
    }
}

/// A starting point given on the command line.
#[derive(Debug, Clone, Copy, PartialEq, Eq, Structural)]
pub enum SinceArg {
    /// This many days before now.
    DaysAgo(i64),
    /// This many hours before now.
    HoursAgo(i64),
    /// This many minutes before now.
    MinutesAgo(i64),
    /// This point in time.
    At(UtcTime),
}

/// The point `secs` seconds before `now` (same fraction of a second), where
/// its seconds fit in an `i64`.
pub open spec fn seconds_before(now: UtcTime, secs: int) -> Option<UtcTime> {
    if i64::MIN <= now.secs - secs <= i64::MAX {
        Some(UtcTime { secs: (now.secs - secs) as i64, nanos: now.nanos })
    } else {
        None
    }
}

/// The point in time a starting point names, seen at `now`.
pub open spec fn since_view(arg: SinceArg, now: UtcTime) -> Option<UtcTime> {
    match arg {
        SinceArg::DaysAgo(n) => seconds_before(now, n * 86400),
        SinceArg::HoursAgo(n) => seconds_before(now, n * 3600),
        SinceArg::MinutesAgo(n) => seconds_before(now, n * 60),
        SinceArg::At(t) => Some(t),
    }
}

/// `now - secs` seconds, where it fits.
fn before(now: UtcTime, secs: i128) -> (r: Option<UtcTime>)
    requires
        -0x1_0000_0000_0000_0000_0000_0000 <= secs <= 0x1_0000_0000_0000_0000_0000_0000,
    ensures
        r == seconds_before(now, secs as int),
{
    let v: i128 = now.secs as i128 - secs;
    if v < i64::MIN as i128 || v > i64::MAX as i128 {
        None
    } else {
        Some(UtcTime { secs: v as i64, nanos: now.nanos })
    }
}

/// The point in time a starting point names, seen at `now`: `n` days, hours
/// or minutes before `now`, or the point given; `None` where the seconds do
/// not fit in an `i64`.
pub fn since_instant(arg: SinceArg, now: UtcTime) -> (r: Option<UtcTime>)
    ensures
        r == since_view(arg, now),
{
    match arg {
        SinceArg::DaysAgo(n) => before(now, n as i128 * 86400),
        SinceArg::HoursAgo(n) => before(now, n as i128 * 3600),
        SinceArg::MinutesAgo(n) => before(now, n as i128 * 60),
        SinceArg::At(t) => Some(t),
    }
}

/// Reads `--since`: `<n>d`, `<n>h` or `<n>m` for a time before now, or a
/// date-time as `DateTime<Utc>` reads it.
pub fn parse_since(s: &str) -> (r: Result<SinceArg, String>)
    ensures
        match strip_suffix_view(s@, seq!['d']) {
            Some(rest) => match i64_text_value(rest) {
                Some(n) => r == Ok::<SinceArg, String>(SinceArg::DaysAgo(n)),
                None => r matches Err(m) && m@ == "无效的天数: "@ + rest,
            },
            None => match strip_suffix_view(s@, seq!['h']) {
                Some(rest) => match i64_text_value(rest) {
                    Some(n) => r == Ok::<SinceArg, String>(SinceArg::HoursAgo(n)),
                    None => r matches Err(m) && m@ == "无效的小时数: "@ + rest,
                },
                None => match strip_suffix_view(s@, seq!['m']) {
                    Some(rest) => match i64_text_value(rest) {
                        Some(n) => r == Ok::<SinceArg, String>(SinceArg::MinutesAgo(n)),
                        None => r matches Err(m) && m@ == "无效的分钟数: "@ + rest,
                    },
                    None => match spec_utc_from_str(s@) {
                        Ok(p) => r == Ok::<SinceArg, String>(SinceArg::At(time_of(p))),
                        Err(e) => r matches Err(m) && m@ == "无法解析时间 '"@ + s@ + "': "@ + e,
                    },
                },
            },
        },
{
    proof {
        reveal_strlit("d");
        reveal_strlit("h");
        reveal_strlit("m");
        assert("d"@ =~= seq!['d']);
        assert("h"@ =~= seq!['h']);
        assert("m"@ =~= seq!['m']);
    }
    if let Some(rest) = str_strip_suffix(s, "d") {
        return match parse_i64(rest) {
            Some(n) => Ok(SinceArg::DaysAgo(n)),
            None => Err(concat2("无效的天数: ", rest)),
        };
    }
    if let Some(rest) = str_strip_suffix(s, "h") {
        return match parse_i64(rest) {
            Some(n) => Ok(SinceArg::HoursAgo(n)),
            None => Err(concat2("无效的小时数: ", rest)),
        };
    }
    if let Some(rest) = str_strip_suffix(s, "m") {
        return match parse_i64(rest) {
            Some(n) => Ok(SinceArg::MinutesAgo(n)),
            None => Err(concat2("无效的分钟数: ", rest)),
        };
    }
    match utc_from_str(s) {
        Ok((secs, nanos)) => Ok(SinceArg::At(UtcTime { secs, nanos })),
        Err(e) => Err(concat4("无法解析时间 '", s, "': ", e.as_str())),
    }
}

/// The names of the enabled mods of a mod list: an entry without `enabled`
/// counts as enabled, and an entry without a name is passed over.
pub open spec fn enabled_names(entries: Seq<(Option<bool>, Option<Seq<char>>)>) -> Seq<Seq<char>>
    decreases entries.len(),
{
    if entries.len() == 0 {
        Seq::empty()
    } else {
        let e = entries.last();
        enabled_names(entries.drop_last()) + if match e.0 {
            Some(b) => b,
            None => true,
        } {
            match e.1 {
                Some(n) => seq![n],
                None => Seq::empty(),
            }
        } else {
            Seq::empty()
        }
    }
}

/// The names of the enabled mods, in order.
pub fn enabled_mod_names(entries: &Vec<(Option<bool>, Option<String>)>) -> (r: Vec<String>)
    ensures
        views(r@) == enabled_names(entries.deep_view()),
{
    let ghost ev = entries.deep_view();
    let mut out: Vec<String> = Vec::new();
    let mut i: usize = 0;
    while i < entries.len()
        invariant
            0 <= i <= entries.len(),
            ev == entries.deep_view(),
            views(out@) == enabled_names(ev.take(i as int)),
        decreases entries.len() - i,
    {
        assert(ev.take(i + 1).drop_last() =~= ev.take(i as int));
        assert(ev.take(i + 1).last() == ev[i as int]);
        let enabled = match entries[i].0 {
            Some(b) => b,
            None => true,
        };
        let ghost before = views(out@);
        if enabled {
            match &entries[i].1 {
                Some(n) => {
                    out.push(n.clone());
                    assert(views(out@) =~= before + seq![n@]);
                },
                None => {
                    assert(before + Seq::<Seq<char>>::empty() =~= before);
                },
            }
        } else {
            assert(before + Seq::<Seq<char>>::empty() =~= before);
        }
        i += 1;
    }
    assert(ev.take(entries.len() as int) =~= ev);
    out
}

/// The enabled mods of a mod list (`mod-list.json`); none where `mods` is not
/// a list; `None` where the text is not JSON.
pub fn read_enabled_mods(text: &str) -> (r: Option<Vec<String>>)
    ensures
        match spec_json_mod_entries(text@) {
            None => r is None,
            Some(None) => r matches Some(v) && v@.len() == 0,
            Some(Some(es)) => r matches Some(v) && views(v@) == enabled_names(es),
        },
{
    match json_mod_entries(text) {
        Some(Some(es)) => Some(enabled_mod_names(&es)),
        Some(None) => Some(Vec::new()),
        None => None,
    }
}

/// The mod name an archive entry gives: an `info.json` (at any depth) whose
/// text reads and whose `name` field is a string.
pub open spec fn upload_name_in(it: ZipItem) -> Option<Seq<char>> {
    match it {
        Some((n, _, t)) => if "info.json"@.is_suffix_of(n) {
            match t {
                Some(text) => match spec_json_str_field(text, "name"@) {
                    Some(Some(x)) => Some(x),
                    _ => None,
                },
                None => None,
            }
        } else {
            None
        },
        None => None,
    }
}

/// The first mod name that the entries give, in order.
pub open spec fn first_upload_name(items: Seq<ZipItem>) -> Option<Seq<char>>
    decreases items.len(),
{
    if items.len() == 0 {
        None
    } else {
        match first_upload_name(items.drop_last()) {
            Some(x) => Some(x),
            None => upload_name_in(items.last()),
        }
    }
}

/// The name of the mod in a zip to upload, from the first `info.json` that
/// names it; entries that do not open are passed over.
pub fn mod_name_from_zip(zip_bytes: &[u8]) -> (r: Result<Option<String>, ExtractError>)
    ensures
        match r {
            Ok(o) => spec_zip_read(zip_bytes@) matches Some(items) && o.deep_view() == first_upload_name(items),
            Err(e) => spec_zip_read(zip_bytes@) is None && e is Open,
        },
{
    let mut archive = match zip_open(zip_bytes) {
        Ok(a) => a,
        Err(e) => return Err(ExtractError::Open(e)),
    };
    let ghost items = zip_items(archive);
    let n = zip_len(&archive);
    proof {
        reveal_strlit("info.json");
        reveal_strlit("name");
    }
    let mut i: usize = 0;
    while i < n
        invariant
            0 <= i <= n,
            n == items.len(),
            zip_items(archive) == items,
            spec_zip_read(zip_bytes@) == Some(items),
            first_upload_name(items.take(i as int)) is None,
        decreases n - i,
    {
        assert(items.take(i + 1).drop_last() =~= items.take(i as int));
        assert(items.take(i + 1).last() == items[i as int]);
        if let Ok((name, _)) = zip_entry(&mut archive, i) {
            if str_ends_with(name.as_str(), "info.json") {
                if let Ok(text) = zip_entry_text(&mut archive, i) {
                    if let Some(Some(found)) = json_str_field(text.as_str(), "name") {
                        proof {
                            lemma_first_upload_name_stays(items, i as int + 1);
                        }
                        return Ok(Some(found));
                    }
                }
            }
        }
        i += 1;
    }
    assert(items.take(n as int) =~= items);
    Ok(None)
}

/// Once a prefix of the entries names the mod, the later entries do not change the name.
proof fn lemma_first_upload_name_stays(items: Seq<ZipItem>, j: int)
    requires
        0 <= j <= items.len(),
        first_upload_name(items.take(j)) is Some,
    ensures
        first_upload_name(items) == first_upload_name(items.take(j)),
    decreases items.len() - j,
{
    if j < items.len() {
        assert(items.take(j + 1).drop_last() =~= items.take(j));
        lemma_first_upload_name_stays(items, j + 1);
    } else {
        assert(items.take(j) =~= items);
    }
}

/// Factorio's `mod-list.json`: every installed mod.
#[derive(Debug, Clone)]
pub struct ModListJson {
    pub mods: Vec<ModInfo>,
}

/// One entry of `mod-list.json`.
#[derive(Debug, Clone)]
pub struct ModInfo {
    pub name: String,
    pub enabled: bool,
    pub version: Option<String>,
}

/// The line that lists a mod: its name, whether it is enabled, and its
/// version (`N/A` where the list gives none).
pub fn mod_info_line(m: &ModInfo) -> (r: String)
    ensures
        r@ == "Mod Name: "@ + m.name@ + ", Enabled: "@ + (if m.enabled {
            "true"@
        } else {
            "false"@
        }) + ", Version: "@ + match m.version {
            Some(v) => v@,
            None => "N/A"@,
        },
{
    let enabled = if m.enabled {
        "true"
    } else {
        "false"
    };
    let version = match &m.version {
        Some(v) => v.as_str(),
        None => "N/A",
    };
    let head = concat4("Mod Name: ", m.name.as_str(), ", Enabled: ", enabled);
    concat3(head.as_str(), ", Version: ", version)
}

} // verus!
