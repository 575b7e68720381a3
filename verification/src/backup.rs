//! Backup file names: the timestamp stamp, the names written for settings and
//! Codex backups, reading a name back into its sort key, choosing a free name
//! and choosing which old backups to prune.

use vstd::prelude::*;
use crate::text::{lex_le, str_lex_le, string_views, lemma_lex_antisymmetric, lemma_lex_reflexive};
use crate::text::{
    decimal, zero_padded, is_digit, all_digits, decimal_value, digit_value, rfind, ends_with, starts_with,
    push_decimal, push_zero_padded, push_str, push_chars, chars_of, copy_range, rfind_char,
    chars_end_with, chars_start_with, parse_u32_digits, string_from_chars,
};

verus! {

/// A wall-clock time broken into calendar fields, as the clock reported it.
#[derive(Debug, Clone, Copy, PartialEq, Eq)]
pub struct Timestamp {
    pub year: i32,
    pub month: u8,
    pub day: u8,
    pub hour: u8,
    pub minute: u8,
    pub second: u8,
}

/// A number written with at least two digits, zero-padded.
pub open spec fn two_digits(n: u8) -> Seq<char> {
    zero_padded(decimal(n as nat), 2)
}

/// The year as the `[year]` component writes it: at least four digits,
/// zero-padded, with a leading `-` for years before year 0.
pub open spec fn year_text(y: i32) -> Seq<char> {
    if y < 0 {
        seq!['-'] + zero_padded(decimal((-(y as int)) as nat), 4)
    } else {
        zero_padded(decimal(y as nat), 4)
    }
}

/// `YYYYMMDD-HHMMSS` for a timestamp.
pub open spec fn stamp_text(t: Timestamp) -> Seq<char> {
    year_text(t.year) + two_digits(t.month) + two_digits(t.day) + seq!['-'] + two_digits(t.hour)
        + two_digits(t.minute) + two_digits(t.second)
}

/// Nothing for suffix 0, `-N` for a suffix `N > 0`.
pub open spec fn suffix_text(suffix: u32) -> Seq<char> {
    if suffix == 0 {
        Seq::empty()
    } else {
        seq!['-'] + decimal(suffix as nat)
    }
}

/// `settings-YYYYMMDD-HHMMSS[-N].json`.
pub open spec fn settings_backup_name(t: Timestamp, suffix: u32) -> Seq<char> {
    "settings-"@ + stamp_text(t) + suffix_text(suffix) + ".json"@
}

/// `<file>.YYYYMMDD-HHMMSS[-N].bak`.
pub open spec fn codex_backup_name(file_name: Seq<char>, t: Timestamp, suffix: u32) -> Seq<char> {
    file_name + "."@ + stamp_text(t) + suffix_text(suffix) + ".bak"@
}

fn push_two_digits(out: &mut Vec<char>, n: u8)
    ensures
        final(out)@ == old(out)@ + two_digits(n),
{
    push_zero_padded(out, n as u128, 2);
}

fn push_stamp(out: &mut Vec<char>, t: &Timestamp)
    ensures
        final(out)@ == old(out)@ + stamp_text(*t),
{
    let ghost start = out@;
    if t.year < 0 {
        out.push('-');
        let magnitude: u128 = (0i64 - (t.year as i64)) as u128;
        push_zero_padded(out, magnitude, 4);
    } else {
        push_zero_padded(out, t.year as u128, 4);
    }
    assert(out@ =~= start + year_text(t.year));
    push_two_digits(out, t.month);
    push_two_digits(out, t.day);
    out.push('-');
    push_two_digits(out, t.hour);
    push_two_digits(out, t.minute);
    push_two_digits(out, t.second);
    assert(out@ =~= start + stamp_text(*t));
}

fn push_suffix(out: &mut Vec<char>, suffix: u32)
    ensures
        final(out)@ == old(out)@ + suffix_text(suffix),
{
    let ghost start = out@;
    if suffix != 0 {
        out.push('-');
        push_decimal(out, suffix as u128);
    }
    assert(out@ =~= start + suffix_text(suffix));
}

/// Name of a settings backup: `settings-YYYYMMDD-HHMMSS.json` for
/// suffix 0, `settings-YYYYMMDD-HHMMSS-N.json` for a suffix `N > 0`.
pub fn backup_file_name(now: Timestamp, suffix: u32) -> (res: String)
    ensures
        res@ == settings_backup_name(now, suffix),
{
    let mut out: Vec<char> = Vec::new();
    push_str(&mut out, "settings-");
    push_stamp(&mut out, &now);
    push_suffix(&mut out, suffix);
    push_str(&mut out, ".json");
    assert(out@ =~= settings_backup_name(now, suffix));
    string_from_chars(out.as_slice())
}

/// Name of a Codex backup of `file_name`: `<file>.YYYYMMDD-HHMMSS.bak` for
/// suffix 0, `<file>.YYYYMMDD-HHMMSS-N.bak` for a suffix `N > 0`.
pub fn codex_backup_file_name(file_name: &str, now: Timestamp, suffix: u32) -> (res: String)
    ensures
        res@ == codex_backup_name(file_name@, now, suffix),
{
    let mut out: Vec<char> = Vec::new();
    push_str(&mut out, file_name);
    push_str(&mut out, ".");
    push_stamp(&mut out, &now);
    push_suffix(&mut out, suffix);
    push_str(&mut out, ".bak");
    assert(out@ =~= codex_backup_name(file_name@, now, suffix));
    string_from_chars(out.as_slice())
}

/// Fifteen characters: eight digits, `-`, six digits.
pub open spec fn stamp_shape(s: Seq<char>) -> bool {
    s.len() == 15 && forall|i: int|
        0 <= i < 15 ==> if i == 8 {
            #[trigger] s[i] == '-'
        } else {
            is_digit(s[i])
        }
}

/// Splits `STAMP` or `STAMP-N` into the stamp and the number `N` (0 when
/// absent). A `-` is read as the start of a suffix when the part before the
/// last `-` is fifteen characters long and the part after it is all digits;
/// the digits must then name a `u32`.
pub open spec fn split_stamp_and_suffix(part: Seq<char>) -> Option<(Seq<char>, u32)> {
    let h = rfind(part, '-');
    if h is Some && h->0 == 15 && all_digits(part.subrange(h->0 + 1, part.len() as int)) {
        let raw = part.subrange(h->0 + 1, part.len() as int);
        if raw.len() > 0 && decimal_value(raw) <= u32::MAX {
            Some((part.take(h->0), decimal_value(raw) as u32))
        } else {
            None
        }
    } else if part.len() == 15 {
        Some((part, 0))
    } else {
        None
    }
}

/// The sort key of a Codex backup name `<source>.<STAMP>[-N].bak`:
/// `(source, stamp, N, name)`. The source is everything before the last `.`
/// of the name without `.bak`. Lengths are counted in characters; every stamp
/// that is accepted is ASCII, so they agree with byte lengths there.
pub open spec fn codex_backup_key(name: Seq<char>) -> Option<(Seq<char>, Seq<char>, u32, Seq<char>)> {
    if !ends_with(name, ".bak"@) {
        None
    } else {
        let stem = name.take(name.len() - 4);
        let d = rfind(stem, '.');
        if d is None {
            None
        } else {
            let source = stem.take(d->0);
            let part = stem.skip(d->0 + 1);
            let split = split_stamp_and_suffix(part);
            if split is Some && stamp_shape((split->0).0) {
                Some((source, (split->0).0, (split->0).1, name))
            } else {
                None
            }
        }
    }
}

/// The `(stamp, N)` key of a settings backup name `settings-<STAMP>[-N].json`.
pub open spec fn settings_backup_key(name: Seq<char>) -> Option<(Seq<char>, u32)> {
    if !starts_with(name, "settings-"@) || !ends_with(name, ".json"@) || name.len() < 14 {
        None
    } else {
        let part = name.subrange(9, name.len() - 5);
        let split = split_stamp_and_suffix(part);
        if split is Some && stamp_shape((split->0).0) {
            split
        } else {
            None
        }
    }
}

fn stamp_shape_ok(s: &[char]) -> (res: bool)
    ensures
        res == stamp_shape(s@),
{
    if s.len() != 15 {
        return false;
    }
    let mut i: usize = 0;
    while i < 15
        invariant
            s@.len() == 15,
            i <= 15,
            forall|j: int|
                0 <= j < i ==> if j == 8 {
                    #[trigger] s@[j] == '-'
                } else {
                    is_digit(s@[j])
                },
        decreases 15 - i,
    {
        let c = s[i];
        if i == 8 {
            if c != '-' {
                return false;
            }
        } else if !(c >= '0' && c <= '9') {
            return false;
        }
        i = i + 1;
    }
    true
}

fn all_digit_chars(s: &[char]) -> (res: bool)
    ensures
        res == all_digits(s@),
{
    let mut i: usize = 0;
    while i < s.len()
        invariant
            i <= s@.len(),
            forall|j: int| 0 <= j < i ==> is_digit(#[trigger] s@[j]),
        decreases s@.len() - i,
    {
        let c = s[i];
        if !(c >= '0' && c <= '9') {
            assert(!is_digit(s@[i as int]));
            return false;
        }
        i = i + 1;
    }
    true
}

fn split_stamp_suffix(part: &[char]) -> (res: Option<(Vec<char>, u32)>)
    ensures
        match res {
            Some(r) => split_stamp_and_suffix(part@) == Some((r.0@, r.1)),
            None => split_stamp_and_suffix(part@) is None,
        },
{
    let n = part.len();
    assert(part@.take(n as int) =~= part@);
    let h = rfind_char(part, n, '-');
    match h {
        Some(h) => {
            if h == 15 {
                let raw = copy_range(part, h + 1, n);
                if all_digit_chars(raw.as_slice()) {
                    return match parse_u32_digits(raw.as_slice()) {
                        Some(v) => Some((copy_range(part, 0, h), v)),
                        None => None,
                    };
                }
            }
        },
        None => {},
    }
    if n == 15 {
        Some((copy_range(part, 0, n), 0))
    } else {
        None
    }
}

/// Reads a Codex backup file name back into its sort key
/// `(source file name, stamp, suffix, whole name)`; `None` for any name that
/// is not `<source>.<YYYYMMDD-HHMMSS>[-N].bak`.
pub fn parse_codex_backup_sort_key(file_name: &str) -> (res: Option<(String, String, u32, String)>)
    ensures
        match res {
            Some(k) => codex_backup_key(file_name@) == Some((k.0@, k.1@, k.2, k.3@)),
            None => codex_backup_key(file_name@) is None,
        },
{
    let name = chars_of(file_name);
    if !chars_end_with(name.as_slice(), ".bak") {
        return None;
    }
    proof {
        reveal_strlit(".bak");
    }
    let stem_len = name.len() - 4;
    let stem = copy_range(name.as_slice(), 0, stem_len);
    assert(stem@ =~= name@.take(name@.len() - 4));
    assert(stem@.take(stem_len as int) =~= stem@);
    let d = match rfind_char(stem.as_slice(), stem_len, '.') {
        Some(d) => d,
        None => {
            return None;
        },
    };
    let source = copy_range(stem.as_slice(), 0, d);
    let part = copy_range(stem.as_slice(), d + 1, stem_len);
    assert(source@ =~= stem@.take(d as int));
    assert(part@ =~= stem@.skip(d + 1));
    let split = split_stamp_suffix(part.as_slice());
    match split {
        Some((stamp, suffix)) => {
            if stamp_shape_ok(stamp.as_slice()) {
                Some(
                    (
                        string_from_chars(source.as_slice()),
                        string_from_chars(stamp.as_slice()),
                        suffix,
                        string_from_chars(name.as_slice()),
                    ),
                )
            } else {
                None
            }
        },
        None => None,
    }
}

/// Reads a settings backup file name back into its `(stamp, suffix)` key;
/// `None` for any name that is not `settings-<YYYYMMDD-HHMMSS>[-N].json`.
pub fn parse_settings_backup_sort_key(file_name: &str) -> (res: Option<(String, u32)>)
    ensures
        match res {
            Some(k) => settings_backup_key(file_name@) == Some((k.0@, k.1)),
            None => settings_backup_key(file_name@) is None,
        },
{
    let name = chars_of(file_name);
    if !chars_start_with(name.as_slice(), "settings-") || !chars_end_with(name.as_slice(), ".json")
        || name.len() < 14 {
        return None;
    }
    proof {
        reveal_strlit("settings-");
        reveal_strlit(".json");
    }
    let part = copy_range(name.as_slice(), 9, name.len() - 5);
    match split_stamp_suffix(part.as_slice()) {
        Some((stamp, suffix)) => {
            if stamp_shape_ok(stamp.as_slice()) {
                Some((string_from_chars(stamp.as_slice()), suffix))
            } else {
                None
            }
        },
        None => None,
    }
}


/// The fields of a timestamp fit the stamp's fixed widths: a year from 0 to
/// 9999 and two-digit month, day, hour, minute and second (every time the
/// clock reports from year 0 on).
pub open spec fn fits_stamp(t: Timestamp) -> bool {
    0 <= t.year <= 9999 && t.month < 100 && t.day < 100 && t.hour < 100 && t.minute < 100
        && t.second < 100
}

proof fn lemma_decimal_short(n: nat, width: nat)
    requires
        width == 2 && n < 100 || width == 4 && n < 10000,
    ensures
        decimal(n).len() <= width,
        zero_padded(decimal(n), width).len() == width,
        all_digits(zero_padded(decimal(n), width)),
{
    crate::text::lemma_decimal_digits(n);
    if n >= 10 {
        crate::text::lemma_decimal_digits(n / 10);
        if n >= 100 {
            crate::text::lemma_decimal_digits(n / 100);
            assert(decimal(n / 10).drop_last() =~= decimal(n / 10 / 10));
            if n >= 1000 {
                crate::text::lemma_decimal_digits(n / 1000);
                assert(decimal(n / 100).drop_last() =~= decimal(n / 100 / 10));
                assert(n / 1000 < 10);
            }
        }
    }
    let d = decimal(n);
    let z = zero_padded(d, width);
    assert forall|i: int| 0 <= i < z.len() implies is_digit(#[trigger] z[i]) by {
        if d.len() < width {
            if i >= width - d.len() {
                assert(z[i] == d[i - (width - d.len())]);
            }
        }
    }
}

proof fn lemma_stamp_shape(t: Timestamp)
    requires
        fits_stamp(t),
    ensures
        stamp_shape(stamp_text(t)),
{
    lemma_decimal_short(t.year as nat, 4);
    lemma_decimal_short(t.month as nat, 2);
    lemma_decimal_short(t.day as nat, 2);
    lemma_decimal_short(t.hour as nat, 2);
    lemma_decimal_short(t.minute as nat, 2);
    lemma_decimal_short(t.second as nat, 2);
    let y = year_text(t.year);
    let mo = two_digits(t.month);
    let da = two_digits(t.day);
    let h = two_digits(t.hour);
    let mi = two_digits(t.minute);
    let se = two_digits(t.second);
    let st = stamp_text(t);
    assert(st =~= y + mo + da + seq!['-'] + h + mi + se);
    assert forall|i: int| 0 <= i < 15 implies if i == 8 {
        #[trigger] st[i] == '-'
    } else {
        is_digit(st[i])
    } by {
        if i < 4 {
            assert(st[i] == y[i]);
        } else if i < 6 {
            assert(st[i] == mo[i - 4]);
        } else if i < 8 {
            assert(st[i] == da[i - 6]);
        } else if i == 8 {
        } else if i < 11 {
            assert(st[i] == h[i - 9]);
        } else if i < 13 {
            assert(st[i] == mi[i - 11]);
        } else {
            assert(st[i] == se[i - 13]);
        }
    }
}

proof fn lemma_rfind_after(x: Seq<char>, c: char, y: Seq<char>)
    requires
        forall|j: int| 0 <= j < y.len() ==> #[trigger] y[j] != c,
    ensures
        rfind(x + seq![c] + y, c) == Some(x.len() as int),
    decreases y.len(),
{
    let s = x + seq![c] + y;
    if y.len() == 0 {
        assert(s.last() == c);
    } else {
        assert(s.last() == y.last());
        assert(s.drop_last() =~= x + seq![c] + y.drop_last());
        lemma_rfind_after(x, c, y.drop_last());
    }
}

proof fn lemma_split_round_trip(t: Timestamp, suffix: u32)
    requires
        fits_stamp(t),
    ensures
        split_stamp_and_suffix(stamp_text(t) + suffix_text(suffix)) == Some((stamp_text(t), suffix)),
{
    lemma_stamp_shape(t);
    let st = stamp_text(t);
    let part = st + suffix_text(suffix);
    if suffix == 0 {
        assert(part =~= st);
        assert(st =~= st.take(8) + seq!['-'] + st.skip(9));
        assert forall|j: int| 0 <= j < st.skip(9).len() implies #[trigger] st.skip(9)[j] != '-' by {
            assert(st.skip(9)[j] == st[j + 9]);
            assert(is_digit(st[j + 9]));
        }
        lemma_rfind_after(st.take(8), '-', st.skip(9));
    } else {
        let d = decimal(suffix as nat);
        crate::text::lemma_decimal_digits(suffix as nat);
        assert(part =~= st + seq!['-'] + d);
        assert forall|j: int| 0 <= j < d.len() implies #[trigger] d[j] != '-' by {
            assert(is_digit(d[j]));
        }
        lemma_rfind_after(st, '-', d);
        assert(part.subrange(16, part.len() as int) =~= d);
        assert(part.take(15) =~= st);
    }
}

/// A Codex backup name reads back into the key it was written from: the
/// source file name, the stamp and the suffix.
pub proof fn lemma_codex_backup_name_round_trip(source: Seq<char>, t: Timestamp, suffix: u32)
    requires
        fits_stamp(t),
    ensures
        codex_backup_key(codex_backup_name(source, t, suffix)) == Some(
            (source, stamp_text(t), suffix, codex_backup_name(source, t, suffix)),
        ),
{
    reveal_strlit(".bak");
    reveal_strlit(".");
    lemma_split_round_trip(t, suffix);
    lemma_stamp_shape(t);
    let st = stamp_text(t);
    let tail = st + suffix_text(suffix);
    let name = codex_backup_name(source, t, suffix);
    assert(name =~= source + seq!['.'] + tail + ".bak"@);
    assert(name.subrange(name.len() - 4, name.len() as int) =~= ".bak"@);
    let stem = name.take(name.len() - 4);
    assert(stem =~= source + seq!['.'] + tail);
    assert forall|j: int| 0 <= j < tail.len() implies #[trigger] tail[j] != '.' by {
        if j < 15 {
            assert(tail[j] == st[j]);
            if j != 8 {
                assert(is_digit(st[j]));
            }
        } else if suffix != 0 {
            crate::text::lemma_decimal_digits(suffix as nat);
            assert(tail[j] == suffix_text(suffix)[j - 15]);
            if j > 15 {
                assert(is_digit(decimal(suffix as nat)[j - 16]));
            }
        }
    }
    lemma_rfind_after(source, '.', tail);
    assert(stem.take(source.len() as int) =~= source);
    assert(stem.skip(source.len() as int + 1) =~= tail);
}

/// A settings backup name reads back into the stamp and suffix it was written
/// from.
pub proof fn lemma_settings_backup_name_round_trip(t: Timestamp, suffix: u32)
    requires
        fits_stamp(t),
    ensures
        settings_backup_key(settings_backup_name(t, suffix)) == Some((stamp_text(t), suffix)),
{
    reveal_strlit("settings-");
    reveal_strlit(".json");
    lemma_split_round_trip(t, suffix);
    lemma_stamp_shape(t);
    let tail = stamp_text(t) + suffix_text(suffix);
    let name = settings_backup_name(t, suffix);
    assert(name =~= "settings-"@ + tail + ".json"@);
    assert(name.take(9) =~= "settings-"@);
    assert(name.subrange(name.len() - 5, name.len() as int) =~= ".json"@);
    assert(name.subrange(9, name.len() - 5) =~= tail);
}


/// `t1` is not later than `t2`, field by field from the year down to the
/// second.
pub open spec fn time_le(t1: Timestamp, t2: Timestamp) -> bool {
    if t1.year != t2.year {
        t1.year < t2.year
    } else if t1.month != t2.month {
        t1.month < t2.month
    } else if t1.day != t2.day {
        t1.day < t2.day
    } else if t1.hour != t2.hour {
        t1.hour < t2.hour
    } else if t1.minute != t2.minute {
        t1.minute < t2.minute
    } else {
        t1.second <= t2.second
    }
}

/// Comparing two texts that start with parts of the same length compares
/// those parts first.
proof fn lemma_lex_concat(x1: Seq<char>, y1: Seq<char>, x2: Seq<char>, y2: Seq<char>)
    requires
        x1.len() == x2.len(),
    ensures
        lex_le(x1 + y1, x2 + y2) == if x1 == x2 {
            lex_le(y1, y2)
        } else {
            lex_le(x1, x2)
        },
    decreases x1.len(),
{
    if x1.len() == 0 {
        assert(x1 + y1 =~= y1);
        assert(x2 + y2 =~= y2);
        assert(x1 =~= x2);
    } else {
        let a = x1 + y1;
        let b = x2 + y2;
        assert(a[0] == x1[0]);
        assert(b[0] == x2[0]);
        assert(a.drop_first() =~= x1.drop_first() + y1);
        assert(b.drop_first() =~= x2.drop_first() + y2);
        lemma_lex_concat(x1.drop_first(), y1, x2.drop_first(), y2);
        if x1[0] == x2[0] {
            assert(x1 == x2 <==> x1.drop_first() == x2.drop_first()) by {
                if x1.drop_first() == x2.drop_first() {
                    assert(x1 =~= seq![x1[0]] + x1.drop_first());
                    assert(x2 =~= seq![x2[0]] + x2.drop_first());
                }
            }
        } else {
            assert(x1 != x2);
            if (x1[0] as u32) == (x2[0] as u32) {
                crate::text::lemma_char_eq(x1[0], x2[0]);
            }
        }
    }
}

/// Same-length digit strings compare as the numbers they write.
proof fn lemma_digits_compare(a: Seq<char>, b: Seq<char>)
    requires
        a.len() == b.len(),
        all_digits(a),
        all_digits(b),
    ensures
        lex_le(a, b) <==> decimal_value(a) <= decimal_value(b),
        a == b <==> decimal_value(a) == decimal_value(b),
    decreases a.len(),
{
    if a.len() == 0 {
        assert(a =~= b);
    } else {
        let a0 = a.drop_last();
        let b0 = b.drop_last();
        let x = a.last();
        let y = b.last();
        assert(all_digits(a0)) by {
            assert forall|i: int| 0 <= i < a0.len() implies is_digit(#[trigger] a0[i]) by {
                assert(a0[i] == a[i]);
            }
        }
        assert(all_digits(b0)) by {
            assert forall|i: int| 0 <= i < b0.len() implies is_digit(#[trigger] b0[i]) by {
                assert(b0[i] == b[i]);
            }
        }
        assert(is_digit(a[a.len() - 1]));
        assert(is_digit(b[b.len() - 1]));
        lemma_digits_compare(a0, b0);
        assert(a =~= a0 + seq![x]);
        assert(b =~= b0 + seq![y]);
        lemma_lex_concat(a0, seq![x], b0, seq![y]);
        let sx = seq![x];
        let sy = seq![y];
        assert(sx.drop_first() =~= Seq::<char>::empty());
        assert(sy.drop_first() =~= Seq::<char>::empty());
        assert(lex_le(sx.drop_first(), sy.drop_first()));
        if (x as u32) == (y as u32) {
            crate::text::lemma_char_eq(x, y);
        }
        assert(lex_le(sx, sy) <==> (x as u32) <= (y as u32));
        assert(a == b <==> (a0 == b0 && x == y)) by {
            if a == b {
                assert(a0 =~= b0);
            }
        }
        assert(decimal_value(a) == decimal_value(a0) * 10 + digit_value(x));
        assert(decimal_value(b) == decimal_value(b0) * 10 + digit_value(y));
        assert(digit_value(x) < 10 && digit_value(y) < 10);
        if a0 != b0 {
            assert(lex_le(a0, b0) <==> decimal_value(a0) < decimal_value(b0));
        }
    }
}

proof fn lemma_zeros_value(k: nat)
    ensures
        decimal_value(Seq::new(k, |i: int| '0')) == 0,
        all_digits(Seq::new(k, |i: int| '0')),
    decreases k,
{
    let z = Seq::new(k, |i: int| '0');
    if k > 0 {
        lemma_zeros_value((k - 1) as nat);
        assert(z.drop_last() =~= Seq::new((k - 1) as nat, |i: int| '0'));
        assert(digit_value(z.last()) == 0);
    }
}

proof fn lemma_leading_zeros_value(k: nat, s: Seq<char>)
    ensures
        decimal_value(Seq::new(k, |i: int| '0') + s) == decimal_value(s),
    decreases s.len(),
{
    let z = Seq::new(k, |i: int| '0');
    if s.len() == 0 {
        assert(z + s =~= z);
        lemma_zeros_value(k);
    } else {
        lemma_leading_zeros_value(k, s.drop_last());
        assert((z + s).drop_last() =~= z + s.drop_last());
        assert((z + s).last() == s.last());
    }
}

/// A zero-padded number reads back as that number.
proof fn lemma_padded_value(n: nat, width: nat)
    requires
        width == 2 && n < 100 || width == 4 && n < 10000,
    ensures
        decimal_value(zero_padded(decimal(n), width)) == n,
        zero_padded(decimal(n), width).len() == width,
        all_digits(zero_padded(decimal(n), width)),
{
    lemma_decimal_short(n, width);
    crate::text::lemma_decimal_digits(n);
    let d = decimal(n);
    if d.len() < width {
        lemma_leading_zeros_value((width - d.len()) as nat, d);
    }
}

/// Two zero-padded numbers of one width compare, and are equal, as the numbers.
proof fn lemma_padded_compare(m: nat, n: nat, width: nat)
    requires
        width == 2 && m < 100 && n < 100 || width == 4 && m < 10000 && n < 10000,
    ensures
        lex_le(zero_padded(decimal(m), width), zero_padded(decimal(n), width)) <==> m <= n,
        zero_padded(decimal(m), width) == zero_padded(decimal(n), width) <==> m == n,
        zero_padded(decimal(m), width).len() == width,
        zero_padded(decimal(n), width).len() == width,
{
    lemma_padded_value(m, width);
    lemma_padded_value(n, width);
    lemma_digits_compare(zero_padded(decimal(m), width), zero_padded(decimal(n), width));
}

/// Backup stamps sort chronologically: for timestamps in the years 0 to
/// 9999, one stamp sorts before or equal to another exactly when its time is
/// not later, and two stamps are equal exactly when the times are.
#[verifier::spinoff_prover]
#[verifier::rlimit(40)]
pub proof fn lemma_stamps_sort_chronologically(t1: Timestamp, t2: Timestamp)
    requires
        fits_stamp(t1),
        fits_stamp(t2),
    ensures
        lex_le(stamp_text(t1), stamp_text(t2)) <==> time_le(t1, t2),
        stamp_text(t1) == stamp_text(t2) <==> t1 == t2,
{
    let y1 = year_text(t1.year);
    let y2 = year_text(t2.year);
    let (mo1, mo2) = (two_digits(t1.month), two_digits(t2.month));
    let (d1, d2) = (two_digits(t1.day), two_digits(t2.day));
    let (h1, h2) = (two_digits(t1.hour), two_digits(t2.hour));
    let (mi1, mi2) = (two_digits(t1.minute), two_digits(t2.minute));
    let (s1, s2) = (two_digits(t1.second), two_digits(t2.second));
    let dash = seq!['-'];
    lemma_padded_compare(t1.year as nat, t2.year as nat, 4);
    lemma_padded_compare(t1.month as nat, t2.month as nat, 2);
    lemma_padded_compare(t1.day as nat, t2.day as nat, 2);
    lemma_padded_compare(t1.hour as nat, t2.hour as nat, 2);
    lemma_padded_compare(t1.minute as nat, t2.minute as nat, 2);
    lemma_padded_compare(t1.second as nat, t2.second as nat, 2);
    let r5_1 = mi1 + s1;
    let r5_2 = mi2 + s2;
    let r4_1 = h1 + r5_1;
    let r4_2 = h2 + r5_2;
    let r3_1 = dash + r4_1;
    let r3_2 = dash + r4_2;
    let r2_1 = d1 + r3_1;
    let r2_2 = d2 + r3_2;
    let r1_1 = mo1 + r2_1;
    let r1_2 = mo2 + r2_2;
    assert(stamp_text(t1) =~= y1 + r1_1);
    assert(stamp_text(t2) =~= y2 + r1_2);
    lemma_lex_concat(y1, r1_1, y2, r1_2);
    lemma_lex_concat(mo1, r2_1, mo2, r2_2);
    lemma_lex_concat(d1, r3_1, d2, r3_2);
    lemma_lex_concat(dash, r4_1, dash, r4_2);
    lemma_lex_concat(h1, r5_1, h2, r5_2);
    lemma_lex_concat(mi1, s1, mi2, s2);
    assert(y1 + r1_1 == y2 + r1_2 <==> y1 == y2 && r1_1 == r1_2) by {
        if y1 + r1_1 == y2 + r1_2 {
            assert(y1 =~= (y1 + r1_1).take(4));
            assert(y2 =~= (y2 + r1_2).take(4));
            assert(r1_1 =~= (y1 + r1_1).skip(4));
            assert(r1_2 =~= (y2 + r1_2).skip(4));
        }
    }
    assert(r1_1 == r1_2 <==> mo1 == mo2 && r2_1 == r2_2) by {
        if r1_1 == r1_2 {
            assert(mo1 =~= r1_1.take(2));
            assert(mo2 =~= r1_2.take(2));
            assert(r2_1 =~= r1_1.skip(2));
            assert(r2_2 =~= r1_2.skip(2));
        }
    }
    assert(r2_1 == r2_2 <==> d1 == d2 && r3_1 == r3_2) by {
        if r2_1 == r2_2 {
            assert(d1 =~= r2_1.take(2));
            assert(d2 =~= r2_2.take(2));
            assert(r3_1 =~= r2_1.skip(2));
            assert(r3_2 =~= r2_2.skip(2));
        }
    }
    assert(r3_1 == r3_2 <==> r4_1 == r4_2) by {
        if r3_1 == r3_2 {
            assert(r4_1 =~= r3_1.skip(1));
            assert(r4_2 =~= r3_2.skip(1));
        }
    }
    assert(r4_1 == r4_2 <==> h1 == h2 && r5_1 == r5_2) by {
        if r4_1 == r4_2 {
            assert(h1 =~= r4_1.take(2));
            assert(h2 =~= r4_2.take(2));
            assert(r5_1 =~= r4_1.skip(2));
            assert(r5_2 =~= r4_2.skip(2));
        }
    }
    assert(r5_1 == r5_2 <==> mi1 == mi2 && s1 == s2) by {
        if r5_1 == r5_2 {
            assert(mi1 =~= r5_1.take(2));
            assert(mi2 =~= r5_2.take(2));
            assert(s1 =~= r5_1.skip(2));
            assert(s2 =~= r5_2.skip(2));
        }
    }
}

/// A backup's sort key: `(stamp, suffix, file name)`.
pub type BackupKey = (String, u32, String);

/// Backups of one file prune newest first in time order: of two backup names
/// written for the same file, the first sorts as newer exactly when its time
/// is later, or the times are equal and its suffix is larger (`-10` after
/// `-9`).
pub proof fn lemma_backup_keys_follow_time(file_name: Seq<char>, t1: Timestamp, s1: u32, t2: Timestamp, s2: u32)
    requires
        fits_stamp(t1),
        fits_stamp(t2),
    ensures
        newer_key(
            (stamp_text(t1), s1, codex_backup_name(file_name, t1, s1)),
            (stamp_text(t2), s2, codex_backup_name(file_name, t2, s2)),
        ) <==> (!time_le(t1, t2) || (t1 == t2 && s1 > s2)),
{
    lemma_stamps_sort_chronologically(t1, t2);
    lemma_stamps_sort_chronologically(t2, t1);
}

/// The characters held by a backup key.
pub open spec fn key_view(k: BackupKey) -> (Seq<char>, u32, Seq<char>) {
    (k.0@, k.1, k.2@)
}

/// `a` sorts strictly before `b` when backups are listed newest first:
/// a later stamp, then a larger suffix, then a later file name.
pub open spec fn newer_key(a: (Seq<char>, u32, Seq<char>), b: (Seq<char>, u32, Seq<char>)) -> bool {
    if a.0 != b.0 {
        lex_le(b.0, a.0)
    } else if a.1 != b.1 {
        a.1 > b.1
    } else {
        a.2 != b.2 && lex_le(b.2, a.2)
    }
}

/// How many candidates among the first `n` have a key newer than `k`.
pub open spec fn count_newer(keys: Seq<Option<(Seq<char>, u32, Seq<char>)>>, k: (Seq<char>, u32, Seq<char>), n: int) -> nat
    decreases n,
{
    if n <= 0 {
        0
    } else {
        count_newer(keys, k, n - 1) + if keys[n - 1] is Some && newer_key(keys[n - 1]->0, k) {
            1nat
        } else {
            0nat
        }
    }
}

/// How many candidates among the first `n` have exactly the key `k`.
pub open spec fn count_same(keys: Seq<Option<(Seq<char>, u32, Seq<char>)>>, k: (Seq<char>, u32, Seq<char>), n: int) -> nat
    decreases n,
{
    if n <= 0 {
        0
    } else {
        count_same(keys, k, n - 1) + if keys[n - 1] == Some(k) {
            1nat
        } else {
            0nat
        }
    }
}

/// Where candidate `i` stands when the candidates are sorted newest first
/// (a stable sort: equal keys keep their order).
pub open spec fn sort_position(keys: Seq<Option<(Seq<char>, u32, Seq<char>)>>, i: int) -> nat {
    count_newer(keys, keys[i]->0, keys.len() as int) + count_same(keys, keys[i]->0, i)
}

/// Candidate `i` is pruned: it is a candidate and `keep` or more candidates
/// stand before it, newest first.
pub open spec fn is_pruned(keys: Seq<Option<(Seq<char>, u32, Seq<char>)>>, keep: int, i: int) -> bool {
    0 <= i < keys.len() && keys[i] is Some && sort_position(keys, i) >= keep
}

/// The characters held by a list of candidate keys.
pub open spec fn candidate_views(keys: Seq<Option<BackupKey>>) -> Seq<Option<(Seq<char>, u32, Seq<char>)>> {
    keys.map_values(|k: Option<BackupKey>| match k {
        Some(k) => Some(key_view(k)),
        None => None,
    })
}

proof fn lemma_newer_transitive(a: (Seq<char>, u32, Seq<char>), b: (Seq<char>, u32, Seq<char>), c: (Seq<char>, u32, Seq<char>))
    requires
        newer_key(a, b),
        newer_key(b, c),
    ensures
        newer_key(a, c),
{
    if a.0 != b.0 && b.0 != c.0 {
        crate::text::lemma_lex_transitive(c.0, b.0, a.0);
        if a.0 == c.0 {
            lemma_lex_antisymmetric(a.0, b.0);
        }
    } else if a.0 == b.0 && b.0 == c.0 {
        if a.1 == b.1 && b.1 == c.1 {
            crate::text::lemma_lex_transitive(c.2, b.2, a.2);
            if a.2 == c.2 {
                lemma_lex_antisymmetric(a.2, b.2);
            }
        }
    }
}

proof fn lemma_count_newer_dominates(
    keys: Seq<Option<(Seq<char>, u32, Seq<char>)>>,
    ki: (Seq<char>, u32, Seq<char>),
    kj: (Seq<char>, u32, Seq<char>),
    n: int,
)
    requires
        newer_key(ki, kj),
        0 <= n <= keys.len(),
    ensures
        count_newer(keys, kj, n) >= count_newer(keys, ki, n) + count_same(keys, ki, n),
    decreases n,
{
    if n > 0 {
        lemma_count_newer_dominates(keys, ki, kj, n - 1);
        let e = keys[n - 1];
        if e is Some && newer_key(e->0, ki) {
            lemma_newer_transitive(e->0, ki, kj);
        }
        if e == Some(ki) {
            assert(!newer_key(ki, ki));
        }
    }
}

proof fn lemma_count_same_grows(
    keys: Seq<Option<(Seq<char>, u32, Seq<char>)>>,
    k: (Seq<char>, u32, Seq<char>),
    i: int,
    n: int,
)
    requires
        0 <= i < n <= keys.len(),
        keys[i] == Some(k),
    ensures
        count_same(keys, k, n) >= count_same(keys, k, i) + 1,
    decreases n,
{
    if n > i + 1 {
        lemma_count_same_grows(keys, k, i, n - 1);
    }
}

/// Pruning keeps the newest backups: a candidate that is kept is never older
/// than one that is pruned.
pub proof fn lemma_pruning_keeps_newest(keys: Seq<Option<(Seq<char>, u32, Seq<char>)>>, keep: int, i: int, j: int)
    requires
        is_pruned(keys, keep, i),
        0 <= j < keys.len(),
        keys[j] is Some,
        !is_pruned(keys, keep, j),
    ensures
        !newer_key(keys[i]->0, keys[j]->0),
{
    let ki = keys[i]->0;
    let kj = keys[j]->0;
    if newer_key(ki, kj) {
        lemma_count_newer_dominates(keys, ki, kj, keys.len() as int);
        lemma_count_same_grows(keys, ki, i, keys.len() as int);
        lemma_count_same_upto(keys, ki, i, keys.len() as int);
        assert(sort_position(keys, j) >= sort_position(keys, i) + 1);
    }
}

proof fn lemma_count_same_upto(
    keys: Seq<Option<(Seq<char>, u32, Seq<char>)>>,
    k: (Seq<char>, u32, Seq<char>),
    i: int,
    n: int,
)
    requires
        0 <= i <= n <= keys.len(),
    ensures
        count_same(keys, k, n) >= count_same(keys, k, i),
    decreases n,
{
    if n > i {
        lemma_count_same_upto(keys, k, i, n - 1);
    }
}

proof fn lemma_newer_connected(a: (Seq<char>, u32, Seq<char>), b: (Seq<char>, u32, Seq<char>))
    requires
        a != b,
    ensures
        newer_key(a, b) || newer_key(b, a),
{
    crate::text::lemma_lex_connected(a.0, b.0);
    crate::text::lemma_lex_connected(a.2, b.2);
}

/// Two different candidates never share a place in the newest-first order.
proof fn lemma_sort_positions_distinct(keys: Seq<Option<(Seq<char>, u32, Seq<char>)>>, i: int, j: int)
    requires
        0 <= i < j < keys.len(),
        keys[i] is Some,
        keys[j] is Some,
    ensures
        sort_position(keys, i) != sort_position(keys, j),
{
    let ki = keys[i]->0;
    let kj = keys[j]->0;
    let n = keys.len() as int;
    if ki == kj {
        lemma_count_same_grows(keys, ki, i, j);
    } else {
        lemma_newer_connected(ki, kj);
        if newer_key(ki, kj) {
            lemma_count_newer_dominates(keys, ki, kj, n);
            lemma_count_same_grows(keys, ki, i, n);
            lemma_count_same_upto(keys, ki, i, n);
        } else {
            lemma_count_newer_dominates(keys, kj, ki, n);
            lemma_count_same_grows(keys, kj, j, n);
            lemma_count_same_upto(keys, kj, j, n);
        }
    }
}

/// The candidates that pruning keeps.
pub open spec fn kept_candidates(keys: Seq<Option<(Seq<char>, u32, Seq<char>)>>, keep: int) -> Set<int> {
    Set::new(|i: int| 0 <= i < keys.len() && keys[i] is Some && !is_pruned(keys, keep, i))
}

/// Pruning leaves at most `keep` backups of a file.
pub proof fn lemma_pruning_keeps_at_most(keys: Seq<Option<(Seq<char>, u32, Seq<char>)>>, keep: int)
    requires
        keep >= 0,
    ensures
        kept_candidates(keys, keep).finite(),
        kept_candidates(keys, keep).len() <= keep,
{
    let kept = kept_candidates(keys, keep);
    let all = vstd::set_lib::set_int_range(0, keys.len() as int);
    vstd::set_lib::lemma_int_range(0, keys.len() as int);
    assert(kept.subset_of(all));
    vstd::set_lib::lemma_len_subset(kept, all);
    let f = |i: int| sort_position(keys, i) as int;
    assert(vstd::relations::injective_on(f, kept)) by {
        assert forall|x1: int, x2: int|
            kept.contains(x1) && kept.contains(x2) && #[trigger] f(x1) == #[trigger] f(x2) implies x1
            == x2 by {
            if x1 < x2 {
                lemma_sort_positions_distinct(keys, x1, x2);
            } else if x2 < x1 {
                lemma_sort_positions_distinct(keys, x2, x1);
            }
        }
    }
    let image = kept.map(f);
    vstd::set_lib::lemma_map_size(kept, image, f);
    let low = vstd::set_lib::set_int_range(0, keep);
    vstd::set_lib::lemma_int_range(0, keep);
    assert(image.subset_of(low)) by {
        assert forall|p: int| image.contains(p) implies low.contains(p) by {
            let i = choose|i: int| kept.contains(i) && f(i) == p;
        }
    }
    vstd::set_lib::lemma_len_subset(image, low);
}

/// How many of the first `n` entries are candidates.
pub open spec fn count_candidates(keys: Seq<Option<(Seq<char>, u32, Seq<char>)>>, n: int) -> nat
    decreases n,
{
    if n <= 0 {
        0
    } else {
        count_candidates(keys, n - 1) + if keys[n - 1] is Some {
            1nat
        } else {
            0nat
        }
    }
}

proof fn lemma_counts_within_candidates(
    keys: Seq<Option<(Seq<char>, u32, Seq<char>)>>,
    k: (Seq<char>, u32, Seq<char>),
    n: int,
)
    requires
        0 <= n <= keys.len(),
    ensures
        count_newer(keys, k, n) + count_same(keys, k, n) <= count_candidates(keys, n),
    decreases n,
{
    if n > 0 {
        lemma_counts_within_candidates(keys, k, n - 1);
    }
}

/// Nothing is pruned while a file has at most `keep` backups.
pub proof fn lemma_pruning_spares_small_sets(keys: Seq<Option<(Seq<char>, u32, Seq<char>)>>, keep: int, i: int)
    requires
        count_candidates(keys, keys.len() as int) <= keep,
    ensures
        !is_pruned(keys, keep, i),
{
    if 0 <= i < keys.len() && keys[i] is Some {
        let k = keys[i]->0;
        let n = keys.len() as int;
        lemma_counts_within_candidates(keys, k, n);
        lemma_count_same_grows(keys, k, i, n);
    }
}

/// The indices of the candidates among the first `n` entries.
pub open spec fn candidate_indices(keys: Seq<Option<(Seq<char>, u32, Seq<char>)>>, n: int) -> Set<int> {
    Set::new(|i: int| 0 <= i < n && keys[i] is Some)
}

proof fn lemma_candidate_indices_count(keys: Seq<Option<(Seq<char>, u32, Seq<char>)>>, n: int)
    requires
        0 <= n <= keys.len(),
    ensures
        candidate_indices(keys, n).finite(),
        candidate_indices(keys, n).len() == count_candidates(keys, n),
    decreases n,
{
    if n == 0 {
        assert(candidate_indices(keys, n) =~= Set::<int>::empty());
    } else {
        lemma_candidate_indices_count(keys, n - 1);
        if keys[n - 1] is Some {
            assert(candidate_indices(keys, n) =~= candidate_indices(keys, n - 1).insert(n - 1));
        } else {
            assert(candidate_indices(keys, n) =~= candidate_indices(keys, n - 1));
        }
    }
}

proof fn lemma_sort_position_bound(keys: Seq<Option<(Seq<char>, u32, Seq<char>)>>, i: int)
    requires
        0 <= i < keys.len(),
        keys[i] is Some,
    ensures
        sort_position(keys, i) < count_candidates(keys, keys.len() as int),
{
    let k = keys[i]->0;
    let n = keys.len() as int;
    lemma_counts_within_candidates(keys, k, n);
    lemma_count_same_grows(keys, k, i, n);
}

/// Pruning keeps the `keep` newest backups of a file, or all of them when it
/// has fewer: with `lemma_pruning_keeps_at_most`, exactly `min(keep, n)` of
/// its `n` backups remain.
pub proof fn lemma_pruning_keeps_enough(keys: Seq<Option<(Seq<char>, u32, Seq<char>)>>, keep: int)
    requires
        keep >= 0,
    ensures
        kept_candidates(keys, keep).finite(),
        kept_candidates(keys, keep).len() >= if keep < count_candidates(keys, keys.len() as int) {
            keep
        } else {
            count_candidates(keys, keys.len() as int) as int
        },
{
    let len = keys.len() as int;
    let total = count_candidates(keys, len) as int;
    let cand = candidate_indices(keys, len);
    let kept = kept_candidates(keys, keep);
    lemma_candidate_indices_count(keys, len);
    assert(kept.subset_of(cand));
    vstd::set_lib::lemma_len_subset(kept, cand);
    let f = |i: int| sort_position(keys, i) as int;
    assert(vstd::relations::injective_on(f, cand)) by {
        assert forall|x1: int, x2: int|
            cand.contains(x1) && cand.contains(x2) && #[trigger] f(x1) == #[trigger] f(x2) implies x1
            == x2 by {
            if x1 < x2 {
                lemma_sort_positions_distinct(keys, x1, x2);
            } else if x2 < x1 {
                lemma_sort_positions_distinct(keys, x2, x1);
            }
        }
    }
    let image = cand.map(f);
    vstd::set_lib::lemma_map_size(cand, image, f);
    let range = vstd::set_lib::set_int_range(0, total);
    vstd::set_lib::lemma_int_range(0, total);
    assert(image.subset_of(range)) by {
        assert forall|p: int| image.contains(p) implies range.contains(p) by {
            let i = choose|i: int| cand.contains(i) && f(i) == p;
            lemma_sort_position_bound(keys, i);
        }
    }
    vstd::set_lib::lemma_subset_equality(image, range);
    let m = if keep < total {
        keep
    } else {
        total
    };
    let low = vstd::set_lib::set_int_range(0, m);
    vstd::set_lib::lemma_int_range(0, m);
    let kept_image = kept.map(f);
    vstd::set_lib::lemma_map_size_bound(kept, kept_image, f);
    assert(low.subset_of(kept_image)) by {
        assert forall|p: int| low.contains(p) implies kept_image.contains(p) by {
            assert(range.contains(p));
            assert(image.contains(p));
            let i = choose|i: int| cand.contains(i) && f(i) == p;
            assert(kept.contains(i));
            assert(kept_image.contains(f(i)));
        }
    }
    vstd::set_lib::lemma_len_subset(low, kept_image);
}

fn is_newer(a: &BackupKey, b: &BackupKey) -> (res: bool)
    ensures
        res == newer_key(key_view(*a), key_view(*b)),
{
    if a.0 != b.0 {
        str_lex_le(b.0.as_str(), a.0.as_str())
    } else if a.1 != b.1 {
        a.1 > b.1
    } else {
        a.2 != b.2 && str_lex_le(b.2.as_str(), a.2.as_str())
    }
}

fn same_key(a: &BackupKey, b: &BackupKey) -> (res: bool)
    ensures
        res == (key_view(*a) == key_view(*b)),
{
    a.0 == b.0 && a.1 == b.1 && a.2 == b.2
}

/// Indices, in increasing order, of the candidate backups to delete so that
/// only the `keep` newest remain: exactly the candidates with `keep` or more
/// candidates before them when sorted newest first. `None` entries are not
/// candidates and are never pruned.
pub fn backups_to_prune(keys: &Vec<Option<BackupKey>>, keep: usize) -> (res: Vec<usize>)
    ensures
        forall|i: int| #![trigger res@.contains(i as usize)]
            0 <= i < keys@.len() ==> (res@.contains(i as usize) <==> is_pruned(
                candidate_views(keys@),
                keep as int,
                i,
            )),
        forall|a: int, b: int| 0 <= a < b < res@.len() ==> res@[a] < res@[b],
        forall|a: int| 0 <= a < res@.len() ==> res@[a] < keys@.len(),
{
    let ghost cv = candidate_views(keys@);
    let n = keys.len();
    let mut res: Vec<usize> = Vec::new();
    let mut i: usize = 0;
    while i < n
        invariant
            n == keys@.len(),
            cv == candidate_views(keys@),
            i <= n,
            forall|x: int| #![trigger res@.contains(x as usize)]
                0 <= x < i ==> (res@.contains(x as usize) <==> is_pruned(cv, keep as int, x)),
            forall|a: int| 0 <= a < res@.len() ==> res@[a] < i,
            forall|a: int, b: int| 0 <= a < b < res@.len() ==> res@[a] < res@[b],
        decreases n - i,
    {
        match &keys[i] {
            None => {
                assert(!is_pruned(cv, keep as int, i as int));
                assert(!res@.contains(i as usize));
            },
            Some(k) => {
                let ghost kv = key_view(*k);
                assert(cv[i as int] == Some(kv));
                let mut newer: usize = 0;
                let mut same: usize = 0;
                let mut j: usize = 0;
                while j < n
                    invariant
                        n == keys@.len(),
                        cv == candidate_views(keys@),
                        kv == key_view(*k),
                        j <= n,
                        newer == count_newer(cv, kv, j as int),
                        same == count_same(cv, kv, if j < i { j as int } else { i as int }),
                        newer <= j,
                        same <= j,
                        i < n,
                    decreases n - j,
                {
                    match &keys[j] {
                        None => {},
                        Some(other) => {
                            assert(cv[j as int] == Some(key_view(*other)));
                            if is_newer(other, k) {
                                newer = newer + 1;
                            }
                            if j < i && same_key(other, k) {
                                same = same + 1;
                            }
                        },
                    }
                    j = j + 1;
                }
                assert(sort_position(cv, i as int) == newer + same);
                let ghost before = res@;
                if newer >= keep || same >= keep - newer {
                    res.push(i);
                    assert forall|x: int| 0 <= x <= i implies (#[trigger] res@.contains(x as usize) <==> (
                    before.contains(x as usize) || x == i)) by {
                        if res@.contains(x as usize) {
                            let w = choose|w: int| 0 <= w < res@.len() && res@[w] == x as usize;
                            if w < before.len() {
                                assert(before[w] == x as usize);
                            }
                        }
                        if before.contains(x as usize) {
                            let w = choose|w: int| 0 <= w < before.len() && before[w] == x as usize;
                            assert(res@[w] == x as usize);
                        }
                        if x == i {
                            assert(res@[res@.len() - 1] == i);
                        }
                    }
                }
            },
        }
        i = i + 1;
    }
    res
}

/// Keys of the Codex backups of `source_name` among `file_names`: the key of
/// each name that reads back as a backup of that file, `None` for the others.
pub open spec fn codex_candidates(file_names: Seq<String>, source_name: Seq<char>) -> Seq<Option<(Seq<char>, u32, Seq<char>)>> {
    file_names.map_values(|n: String| {
        let k = codex_backup_key(n@);
        if k is Some && (k->0).0 == source_name {
            Some(((k->0).1, (k->0).2, (k->0).3))
        } else {
            None
        }
    })
}

/// Keys of the settings backups among `file_names`.
pub open spec fn settings_candidates(file_names: Seq<String>) -> Seq<Option<(Seq<char>, u32, Seq<char>)>> {
    file_names.map_values(|n: String| {
        let k = settings_backup_key(n@);
        if k is Some {
            Some(((k->0).0, (k->0).1, n@))
        } else {
            None
        }
    })
}

proof fn lemma_all_candidates_count(keys: Seq<Option<(Seq<char>, u32, Seq<char>)>>, n: int)
    requires
        0 <= n <= keys.len(),
        forall|i: int| 0 <= i < keys.len() ==> (#[trigger] keys[i]) is Some,
    ensures
        count_candidates(keys, n) == n,
    decreases n,
{
    if n > 0 {
        lemma_all_candidates_count(keys, n - 1);
    }
}

/// When every entry is a candidate, pruning keeps exactly `min(keep, n)`.
proof fn lemma_all_candidates_kept(keys: Seq<Option<(Seq<char>, u32, Seq<char>)>>, keep: int)
    requires
        keep >= 0,
        forall|i: int| 0 <= i < keys.len() ==> (#[trigger] keys[i]) is Some,
    ensures
        kept_candidates(keys, keep).len() == if keep < keys.len() {
            keep
        } else {
            keys.len() as int
        },
{
    lemma_all_candidates_count(keys, keys.len() as int);
    lemma_pruning_keeps_at_most(keys, keep);
    lemma_pruning_keeps_enough(keys, keep);
    if keep >= keys.len() {
        let kept = kept_candidates(keys, keep);
        let all = vstd::set_lib::set_int_range(0, keys.len() as int);
        vstd::set_lib::lemma_int_range(0, keys.len() as int);
        assert(kept.subset_of(all));
        vstd::set_lib::lemma_len_subset(kept, all);
    }
}

/// Every Codex backup written for a file is a pruning candidate of that
/// file, whatever the file is called (`config.toml`, `auth.json`,
/// `models_catalog.json` or any other), keyed by its stamp and suffix; so of
/// `n` such backups, pruning keeps exactly `min(keep, n)`.
pub proof fn lemma_codex_backups_are_pruned_per_file(
    names: Seq<String>,
    source: Seq<char>,
    times: Seq<Timestamp>,
    suffixes: Seq<u32>,
    keep: int,
)
    requires
        times.len() == names.len(),
        suffixes.len() == names.len(),
        keep >= 0,
        forall|i: int| 0 <= i < names.len() ==> fits_stamp(#[trigger] times[i]),
        forall|i: int|
            0 <= i < names.len() ==> (#[trigger] names[i])@ == codex_backup_name(
                source,
                times[i],
                suffixes[i],
            ),
    ensures
        forall|i: int|
            0 <= i < names.len() ==> #[trigger] codex_candidates(names, source)[i] == Some(
                (stamp_text(times[i]), suffixes[i], names[i]@),
            ),
        kept_candidates(codex_candidates(names, source), keep).len() == if keep < names.len() {
            keep
        } else {
            names.len() as int
        },
{
    let keys = codex_candidates(names, source);
    assert forall|i: int| 0 <= i < names.len() implies #[trigger] keys[i] == Some(
        (stamp_text(times[i]), suffixes[i], names[i]@),
    ) by {
        lemma_codex_backup_name_round_trip(source, times[i], suffixes[i]);
    }
    assert forall|i: int| 0 <= i < keys.len() implies (#[trigger] keys[i]) is Some by {
        lemma_codex_backup_name_round_trip(source, times[i], suffixes[i]);
    }
    lemma_all_candidates_kept(keys, keep);
}

/// Every settings backup written is a pruning candidate, keyed by its stamp
/// and suffix; so of `n` such backups, pruning keeps exactly `min(keep, n)`.
pub proof fn lemma_settings_backups_are_pruned(
    names: Seq<String>,
    times: Seq<Timestamp>,
    suffixes: Seq<u32>,
    keep: int,
)
    requires
        times.len() == names.len(),
        suffixes.len() == names.len(),
        keep >= 0,
        forall|i: int| 0 <= i < names.len() ==> fits_stamp(#[trigger] times[i]),
        forall|i: int|
            0 <= i < names.len() ==> (#[trigger] names[i])@ == settings_backup_name(
                times[i],
                suffixes[i],
            ),
    ensures
        forall|i: int|
            0 <= i < names.len() ==> #[trigger] settings_candidates(names)[i] == Some(
                (stamp_text(times[i]), suffixes[i], names[i]@),
            ),
        kept_candidates(settings_candidates(names), keep).len() == if keep < names.len() {
            keep
        } else {
            names.len() as int
        },
{
    let keys = settings_candidates(names);
    assert forall|i: int| 0 <= i < names.len() implies #[trigger] keys[i] == Some(
        (stamp_text(times[i]), suffixes[i], names[i]@),
    ) by {
        lemma_settings_backup_name_round_trip(times[i], suffixes[i]);
    }
    assert forall|i: int| 0 <= i < keys.len() implies (#[trigger] keys[i]) is Some by {
        lemma_settings_backup_name_round_trip(times[i], suffixes[i]);
    }
    lemma_all_candidates_kept(keys, keep);
}

/// Indices of the Codex backups of `source_name` (among the file names of
/// the backup directory) to delete so that only the `keep` newest remain.
pub fn select_codex_backups_to_prune(file_names: &Vec<String>, source_name: &str, keep: usize) -> (res: Vec<usize>)
    ensures
        forall|i: int| #![trigger res@.contains(i as usize)]
            0 <= i < file_names@.len() ==> (res@.contains(i as usize) <==> is_pruned(
                codex_candidates(file_names@, source_name@),
                keep as int,
                i,
            )),
        forall|a: int, b: int| 0 <= a < b < res@.len() ==> res@[a] < res@[b],
        forall|a: int| 0 <= a < res@.len() ==> res@[a] < file_names@.len(),
{
    let mut keys: Vec<Option<BackupKey>> = Vec::new();
    let mut i: usize = 0;
    let source = source_name.to_owned();
    while i < file_names.len()
        invariant
            i <= file_names@.len(),
            source@ == source_name@,
            candidate_views(keys@) == codex_candidates(file_names@.take(i as int), source_name@),
        decreases file_names@.len() - i,
    {
        let entry = match parse_codex_backup_sort_key(file_names[i].as_str()) {
            Some(k) => if k.0 == source {
                Some((k.1, k.2, k.3))
            } else {
                None
            },
            None => None,
        };
        let ghost before = keys@;
        keys.push(entry);
        assert(file_names@.take(i + 1) =~= file_names@.take(i as int).push(file_names@[i as int]));
        assert(candidate_views(keys@) =~= candidate_views(before).push(
            codex_candidates(file_names@, source_name@)[i as int],
        ));
        assert(codex_candidates(file_names@.take(i + 1), source_name@) =~= codex_candidates(
            file_names@.take(i as int),
            source_name@,
        ).push(codex_candidates(file_names@, source_name@)[i as int]));
        i = i + 1;
    }
    assert(file_names@.take(file_names@.len() as int) =~= file_names@);
    backups_to_prune(&keys, keep)
}

/// Indices of the settings backups (among the file names of the
/// backup directory) to delete so that only the `keep` newest remain.
#[verifier::spinoff_prover]
pub fn select_settings_backups_to_prune(file_names: &Vec<String>, keep: usize) -> (res: Vec<usize>)
    ensures
        forall|i: int| #![trigger res@.contains(i as usize)]
            0 <= i < file_names@.len() ==> (res@.contains(i as usize) <==> is_pruned(
                settings_candidates(file_names@),
                keep as int,
                i,
            )),
        forall|a: int, b: int| 0 <= a < b < res@.len() ==> res@[a] < res@[b],
        forall|a: int| 0 <= a < res@.len() ==> res@[a] < file_names@.len(),
{
    let mut keys: Vec<Option<BackupKey>> = Vec::new();
    let mut i: usize = 0;
    while i < file_names.len()
        invariant
            i <= file_names@.len(),
            candidate_views(keys@) == settings_candidates(file_names@.take(i as int)),
        decreases file_names@.len() - i,
    {
        let entry = match parse_settings_backup_sort_key(file_names[i].as_str()) {
            Some(k) => Some((k.0, k.1, file_names[i].clone())),
            None => None,
        };
        let ghost before = keys@;
        keys.push(entry);
        assert(file_names@.take(i + 1) =~= file_names@.take(i as int).push(file_names@[i as int]));
        assert(candidate_views(keys@) =~= candidate_views(before).push(
            settings_candidates(file_names@)[i as int],
        ));
        assert(settings_candidates(file_names@.take(i + 1)) =~= settings_candidates(
            file_names@.take(i as int),
        ).push(settings_candidates(file_names@)[i as int]));
        i = i + 1;
    }
    assert(file_names@.take(file_names@.len() as int) =~= file_names@);
    backups_to_prune(&keys, keep)
}

fn contains_string(items: &Vec<String>, s: &Vec<char>) -> (res: bool)
    ensures
        res == string_views(items@).contains(s@),
{
    let mut j: usize = 0;
    while j < items.len()
        invariant
            j <= items@.len(),
            forall|x: int| 0 <= x < j ==> items@[x]@ != s@,
        decreases items@.len() - j,
    {
        let other = chars_of(items[j].as_str());
        if crate::text::chars_equal(other.as_slice(), s.as_slice()) {
            assert(string_views(items@)[j as int] == s@);
            return true;
        }
        j = j + 1;
    }
    assert forall|x: int| 0 <= x < string_views(items@).len() implies string_views(items@)[x] != s@ by {}
    false
}

/// The first free settings backup name for `now`: the smallest suffix whose
/// name is not among `existing` (the names already in the backup directory).
/// `None` only when every suffix up to `existing.len()` is taken, which
/// cannot happen while the names are distinct.
pub fn choose_backup_file_name(now: Timestamp, existing: &Vec<String>) -> (res: Option<(String, u32)>)
    requires
        existing@.len() < u32::MAX,
    ensures
        match res {
            Some(r) => r.0@ == settings_backup_name(now, r.1) && !string_views(existing@).contains(
                r.0@,
            ) && forall|s: u32| s < r.1 ==> string_views(existing@).contains(
                #[trigger] settings_backup_name(now, s),
            ),
            None => forall|s: u32| s <= existing@.len() ==> string_views(existing@).contains(
                #[trigger] settings_backup_name(now, s),
            ),
        },
{
    let limit = existing.len() as u32;
    let mut suffix: u32 = 0;
    loop
        invariant
            limit == existing@.len(),
            limit < u32::MAX,
            suffix <= limit + 1,
            forall|s: u32| s < suffix ==> string_views(existing@).contains(
                #[trigger] settings_backup_name(now, s),
            ),
        decreases limit + 1 - suffix,
    {
        if suffix > limit {
            return None;
        }
        let name = backup_file_name(now, suffix);
        let chars = chars_of(name.as_str());
        if !contains_string(existing, &chars) {
            return Some((name, suffix));
        }
        suffix = suffix + 1;
    }
}

/// The first free Codex backup name for `file_name` at `now`, as
/// [`choose_backup_file_name`] does for settings backups.
pub fn choose_codex_backup_file_name(file_name: &str, now: Timestamp, existing: &Vec<String>) -> (res: Option<(String, u32)>)
    requires
        existing@.len() < u32::MAX,
    ensures
        match res {
            Some(r) => r.0@ == codex_backup_name(file_name@, now, r.1) && !string_views(
                existing@,
            ).contains(r.0@) && forall|s: u32| s < r.1 ==> string_views(existing@).contains(
                #[trigger] codex_backup_name(file_name@, now, s),
            ),
            None => forall|s: u32| s <= existing@.len() ==> string_views(existing@).contains(
                #[trigger] codex_backup_name(file_name@, now, s),
            ),
        },
{
    let limit = existing.len() as u32;
    let mut suffix: u32 = 0;
    loop
        invariant
            limit == existing@.len(),
            limit < u32::MAX,
            suffix <= limit + 1,
            forall|s: u32| s < suffix ==> string_views(existing@).contains(
                #[trigger] codex_backup_name(file_name@, now, s),
            ),
        decreases limit + 1 - suffix,
    {
        if suffix > limit {
            return None;
        }
        let name = codex_backup_file_name(file_name, now, suffix);
        let chars = chars_of(name.as_str());
        if !contains_string(existing, &chars) {
            return Some((name, suffix));
        }
        suffix = suffix + 1;
    }
}


/// `.cc-switch-<pid>-<nonce>.tmp`, the temporary file a target is written to
/// before it is renamed into place.
pub open spec fn temp_name_text(pid: u32, nonce: u128) -> Seq<char> {
    ".cc-switch-"@ + decimal(pid as nat) + "-"@ + decimal(nonce as nat) + ".tmp"@
}

/// Name of the temporary file used to replace a target atomically; `pid` is
/// the process id and `nonce` a nanosecond clock reading.
pub fn temp_file_name(pid: u32, nonce: u128) -> (res: String)
    ensures
        res@ == temp_name_text(pid, nonce),
{
    let mut out: Vec<char> = Vec::new();
    push_str(&mut out, ".cc-switch-");
    push_decimal(&mut out, pid as u128);
    push_str(&mut out, "-");
    push_decimal(&mut out, nonce);
    push_str(&mut out, ".tmp");
    assert(out@ =~= temp_name_text(pid, nonce));
    string_from_chars(out.as_slice())
}

} // verus!
