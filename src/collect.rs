//! Tool records and the pure parts of collecting them: de-duplication,
//! ordering, and install dates.

use vstd::prelude::*;
use vstd::string::StringExecFns;
use crate::text::{
    chars_are, chars_of, find_char, has_prefix, lines_from, push_char, range_views, run_until, split_words, string_of,
    trim, trimmed, words_from,
};

verus! {

/// One discoverable command-line tool.
#[derive(Clone, Debug)]
pub struct Package {
    /// Install time as seconds since the Unix epoch; 0 when unknown.
    pub epoch: u64,
    pub name: String,
    pub source: String,
    pub description: String,
}

/// Civil date (year, month, day) of day number `days` since 1970-01-01.
pub open spec fn civil_from_days(days: int) -> (int, int, int) {
    let a = days + 2440588 + 32044;
    let b = (4 * a + 3) / 146097;
    let c = a - (146097 * b) / 4;
    let d = (4 * c + 3) / 1461;
    let e = c - (1461 * d) / 4;
    let m = (5 * e + 2) / 153;
    let day = e - (153 * m + 2) / 5 + 1;
    let month = m + 3 - 12 * (m / 10);
    let year = 100 * b + d - 4800 + m / 10;
    (year, month, day)
}

pub open spec fn digit_char(n: int) -> char {
    if n == 0 {
        '0'
    } else if n == 1 {
        '1'
    } else if n == 2 {
        '2'
    } else if n == 3 {
        '3'
    } else if n == 4 {
        '4'
    } else if n == 5 {
        '5'
    } else if n == 6 {
        '6'
    } else if n == 7 {
        '7'
    } else if n == 8 {
        '8'
    } else {
        '9'
    }
}

/// Decimal digits of `n`, without leading zeros.
pub open spec fn dec_digits(n: nat) -> Seq<char>
    decreases n,
{
    if n < 10 {
        seq![digit_char(n as int)]
    } else {
        dec_digits(n / 10).push(digit_char((n % 10) as int))
    }
}

/// `s` with zeros in front up to `width` characters.
pub open spec fn zero_pad(s: Seq<char>, width: nat) -> Seq<char> {
    if s.len() >= width {
        s
    } else {
        Seq::new((width - s.len()) as nat, |i: int| '0') + s
    }
}

/// `YYYY-MM-DD` of the day that second `epoch` falls on.
pub open spec fn date_text(epoch: nat) -> Seq<char> {
    let (y, m, d) = civil_from_days((epoch / 86400) as int);
    zero_pad(dec_digits(y as nat), 4) + seq!['-'] + zero_pad(dec_digits(m as nat), 2) + seq!['-']
        + zero_pad(dec_digits(d as nat), 2)
}

fn digit(n: u64) -> (c: char)
    requires
        n < 10,
    ensures
        c == digit_char(n as int),
{
    if n == 0 {
        '0'
    } else if n == 1 {
        '1'
    } else if n == 2 {
        '2'
    } else if n == 3 {
        '3'
    } else if n == 4 {
        '4'
    } else if n == 5 {
        '5'
    } else if n == 6 {
        '6'
    } else if n == 7 {
        '7'
    } else if n == 8 {
        '8'
    } else {
        '9'
    }
}

fn decimal_digits(n: u64) -> (r: Vec<char>)
    ensures
        r@ == dec_digits(n as nat),
    decreases n,
{
    if n < 10 {
        let mut v: Vec<char> = Vec::new();
        v.push(digit(n));
        v
    } else {
        let mut v = decimal_digits(n / 10);
        v.push(digit(n % 10));
        v
    }
}

/// Appends `n` in decimal, zero-padded to `width` characters.
fn push_padded(r: &mut String, n: u64, width: usize)
    ensures
        final(r)@ == old(r)@ + zero_pad(dec_digits(n as nat), width as nat),
{
    let digits = decimal_digits(n);
    let ghost start = r@;
    let mut zeros: usize = 0;
    if digits.len() < width {
        zeros = width - digits.len();
    }
    for i in 0..zeros
        invariant
            r@ == start + Seq::new(i as nat, |j: int| '0'),
    {
        push_char(r, '0');
        assert(r@ =~= start + Seq::new((i + 1) as nat, |j: int| '0'));
    }
    let ghost mid = r@;
    for i in 0..digits.len()
        invariant
            r@ == mid + digits@.subrange(0, i as int),
    {
        push_char(r, digits[i]);
        assert(r@ =~= mid + digits@.subrange(0, i + 1));
    }
    assert(digits@.subrange(0, digits@.len() as int) =~= digits@);
    assert(r@ =~= start + zero_pad(dec_digits(n as nat), width as nat));
}

/// Formats the day that second `epoch` falls on as `YYYY-MM-DD`.
pub fn epoch_to_date_str(epoch: u64) -> (r: String)
    ensures
        r@ == date_text(epoch as nat),
{
    let days = epoch / 86400;
    let a = days + 2440588 + 32044;
    let b = (4 * a + 3) / 146097;
    let c = a - (146097 * b) / 4;
    let d = (4 * c + 3) / 1461;
    let e = c - (1461 * d) / 4;
    let m = (5 * e + 2) / 153;
    let day = e - (153 * m + 2) / 5 + 1;
    let month = m + 3 - 12 * (m / 10);
    let year = 100 * b + d + m / 10 - 4800;
    let mut r = String::new();
    push_padded(&mut r, year, 4);
    push_char(&mut r, '-');
    push_padded(&mut r, month, 2);
    push_char(&mut r, '-');
    push_padded(&mut r, day, 2);
    assert(r@ =~= date_text(epoch as nat));
    r
}

impl Package {
    /// Install date as `YYYY-MM-DD`, or `unknown` padded to the same width
    /// when the date is not known.
    pub fn date_str(&self) -> (r: String)
        ensures
            r@ == (if self.epoch == 0 {
                "unknown   "@
            } else {
                date_text(self.epoch as nat)
            }),
    {
        if self.epoch == 0 {
            String::from_str("unknown   ")
        } else {
            epoch_to_date_str(self.epoch)
        }
    }
}

pub open spec fn names_seq(s: Seq<Package>) -> Seq<Seq<char>> {
    s.map_values(|p: Package| p.name@)
}

/// `s` keeping the first record of each name.
pub open spec fn first_of_each_name(s: Seq<Package>) -> Seq<Package>
    decreases s.len(),
{
    if s.len() == 0 {
        s
    } else {
        let r = first_of_each_name(s.drop_last());
        if names_seq(r).contains(s.last().name@) {
            r
        } else {
            r.push(s.last())
        }
    }
}

/// Where a stable insertion puts `x` into `s`, newest first: after every
/// record at least as new.
pub open spec fn newest_pos(s: Seq<Package>, x: Package) -> nat
    decreases s.len(),
{
    if s.len() == 0 {
        0
    } else if s.last().epoch < x.epoch {
        newest_pos(s.drop_last(), x)
    } else {
        s.len()
    }
}

/// `s` ordered newest first; records of equal date keep their order.
pub open spec fn newest_first(s: Seq<Package>) -> Seq<Package>
    decreases s.len(),
{
    if s.len() == 0 {
        s
    } else {
        let r = newest_first(s.drop_last());
        r.insert(newest_pos(r, s.last()) as int, s.last())
    }
}

fn has_name(v: &Vec<Package>, name: &String) -> (r: bool)
    ensures
        r == names_seq(v@).contains(name@),
{
    let mut k: usize = 0;
    while k < v.len()
        invariant
            k <= v@.len(),
            forall|j: int| 0 <= j < k ==> v@[j].name@ != name@,
        decreases v@.len() - k,
    {
        if v[k].name == *name {
            assert(names_seq(v@)[k as int] == name@);
            return true;
        }
        k = k + 1;
    }
    assert forall|j: int| 0 <= j < v@.len() implies names_seq(v@)[j] != name@ by {
        assert(v@[j].name@ != name@);
    }
    false
}

/// Merges the records of all sources: the first record of each tool name is
/// kept, and the result is ordered newest first.
pub fn build_packages(collected: Vec<Package>) -> (r: Vec<Package>)
    ensures
        r@ == newest_first(first_of_each_name(collected@)),
{
    let ghost all = collected@;
    let mut rest = collected;
    let mut kept: Vec<Package> = Vec::new();
    let mut k: usize = 0;
    let n = rest.len();
    while rest.len() > 0
        invariant
            all.len() == n,
            k + rest@.len() == all.len(),
            rest@ == all.subrange(k as int, all.len() as int),
            kept@ == first_of_each_name(all.subrange(0, k as int)),
        decreases rest@.len(),
    {
        let p = rest.remove(0);
        assert(all.subrange(0, k + 1).drop_last() =~= all.subrange(0, k as int));
        assert(rest@ =~= all.subrange(k + 1, all.len() as int));
        if !has_name(&kept, &p.name) {
            kept.push(p);
        }
        k = k + 1;
    }
    assert(all.subrange(0, all.len() as int) =~= all);
    let ghost uniq = kept@;
    let mut out: Vec<Package> = Vec::new();
    let mut j: usize = 0;
    let m = kept.len();
    while kept.len() > 0
        invariant
            uniq.len() == m,
            j + kept@.len() == uniq.len(),
            kept@ == uniq.subrange(j as int, uniq.len() as int),
            out@ == newest_first(uniq.subrange(0, j as int)),
        decreases kept@.len(),
    {
        let p = kept.remove(0);
        let mut pos = out.len();
        assert(out@.subrange(0, pos as int) =~= out@);
        while pos > 0 && out[pos - 1].epoch < p.epoch
            invariant
                pos <= out@.len(),
                newest_pos(out@, p) == newest_pos(out@.subrange(0, pos as int), p),
            decreases pos,
        {
            assert(out@.subrange(0, pos as int).drop_last() =~= out@.subrange(0, pos - 1));
            pos = pos - 1;
        }
        let ghost sub = out@.subrange(0, pos as int);
        if pos > 0 {
            assert(sub.last() == out@[pos - 1]);
        }
        assert(newest_pos(sub, p) == pos);
        out.insert(pos, p);
        assert(uniq.subrange(0, j + 1).drop_last() =~= uniq.subrange(0, j as int));
        assert(kept@ =~= uniq.subrange(j + 1, uniq.len() as int));
        j = j + 1;
    }
    assert(uniq.subrange(0, uniq.len() as int) =~= uniq);
    out
}

/// Value of a run of decimal digit characters.
pub open spec fn digits_value(w: Seq<char>) -> nat
    decreases w.len(),
{
    if w.len() == 0 {
        0
    } else {
        digits_value(w.drop_last()) * 10 + (w.last() as nat - 48) as nat
    }
}

pub open spec fn all_digits(w: Seq<char>) -> bool {
    forall|i: int| 0 <= i < w.len() ==> '0' <= #[trigger] w[i] <= '9'
}

/// The value of `d` when it is a non-empty run of digits worth at most `cap`.
pub open spec fn digits_within(d: Seq<char>, cap: nat) -> Option<nat> {
    if d.len() > 0 && all_digits(d) && digits_value(d) <= cap {
        Some(digits_value(d))
    } else {
        None
    }
}

/// What `str::parse::<u32>` reads: an optional `+` and at least one digit,
/// within range.
pub open spec fn parse_u32(w: Seq<char>) -> Option<u32> {
    let d = if w.len() > 0 && w[0] == '+' {
        w.drop_first()
    } else {
        w
    };
    match digits_within(d, u32::MAX as nat) {
        Some(n) => Some(n as u32),
        None => None,
    }
}

/// What `str::parse::<i64>` reads: an optional sign and at least one digit,
/// within range.
pub open spec fn parse_i64(w: Seq<char>) -> Option<i64> {
    if w.len() > 0 && w[0] == '-' {
        match digits_within(w.drop_first(), 0x8000_0000_0000_0000nat) {
            Some(n) => Some((-n) as i64),
            None => None,
        }
    } else {
        let d = if w.len() > 0 && w[0] == '+' {
            w.drop_first()
        } else {
            w
        };
        match digits_within(d, i64::MAX as nat) {
            Some(n) => Some(n as i64),
            None => None,
        }
    }
}

/// Reads `v[from..to]` as a run of digits worth at most `cap`.
pub(crate) fn read_digits(v: &Vec<char>, from: usize, to: usize, cap: u64) -> (r: Option<u64>)
    requires
        from <= to <= v@.len(),
    ensures
        r == (match digits_within(v@.subrange(from as int, to as int), cap as nat) {
            Some(n) => Some(n as u64),
            None => None,
        }),
{
    let ghost d = v@.subrange(from as int, to as int);
    if from == to {
        return None;
    }
    let mut value: u128 = 0;
    let mut i = from;
    while i < to
        invariant
            from <= i <= to,
            to <= v@.len(),
            d == v@.subrange(from as int, to as int),
            d.len() > 0,
            value <= cap,
            all_digits(v@.subrange(from as int, i as int)),
            value == digits_value(v@.subrange(from as int, i as int)),
        decreases to - i,
    {
        let c = v[i];
        let ghost pre = v@.subrange(from as int, i as int);
        let ghost next = v@.subrange(from as int, i + 1);
        assert(next.drop_last() =~= pre);
        if c < '0' || c > '9' {
            assert(!all_digits(d)) by {
                assert(d[i - from] == c);
            }
            return None;
        }
        let nv = value * 10 + (c as u128 - 48);
        assert(nv == digits_value(next));
        if nv > cap as u128 {
            proof {
                lemma_digits_value_grows(d, (i + 1 - from) as int);
                assert(d.subrange(0, (i + 1 - from) as int) =~= next);
            }
            return None;
        }
        value = nv;
        i = i + 1;
    }
    Some(value as u64)
}

/// Reads `v[from..to]` as `str::parse::<u32>` does.
fn read_u32(v: &Vec<char>, from: usize, to: usize) -> (r: Option<u32>)
    requires
        from <= to <= v@.len(),
    ensures
        r == parse_u32(v@.subrange(from as int, to as int)),
{
    let ghost w = v@.subrange(from as int, to as int);
    let mut start = from;
    if from < to && v[from] == '+' {
        start = from + 1;
    }
    assert(v@.subrange(start as int, to as int) =~= (if w.len() > 0 && w[0] == '+' {
        w.drop_first()
    } else {
        w
    }));
    match read_digits(v, start, to, 4294967295) {
        Some(n) => Some(n as u32),
        None => None,
    }
}

/// Reads `v[from..to]` as `str::parse::<i64>` does.
fn read_i64(v: &Vec<char>, from: usize, to: usize) -> (r: Option<i64>)
    requires
        from <= to <= v@.len(),
    ensures
        r == parse_i64(v@.subrange(from as int, to as int)),
{
    let ghost w = v@.subrange(from as int, to as int);
    if from < to && v[from] == '-' {
        assert(v@.subrange(from + 1, to as int) =~= w.drop_first());
        match read_digits(v, from + 1, to, 0x8000_0000_0000_0000u64) {
            Some(n) => {
                if n == 0x8000_0000_0000_0000u64 {
                    Some(i64::MIN)
                } else {
                    Some(-(n as i64))
                }
            },
            None => None,
        }
    } else {
        let mut start = from;
        if from < to && v[from] == '+' {
            start = from + 1;
        }
        assert(v@.subrange(start as int, to as int) =~= (if w.len() > 0 && w[0] == '+' {
            w.drop_first()
        } else {
            w
        }));
        match read_digits(v, start, to, 0x7fff_ffff_ffff_ffffu64) {
            Some(n) => Some(n as i64),
            None => None,
        }
    }
}

proof fn lemma_digits_value_grows(d: Seq<char>, k: int)
    requires
        0 <= k <= d.len(),
        all_digits(d.subrange(0, k)) ==> true,
    ensures
        all_digits(d) ==> digits_value(d) >= digits_value(d.subrange(0, k)),
    decreases d.len() - k,
{
    if k < d.len() && all_digits(d) {
        let e = d.subrange(0, k + 1);
        assert(e.drop_last() =~= d.subrange(0, k));
        lemma_digits_value_grows(d, k + 1);
        assert(digits_value(e) >= digits_value(d.subrange(0, k)));
    } else if k == d.len() {
        assert(d.subrange(0, k) =~= d);
    }
}

/// Month number of an English three-letter abbreviation, 0 for anything else.
pub open spec fn month_number(w: Seq<char>) -> u32 {
    if w == "Jan"@ {
        1
    } else if w == "Feb"@ {
        2
    } else if w == "Mar"@ {
        3
    } else if w == "Apr"@ {
        4
    } else if w == "May"@ {
        5
    } else if w == "Jun"@ {
        6
    } else if w == "Jul"@ {
        7
    } else if w == "Aug"@ {
        8
    } else if w == "Sep"@ {
        9
    } else if w == "Oct"@ {
        10
    } else if w == "Nov"@ {
        11
    } else if w == "Dec"@ {
        12
    } else {
        0
    }
}

fn read_month(v: &Vec<char>, from: usize, to: usize) -> (r: u32)
    requires
        from <= to <= v@.len(),
    ensures
        r == month_number(v@.subrange(from as int, to as int)),
{
    if chars_are(v, from, to, "Jan") {
        1
    } else if chars_are(v, from, to, "Feb") {
        2
    } else if chars_are(v, from, to, "Mar") {
        3
    } else if chars_are(v, from, to, "Apr") {
        4
    } else if chars_are(v, from, to, "May") {
        5
    } else if chars_are(v, from, to, "Jun") {
        6
    } else if chars_are(v, from, to, "Jul") {
        7
    } else if chars_are(v, from, to, "Aug") {
        8
    } else if chars_are(v, from, to, "Sep") {
        9
    } else if chars_are(v, from, to, "Oct") {
        10
    } else if chars_are(v, from, to, "Nov") {
        11
    } else if chars_are(v, from, to, "Dec") {
        12
    } else {
        0
    }
}

/// Seconds since the Unix epoch of a civil date and time, through the Julian
/// day number; 0 for days before the epoch.
pub open spec fn epoch_of(year: int, month: int, day: int, hour: int, min: int, sec: int) -> int {
    let a = (14 - month) / 12;
    let y = year + 4800 - a;
    let m = month + 12 * a - 3;
    let jdn = day + (153 * m + 2) / 5 + 365 * y + y / 4 - y / 100 + y / 400 - 32045;
    let unix_day = jdn - 2440588;
    if unix_day < 0 {
        0
    } else {
        unix_day * 86400 + hour * 3600 + min * 60 + sec
    }
}

/// Seconds since the Unix epoch of a civil date and time; 0 before the epoch.
pub fn date_to_epoch(year: i64, month: u32, day: u32, hour: u64, min: u32, sec: u32) -> (r: u64)
    requires
        0 <= year <= 9999,
        1 <= month <= 12,
        hour <= u32::MAX + 12,
    ensures
        r as int == epoch_of(year as int, month as int, day as int, hour as int, min as int, sec as int),
{
    let a: u64 = (14 - month as u64) / 12;
    let y: u64 = year as u64 + 4800 - a;
    let m: u64 = month as u64 + 12 * a - 3;
    let jdn: u64 = day as u64 + (153 * m + 2) / 5 + 365 * y + y / 4 - y / 100 + y / 400 - 32045;
    if jdn < 2440588 {
        return 0;
    }
    let unix_day = jdn - 2440588;
    unix_day * 86400 + hour * 3600 + (min as u64) * 60 + sec as u64
}

/// The install time that pacman prints, e.g. `Thu 01 Feb 2024 10:23:45 AM UTC`
/// or with a 24-hour clock; 0 when it cannot be read, or when its year is not
/// between 0 and 9999.
pub open spec fn pacman_date(s: Seq<char>) -> u64 {
    let parts = words_from(s, 0);
    if parts.len() < 5 {
        0
    } else {
        let day = match parse_u32(parts[1]) {
            Some(x) => x,
            None => 0,
        };
        let month = month_number(parts[2]);
        let year = match parse_i64(parts[3]) {
            Some(x) => x,
            None => 0,
        };
        let t = parts[4];
        let c1 = run_until(t, 0, ':') as int;
        let c2 = c1 + 1 + run_until(t, c1 + 1, ':');
        if month == 0 || c1 >= t.len() || c2 >= t.len() {
            0
        } else {
            let h = match parse_u32(t.subrange(0, c1)) {
                Some(x) => x,
                None => 0,
            };
            let mi = match parse_u32(t.subrange(c1 + 1, c2)) {
                Some(x) => x,
                None => 0,
            };
            let se = match parse_u32(t.subrange(c2 + 1, t.len() as int)) {
                Some(x) => x,
                None => 0,
            };
            let hour: int = if parts.len() >= 6 && parts[5] == "PM"@ && h != 12 {
                h + 12
            } else if parts.len() >= 6 && parts[5] == "AM"@ && h == 12 {
                0
            } else {
                h as int
            };
            if 0 <= year <= 9999 {
                epoch_of(year as int, month as int, day as int, hour, mi as int, se as int) as u64
            } else {
                0
            }
        }
    }
}

/// Reads an install time as pacman prints it.
pub fn parse_pacman_date(s: &str) -> (r: u64)
    ensures
        r == pacman_date(s@),
{
    let v = chars_of(s);
    let parts = split_words(&v);
    let ghost words = words_from(v@, 0);
    assert(parts@.len() == words.len());
    if parts.len() < 5 {
        return 0;
    }
    assert(range_views(v@, parts@)[1] == words[1]);
    assert(range_views(v@, parts@)[2] == words[2]);
    assert(range_views(v@, parts@)[3] == words[3]);
    assert(range_views(v@, parts@)[4] == words[4]);
    let day = match read_u32(&v, parts[1].0, parts[1].1) {
        Some(x) => x,
        None => 0,
    };
    let month = read_month(&v, parts[2].0, parts[2].1);
    let year = match read_i64(&v, parts[3].0, parts[3].1) {
        Some(x) => x,
        None => 0,
    };
    let t = vstd::slice::slice_to_vec(vstd::slice::slice_subrange(v.as_slice(), parts[4].0, parts[4].1));
    assert(t@.subrange(0, t@.len() as int) =~= t@);
    let c1 = find_char(&t, 0, t.len(), ':');
    if month == 0 || c1 >= t.len() {
        return 0;
    }
    let c2 = find_char(&t, c1 + 1, t.len(), ':');
    if c2 >= t.len() {
        return 0;
    }
    let h = match read_u32(&t, 0, c1) {
        Some(x) => x,
        None => 0,
    };
    let mi = match read_u32(&t, c1 + 1, c2) {
        Some(x) => x,
        None => 0,
    };
    let se = match read_u32(&t, c2 + 1, t.len()) {
        Some(x) => x,
        None => 0,
    };
    let mut hour = h as u64;
    if parts.len() >= 6 {
        assert(range_views(v@, parts@)[5] == words[5]);
        if chars_are(&v, parts[5].0, parts[5].1, "PM") && h != 12 {
            hour = h as u64 + 12;
        } else if chars_are(&v, parts[5].0, parts[5].1, "AM") && h == 12 {
            hour = 0;
        }
    }
    if 0 <= year && year <= 9999 {
        date_to_epoch(year, month, day, hour, mi, se)
    } else {
        0
    }
}

/// The text after the first `:` of `line`, trimmed; empty without a `:`.
pub open spec fn after_colon_spec(line: Seq<char>) -> Seq<char> {
    let k = run_until(line, 0, ':') as int;
    if k < line.len() {
        trimmed(line.subrange(k + 1, line.len() as int))
    } else {
        seq![]
    }
}

/// The text after the first `:` of `v[from..to]`, trimmed.
fn after_colon(v: &Vec<char>, from: usize, to: usize) -> (r: String)
    requires
        from <= to <= v@.len(),
    ensures
        r@ == after_colon_spec(v@.subrange(from as int, to as int)),
{
    let t = vstd::slice::slice_to_vec(vstd::slice::slice_subrange(v.as_slice(), from, to));
    assert(t@.subrange(0, t@.len() as int) =~= t@);
    let k = find_char(&t, 0, t.len(), ':');
    if k < t.len() {
        let rest = string_of(&t, k + 1, t.len());
        String::from_str(trim(rest.as_str()))
    } else {
        String::new()
    }
}

/// Record scan state: name, description and install time of the record being
/// read, and the records finished so far.
pub type PacmanScan = (Seq<char>, Seq<char>, u64, Seq<(Seq<char>, Seq<char>, u64)>);

/// One line of `pacman -Qi` output: `Name` starts a record, `Description`
/// and `Install Date` fill it, a blank line ends it.
pub open spec fn scan_line(line: Seq<char>, st: PacmanScan) -> PacmanScan {
    if "Name "@.is_prefix_of(line) {
        (after_colon_spec(line), seq![], 0, st.3)
    } else if "Description "@.is_prefix_of(line) {
        (st.0, after_colon_spec(line), st.2, st.3)
    } else if "Install Date"@.is_prefix_of(line) {
        (st.0, st.1, pacman_date(after_colon_spec(line)), st.3)
    } else if line.len() == 0 && st.0.len() > 0 {
        (seq![], st.1, st.2, st.3.push((st.0, st.1, st.2)))
    } else {
        st
    }
}

pub open spec fn scan_lines(lines: Seq<Seq<char>>) -> PacmanScan
    decreases lines.len(),
{
    if lines.len() == 0 {
        (seq![], seq![], 0, seq![])
    } else {
        scan_line(lines.last(), scan_lines(lines.drop_last()))
    }
}

/// The (name, description, install time) records of `pacman -Qi` output; a
/// record not followed by a blank line counts too.
pub open spec fn pacman_entries(info: Seq<char>) -> Seq<(Seq<char>, Seq<char>, u64)> {
    let st = scan_lines(lines_from(info, 0));
    if st.0.len() > 0 {
        st.3.push((st.0, st.1, st.2))
    } else {
        st.3
    }
}

pub open spec fn entry_views(r: Seq<Package>) -> Seq<(Seq<char>, Seq<char>, u64)> {
    r.map_values(|p: Package| (p.name@, p.description@, p.epoch))
}

fn pacman_record(name: &String, description: &String, epoch: u64) -> (p: Package)
    ensures
        p.name == *name,
        p.description == *description,
        p.epoch == epoch,
        p.source@ == "pacman"@,
{
    Package {
        epoch,
        name: name.clone(),
        source: String::from_str("pacman"),
        description: description.clone(),
    }
}

/// Reads the records of `pacman -Qi` output; every record's source is pacman.
pub fn parse_pacman_info(info: &str) -> (r: Vec<Package>)
    ensures
        entry_views(r@) == pacman_entries(info@),
        forall|k: int| 0 <= k < r@.len() ==> (#[trigger] r@[k]).source@ == "pacman"@,
{
    let v = chars_of(info);
    let n = v.len();
    let p_name = chars_of("Name ");
    let p_desc = chars_of("Description ");
    let p_date = chars_of("Install Date");
    let mut name = String::new();
    let mut desc = String::new();
    let mut epoch: u64 = 0;
    let mut out: Vec<Package> = Vec::new();
    let ghost all = lines_from(v@, 0);
    let ghost mut seen: Seq<Seq<char>> = seq![];
    let mut i: usize = 0;
    let mut done = n == 0;
    assert(v@.subrange(0, n as int) =~= v@);
    assert(entry_views(out@) =~= Seq::<(Seq<char>, Seq<char>, u64)>::empty());
    assert(seen + all =~= all);
    while !done
        invariant
            n == v@.len(),
            v@.subrange(0, n as int) == v@,
            i <= n,
            all == lines_from(v@, 0),
            p_name@ == "Name "@,
            p_desc@ == "Description "@,
            p_date@ == "Install Date"@,
            !done ==> i < n && seen + lines_from(v@, i as int) == all,
            done ==> seen == all,
            (name@, desc@, epoch, entry_views(out@)) == scan_lines(seen),
            forall|k: int| 0 <= k < out@.len() ==> (#[trigger] out@[k]).source@ == "pacman"@,
        decreases n - i + (if done { 0int } else { 1int }),
    {
        let k = find_char(&v, i, n, '\n');
        let mut le = k;
        if k < n && k > i && v[k - 1] == '\r' {
            le = k - 1;
        }
        let ghost line = v@.subrange(i as int, le as int);
        let ghost raw = v@.subrange(i as int, k as int);
        proof {
            if k < n {
                if raw.len() > 0 && raw.last() == '\r' {
                    assert(raw.drop_last() =~= line);
                } else {
                    assert(raw =~= line);
                }
            }
        }
        assert(lines_from(v@, i as int)[0] == line);
        let ghost before = (name@, desc@, epoch, entry_views(out@));
        if has_prefix(&v, i, le, &p_name) {
            name = after_colon(&v, i, le);
            desc = String::new();
            epoch = 0;
        } else if has_prefix(&v, i, le, &p_desc) {
            desc = after_colon(&v, i, le);
        } else if has_prefix(&v, i, le, &p_date) {
            let when = after_colon(&v, i, le);
            epoch = parse_pacman_date(when.as_str());
        } else if le == i && !name.as_str().is_empty() {
            let ghost prev = out@;
            out.push(pacman_record(&name, &desc, epoch));
            assert(entry_views(out@) =~= entry_views(prev).push((before.0, before.1, before.2)));
            name = String::new();
        }
        assert(seen.push(line).drop_last() =~= seen);
        assert((name@, desc@, epoch, entry_views(out@)) == scan_line(line, before));
        proof {
            seen = seen.push(line);
        }
        if k < n {
            assert(lines_from(v@, i as int) == seq![line] + lines_from(v@, k + 1));
            assert(seen + lines_from(v@, k + 1) =~= seen.drop_last() + lines_from(v@, i as int));
            if k + 1 < n {
                i = k + 1;
            } else {
                assert(lines_from(v@, k + 1) =~= Seq::<Seq<char>>::empty());
                assert(seen =~= all);
                i = n;
                done = true;
            }
        } else {
            assert(lines_from(v@, i as int) =~= seq![line]);
            assert(seen =~= all);
            i = n;
            done = true;
        }
    }
    if !name.as_str().is_empty() {
        let ghost prev = out@;
        out.push(pacman_record(&name, &desc, epoch));
        assert(entry_views(out@) =~= entry_views(prev).push((name@, desc@, epoch)));
    }
    out
}

/// One line of the package cache, `EPOCH<TAB>NAME<TAB>SOURCE[<TAB>DESCRIPTION]`
/// split as `splitn(4, '\t')` does: (epoch, name, source, description), or
/// `None` without two tabs or with an epoch that does not read as a `u64`.
pub open spec fn cache_record(line: Seq<char>) -> Option<(u64, Seq<char>, Seq<char>, Seq<char>)> {
    let t1 = run_until(line, 0, '\t') as int;
    let t2 = t1 + 1 + run_until(line, t1 + 1, '\t');
    let t3 = t2 + 1 + run_until(line, t2 + 1, '\t');
    if t1 >= line.len() || t2 >= line.len() {
        None
    } else {
        match crate::audit::parse_u64(line.subrange(0, t1)) {
            None => None,
            Some(epoch) => Some(
                (
                    epoch,
                    line.subrange(t1 + 1, t2),
                    line.subrange(t2 + 1, if t3 < line.len() {
                        t3
                    } else {
                        line.len() as int
                    }),
                    if t3 < line.len() {
                        line.subrange(t3 + 1, line.len() as int)
                    } else {
                        seq![]
                    },
                ),
            ),
        }
    }
}

/// The records of the lines `lines[..]` that read as cache records, in order.
pub open spec fn cache_records(lines: Seq<Seq<char>>) -> Seq<(u64, Seq<char>, Seq<char>, Seq<char>)>
    decreases lines.len(),
{
    if lines.len() == 0 {
        seq![]
    } else {
        let r = cache_records(lines.drop_last());
        match cache_record(lines.last()) {
            Some(x) => r.push(x),
            None => r,
        }
    }
}

pub open spec fn record_views(r: Seq<Package>) -> Seq<(u64, Seq<char>, Seq<char>, Seq<char>)> {
    r.map_values(|p: Package| (p.epoch, p.name@, p.source@, p.description@))
}

fn read_cache_line(t: &Vec<char>) -> (r: Option<Package>)
    requires
        t@.subrange(0, t@.len() as int) == t@,
    ensures
        match cache_record(t@) {
            Some(x) => r.is_some() && (r.unwrap().epoch, r.unwrap().name@, r.unwrap().source@, r.unwrap().description@) == x,
            None => r.is_none(),
        },
{
    let n = t.len();
    let t1 = find_char(t, 0, n, '\t');
    if t1 >= n {
        return None;
    }
    let t2 = find_char(t, t1 + 1, n, '\t');
    if t2 >= n {
        return None;
    }
    let t3 = find_char(t, t2 + 1, n, '\t');
    match crate::audit::read_u64(t, 0, t1) {
        None => None,
        Some(epoch) => {
            let name = string_of(t, t1 + 1, t2);
            let src_end = if t3 < n {
                t3
            } else {
                n
            };
            let source = string_of(t, t2 + 1, src_end);
            let description = if t3 < n {
                string_of(t, t3 + 1, n)
            } else {
                String::new()
            };
            Some(Package { epoch, name, source, description })
        },
    }
}

fn push_cache_line(out: &mut Vec<Package>, t: &Vec<char>)
    requires
        t@.subrange(0, t@.len() as int) == t@,
    ensures
        record_views(final(out)@) == match cache_record(t@) {
            Some(x) => record_views(old(out)@).push(x),
            None => record_views(old(out)@),
        },
{
    let ghost prev = out@;
    match read_cache_line(t) {
        Some(p) => {
            out.push(p);
            assert(record_views(out@) =~= record_views(prev).push(cache_record(t@).unwrap()));
        },
        None => {},
    }
}

/// Reads the package cache file's text; lines that do not read are skipped.
pub fn parse_cache(content: &str) -> (r: Vec<Package>)
    ensures
        record_views(r@) == cache_records(lines_from(content@, 0)),
{
    let v = chars_of(content);
    let n = v.len();
    let mut out: Vec<Package> = Vec::new();
    let ghost all = lines_from(v@, 0);
    let ghost mut seen: Seq<Seq<char>> = seq![];
    let mut i: usize = 0;
    let mut done = n == 0;
    assert(v@.subrange(0, n as int) =~= v@);
    assert(record_views(out@) =~= Seq::<(u64, Seq<char>, Seq<char>, Seq<char>)>::empty());
    assert(seen + all =~= all);
    while !done
        invariant
            n == v@.len(),
            v@.subrange(0, n as int) == v@,
            i <= n,
            all == lines_from(v@, 0),
            !done ==> i < n && seen + lines_from(v@, i as int) == all,
            done ==> seen == all,
            record_views(out@) == cache_records(seen),
        decreases n - i + (if done { 0int } else { 1int }),
    {
        let k = find_char(&v, i, n, '\n');
        let mut le = k;
        if k < n && k > i && v[k - 1] == '\r' {
            le = k - 1;
        }
        let ghost raw_line = v@.subrange(i as int, k as int);
        let t = vstd::slice::slice_to_vec(vstd::slice::slice_subrange(v.as_slice(), i, le));
        assert(t@.subrange(0, t@.len() as int) =~= t@);
        let ghost line = t@;
        proof {
            if k < n {
                if raw_line.len() > 0 && raw_line.last() == '\r' {
                    assert(raw_line.drop_last() =~= line);
                } else {
                    assert(raw_line =~= line);
                }
            }
        }
        assert(lines_from(v@, i as int)[0] == line);
        push_cache_line(&mut out, &t);
        assert(seen.push(line).drop_last() =~= seen);
        proof {
            seen = seen.push(line);
        }
        if k < n {
            assert(lines_from(v@, i as int) == seq![line] + lines_from(v@, k + 1));
            assert(seen + lines_from(v@, k + 1) =~= seen.drop_last() + lines_from(v@, i as int));
            if k + 1 < n {
                i = k + 1;
            } else {
                assert(lines_from(v@, k + 1) =~= Seq::<Seq<char>>::empty());
                assert(seen =~= all);
                i = n;
                done = true;
            }
        } else {
            assert(lines_from(v@, i as int) =~= seq![line]);
            assert(seen =~= all);
            i = n;
            done = true;
        }
    }
    out
}

/// Last position at or before `i` where `pat` occurs in `s`.
pub open spec fn last_match(s: Seq<char>, pat: Seq<char>, i: int) -> Option<int>
    decreases i + 1,
{
    if i < 0 {
        None
    } else if i + pat.len() <= s.len() && s.subrange(i, i + pat.len()) == pat {
        Some(i)
    } else {
        last_match(s, pat, i - 1)
    }
}

pub open spec fn trail_colons(s: Seq<char>, j: int) -> nat
    decreases j,
{
    if 0 < j <= s.len() && s[j - 1] == ':' {
        1 + trail_colons(s, j - 1)
    } else {
        0
    }
}

/// Crate name in a `cargo install --list` header such as `ripgrep v14.1.0:`:
/// the text before the last ` v`, trimmed; without one, the line without its
/// trailing colons, trimmed.
pub open spec fn crate_of_header(line: Seq<char>) -> Seq<char> {
    match last_match(line, " v"@, line.len() - 2) {
        Some(i) => trimmed(line.subrange(0, i)),
        None => trimmed(line.subrange(0, line.len() - trail_colons(line, line.len() as int))),
    }
}

/// One line of `cargo install --list`: a header names the crate, an indented
/// line names one of its binaries.
pub open spec fn cargo_line(
    line: Seq<char>,
    st: (Seq<char>, Seq<(Seq<char>, Seq<char>)>),
) -> (Seq<char>, Seq<(Seq<char>, Seq<char>)>) {
    if line.len() > 0 && line[0] != ' ' {
        (crate_of_header(line), st.1)
    } else if "    "@.is_prefix_of(line) && st.0.len() > 0 {
        (st.0, st.1.push((st.0, trimmed(line))))
    } else {
        st
    }
}

pub open spec fn cargo_lines(lines: Seq<Seq<char>>) -> (Seq<char>, Seq<(Seq<char>, Seq<char>)>)
    decreases lines.len(),
{
    if lines.len() == 0 {
        (seq![], seq![])
    } else {
        cargo_line(lines.last(), cargo_lines(lines.drop_last()))
    }
}

pub open spec fn pair_views(r: Seq<(String, String)>) -> Seq<(Seq<char>, Seq<char>)> {
    r.map_values(|p: (String, String)| (p.0@, p.1@))
}

fn header_crate(t: &Vec<char>) -> (r: String)
    requires
        t@.len() > 0,
    ensures
        r@ == crate_of_header(t@),
{
    let n = t.len();
    let p = chars_of(" v");
    proof {
        reveal_strlit(" v");
    }
    let mut j: usize = n;
    let mut found = false;
    while j >= 2 && !found
        invariant
            p@ == " v"@,
            p@.len() == 2,
            n == t@.len(),
            j <= n,
            !found ==> last_match(t@, p@, j - 2) == last_match(t@, p@, n - 2),
            found ==> j >= 2 && last_match(t@, p@, n - 2) == Some(j - 2),
        decreases j + (if found { 0int } else { 1int }),
    {
        if has_prefix(t, j - 2, n, &p) {
            assert(t@.subrange(j - 2, n as int).subrange(0, 2) =~= t@.subrange(j - 2, j as int));
            found = true;
        } else {
            proof {
                if t@.subrange(j - 2, j as int) == p@ {
                    assert(t@.subrange(j - 2, n as int).subrange(0, 2) =~= t@.subrange(j - 2, j as int));
                    assert(p@.is_prefix_of(t@.subrange(j - 2, n as int)));
                }
            }
            j = j - 1;
        }
    }
    if found {
        String::from_str(trim(string_of(t, 0, j - 2).as_str()))
    } else {
        assert(last_match(t@, p@, j - 2) is None);
        let mut e = n;
        while e > 0 && t[e - 1] == ':'
            invariant
                e <= n,
                n == t@.len(),
                trail_colons(t@, n as int) == (n - e) + trail_colons(t@, e as int),
            decreases e,
        {
            e = e - 1;
        }
        String::from_str(trim(string_of(t, 0, e).as_str()))
    }
}

/// The (crate, binary) pairs of `cargo install --list` output, in order.
pub fn parse_cargo_list(output: &str) -> (r: Vec<(String, String)>)
    ensures
        pair_views(r@) == cargo_lines(lines_from(output@, 0)).1,
{
    let v = chars_of(output);
    let n = v.len();
    let indent = chars_of("    ");
    let mut krate = String::new();
    let mut out: Vec<(String, String)> = Vec::new();
    let ghost all = lines_from(v@, 0);
    let ghost mut seen: Seq<Seq<char>> = seq![];
    let mut i: usize = 0;
    let mut done = n == 0;
    assert(v@.subrange(0, n as int) =~= v@);
    assert(pair_views(out@) =~= Seq::<(Seq<char>, Seq<char>)>::empty());
    assert(seen + all =~= all);
    while !done
        invariant
            n == v@.len(),
            v@.subrange(0, n as int) == v@,
            i <= n,
            indent@ == "    "@,
            all == lines_from(v@, 0),
            !done ==> i < n && seen + lines_from(v@, i as int) == all,
            done ==> seen == all,
            (krate@, pair_views(out@)) == cargo_lines(seen),
        decreases n - i + (if done { 0int } else { 1int }),
    {
        let k = find_char(&v, i, n, '\n');
        let mut le = k;
        if k < n && k > i && v[k - 1] == '\r' {
            le = k - 1;
        }
        let ghost raw_line = v@.subrange(i as int, k as int);
        let t = vstd::slice::slice_to_vec(vstd::slice::slice_subrange(v.as_slice(), i, le));
        assert(t@.subrange(0, t@.len() as int) =~= t@);
        let ghost line = t@;
        proof {
            if k < n {
                if raw_line.len() > 0 && raw_line.last() == '\r' {
                    assert(raw_line.drop_last() =~= line);
                } else {
                    assert(raw_line =~= line);
                }
            }
        }
        assert(lines_from(v@, i as int)[0] == line);
        let ghost before = (krate@, pair_views(out@));
        if t.len() > 0 && t[0] != ' ' {
            krate = header_crate(&t);
        } else if has_prefix(&t, 0, t.len(), &indent) && !krate.as_str().is_empty() {
            let bin = String::from_str(trim(string_of(&t, 0, t.len()).as_str()));
            let ghost prev = out@;
            out.push((krate.clone(), bin));
            assert(pair_views(out@) =~= pair_views(prev).push((krate@, trimmed(line))));
        }
        assert(seen.push(line).drop_last() =~= seen);
        assert((krate@, pair_views(out@)) == cargo_line(line, before));
        proof {
            seen = seen.push(line);
        }
        if k < n {
            assert(lines_from(v@, i as int) == seq![line] + lines_from(v@, k + 1));
            assert(seen + lines_from(v@, k + 1) =~= seen.drop_last() + lines_from(v@, i as int));
            if k + 1 < n {
                i = k + 1;
            } else {
                assert(lines_from(v@, k + 1) =~= Seq::<Seq<char>>::empty());
                assert(seen =~= all);
                i = n;
                done = true;
            }
        } else {
            assert(lines_from(v@, i as int) =~= seq![line]);
            assert(seen =~= all);
            i = n;
            done = true;
        }
    }
    out
}

/// The fields of one formula of brew's installed-formulae report that the
/// selection reads.
#[derive(Debug)]
pub struct BrewFormula {
    pub name: Option<String>,
    pub desc: Option<String>,
    /// `time` of each installation, in report order.
    pub installed_times: Vec<Option<u64>>,
    pub installed_on_request: Option<bool>,
}

pub open spec fn opt_text(s: Option<String>) -> Seq<char> {
    match s {
        Some(t) => t@,
        None => seq![],
    }
}

/// The record of a formula installed on request, with at least one
/// installation and a name: dated by its last installation (0 without a time).
pub open spec fn brew_record(f: BrewFormula) -> Option<(u64, Seq<char>, Seq<char>)> {
    if f.installed_times@.len() == 0 || f.installed_on_request != Some(true) || opt_text(f.name).len() == 0 {
        None
    } else {
        let epoch = match f.installed_times@.last() {
            Some(t) => t,
            None => 0,
        };
        Some((epoch, opt_text(f.name), opt_text(f.desc)))
    }
}

pub open spec fn brew_records(fs: Seq<BrewFormula>) -> Seq<(u64, Seq<char>, Seq<char>)>
    decreases fs.len(),
{
    if fs.len() == 0 {
        seq![]
    } else {
        let r = brew_records(fs.drop_last());
        match brew_record(fs.last()) {
            Some(x) => r.push(x),
            None => r,
        }
    }
}

pub open spec fn brew_views(r: Seq<Package>) -> Seq<(u64, Seq<char>, Seq<char>)> {
    r.map_values(|p: Package| (p.epoch, p.name@, p.description@))
}

fn text_or_empty(s: Option<String>) -> (r: String)
    ensures
        r@ == opt_text(s),
{
    match s {
        Some(t) => t,
        None => String::new(),
    }
}

/// Tool records of the formulae installed on request; every source is brew.
pub fn brew_packages(formulae: Vec<BrewFormula>) -> (r: Vec<Package>)
    ensures
        brew_views(r@) == brew_records(formulae@),
        forall|k: int| 0 <= k < r@.len() ==> (#[trigger] r@[k]).source@ == "brew"@,
{
    let ghost all = formulae@;
    let mut rest = formulae;
    let mut out: Vec<Package> = Vec::new();
    let n = rest.len();
    let mut k: usize = 0;
    assert(brew_views(out@) =~= Seq::<(u64, Seq<char>, Seq<char>)>::empty());
    while rest.len() > 0
        invariant
            all.len() == n,
            k + rest@.len() == n,
            rest@ == all.subrange(k as int, n as int),
            brew_views(out@) == brew_records(all.subrange(0, k as int)),
            forall|q: int| 0 <= q < out@.len() ==> (#[trigger] out@[q]).source@ == "brew"@,
        decreases rest@.len(),
    {
        let f = rest.remove(0);
        assert(all.subrange(0, k + 1).drop_last() =~= all.subrange(0, k as int));
        assert(rest@ =~= all.subrange(k + 1, n as int));
        let ghost fv = f;
        let on_request = match f.installed_on_request {
            Some(b) => b,
            None => false,
        };
        let count = f.installed_times.len();
        if count > 0 && on_request {
            let epoch = match f.installed_times[count - 1] {
                Some(t) => t,
                None => 0,
            };
            let name = text_or_empty(f.name);
            if !name.as_str().is_empty() {
                let description = text_or_empty(f.desc);
                let ghost prev = out@;
                out.push(Package { epoch, name, source: String::from_str("brew"), description });
                assert(brew_views(out@) =~= brew_views(prev).push(brew_record(fv).unwrap()));
            }
        }
        k = k + 1;
    }
    assert(all.subrange(0, n as int) =~= all);
    out
}

} // verus!
