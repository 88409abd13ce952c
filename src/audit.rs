//! Usage counts from the audit log: counting interactive executions in raw
//! `ausearch` records, and the hint shown when the audit daemon is not running.

use vstd::prelude::*;
use crate::collect::{digits_within, read_digits};
use crate::text::{chars_are, ranges_within, string_of, chars_of, find_char, has_prefix, lines_from, range_views, run_until, split_words, words_from};

verus! {

/// How to enable the audit daemon, for macOS or for other systems.
pub fn install_hint(macos: bool) -> (r: &'static str)
    ensures
        r@ == (if macos {
            "auditd not running. Enable:\n  sudo launchctl load -w /System/Library/LaunchDaemons/com.apple.auditd.plist"@
        } else {
            "auditd not running. Fix:\n  Run ~/.dotfiles/setup.py  (installs and enables auditd automatically)\n  Or manually: sudo pacman -S audit && sudo systemctl enable --now auditd"@
        }),
{
    if macos {
        "auditd not running. Enable:\n  sudo launchctl load -w /System/Library/LaunchDaemons/com.apple.auditd.plist"
    } else {
        "auditd not running. Fix:\n  Run ~/.dotfiles/setup.py  (installs and enables auditd automatically)\n  Or manually: sudo pacman -S audit && sudo systemctl enable --now auditd"
    }
}

/// Length of the run of characters other than `/` that ends at position `j`.
pub open spec fn back_run(s: Seq<char>, j: int) -> nat
    decreases j,
{
    if 0 < j <= s.len() && s[j - 1] != '/' {
        1 + back_run(s, j - 1)
    } else {
        0
    }
}

/// Last component of the Unix path `s[..j]`: empty components and `.` are
/// skipped, and a final `..` or no component at all gives the empty text.
pub open spec fn file_name_from(s: Seq<char>, j: int) -> Seq<char>
    decreases j,
{
    if j < 0 || j > s.len() {
        seq![]
    } else {
        let k = j - back_run(s, j);
        let piece = s.subrange(k, j);
        if piece.len() == 0 || piece == seq!['.'] {
            if k <= 0 {
                seq![]
            } else {
                file_name_from(s, k - 1)
            }
        } else if piece == seq!['.', '.'] {
            seq![]
        } else {
            piece
        }
    }
}

pub open spec fn file_name_of(path: Seq<char>) -> Seq<char> {
    file_name_from(path, path.len() as int)
}

/// The file name of the Unix path `v[from..to]`.
fn file_name(v: &Vec<char>, from: usize, to: usize) -> (r: String)
    requires
        from <= to <= v@.len(),
    ensures
        r@ == file_name_of(v@.subrange(from as int, to as int)),
{
    let t = vstd::slice::slice_to_vec(vstd::slice::slice_subrange(v.as_slice(), from, to));
    let mut j = t.len();
    loop
        invariant
            j <= t@.len(),
            t@ == v@.subrange(from as int, to as int),
            file_name_from(t@, j as int) == file_name_of(t@),
        decreases j,
    {
        let mut k = j;
        while k > 0 && t[k - 1] != '/'
            invariant
                k <= j <= t@.len(),
                back_run(t@, j as int) == (j - k) + back_run(t@, k as int),
            decreases k,
        {
            k = k - 1;
        }
        let len = j - k;
        let dot = len == 1 && t[k] == '.';
        let dotdot = len == 2 && t[k] == '.' && t[k + 1] == '.';
        proof {
            let piece = t@.subrange(k as int, j as int);
            if len == 1 {
                assert(piece[0] == t@[k as int]);
                if dot {
                    assert(piece =~= seq!['.']);
                } else {
                    assert(piece != seq!['.']) by {
                        if piece == seq!['.'] {
                            assert(piece[0] == seq!['.'][0]);
                        }
                    }
                }
            }
            if len == 2 {
                assert(piece[0] == t@[k as int] && piece[1] == t@[k + 1]);
                if dotdot {
                    assert(piece =~= seq!['.', '.']);
                } else {
                    assert(piece != seq!['.', '.']) by {
                        if piece == seq!['.', '.'] {
                            assert(piece[0] == seq!['.', '.'][0] && piece[1] == seq!['.', '.'][1]);
                        }
                    }
                }
            }
            if len != 1 {
                assert(piece != seq!['.']) by {
                    assert(piece.len() != seq!['.'].len());
                }
            }
            if len != 2 {
                assert(piece != seq!['.', '.']) by {
                    assert(piece.len() != seq!['.', '.'].len());
                }
            }
        }
        if len == 0 || dot {
            if k == 0 {
                return String::new();
            }
            j = k - 1;
        } else if dotdot {
            return String::new();
        } else {
            return string_of(&t, k, j);
        }
    }
}

/// First position at or after `i` where `pat` occurs in `s`.
pub open spec fn first_match(s: Seq<char>, pat: Seq<char>, i: int) -> Option<int>
    decreases s.len() - i,
{
    if i < 0 || i + pat.len() > s.len() {
        None
    } else if s.subrange(i, i + pat.len()) == pat {
        Some(i)
    } else if i < s.len() {
        first_match(s, pat, i + 1)
    } else {
        None
    }
}

fn find_text(s: &Vec<char>, pat: &Vec<char>) -> (r: Option<usize>)
    ensures
        r == (match first_match(s@, pat@, 0) {
            Some(k) => Some(k as usize),
            None => None,
        }),
        r.is_some() ==> r.unwrap() + pat@.len() <= s@.len(),
        r.is_some() ==> first_match(s@, pat@, 0) == Some(r.unwrap() as int),
{
    if pat.len() > s.len() {
        return None;
    }
    let last = s.len() - pat.len();
    let mut i: usize = 0;
    while i <= last
        invariant
            last == s@.len() - pat@.len(),
            first_match(s@, pat@, i as int) == first_match(s@, pat@, 0),
            i <= last + 1,
        decreases last + 1 - i,
    {
        if has_prefix(s, i, s.len(), pat) {
            assert(s@.subrange(i as int, s@.len() as int).subrange(0, pat@.len() as int) =~= s@.subrange(
                i as int,
                i + pat@.len(),
            ));
            return Some(i);
        }
        proof {
            if s@.subrange(i as int, i + pat@.len()) == pat@ {
                assert(pat@.is_prefix_of(s@.subrange(i as int, s@.len() as int)));
            }
        }
        if i == last {
            assert(first_match(s@, pat@, i + 1) is None);
            return None;
        }
        i = i + 1;
    }
    assert(first_match(s@, pat@, i as int) is None);
    None
}

/// What `str::parse::<u64>` reads: an optional `+` and at least one digit,
/// within range.
pub open spec fn parse_u64(w: Seq<char>) -> Option<u64> {
    let d = if w.len() > 0 && w[0] == '+' {
        w.drop_first()
    } else {
        w
    };
    match digits_within(d, u64::MAX as nat) {
        Some(n) => Some(n as u64),
        None => None,
    }
}

pub(crate) fn read_u64(v: &Vec<char>, from: usize, to: usize) -> (r: Option<u64>)
    requires
        from <= to <= v@.len(),
    ensures
        r == parse_u64(v@.subrange(from as int, to as int)),
{
    let ghost w = v@.subrange(from as int, to as int);
    let mut start = from;
    if from < to && v[from] == '+' {
        start = from + 1;
    }
    assert(v@.subrange(start as int, to as int) =~= (if w.len() > 0 && w[0] == '+' {
        w.drop_first()
    } else {
        w
    }));
    read_digits(v, start, to, u64::MAX)
}

/// Position just after `msg=audit(` in a record line.
pub open spec fn audit_start(line: Seq<char>) -> Option<int> {
    match first_match(line, "msg=audit("@, 0) {
        Some(p) => Some(p + 10),
        None => None,
    }
}

/// Unix time of a record, from `msg=audit(TIME.ms:SERIAL)`; 0 when absent.
pub open spec fn event_timestamp_spec(line: Seq<char>) -> u64 {
    match audit_start(line) {
        None => 0,
        Some(start) => {
            let rest = line.subrange(start, line.len() as int);
            let dot = run_until(rest, 0, '.') as int;
            if dot >= rest.len() {
                0
            } else {
                match parse_u64(rest.subrange(0, dot)) {
                    Some(t) => t,
                    None => 0,
                }
            }
        },
    }
}

/// Serial number of a record's event, from `msg=audit(TIME.ms:SERIAL)`.
pub open spec fn event_serial_spec(line: Seq<char>) -> Option<u64> {
    match audit_start(line) {
        None => None,
        Some(start) => {
            let rest = line.subrange(start, line.len() as int);
            let colon = run_until(rest, 0, ':') as int;
            let end = run_until(rest, 0, ')') as int;
            if colon >= rest.len() || end >= rest.len() || colon >= end {
                None
            } else {
                parse_u64(rest.subrange(colon + 1, end))
            }
        },
    }
}

fn marker() -> (r: Vec<char>)
    ensures
        r@ == "msg=audit("@,
        r@.len() == 10,
{
    proof {
        reveal_strlit("msg=audit(");
    }
    chars_of("msg=audit(")
}

/// Unix time of the record in `line`.
pub fn event_timestamp(line: &Vec<char>) -> (r: u64)
    ensures
        r == event_timestamp_spec(line@),
{
    let m = marker();
    let n = line.len();
    let found = find_text(line, &m);
    match found {
        None => 0,
        Some(p) => {
            assert(p + m@.len() <= line@.len());
            let start = p + 10;
            let rest = vstd::slice::slice_to_vec(vstd::slice::slice_subrange(line.as_slice(), start, line.len()));
            assert(rest@.subrange(0, rest@.len() as int) =~= rest@);
            let dot = find_char(&rest, 0, rest.len(), '.');
            if dot >= rest.len() {
                0
            } else {
                match read_u64(&rest, 0, dot) {
                    Some(t) => t,
                    None => 0,
                }
            }
        },
    }
}

/// Serial number of the event of the record in `line`.
pub fn event_serial(line: &Vec<char>) -> (r: Option<u64>)
    ensures
        r == event_serial_spec(line@),
{
    let m = marker();
    let n = line.len();
    let found = find_text(line, &m);
    match found {
        None => None,
        Some(p) => {
            assert(p + m@.len() <= line@.len());
            let start = p + 10;
            let rest = vstd::slice::slice_to_vec(vstd::slice::slice_subrange(line.as_slice(), start, line.len()));
            assert(rest@.subrange(0, rest@.len() as int) =~= rest@);
            let colon = find_char(&rest, 0, rest.len(), ':');
            let end = find_char(&rest, 0, rest.len(), ')');
            if colon >= rest.len() || end >= rest.len() || colon >= end {
                None
            } else {
                read_u64(&rest, colon + 1, end)
            }
        },
    }
}

pub open spec fn lead_quotes(s: Seq<char>, i: int) -> nat
    decreases s.len() - i,
{
    if 0 <= i < s.len() && s[i] == '"' {
        1 + lead_quotes(s, i + 1)
    } else {
        0
    }
}

pub open spec fn trail_quotes(s: Seq<char>, j: int) -> nat
    decreases j,
{
    if 0 < j <= s.len() && s[j - 1] == '"' {
        1 + trail_quotes(s, j - 1)
    } else {
        0
    }
}

/// `s[from..to]` without its leading and trailing `"` (`str::trim_matches`).
pub open spec fn unquoted(s: Seq<char>) -> Seq<char> {
    let a = lead_quotes(s, 0) as int;
    if a >= s.len() {
        seq![]
    } else {
        s.subrange(a, s.len() - trail_quotes(s, s.len() as int))
    }
}

/// Bounds of `v[from..to]` without its leading and trailing `"`.
fn unquote(v: &Vec<char>, from: usize, to: usize) -> (r: (usize, usize))
    requires
        from <= to <= v@.len(),
    ensures
        r.0 <= r.1 <= v@.len(),
        v@.subrange(r.0 as int, r.1 as int) == unquoted(v@.subrange(from as int, to as int)),
{
    let ghost s = v@.subrange(from as int, to as int);
    let mut a = from;
    while a < to && v[a] == '"'
        invariant
            from <= a <= to,
            to <= v@.len(),
            s == v@.subrange(from as int, to as int),
            lead_quotes(s, 0) == (a - from) + lead_quotes(s, a - from),
        decreases to - a,
    {
        a = a + 1;
    }
    if a >= to {
        assert(v@.subrange(a as int, a as int) =~= Seq::<char>::empty());
        return (a, a);
    }
    let mut b = to;
    while b > a && v[b - 1] == '"'
        invariant
            from <= a < to,
            a <= b <= to,
            to <= v@.len(),
            s == v@.subrange(from as int, to as int),
            forall|k: int| b <= k < to ==> v@[k] == '"',
            trail_quotes(s, s.len() as int) == (to - b) + trail_quotes(s, b - from),
        decreases b,
    {
        assert(s[b - from - 1] == v@[b - 1]);
        b = b - 1;
    }
    if b == a {
        assert(v@[a as int] == '"') by {
            assert(s[a - from] != '"' || a >= to);
        }
    }
    assert(v@.subrange(a as int, b as int) =~= s.subrange(a - from, s.len() - trail_quotes(
        s,
        s.len() as int,
    )));
    (a, b)
}

/// Program named by the first `exe=` field among `ws[k..]`: the path after
/// `exe=`, unquoted, reduced to its file name; `None` without such a field.
pub open spec fn exe_in_words(ws: Seq<Seq<char>>, k: int) -> Option<Seq<char>>
    decreases ws.len() - k,
{
    if k < 0 || k >= ws.len() {
        None
    } else if "exe="@.is_prefix_of(ws[k]) {
        Some(file_name_of(unquoted(ws[k].subrange(4, ws[k].len() as int))))
    } else {
        exe_in_words(ws, k + 1)
    }
}

/// An argument field `aN=VALUE` whose unquoted value is `--help` or `-h`.
pub open spec fn is_help_arg(w: Seq<char>) -> bool {
    let e = run_until(w, 0, '=') as int;
    &&& w.len() > 2
    &&& w[0] == 'a'
    &&& '0' <= w[1] <= '9'
    &&& e < w.len()
    &&& (unquoted(w.subrange(e + 1, w.len() as int)) == "--help"@ || unquoted(
        w.subrange(e + 1, w.len() as int),
    ) == "-h"@)
}

pub open spec fn any_help_arg(ws: Seq<Seq<char>>, k: int) -> bool
    decreases ws.len() - k,
{
    if k < 0 || k >= ws.len() {
        false
    } else {
        is_help_arg(ws[k]) || any_help_arg(ws, k + 1)
    }
}

/// Index of the first entry for `name` at or after `k`, or the length.
pub open spec fn name_index(c: Seq<(Seq<char>, usize)>, name: Seq<char>, k: int) -> int
    decreases c.len() - k,
{
    if k < 0 || k >= c.len() {
        c.len() as int
    } else if c[k].0 == name {
        k
    } else {
        name_index(c, name, k + 1)
    }
}

/// `c` with one more execution of `name` (saturating).
pub open spec fn bump(c: Seq<(Seq<char>, usize)>, name: Seq<char>) -> Seq<(Seq<char>, usize)> {
    let i = name_index(c, name, 0);
    if 0 <= i < c.len() {
        c.update(i, (name, if c[i].1 < usize::MAX { (c[i].1 + 1) as usize } else { c[i].1 }))
    } else {
        c.push((name, 1))
    }
}

/// Scan state: program of the current event, its serial, whether it asked
/// for help, its time, whether it was interactive, and the counts so far.
pub type AuditScan = (Option<Seq<char>>, u64, bool, u64, bool, Seq<(Seq<char>, usize)>);

/// Closing an event: an interactive one at or after `since` that named a
/// program and did not ask for help counts once; the program and the help
/// mark are cleared either way.
pub open spec fn commit(st: AuditScan, since: u64) -> AuditScan {
    let counts = if st.4 && st.3 >= since {
        match st.0 {
            Some(n) => if !st.2 {
                bump(st.5, n)
            } else {
                st.5
            },
            None => st.5,
        }
    } else {
        st.5
    };
    (None, st.1, false, st.3, st.4, counts)
}

/// One line of raw `ausearch` output.
pub open spec fn audit_line(line: Seq<char>, st: AuditScan, since: u64) -> AuditScan {
    if line == "----"@ {
        let c = commit(st, since);
        (c.0, 0, c.2, 0, false, c.5)
    } else {
        let s1 = match event_serial_spec(line) {
            Some(id) => if id != st.1 {
                let c = commit(st, since);
                (c.0, id, c.2, 0, false, c.5)
            } else {
                st
            },
            None => st,
        };
        if "type=SYSCALL"@.is_prefix_of(line) {
            let inter = first_match(line, " tty=pts"@, 0) is Some && first_match(
                line,
                " success=yes "@,
                0,
            ) is Some;
            let exe = match exe_in_words(words_from(line, 0), 0) {
                Some(nm) => if nm.len() > 0 {
                    Some(nm)
                } else {
                    s1.0
                },
                None => s1.0,
            };
            (exe, s1.1, s1.2, event_timestamp_spec(line), inter, s1.5)
        } else if "type=EXECVE"@.is_prefix_of(line) {
            (s1.0, s1.1, s1.2 || any_help_arg(words_from(line, 0), 0), s1.3, s1.4, s1.5)
        } else {
            s1
        }
    }
}

pub open spec fn audit_lines(lines: Seq<Seq<char>>, since: u64) -> AuditScan
    decreases lines.len(),
{
    if lines.len() == 0 {
        (None, 0, false, 0, false, seq![])
    } else {
        audit_line(lines.last(), audit_lines(lines.drop_last(), since), since)
    }
}

/// Executions per program in raw `ausearch` output: events are told apart
/// by their serial number (or a `----` line), and each counts as described
/// by `commit`.
pub open spec fn audit_counts(raw: Seq<char>, since: u64) -> Seq<(Seq<char>, usize)> {
    commit(audit_lines(lines_from(raw, 0), since), since).5
}

pub open spec fn count_views(c: Seq<(String, usize)>) -> Seq<(Seq<char>, usize)> {
    c.map_values(|e: (String, usize)| (e.0@, e.1))
}

pub open spec fn exe_view(e: Option<String>) -> Option<Seq<char>> {
    match e {
        Some(s) => Some(s@),
        None => None,
    }
}

fn bump_count(counts: &mut Vec<(String, usize)>, name: String)
    ensures
        count_views(final(counts)@) == bump(count_views(old(counts)@), name@),
{
    let ghost c = count_views(counts@);
    let mut k: usize = 0;
    while k < counts.len()
        invariant
            c == count_views(counts@),
            c == count_views(old(counts)@),
            k <= counts@.len(),
            name_index(c, name@, k as int) == name_index(c, name@, 0),
        decreases counts@.len() - k,
    {
        if counts[k].0 == name {
            let ghost before = counts@;
            assert(c[k as int].0 == name@);
            assert(name_index(c, name@, k as int) == k);
            let (key, n) = counts.remove(k);
            let v = if n < usize::MAX {
                n + 1
            } else {
                n
            };
            counts.insert(k, (key, v));
            assert(counts@ =~= before.update(k as int, (key, v)));
            assert(count_views(counts@) =~= c.update(k as int, (name@, v)));
            return;
        }
        k = k + 1;
    }
    counts.push((name, 1));
    assert(count_views(counts@) =~= c.push((name@, 1)));
}

/// Closes the current event; see `commit`.
fn maybe_commit(
    exe: &mut Option<String>,
    is_help: &mut bool,
    counts: &mut Vec<(String, usize)>,
    ts: u64,
    since: u64,
    interactive: bool,
)
    ensures
        ({
            let c = commit(
                (exe_view(*old(exe)), 0, *old(is_help), ts, interactive, count_views(old(counts)@)),
                since,
            );
            &&& exe_view(*final(exe)) == c.0
            &&& *final(is_help) == c.2
            &&& count_views(final(counts)@) == c.5
        }),
{
    let taken = exe.take();
    if interactive && ts >= since {
        match taken {
            Some(name) => {
                if !*is_help {
                    bump_count(counts, name);
                }
            },
            None => {},
        }
    }
    *is_help = false;
}

fn word_copy(t: &Vec<char>, from: usize, to: usize) -> (w: Vec<char>)
    requires
        from <= to <= t@.len(),
    ensures
        w@ == t@.subrange(from as int, to as int),
        w@.subrange(0, w@.len() as int) == w@,
{
    let w = vstd::slice::slice_to_vec(vstd::slice::slice_subrange(t.as_slice(), from, to));
    assert(w@.subrange(0, w@.len() as int) =~= w@);
    w
}

/// Program named by the first `exe=` field of a record line.
fn exe_of_line(t: &Vec<char>, ranges: &Vec<(usize, usize)>) -> (r: Option<String>)
    requires
        ranges_within(ranges@, t@.len()),
    ensures
        exe_view(r) == exe_in_words(range_views(t@, ranges@), 0),
{
    let ghost ws = range_views(t@, ranges@);
    let p_exe = chars_of("exe=");
    proof {
        reveal_strlit("exe=");
    }
    let mut k: usize = 0;
    while k < ranges.len()
        invariant
            ws == range_views(t@, ranges@),
            p_exe@ == "exe="@,
            p_exe@.len() == 4,
            k <= ranges@.len(),
            forall|q: int| 0 <= q < ranges@.len() ==> #[trigger] ranges@[q].0 <= ranges@[q].1 <= t@.len(),
            exe_in_words(ws, k as int) == exe_in_words(ws, 0),
        decreases ranges@.len() - k,
    {
        let (j, e) = ranges[k];
        let w = word_copy(t, j, e);
        assert(ws[k as int] == w@);
        if has_prefix(&w, 0, w.len(), &p_exe) {
            let (a, b) = unquote(&w, 4, w.len());
            let name = file_name(&w, a, b);
            return Some(name);
        }
        k = k + 1;
    }
    None
}

/// Whether a record line holds an argument field asking for help.
fn has_help_arg(t: &Vec<char>, ranges: &Vec<(usize, usize)>) -> (r: bool)
    requires
        ranges_within(ranges@, t@.len()),
    ensures
        r == any_help_arg(range_views(t@, ranges@), 0),
{
    let ghost ws = range_views(t@, ranges@);
    let mut k: usize = 0;
    while k < ranges.len()
        invariant
            ws == range_views(t@, ranges@),
            k <= ranges@.len(),
            forall|q: int| 0 <= q < ranges@.len() ==> #[trigger] ranges@[q].0 <= ranges@[q].1 <= t@.len(),
            any_help_arg(ws, k as int) == any_help_arg(ws, 0),
        decreases ranges@.len() - k,
    {
        let (j, e) = ranges[k];
        let w = word_copy(t, j, e);
        assert(ws[k as int] == w@);
        if w.len() > 2 && w[0] == 'a' && '0' <= w[1] && w[1] <= '9' {
            let eq = find_char(&w, 0, w.len(), '=');
            if eq < w.len() {
                let (a, b) = unquote(&w, eq + 1, w.len());
                if chars_are(&w, a, b, "--help") || chars_are(&w, a, b, "-h") {
                    return true;
                }
            }
        }
        k = k + 1;
    }
    false
}

/// Counts interactive, successful executions per program at or after
/// `since` in raw `ausearch` output, leaving out runs that asked for help.
pub fn count_executions(raw: &str, since: u64) -> (r: Vec<(String, usize)>)
    ensures
        count_views(r@) == audit_counts(raw@, since),
{
    let v = chars_of(raw);
    let n = v.len();
    let p_sys = chars_of("type=SYSCALL");
    let p_exec = chars_of("type=EXECVE");
    let p_tty = chars_of(" tty=pts");
    let p_ok = chars_of(" success=yes ");
    let mut exe: Option<String> = None;
    let mut id: u64 = 0;
    let mut is_help = false;
    let mut ts: u64 = 0;
    let mut inter = false;
    let mut counts: Vec<(String, usize)> = Vec::new();
    let ghost all = lines_from(v@, 0);
    let ghost mut seen: Seq<Seq<char>> = seq![];
    let mut i: usize = 0;
    let mut done = n == 0;
    assert(v@.subrange(0, n as int) =~= v@);
    assert(count_views(counts@) =~= Seq::<(Seq<char>, usize)>::empty());
    assert(seen + all =~= all);
    while !done
        invariant
            n == v@.len(),
            v@.subrange(0, n as int) == v@,
            i <= n,
            all == lines_from(v@, 0),
            p_sys@ == "type=SYSCALL"@,
            p_exec@ == "type=EXECVE"@,
            p_tty@ == " tty=pts"@,
            p_ok@ == " success=yes "@,
            !done ==> i < n && seen + lines_from(v@, i as int) == all,
            done ==> seen == all,
            (exe_view(exe), id, is_help, ts, inter, count_views(counts@)) == audit_lines(seen, since),
        decreases n - i + (if done { 0int } else { 1int }),
    {
        let k = find_char(&v, i, n, '\n');
        let mut le = k;
        if k < n && k > i && v[k - 1] == '\r' {
            le = k - 1;
        }
        let ghost raw_line = v@.subrange(i as int, k as int);
        let t = word_copy(&v, i, le);
        let ghost line = t@;
        proof {
            if k < n {
                if raw_line.len() > 0 && raw_line.last() == '\r' {
                    assert(raw_line.drop_last() =~= line);
                } else {
                    assert(raw_line =~= line);
                }
            }
        }
        assert(lines_from(v@, i as int)[0] == line);
        let ghost before: AuditScan = (exe_view(exe), id, is_help, ts, inter, count_views(counts@));
        if chars_are(&t, 0, t.len(), "----") {
            maybe_commit(&mut exe, &mut is_help, &mut counts, ts, since, inter);
            id = 0;
            ts = 0;
            inter = false;
        } else {
            match event_serial(&t) {
                Some(sid) => {
                    if sid != id {
                        maybe_commit(&mut exe, &mut is_help, &mut counts, ts, since, inter);
                        id = sid;
                        ts = 0;
                        inter = false;
                    }
                },
                None => {},
            }
            if has_prefix(&t, 0, t.len(), &p_sys) {
                ts = event_timestamp(&t);
                inter = find_text(&t, &p_tty).is_some() && find_text(&t, &p_ok).is_some();
                let ranges = split_words(&t);
                match exe_of_line(&t, &ranges) {
                    Some(nm) => {
                        if !nm.as_str().is_empty() {
                            exe = Some(nm);
                        }
                    },
                    None => {},
                }
            } else if has_prefix(&t, 0, t.len(), &p_exec) {
                let ranges = split_words(&t);
                if has_help_arg(&t, &ranges) {
                    is_help = true;
                }
            }
        }
        assert(seen.push(line).drop_last() =~= seen);
        assert((exe_view(exe), id, is_help, ts, inter, count_views(counts@)) == audit_line(
            line,
            before,
            since,
        ));
        proof {
            seen = seen.push(line);
        }
        if k < n {
            assert(lines_from(v@, i as int) == seq![line] + lines_from(v@, k + 1));
            assert(seen + lines_from(v@, k + 1) =~= seen.drop_last() + lines_from(v@, i as int));
            if k + 1 < n {
                i = k + 1;
            } else {
                assert(lines_from(v@, k + 1) =~= Seq::<Seq<char>>::empty());
                assert(seen =~= all);
                i = n;
                done = true;
            }
        } else {
            assert(lines_from(v@, i as int) =~= seq![line]);
            assert(seen =~= all);
            i = n;
            done = true;
        }
    }
    maybe_commit(&mut exe, &mut is_help, &mut counts, ts, since, inter);
    counts
}

} // verus!
