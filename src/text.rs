//! String primitives from the standard library, with their contracts, and
//! small text helpers for fixed-width columns.

use vstd::prelude::*;
use vstd::string::{StrSliceExecFns, StringExecFns, StringSliceAdditionalSpecFns};
use vstd::utf8::is_char_boundary;
use vstd::std_specs::iter::IteratorSpec;

verus! {

/// What `str::to_lowercase` makes of a string.
pub uninterp spec fn lower_of(s: Seq<char>) -> Seq<char>;

/// Relies on `str::to_lowercase`: the result depends on the characters alone,
/// and an empty string stays empty.
#[verifier::external_body]
pub(crate) fn lowercase(s: &str) -> (r: String)
    ensures
        r@ == lower_of(s@),
        s@.len() == 0 ==> r@.len() == 0,
{
    s.to_lowercase()
}

/// `q` occurs in `t` as a contiguous run.
pub open spec fn contains_seq(t: Seq<char>, q: Seq<char>) -> bool {
    exists|i: int| 0 <= i && i + q.len() <= t.len() && #[trigger] t.subrange(i, i + q.len()) == q
}

/// Relies on `str::contains` with a `&str` pattern: true when `q` is a
/// sub-slice of `t`.
#[verifier::external_body]
pub(crate) fn contains_text(t: &str, q: &str) -> (r: bool)
    ensures
        r == contains_seq(t@, q@),
{
    t.contains(q)
}

/// Relies on `String::push`: appends `c`.
#[verifier::external_body]
pub(crate) fn push_char(s: &mut String, c: char)
    ensures
        final(s)@ == old(s)@.push(c),
{
    s.push(c)
}

/// Relies on `String::pop`: removes and returns the last character, `None`
/// on an empty string.
#[verifier::external_body]
pub(crate) fn pop_char(s: &mut String) -> (r: Option<char>)
    ensures
        old(s)@.len() == 0 ==> r.is_none() && final(s)@ == old(s)@,
        old(s)@.len() > 0 ==> r == Some(old(s)@.last()) && final(s)@ == old(s)@.drop_last(),
{
    s.pop()
}

/// `n` spaces.
pub open spec fn spaces(n: nat) -> Seq<char> {
    Seq::new(n, |i: int| ' ')
}

/// `s` centred in a field of `width` characters, the odd space on the left;
/// `s` itself when it is at least that wide.
pub open spec fn centered(s: Seq<char>, width: nat) -> Seq<char> {
    if s.len() >= width {
        s
    } else {
        let total = (width - s.len()) as nat;
        let left = total / 2 + total % 2;
        spaces(left) + s + spaces((total - left) as nat)
    }
}

fn push_spaces(r: &mut String, n: usize)
    ensures
        final(r)@ == old(r)@ + spaces(n as nat),
{
    let ghost start = r@;
    for i in 0..n
        invariant
            r@ == start + spaces(i as nat),
    {
        push_char(r, ' ');
        assert(r@ =~= start + spaces((i + 1) as nat));
    }
}

/// Centres `s` in a field of `width` characters.
pub fn center_str(s: &str, width: usize) -> (r: String)
    ensures
        r@ == centered(s@, width as nat),
{
    let len = s.unicode_len();
    if len >= width {
        return String::from_str(s);
    }
    let total = width - len;
    let left = total / 2 + total % 2;
    let mut r = String::new();
    push_spaces(&mut r, left);
    r.append(s);
    push_spaces(&mut r, total - left);
    assert(r@ =~= centered(s@, width as nat));
    r
}

/// Largest character boundary of `b` that is at most `max`.
pub open spec fn boundary_at_most(b: Seq<u8>, max: int) -> int
    decreases max,
{
    if max <= 0 {
        0
    } else if is_char_boundary(b, max) {
        max
    } else {
        boundary_at_most(b, max - 1)
    }
}

/// The longest prefix of `s` that is at most `max` bytes and ends on a
/// character boundary.
pub fn truncate(s: &str, max: usize) -> (r: &str)
    ensures
        s.len() <= max ==> r == s,
        s.len() > max ==> r.spec_bytes() == s.spec_bytes().subrange(
            0,
            boundary_at_most(s.spec_bytes(), max as int),
        ),
{
    broadcast use vstd::utf8::encode_utf8_valid_utf8, vstd::utf8::is_char_boundary_start_end_of_seq;

    if s.len() <= max {
        return s;
    }
    let mut end = max;
    while end > 0 && !s.is_char_boundary(end)
        invariant
            end <= max,
            max < s.spec_bytes().len(),
            boundary_at_most(s.spec_bytes(), max as int) == boundary_at_most(s.spec_bytes(), end as int),
        decreases end,
    {
        end = end - 1;
    }
    assert(is_char_boundary(s.spec_bytes(), end as int));
    let (head, _) = s.split_at(end);
    head
}

/// What `str::trim` makes of a string.
pub uninterp spec fn trimmed(s: Seq<char>) -> Seq<char>;

/// Relies on `str::trim`: the result depends on the characters alone.
#[verifier::external_body]
pub(crate) fn trim(s: &str) -> (r: &str)
    ensures
        r@ == trimmed(s@),
{
    s.trim()
}

/// Nothing but white space.
pub open spec fn is_blank(s: Seq<char>) -> bool {
    trimmed(s).len() == 0
}

/// The characters of `s`.
pub fn chars_of(s: &str) -> (v: Vec<char>)
    ensures
        v@ == s@,
{
    broadcast use vstd::string::axiom_spec_iter, vstd::string::next_postcondition;

    let n = s.unicode_len();
    let mut it = s.chars();
    let mut v: Vec<char> = Vec::new();
    for i in 0..n
        invariant
            n == s@.len(),
            it.obeys_prophetic_iter_laws(),
            v@.len() == i,
            v@ + it.remaining() == s@,
    {
        let ghost rest = it.remaining();
        assert(rest.len() > 0);
        match it.next() {
            Some(c) => {
                let ghost before = v@;
                v.push(c);
                assert(v@ + it.remaining() =~= before + rest);
            },
            None => {},
        }
    }
    assert(it.remaining().len() == 0);
    assert(v@ =~= s@);
    v
}

/// A string of the characters `v[from..to]`.
pub fn string_of(v: &Vec<char>, from: usize, to: usize) -> (r: String)
    requires
        from <= to <= v@.len(),
    ensures
        r@ == v@.subrange(from as int, to as int),
{
    let mut r = String::new();
    let mut i = from;
    while i < to
        invariant
            from <= i <= to,
            to <= v@.len(),
            r@ == v@.subrange(from as int, i as int),
        decreases to - i,
    {
        push_char(&mut r, v[i]);
        assert(r@ =~= v@.subrange(from as int, i + 1));
        i = i + 1;
    }
    r
}

/// What `char::is_whitespace` says of `c`.
pub uninterp spec fn white(c: char) -> bool;

/// Relies on `char::is_whitespace`: a property of the character alone.
#[verifier::external_body]
pub(crate) fn is_white(c: char) -> (r: bool)
    ensures
        r == white(c),
{
    c.is_whitespace()
}

/// Length of the run of characters other than `stop` from position `i`.
pub open spec fn run_until(s: Seq<char>, i: int, stop: char) -> nat
    decreases s.len() - i,
{
    if 0 <= i < s.len() && s[i] != stop {
        1 + run_until(s, i + 1, stop)
    } else {
        0
    }
}

/// The lines of `s` from position `i` as `str::lines` gives them: split at
/// each `\n`, a `\r` just before it dropped, no empty line after a final `\n`.
pub open spec fn lines_from(s: Seq<char>, i: int) -> Seq<Seq<char>>
    decreases s.len() - i,
{
    if i < 0 || i >= s.len() {
        seq![]
    } else {
        let k = i + run_until(s, i, '\n');
        if k < s.len() {
            let raw = s.subrange(i, k);
            let line = if raw.len() > 0 && raw.last() == '\r' {
                raw.drop_last()
            } else {
                raw
            };
            seq![line] + lines_from(s, k + 1)
        } else {
            seq![s.subrange(i, k)]
        }
    }
}

/// Position of the first `stop` in `v[from..to]`, or `to`.
pub fn find_char(v: &Vec<char>, from: usize, to: usize, stop: char) -> (k: usize)
    requires
        from <= to <= v@.len(),
    ensures
        k as int == from + run_until(v@.subrange(0, to as int), from as int, stop),
        from <= k <= to,
{
    let ghost w = v@.subrange(0, to as int);
    let mut k = from;
    while k < to && v[k] != stop
        invariant
            from <= k <= to,
            to <= v@.len(),
            w == v@.subrange(0, to as int),
            run_until(w, from as int, stop) == (k - from) + run_until(w, k as int, stop),
        decreases to - k,
    {
        k = k + 1;
    }
    k
}

/// Whether `v[from..to]` starts with `prefix`.
pub fn has_prefix(v: &Vec<char>, from: usize, to: usize, prefix: &Vec<char>) -> (r: bool)
    requires
        from <= to <= v@.len(),
    ensures
        r == prefix@.is_prefix_of(v@.subrange(from as int, to as int)),
{
    if prefix.len() > to - from {
        return false;
    }
    let mut i: usize = 0;
    while i < prefix.len()
        invariant
            i <= prefix@.len(),
            prefix@.len() <= to - from,
            to <= v@.len(),
            forall|j: int| 0 <= j < i ==> prefix@[j] == v@[from + j],
        decreases prefix@.len() - i,
    {
        if prefix[i] != v[from + i] {
            assert(prefix@[i as int] != v@.subrange(from as int, to as int)[i as int]);
            return false;
        }
        i = i + 1;
    }
    assert forall|j: int| 0 <= j < prefix@.len() implies prefix@[j] == v@.subrange(
        from as int,
        to as int,
    )[j] by {}
    true
}

pub open spec fn white_run(s: Seq<char>, i: int) -> nat
    decreases s.len() - i,
{
    if 0 <= i < s.len() && white(s[i]) {
        1 + white_run(s, i + 1)
    } else {
        0
    }
}

pub open spec fn word_run(s: Seq<char>, i: int) -> nat
    decreases s.len() - i,
{
    if 0 <= i < s.len() && !white(s[i]) {
        1 + word_run(s, i + 1)
    } else {
        0
    }
}

/// The white-space separated words of `s` from position `i`, as
/// `str::split_whitespace` gives them.
pub open spec fn words_from(s: Seq<char>, i: int) -> Seq<Seq<char>>
    decreases s.len() - i,
{
    let j = i + white_run(s, i);
    if i < 0 || j >= s.len() {
        seq![]
    } else {
        let k = j + word_run(s, j);
        if i < k <= s.len() {
            seq![s.subrange(j, k)] + words_from(s, k)
        } else {
            seq![]
        }
    }
}

/// Every range of `r` lies within `0..len`.
pub open spec fn ranges_within(r: Seq<(usize, usize)>, len: nat) -> bool {
    forall|k: int| 0 <= k < r.len() ==> #[trigger] r[k].0 <= r[k].1 <= len
}

pub open spec fn range_views(v: Seq<char>, r: Seq<(usize, usize)>) -> Seq<Seq<char>> {
    r.map_values(|p: (usize, usize)| v.subrange(p.0 as int, p.1 as int))
}

/// Start and end of each word of `v`.
pub fn split_words(v: &Vec<char>) -> (r: Vec<(usize, usize)>)
    ensures
        range_views(v@, r@) == words_from(v@, 0),
        ranges_within(r@, v@.len()),
{
    let n = v.len();
    let mut r: Vec<(usize, usize)> = Vec::new();
    let mut i: usize = 0;
    let mut done = false;
    assert(range_views(v@, r@) =~= Seq::<Seq<char>>::empty());
    while !done
        invariant
            n == v@.len(),
            i <= n,
            forall|k: int| 0 <= k < r@.len() ==> #[trigger] r@[k].0 <= r@[k].1 <= v@.len(),
            !done ==> range_views(v@, r@) + words_from(v@, i as int) == words_from(v@, 0),
            done ==> range_views(v@, r@) == words_from(v@, 0),
        decreases n - i + (if done { 0int } else { 1int }),
    {
        let mut j = i;
        while j < n && is_white(v[j])
            invariant
                i <= j <= n,
                n == v@.len(),
                white_run(v@, i as int) == (j - i) + white_run(v@, j as int),
            decreases n - j,
        {
            j = j + 1;
        }
        if j >= n {
            assert(range_views(v@, r@) + Seq::<Seq<char>>::empty() =~= range_views(v@, r@));
            done = true;
        } else {
            let mut k = j;
            while k < n && !is_white(v[k])
                invariant
                    j <= k <= n,
                    n == v@.len(),
                    word_run(v@, j as int) == (k - j) + word_run(v@, k as int),
                decreases n - k,
            {
                k = k + 1;
            }
            let ghost before = r@;
            r.push((j, k));
            assert(range_views(v@, r@) =~= range_views(v@, before).push(v@.subrange(j as int, k as int)));
            assert(range_views(v@, r@) + words_from(v@, k as int) =~= range_views(v@, before) + (
            seq![v@.subrange(j as int, k as int)] + words_from(v@, k as int)));
            i = k;
        }
    }
    r
}

/// Whether `v[from..to]` is exactly `lit`.
pub fn chars_are(v: &Vec<char>, from: usize, to: usize, lit: &str) -> (r: bool)
    requires
        from <= to <= v@.len(),
    ensures
        r == (v@.subrange(from as int, to as int) == lit@),
{
    let l = chars_of(lit);
    if l.len() != to - from {
        return false;
    }
    let r = has_prefix(v, from, to, &l);
    if r {
        assert(v@.subrange(from as int, to as int) =~= l@);
    }
    r
}

} // verus!
