//! Browser session state: the filtered and sorted view of the tool list, the
//! selection, key handling, and the bookkeeping of preview fetches.

use vstd::prelude::*;
use vstd::utf8::encode_utf8;
use vstd::string::StringSliceAdditionalSpecFns;
use core::cmp::Ordering;
use crate::collect::Package;
use crate::text::{contains_seq, contains_text, lower_of, lowercase, pop_char, push_char};

verus! {

broadcast use vstd::seq_lib::group_seq_properties;

/// What the event loop should do after a key.
#[derive(Clone, Copy, Debug, PartialEq, Eq, Structural)]
pub enum Action {
    /// Keep running; nothing for the loop to do.
    Continue,
    Quit,
    Refresh,
}

/// Column the list is ordered by.
#[derive(Clone, Copy, Debug, PartialEq, Eq, Structural)]
pub enum SortBy {
    Date,
    Name,
    Source,
    Uses,
}

impl SortBy {
    /// Default direction of the column: names and sources A-Z, dates and
    /// usage counts newest / most used first.
    pub fn default_asc(self) -> (r: bool)
        ensures
            r == (self == SortBy::Name || self == SortBy::Source),
    {
        match self {
            SortBy::Date | SortBy::Uses => false,
            SortBy::Name | SortBy::Source => true,
        }
    }
}

// ---------------------------------------------------------------------------
// Filtering
// ---------------------------------------------------------------------------

/// A tool matches the lower-cased filter `q` when `q` is empty or occurs in
/// its lower-cased name, source or description.
pub open spec fn pkg_matches(p: Package, q: Seq<char>) -> bool {
    q.len() == 0 || contains_seq(lower_of(p.name@), q) || contains_seq(lower_of(p.source@), q)
        || contains_seq(lower_of(p.description@), q)
}

/// Indices below `n` of the tools matching `q`, ascending.
pub open spec fn matching(pkgs: Seq<Package>, q: Seq<char>, n: int) -> Seq<usize>
    decreases n,
{
    if n <= 0 {
        seq![]
    } else {
        let r = matching(pkgs, q, n - 1);
        if pkg_matches(pkgs[n - 1], q) {
            r.push((n - 1) as usize)
        } else {
            r
        }
    }
}

/// `0, 1, ..., n - 1`.
pub open spec fn index_range(n: nat) -> Seq<usize> {
    Seq::new(n, |i: int| i as usize)
}

pub proof fn lemma_matching_props(pkgs: Seq<Package>, q: Seq<char>, n: int)
    requires
        n <= pkgs.len() <= usize::MAX,
    ensures
        forall|k: int|
            0 <= k < matching(pkgs, q, n).len() ==> #[trigger] matching(pkgs, q, n)[k] < n
                && pkg_matches(pkgs[matching(pkgs, q, n)[k] as int], q),
        q.len() == 0 && n >= 0 ==> matching(pkgs, q, n) == index_range(n as nat),
    decreases n,
{
    if n > 0 {
        lemma_matching_props(pkgs, q, n - 1);
        let r = matching(pkgs, q, n - 1);
        assert forall|k: int| 0 <= k < matching(pkgs, q, n).len() implies #[trigger] matching(
            pkgs,
            q,
            n,
        )[k] < n && pkg_matches(pkgs[matching(pkgs, q, n)[k] as int], q) by {
            if k < r.len() {
                assert(matching(pkgs, q, n)[k] == r[k]);
            }
        }
        if q.len() == 0 {
            assert(matching(pkgs, q, n) =~= index_range(n as nat));
        }
    } else if q.len() == 0 && n >= 0 {
        assert(matching(pkgs, q, n) =~= index_range(n as nat));
    }
}

// ---------------------------------------------------------------------------
// Ordering
// ---------------------------------------------------------------------------

pub open spec fn cmp_int(a: int, b: int) -> Ordering {
    if a < b {
        Ordering::Less
    } else if a > b {
        Ordering::Greater
    } else {
        Ordering::Equal
    }
}

pub open spec fn flip(o: Ordering) -> Ordering {
    match o {
        Ordering::Less => Ordering::Greater,
        Ordering::Greater => Ordering::Less,
        Ordering::Equal => Ordering::Equal,
    }
}

/// Lexicographic order of byte strings (the order of `str`).
pub open spec fn lex_cmp(a: Seq<u8>, b: Seq<u8>) -> Ordering
    decreases a.len(),
{
    if a.len() == 0 {
        if b.len() == 0 {
            Ordering::Equal
        } else {
            Ordering::Less
        }
    } else if b.len() == 0 {
        Ordering::Greater
    } else if a[0] < b[0] {
        Ordering::Less
    } else if a[0] > b[0] {
        Ordering::Greater
    } else {
        lex_cmp(a.drop_first(), b.drop_first())
    }
}

/// Usage count recorded for `name` in `counts[k..]` (first entry wins), 0 when absent.
pub open spec fn usage_from(counts: Seq<(String, usize)>, k: int, name: Seq<char>) -> usize
    decreases counts.len() - k,
{
    if k < 0 || k >= counts.len() {
        0
    } else if counts[k].0@ == name {
        counts[k].1
    } else {
        usage_from(counts, k + 1, name)
    }
}

pub open spec fn usage(counts: Seq<(String, usize)>, name: Seq<char>) -> usize {
    usage_from(counts, 0, name)
}

/// Comparison of tools `a` and `b` on the sort column alone, ascending.
pub open spec fn primary_cmp(
    pkgs: Seq<Package>,
    counts: Seq<(String, usize)>,
    by: SortBy,
    a: int,
    b: int,
) -> Ordering {
    match by {
        SortBy::Date => cmp_int(pkgs[a].epoch as int, pkgs[b].epoch as int),
        SortBy::Name => lex_cmp(encode_utf8(pkgs[a].name@), encode_utf8(pkgs[b].name@)),
        SortBy::Source => lex_cmp(encode_utf8(pkgs[a].source@), encode_utf8(pkgs[b].source@)),
        SortBy::Uses => cmp_int(
            usage(counts, pkgs[a].name@) as int,
            usage(counts, pkgs[b].name@) as int,
        ),
    }
}

/// The list order: the sort column in the chosen direction, ties broken by
/// install date, newest first.
#[verifier::opaque]
pub open spec fn order_cmp(
    pkgs: Seq<Package>,
    counts: Seq<(String, usize)>,
    by: SortBy,
    asc: bool,
    a: int,
    b: int,
) -> Ordering {
    let p = primary_cmp(pkgs, counts, by, a, b);
    let o = if asc {
        p
    } else {
        flip(p)
    };
    if o != Ordering::Equal {
        o
    } else {
        cmp_int(pkgs[b].epoch as int, pkgs[a].epoch as int)
    }
}

/// Where a stable insertion puts `x` into `s`: after every element that does
/// not order after it, counting from the end.
pub open spec fn insert_pos(
    pkgs: Seq<Package>,
    counts: Seq<(String, usize)>,
    by: SortBy,
    asc: bool,
    s: Seq<usize>,
    x: usize,
) -> nat
    decreases s.len(),
{
    if s.len() == 0 {
        0
    } else if order_cmp(pkgs, counts, by, asc, s.last() as int, x as int) == Ordering::Greater {
        insert_pos(pkgs, counts, by, asc, s.drop_last(), x)
    } else {
        s.len()
    }
}

/// `s` in list order: a stable sort (elements that compare equal keep their
/// relative order).
pub open spec fn sort_seq(
    pkgs: Seq<Package>,
    counts: Seq<(String, usize)>,
    by: SortBy,
    asc: bool,
    s: Seq<usize>,
) -> Seq<usize>
    decreases s.len(),
{
    if s.len() == 0 {
        s
    } else {
        let r = sort_seq(pkgs, counts, by, asc, s.drop_last());
        r.insert(insert_pos(pkgs, counts, by, asc, r, s.last()) as int, s.last())
    }
}

pub proof fn lemma_insert_pos_bound(
    pkgs: Seq<Package>,
    counts: Seq<(String, usize)>,
    by: SortBy,
    asc: bool,
    s: Seq<usize>,
    x: usize,
)
    ensures
        insert_pos(pkgs, counts, by, asc, s, x) <= s.len(),
    decreases s.len(),
{
    if s.len() > 0 {
        lemma_insert_pos_bound(pkgs, counts, by, asc, s.drop_last(), x);
    }
}

/// Sorting permutes its input.
pub proof fn lemma_sort_permutes(
    pkgs: Seq<Package>,
    counts: Seq<(String, usize)>,
    by: SortBy,
    asc: bool,
    s: Seq<usize>,
)
    ensures
        sort_seq(pkgs, counts, by, asc, s).to_multiset() == s.to_multiset(),
        sort_seq(pkgs, counts, by, asc, s).len() == s.len(),
    decreases s.len(),
{
    broadcast use vstd::seq_lib::to_multiset_insert;
    broadcast use vstd::seq_lib::to_multiset_build;

    if s.len() > 0 {
        let r = sort_seq(pkgs, counts, by, asc, s.drop_last());
        lemma_sort_permutes(pkgs, counts, by, asc, s.drop_last());
        lemma_insert_pos_bound(pkgs, counts, by, asc, r, s.last());
        assert(s.drop_last().push(s.last()) =~= s);
    }
}

/// Every element of the sorted sequence comes from the input.
pub proof fn lemma_sort_members(
    pkgs: Seq<Package>,
    counts: Seq<(String, usize)>,
    by: SortBy,
    asc: bool,
    s: Seq<usize>,
)
    ensures
        forall|k: int|
            0 <= k < sort_seq(pkgs, counts, by, asc, s).len() ==> s.contains(
                #[trigger] sort_seq(pkgs, counts, by, asc, s)[k],
            ),
{
    broadcast use vstd::seq_lib::to_multiset_contains;

    lemma_sort_permutes(pkgs, counts, by, asc, s);
    let r = sort_seq(pkgs, counts, by, asc, s);
    assert forall|k: int| 0 <= k < r.len() implies s.contains(#[trigger] r[k]) by {
        assert(r.contains(r[k]));
        assert(r.to_multiset().count(r[k]) > 0);
    }
}

/// Byte-wise comparison of two strings' encodings.
fn compare_bytes(a: &[u8], b: &[u8]) -> (r: Ordering)
    ensures
        r == lex_cmp(a@, b@),
{
    let mut i: usize = 0;
    assert(a@.subrange(0, a@.len() as int) =~= a@);
    assert(b@.subrange(0, b@.len() as int) =~= b@);
    while i < a.len() && i < b.len()
        invariant
            i <= a@.len(),
            i <= b@.len(),
            lex_cmp(a@, b@) == lex_cmp(
                a@.subrange(i as int, a@.len() as int),
                b@.subrange(i as int, b@.len() as int),
            ),
        decreases a@.len() - i,
    {
        let ghost ra = a@.subrange(i as int, a@.len() as int);
        let ghost rb = b@.subrange(i as int, b@.len() as int);
        assert(ra[0] == a@[i as int]);
        assert(rb[0] == b@[i as int]);
        if a[i] < b[i] {
            return Ordering::Less;
        }
        if a[i] > b[i] {
            return Ordering::Greater;
        }
        assert(ra.drop_first() =~= a@.subrange(i + 1, a@.len() as int));
        assert(rb.drop_first() =~= b@.subrange(i + 1, b@.len() as int));
        i = i + 1;
    }
    let ghost ra = a@.subrange(i as int, a@.len() as int);
    let ghost rb = b@.subrange(i as int, b@.len() as int);
    if i < a.len() {
        assert(rb.len() == 0);
        Ordering::Greater
    } else if i < b.len() {
        assert(ra.len() == 0);
        Ordering::Less
    } else {
        assert(ra.len() == 0 && rb.len() == 0);
        Ordering::Equal
    }
}

fn compare_u64(a: u64, b: u64) -> (r: Ordering)
    ensures
        r == cmp_int(a as int, b as int),
{
    if a < b {
        Ordering::Less
    } else if a > b {
        Ordering::Greater
    } else {
        Ordering::Equal
    }
}

fn flip_ordering(o: Ordering) -> (r: Ordering)
    ensures
        r == flip(o),
{
    match o {
        Ordering::Less => Ordering::Greater,
        Ordering::Greater => Ordering::Less,
        Ordering::Equal => Ordering::Equal,
    }
}

/// Usage count of `name`: the first entry for it in `counts`, else 0.
pub fn usage_count(counts: &Vec<(String, usize)>, name: &String) -> (r: usize)
    ensures
        r == usage(counts@, name@),
{
    let mut k: usize = 0;
    while k < counts.len()
        invariant
            k <= counts@.len(),
            usage_from(counts@, k as int, name@) == usage(counts@, name@),
        decreases counts@.len() - k,
    {
        if counts[k].0 == *name {
            return counts[k].1;
        }
        k = k + 1;
    }
    0
}

/// Usage counts of all tools, in list order.
fn usage_table(pkgs: &Vec<Package>, counts: &Vec<(String, usize)>) -> (uses: Vec<usize>)
    ensures
        uses@.len() == pkgs@.len(),
        forall|i: int| 0 <= i < pkgs@.len() ==> #[trigger] uses@[i] == usage(counts@, pkgs@[i].name@),
{
    let mut uses: Vec<usize> = Vec::new();
    for i in 0..pkgs.len()
        invariant
            uses@.len() == i,
            forall|j: int| 0 <= j < i ==> #[trigger] uses@[j] == usage(counts@, pkgs@[j].name@),
    {
        let u = usage_count(counts, &pkgs[i].name);
        uses.push(u);
    }
    uses
}

fn order_cmp_exec(
    pkgs: &Vec<Package>,
    counts: &Vec<(String, usize)>,
    uses: &Vec<usize>,
    by: SortBy,
    asc: bool,
    a: usize,
    b: usize,
) -> (r: Ordering)
    requires
        a < pkgs@.len(),
        b < pkgs@.len(),
        uses@.len() == pkgs@.len(),
        forall|i: int| 0 <= i < pkgs@.len() ==> #[trigger] uses@[i] == usage(counts@, pkgs@[i].name@),
    ensures
        r == order_cmp(pkgs@, counts@, by, asc, a as int, b as int),
{
    proof {
        reveal(order_cmp);
    }
    let p = match by {
        SortBy::Date => compare_u64(pkgs[a].epoch, pkgs[b].epoch),
        SortBy::Name => compare_bytes(pkgs[a].name.as_str().as_bytes(), pkgs[b].name.as_str().as_bytes()),
        SortBy::Source => compare_bytes(
            pkgs[a].source.as_str().as_bytes(),
            pkgs[b].source.as_str().as_bytes(),
        ),
        SortBy::Uses => {
            let ua = uses[a];
            let ub = uses[b];
            if ua < ub {
                Ordering::Less
            } else if ua > ub {
                Ordering::Greater
            } else {
                Ordering::Equal
            }
        },
    };
    let o = if asc {
        p
    } else {
        flip_ordering(p)
    };
    match o {
        Ordering::Equal => compare_u64(pkgs[b].epoch, pkgs[a].epoch),
        _ => o,
    }
}

fn is_greater(o: Ordering) -> (r: bool)
    ensures
        r == (o == Ordering::Greater),
{
    match o {
        Ordering::Greater => true,
        _ => false,
    }
}

/// Stable insertion sort of `input` in list order.
fn sort_indices(
    pkgs: &Vec<Package>,
    counts: &Vec<(String, usize)>,
    by: SortBy,
    asc: bool,
    input: &Vec<usize>,
) -> (r: Vec<usize>)
    requires
        forall|k: int| 0 <= k < input@.len() ==> #[trigger] input@[k] < pkgs@.len(),
    ensures
        r@ == sort_seq(pkgs@, counts@, by, asc, input@),
{
    let uses = usage_table(pkgs, counts);
    let mut out: Vec<usize> = Vec::new();
    for k in 0..input.len()
        invariant
            uses@.len() == pkgs@.len(),
            forall|i: int| 0 <= i < pkgs@.len() ==> #[trigger] uses@[i] == usage(counts@, pkgs@[i].name@),
            forall|j: int| 0 <= j < input@.len() ==> #[trigger] input@[j] < pkgs@.len(),
            out@ == sort_seq(pkgs@, counts@, by, asc, input@.subrange(0, k as int)),
    {
        let x = input[k];
        proof {
            let pre = input@.subrange(0, k as int);
            lemma_sort_members(pkgs@, counts@, by, asc, pre);
            assert forall|j: int| 0 <= j < out@.len() implies #[trigger] out@[j] < pkgs@.len() by {
                assert(pre.contains(out@[j]));
            }
        }
        let mut p = out.len();
        assert(out@.subrange(0, p as int) =~= out@);
        while p > 0 && is_greater(order_cmp_exec(pkgs, counts, &uses, by, asc, out[p - 1], x))
            invariant
                p <= out@.len(),
                x < pkgs@.len(),
                uses@.len() == pkgs@.len(),
                forall|i: int| 0 <= i < pkgs@.len() ==> #[trigger] uses@[i] == usage(counts@, pkgs@[i].name@),
                forall|j: int| 0 <= j < out@.len() ==> #[trigger] out@[j] < pkgs@.len(),
                insert_pos(pkgs@, counts@, by, asc, out@, x) == insert_pos(
                    pkgs@,
                    counts@,
                    by,
                    asc,
                    out@.subrange(0, p as int),
                    x,
                ),
            decreases p,
        {
            assert(out@.subrange(0, p as int).drop_last() =~= out@.subrange(0, p - 1));
            p = p - 1;
        }
        let ghost sub = out@.subrange(0, p as int);
        if p > 0 {
            assert(sub.last() == out@[p - 1]);
        }
        assert(insert_pos(pkgs@, counts@, by, asc, sub, x) == p);
        out.insert(p, x);
        assert(input@.subrange(0, k + 1).drop_last() =~= input@.subrange(0, k as int));
    }
    assert(input@.subrange(0, input@.len() as int) =~= input@);
    out
}

// ---------------------------------------------------------------------------
// Laws of the ordering
// ---------------------------------------------------------------------------

proof fn lemma_lex_flip(a: Seq<u8>, b: Seq<u8>)
    ensures
        lex_cmp(a, b) == flip(lex_cmp(b, a)),
    decreases a.len(),
{
    if a.len() > 0 && b.len() > 0 && a[0] == b[0] {
        lemma_lex_flip(a.drop_first(), b.drop_first());
    }
}

/// Swapping the operands flips the list order.
pub proof fn lemma_order_flip(
    pkgs: Seq<Package>,
    counts: Seq<(String, usize)>,
    by: SortBy,
    asc: bool,
    a: int,
    b: int,
)
    ensures
        order_cmp(pkgs, counts, by, asc, a, b) == flip(order_cmp(pkgs, counts, by, asc, b, a)),
{
    reveal(order_cmp);
    match by {
        SortBy::Name => lemma_lex_flip(encode_utf8(pkgs[a].name@), encode_utf8(pkgs[b].name@)),
        SortBy::Source => lemma_lex_flip(encode_utf8(pkgs[a].source@), encode_utf8(pkgs[b].source@)),
        _ => {},
    }
}

/// No two neighbours of `s` are out of list order.
pub open spec fn in_order(
    pkgs: Seq<Package>,
    counts: Seq<(String, usize)>,
    by: SortBy,
    asc: bool,
    s: Seq<usize>,
) -> bool {
    forall|i: int|
        0 <= i < s.len() - 1 ==> #[trigger] order_cmp(pkgs, counts, by, asc, s[i] as int, s[i + 1] as int)
            != Ordering::Greater
}

proof fn lemma_insert_pos_props(
    pkgs: Seq<Package>,
    counts: Seq<(String, usize)>,
    by: SortBy,
    asc: bool,
    s: Seq<usize>,
    x: usize,
)
    ensures
        ({
            let p = insert_pos(pkgs, counts, by, asc, s, x) as int;
            &&& p <= s.len()
            &&& p > 0 ==> order_cmp(pkgs, counts, by, asc, s[p - 1] as int, x as int) != Ordering::Greater
            &&& p < s.len() ==> order_cmp(pkgs, counts, by, asc, s[p] as int, x as int) == Ordering::Greater
        }),
    decreases s.len(),
{
    if s.len() > 0 {
        lemma_insert_pos_props(pkgs, counts, by, asc, s.drop_last(), x);
    }
}

/// The result of sorting is in list order.
pub proof fn lemma_sort_in_order(
    pkgs: Seq<Package>,
    counts: Seq<(String, usize)>,
    by: SortBy,
    asc: bool,
    s: Seq<usize>,
)
    ensures
        in_order(pkgs, counts, by, asc, sort_seq(pkgs, counts, by, asc, s)),
    decreases s.len(),
{
    if s.len() > 0 {
        let r = sort_seq(pkgs, counts, by, asc, s.drop_last());
        let x = s.last();
        lemma_sort_in_order(pkgs, counts, by, asc, s.drop_last());
        lemma_insert_pos_props(pkgs, counts, by, asc, r, x);
        let p = insert_pos(pkgs, counts, by, asc, r, x) as int;
        let t = r.insert(p, x);
        assert forall|i: int| 0 <= i < t.len() - 1 implies #[trigger] order_cmp(
            pkgs,
            counts,
            by,
            asc,
            t[i] as int,
            t[i + 1] as int,
        ) != Ordering::Greater by {
            if i + 1 < p {
                assert(t[i] == r[i] && t[i + 1] == r[i + 1]);
                assert(order_cmp(pkgs, counts, by, asc, r[i] as int, r[i + 1] as int) != Ordering::Greater);
            } else if i + 1 == p {
                assert(t[i] == r[p - 1] && t[i + 1] == x);
            } else if i == p {
                assert(t[i] == x && t[i + 1] == r[p]);
                lemma_order_flip(pkgs, counts, by, asc, x as int, r[p] as int);
            } else {
                assert(t[i] == r[i - 1] && t[i + 1] == r[i]);
                assert(order_cmp(pkgs, counts, by, asc, r[i - 1] as int, r[(i - 1) + 1] as int)
                    != Ordering::Greater);
            }
        }
    }
}

/// Sorting a sequence that is already in list order leaves it unchanged.
pub proof fn lemma_sort_keeps_ordered(
    pkgs: Seq<Package>,
    counts: Seq<(String, usize)>,
    by: SortBy,
    asc: bool,
    s: Seq<usize>,
)
    requires
        in_order(pkgs, counts, by, asc, s),
    ensures
        sort_seq(pkgs, counts, by, asc, s) == s,
    decreases s.len(),
{
    if s.len() > 0 {
        let d = s.drop_last();
        assert(in_order(pkgs, counts, by, asc, d)) by {
            assert forall|i: int| 0 <= i < d.len() - 1 implies #[trigger] order_cmp(
                pkgs,
                counts,
                by,
                asc,
                d[i] as int,
                d[i + 1] as int,
            ) != Ordering::Greater by {
                assert(d[i] == s[i] && d[i + 1] == s[i + 1]);
            }
        }
        lemma_sort_keeps_ordered(pkgs, counts, by, asc, d);
        if d.len() > 0 {
            assert(s[d.len() - 1] == d.last());
            let j = d.len() - 1;
            assert(order_cmp(pkgs, counts, by, asc, s[j] as int, s[j + 1] as int) != Ordering::Greater);
        }
        assert(insert_pos(pkgs, counts, by, asc, d, s.last()) == d.len());
        assert(d.insert(d.len() as int, s.last()) =~= s);
    }
}

/// Sorting twice by the same column and direction gives the order of
/// sorting once.
pub proof fn law_sort_idempotent(
    pkgs: Seq<Package>,
    counts: Seq<(String, usize)>,
    by: SortBy,
    asc: bool,
    s: Seq<usize>,
)
    ensures
        sort_seq(pkgs, counts, by, asc, sort_seq(pkgs, counts, by, asc, s)) == sort_seq(
            pkgs,
            counts,
            by,
            asc,
            s,
        ),
{
    lemma_sort_in_order(pkgs, counts, by, asc, s);
    lemma_sort_keeps_ordered(pkgs, counts, by, asc, sort_seq(pkgs, counts, by, asc, s));
}

/// Sorting in one direction, then the other, then back gives the same rows as
/// sorting once, and both results are in list order for that direction.
pub proof fn law_toggle_twice(
    pkgs: Seq<Package>,
    counts: Seq<(String, usize)>,
    by: SortBy,
    asc: bool,
    s: Seq<usize>,
)
    ensures
        ({
            let once = sort_seq(pkgs, counts, by, asc, s);
            let back = sort_seq(
                pkgs,
                counts,
                by,
                asc,
                sort_seq(pkgs, counts, by, !asc, once),
            );
            &&& back.to_multiset() == once.to_multiset()
            &&& in_order(pkgs, counts, by, asc, back)
            &&& in_order(pkgs, counts, by, asc, once)
        }),
{
    let once = sort_seq(pkgs, counts, by, asc, s);
    let flipped = sort_seq(pkgs, counts, by, !asc, once);
    lemma_sort_permutes(pkgs, counts, by, !asc, once);
    lemma_sort_permutes(pkgs, counts, by, asc, flipped);
    lemma_sort_in_order(pkgs, counts, by, asc, flipped);
    lemma_sort_in_order(pkgs, counts, by, asc, s);
}

proof fn lemma_lex_equal(a: Seq<u8>, b: Seq<u8>)
    ensures
        lex_cmp(a, b) == Ordering::Equal ==> a == b,
    decreases a.len(),
{
    if a.len() > 0 && b.len() > 0 && a[0] == b[0] {
        lemma_lex_equal(a.drop_first(), b.drop_first());
        if lex_cmp(a, b) == Ordering::Equal {
            assert(a =~= seq![a[0]] + a.drop_first());
            assert(b =~= seq![b[0]] + b.drop_first());
        }
    } else if a.len() == 0 && b.len() == 0 {
        assert(a =~= b);
    }
}

proof fn lemma_lex_trans(a: Seq<u8>, b: Seq<u8>, c: Seq<u8>)
    ensures
        lex_cmp(a, b) != Ordering::Greater && lex_cmp(b, c) != Ordering::Greater ==> lex_cmp(a, c)
            != Ordering::Greater,
        lex_cmp(a, b) == Ordering::Less && lex_cmp(b, c) != Ordering::Greater ==> lex_cmp(a, c)
            == Ordering::Less,
        lex_cmp(a, b) != Ordering::Greater && lex_cmp(b, c) == Ordering::Less ==> lex_cmp(a, c)
            == Ordering::Less,
    decreases a.len(),
{
    if a.len() > 0 && b.len() > 0 && c.len() > 0 && a[0] == b[0] && b[0] == c[0] {
        lemma_lex_trans(a.drop_first(), b.drop_first(), c.drop_first());
    }
}

/// The list order is transitive.
proof fn lemma_order_trans(
    pkgs: Seq<Package>,
    counts: Seq<(String, usize)>,
    by: SortBy,
    asc: bool,
    x: int,
    y: int,
    z: int,
)
    requires
        order_cmp(pkgs, counts, by, asc, x, y) != Ordering::Greater,
        order_cmp(pkgs, counts, by, asc, y, z) != Ordering::Greater,
    ensures
        order_cmp(pkgs, counts, by, asc, x, z) != Ordering::Greater,
{
    reveal(order_cmp);
    match by {
        SortBy::Name => {
            let (a, b, c) = (encode_utf8(pkgs[x].name@), encode_utf8(pkgs[y].name@), encode_utf8(pkgs[z].name@));
            lemma_lex_trans(a, b, c);
            lemma_lex_trans(c, b, a);
            lemma_lex_equal(a, b);
            lemma_lex_equal(b, c);
            lemma_lex_flip(a, b);
            lemma_lex_flip(b, c);
            lemma_lex_flip(a, c);
        },
        SortBy::Source => {
            let (a, b, c) = (encode_utf8(pkgs[x].source@), encode_utf8(pkgs[y].source@), encode_utf8(pkgs[z].source@));
            lemma_lex_trans(a, b, c);
            lemma_lex_trans(c, b, a);
            lemma_lex_equal(a, b);
            lemma_lex_equal(b, c);
            lemma_lex_flip(a, b);
            lemma_lex_flip(b, c);
            lemma_lex_flip(a, c);
        },
        _ => {},
    }
}

/// In a sequence in list order, every element comes no later than those after it.
proof fn lemma_in_order_all(
    pkgs: Seq<Package>,
    counts: Seq<(String, usize)>,
    by: SortBy,
    asc: bool,
    s: Seq<usize>,
    i: int,
    j: int,
)
    requires
        in_order(pkgs, counts, by, asc, s),
        0 <= i <= j < s.len(),
    ensures
        i < j ==> order_cmp(pkgs, counts, by, asc, s[i] as int, s[j] as int) != Ordering::Greater,
    decreases j - i,
{
    if i < j {
        let k = j - 1;
        assert(order_cmp(pkgs, counts, by, asc, s[k] as int, s[k + 1] as int) != Ordering::Greater);
        if i < k {
            lemma_in_order_all(pkgs, counts, by, asc, s, i, k);
            lemma_order_trans(pkgs, counts, by, asc, s[i] as int, s[k] as int, s[j] as int);
        }
    }
}

/// No two distinct elements of `s` compare equal in the list order.
pub open spec fn no_ties(
    pkgs: Seq<Package>,
    counts: Seq<(String, usize)>,
    by: SortBy,
    asc: bool,
    s: Seq<usize>,
) -> bool {
    forall|x: usize, y: usize|
        s.contains(x) && s.contains(y) && x != y ==> #[trigger] order_cmp(pkgs, counts, by, asc, x as int, y as int)
            != Ordering::Equal
}

/// Two orderings of the same distinct elements, both in list order and
/// without ties, are the same sequence.
proof fn lemma_ordered_unique(
    pkgs: Seq<Package>,
    counts: Seq<(String, usize)>,
    by: SortBy,
    asc: bool,
    a: Seq<usize>,
    b: Seq<usize>,
)
    requires
        in_order(pkgs, counts, by, asc, a),
        in_order(pkgs, counts, by, asc, b),
        a.to_multiset() == b.to_multiset(),
        a.no_duplicates(),
        no_ties(pkgs, counts, by, asc, a),
    ensures
        a == b,
    decreases a.len(),
{
    broadcast use vstd::seq_lib::to_multiset_contains, vstd::seq_lib::to_multiset_len, vstd::seq_lib::to_multiset_remove;

    assert(a.len() == a.to_multiset().len());
    assert(b.len() == b.to_multiset().len());
    if a.len() == 0 {
        assert(a =~= b);
    } else {
        let a0 = a[0];
        let b0 = b[0];
        assert(a.contains(a0));
        assert(a.to_multiset().count(a0) > 0);
        assert(b.contains(a0));
        let m = choose|m: int| 0 <= m < b.len() && b[m] == a0;
        assert(b.contains(b0));
        assert(b.to_multiset().count(b0) > 0);
        assert(a.contains(b0));
        let k = choose|k: int| 0 <= k < a.len() && a[k] == b0;
        lemma_in_order_all(pkgs, counts, by, asc, a, 0, k);
        lemma_in_order_all(pkgs, counts, by, asc, b, 0, m);
        lemma_order_flip(pkgs, counts, by, asc, a0 as int, b0 as int);
        if a0 != b0 {
            assert(order_cmp(pkgs, counts, by, asc, a0 as int, b0 as int) != Ordering::Equal);
        }
        assert(a0 == b0);
        let ta = a.drop_first();
        let tb = b.drop_first();
        assert(a.remove(0) =~= ta);
        assert(b.remove(0) =~= tb);
        assert(ta.to_multiset() == tb.to_multiset());
        assert(in_order(pkgs, counts, by, asc, ta)) by {
            assert forall|i: int| 0 <= i < ta.len() - 1 implies #[trigger] order_cmp(
                pkgs,
                counts,
                by,
                asc,
                ta[i] as int,
                ta[i + 1] as int,
            ) != Ordering::Greater by {
                assert(order_cmp(pkgs, counts, by, asc, a[i + 1] as int, a[(i + 1) + 1] as int)
                    != Ordering::Greater);
            }
        }
        assert(in_order(pkgs, counts, by, asc, tb)) by {
            assert forall|i: int| 0 <= i < tb.len() - 1 implies #[trigger] order_cmp(
                pkgs,
                counts,
                by,
                asc,
                tb[i] as int,
                tb[i + 1] as int,
            ) != Ordering::Greater by {
                assert(order_cmp(pkgs, counts, by, asc, b[i + 1] as int, b[(i + 1) + 1] as int)
                    != Ordering::Greater);
            }
        }
        assert(ta.no_duplicates());
        assert(no_ties(pkgs, counts, by, asc, ta)) by {
            assert forall|x: usize, y: usize|
                ta.contains(x) && ta.contains(y) && x != y implies #[trigger] order_cmp(
                pkgs,
                counts,
                by,
                asc,
                x as int,
                y as int,
            ) != Ordering::Equal by {
                let i = choose|i: int| 0 <= i < ta.len() && ta[i] == x;
                let j = choose|j: int| 0 <= j < ta.len() && ta[j] == y;
                assert(a[i + 1] == x && a[j + 1] == y);
                assert(a.contains(x) && a.contains(y));
            }
        }
        lemma_ordered_unique(pkgs, counts, by, asc, ta, tb);
        assert(a =~= seq![a0] + ta);
        assert(b =~= seq![b0] + tb);
    }
}

/// Sorting by a column, then in the other direction, then back restores the
/// first order, when no two distinct rows tie in it.
pub proof fn law_toggle_twice_restores(
    pkgs: Seq<Package>,
    counts: Seq<(String, usize)>,
    by: SortBy,
    asc: bool,
    s: Seq<usize>,
)
    requires
        s.no_duplicates(),
        no_ties(pkgs, counts, by, asc, s),
    ensures
        sort_seq(pkgs, counts, by, asc, sort_seq(pkgs, counts, by, !asc, sort_seq(pkgs, counts, by, asc, s)))
            == sort_seq(pkgs, counts, by, asc, s),
{
    broadcast use vstd::seq_lib::to_multiset_contains;

    let once = sort_seq(pkgs, counts, by, asc, s);
    let back = sort_seq(pkgs, counts, by, asc, sort_seq(pkgs, counts, by, !asc, once));
    law_toggle_twice(pkgs, counts, by, asc, s);
    lemma_sort_permutes(pkgs, counts, by, asc, s);
    s.lemma_multiset_has_no_duplicates();
    once.lemma_multiset_has_no_duplicates_conv();
    assert(no_ties(pkgs, counts, by, asc, once)) by {
        assert forall|x: usize, y: usize|
            once.contains(x) && once.contains(y) && x != y implies #[trigger] order_cmp(
            pkgs,
            counts,
            by,
            asc,
            x as int,
            y as int,
        ) != Ordering::Equal by {
            assert(once.to_multiset().count(x) > 0);
            assert(once.to_multiset().count(y) > 0);
            assert(s.contains(x) && s.contains(y));
        }
    }
    lemma_ordered_unique(pkgs, counts, by, asc, once, back);
}

/// Selection after the list changed length: kept when still in range, the
/// first row when it fell out of range, none when the list is empty.
pub open spec fn reselect(sel: Option<usize>, len: nat) -> Option<usize> {
    let s = match sel {
        Some(i) => i,
        None => 0,
    };
    if len == 0 {
        None
    } else if s >= len {
        Some(0)
    } else {
        sel
    }
}


/// Names of the cached previews, in cache order.
pub open spec fn cache_keys(c: Seq<(String, String)>) -> Seq<Seq<char>> {
    c.map_values(|e: (String, String)| e.0@)
}

/// Preview text cached for `name` from entry `k` on (first entry wins), empty when absent.
pub open spec fn cache_lookup_from(c: Seq<(String, String)>, k: int, name: Seq<char>) -> Seq<char>
    decreases c.len() - k,
{
    if k < 0 || k >= c.len() {
        seq![]
    } else if c[k].0@ == name {
        c[k].1@
    } else {
        cache_lookup_from(c, k + 1, name)
    }
}

/// Fetched previews as (name, text) pairs.
pub open spec fn result_views(v: Seq<(String, String)>) -> Seq<(Seq<char>, Seq<char>)> {
    v.map_values(|p: (String, String)| (p.0@, p.1@))
}

pub open spec fn names_of(v: Seq<String>) -> Seq<Seq<char>> {
    v.map_values(|s: String| s@)
}

pub open spec fn request_views(r: Seq<FetchRequest>) -> Seq<(Seq<char>, Seq<char>)> {
    r.map_values(|q: FetchRequest| (q.name@, q.source@))
}

/// `s` without the entries equal to `x`.
pub open spec fn without(s: Seq<Seq<char>>, x: Seq<char>) -> Seq<Seq<char>>
    decreases s.len(),
{
    if s.len() == 0 {
        s
    } else {
        let r = without(s.drop_last(), x);
        if s.last() == x {
            r
        } else {
            r.push(s.last())
        }
    }
}

/// Row reached from `sel` (none counts as the first row) by `delta` rows,
/// clamped to `0..len`.
pub open spec fn clamp_row(sel: Option<usize>, delta: int, len: nat) -> usize {
    let cur = match sel {
        Some(i) => i as int,
        None => 0,
    };
    let t = cur + delta;
    if t < 0 {
        0
    } else if t > len - 1 {
        (len - 1) as usize
    } else {
        t as usize
    }
}


/// A key, as far as the browser tells keys apart.
#[derive(Clone, Copy, Debug, PartialEq, Eq, Structural)]
pub enum KeyCode {
    Char(char),
    Esc,
    Enter,
    Backspace,
    Up,
    Down,
    Home,
    End,
    PageUp,
    PageDown,
    Other,
}

/// A key event: the key, its modifiers, and whether it is a press (not a
/// release or repeat).
#[derive(Clone, Copy, Debug, PartialEq, Eq, Structural)]
pub struct KeyEvent {
    pub code: KeyCode,
    pub ctrl: bool,
    pub alt: bool,
    pub press: bool,
}

/// A mouse event, as far as the browser tells them apart.
#[derive(Clone, Copy, Debug, PartialEq, Eq, Structural)]
pub enum MouseKind {
    ScrollUp,
    ScrollDown,
    Other,
}

/// The sort column that a key selects after the sort prefix.
pub open spec fn sort_choice(code: KeyCode) -> Option<SortBy> {
    if code == KeyCode::Char('d') {
        Some(SortBy::Date)
    } else if code == KeyCode::Char('n') {
        Some(SortBy::Name)
    } else if code == KeyCode::Char('s') {
        Some(SortBy::Source)
    } else if code == KeyCode::Char('u') {
        Some(SortBy::Uses)
    } else {
        None
    }
}

pub open spec fn add_sat(x: u16, d: u16) -> u16 {
    if x as int + d as int > u16::MAX {
        u16::MAX
    } else {
        (x + d) as u16
    }
}

pub open spec fn sub_sat(x: u16, d: u16) -> u16 {
    if x < d {
        0
    } else {
        (x - d) as u16
    }
}

/// Pending prefetch names and requested fetches after prefetching for `rows`
/// in order: a tool that is neither cached nor pending gets a fetch.
pub open spec fn prefetch_state(
    pkgs: Seq<Package>,
    keys: Seq<Seq<char>>,
    pend: Seq<Seq<char>>,
    reqs: Seq<(Seq<char>, Seq<char>)>,
    rows: Seq<usize>,
) -> (Seq<Seq<char>>, Seq<(Seq<char>, Seq<char>)>)
    decreases rows.len(),
{
    if rows.len() == 0 {
        (pend, reqs)
    } else {
        let (p, r) = prefetch_state(pkgs, keys, pend, reqs, rows.drop_last());
        let t = pkgs[rows.last() as int];
        if keys.contains(t.name@) || p.contains(t.name@) {
            (p, r)
        } else {
            (p.push(t.name@), r.push((t.name@, t.source@)))
        }
    }
}

fn saturating_add_u16(x: u16, d: u16) -> (r: u16)
    ensures
        r == add_sat(x, d),
{
    if x > u16::MAX - d {
        u16::MAX
    } else {
        x + d
    }
}

fn saturating_sub_u16(x: u16, d: u16) -> (r: u16)
    ensures
        r == sub_sat(x, d),
{
    if x < d {
        0
    } else {
        x - d
    }
}

/// A preview fetch for the event loop to start: the tool and where it came from.
#[derive(Debug)]
pub struct FetchRequest {
    pub name: String,
    pub source: String,
}

/// The browser session.
pub struct App {
    pub packages: Vec<Package>,
    /// Usage counts by tool name; a name without an entry counts 0.
    pub counts: Vec<(String, usize)>,
    /// Indices into `packages` of the rows shown, in display order.
    pub filtered: Vec<usize>,
    /// Selected row: an index into `filtered`.
    pub selected: Option<usize>,
    pub filter: String,
    pub filter_active: bool,
    pub preview_scroll: u16,
    /// Preview text by tool name, at most one entry per name.
    pub help_cache: Vec<(String, String)>,
    pub show_scanning: bool,
    pub show_preview: bool,
    pub preview_loading: bool,
    pub auditd_warning: bool,
    pub split_pct: u16,
    pub sort_by: SortBy,
    pub sort_asc: bool,
    pub pending_sort: bool,
    /// Tool whose preview is awaited for display.
    pub loading_name: Option<String>,
    /// Tools with a fetch under way.
    pub pending: Vec<String>,
    /// Fetches decided on and not yet handed to the event loop.
    pub requests: Vec<FetchRequest>,
}

impl App {
    /// Rows index tools that exist, and the selection is a row.
    pub open spec fn wf(&self) -> bool {
        &&& self.packages@.len() <= usize::MAX
        &&& forall|k: int|
            0 <= k < self.filtered@.len() ==> #[trigger] self.filtered@[k] < self.packages@.len()
        &&& match self.selected {
            Some(i) => i < self.filtered@.len(),
            None => true,
        }
        &&& cache_keys(self.help_cache@).no_duplicates()
        &&& names_of(self.pending@).no_duplicates()
    }

    /// Index into `packages` of the selected tool.
    pub open spec fn selected_tool(&self) -> Option<int> {
        match self.selected {
            Some(i) => if i < self.filtered@.len() && self.filtered@[i as int] < self.packages@.len() {
                Some(self.filtered@[i as int] as int)
            } else {
                None
            },
            None => None,
        }
    }

    pub open spec fn is_cached_spec(&self, name: Seq<char>) -> bool {
        cache_keys(self.help_cache@).contains(name)
    }

    pub open spec fn is_pending_spec(&self, name: Seq<char>) -> bool {
        names_of(self.pending@).contains(name)
    }

    /// Effect of `apply_sort`.
    pub open spec fn sort_post(o: App, n: App) -> bool {
        &&& n.filtered@ == sort_seq(o.packages@, o.counts@, o.sort_by, o.sort_asc, o.filtered@)
        &&& n == (App { filtered: n.filtered, ..o })
    }

    /// Effect of `apply_filter`.
    pub open spec fn filter_post(o: App, n: App) -> bool {
        &&& n.filtered@ == o.filtered_spec()
        &&& n.selected == reselect(o.selected, n.filtered@.len())
        &&& n == (App { filtered: n.filtered, selected: n.selected, preview_scroll: 0, ..o })
    }

    /// Effect of setting the filter text to `n.filter` and re-filtering.
    pub open spec fn refilter_post(o: App, n: App) -> bool {
        App::filter_post(App { filter: n.filter, ..o }, n)
    }

    /// Effect of opening or closing the preview pane; opening resets the pane
    /// width and scroll and asks for the selected tool's preview.
    pub open spec fn toggle_post(o: App, n: App) -> bool {
        if o.show_preview {
            n == (App { show_preview: false, ..o })
        } else {
            App::request_post(App { show_preview: true, split_pct: 65, preview_scroll: 0, ..o }, n)
        }
    }

    pub open spec fn next_row(&self) -> usize {
        match self.selected {
            Some(i) => ((i + 1) % self.filtered@.len() as int) as usize,
            None => 0,
        }
    }

    pub open spec fn prev_row(&self) -> usize {
        match self.selected {
            Some(i) => if i == 0 {
                (self.filtered@.len() - 1) as usize
            } else {
                (i - 1) as usize
            },
            None => 0,
        }
    }

    /// Page down: scrolls the preview while it is shown, else moves 10 rows.
    pub open spec fn page_down_post(o: App, n: App) -> bool {
        if o.show_preview {
            n == (App { preview_scroll: add_sat(o.preview_scroll, 8), ..o })
        } else {
            App::select_post(o, n, clamp_row(o.selected, 10, o.filtered@.len()))
        }
    }

    /// Page up: scrolls the preview while it is shown, else moves 10 rows.
    pub open spec fn page_up_post(o: App, n: App) -> bool {
        if o.show_preview {
            n == (App { preview_scroll: sub_sat(o.preview_scroll, 8), ..o })
        } else {
            App::select_post(o, n, clamp_row(o.selected, -10, o.filtered@.len()))
        }
    }

    /// Effect of a key, and the action it returns.
    ///
    /// After the sort prefix, the next key picks a column (`d` date, `n` name,
    /// `s` source, `u` uses): the same column flips the direction, another one
    /// takes its default direction; the key is consumed either way. Otherwise
    /// Ctrl-C quits; Alt-h / Alt-l resize the panes; Esc leaves filter entry,
    /// else clears the filter, else quits; Enter leaves filter entry, else
    /// toggles the preview; j/k and the arrows move with wrap-around; outside
    /// filter entry J/K move 5 rows, g/G and Home/End go to the ends, `/` starts
    /// a fresh filter, `,` is the sort prefix, `i` toggles the preview, `q`
    /// quits and `r` asks for a refresh; Ctrl-D/U and PgDn/PgUp page; in filter
    /// entry Backspace and other characters edit the filter.
    pub open spec fn key_post(o: App, n: App, key: KeyEvent, r: Action) -> bool {
        let c = key.code;
        let fa = o.filter_active;
        if !key.press {
            n == o && r == Action::Continue
        } else if o.pending_sort {
            let m = App { pending_sort: false, ..o };
            &&& r == Action::Continue
            &&& if fa {
                n == m
            } else {
                match sort_choice(c) {
                    None => n == m,
                    Some(col) => {
                        let m2 = if col == o.sort_by {
                            App { sort_asc: !o.sort_asc, ..m }
                        } else {
                            App {
                                sort_by: col,
                                sort_asc: col == SortBy::Name || col == SortBy::Source,
                                ..m
                            }
                        };
                        App::sort_post(m2, n)
                    },
                }
            }
        } else if c == KeyCode::Char('c') && key.ctrl {
            n == o && r == Action::Quit
        } else if c == KeyCode::Char('h') && key.alt {
            let w = sub_sat(o.split_pct, 5);
            n == (App { split_pct: if w < 15 { 15 } else { w }, ..o }) && r == Action::Continue
        } else if c == KeyCode::Char('l') && key.alt {
            n == (App { split_pct: if o.split_pct >= 80 { 85 } else { (o.split_pct + 5) as u16 }, ..o })
                && r == Action::Continue
        } else if c == KeyCode::Esc {
            if fa {
                n == (App { filter_active: false, ..o }) && r == Action::Continue
            } else if o.filter@.len() > 0 {
                n.filter@.len() == 0 && App::refilter_post(o, n) && r == Action::Continue
            } else {
                n == o && r == Action::Quit
            }
        } else if c == KeyCode::Enter {
            r == Action::Continue && if fa {
                n == (App { filter_active: false, ..o })
            } else {
                App::toggle_post(o, n)
            }
        } else if c == KeyCode::Char('j') || c == KeyCode::Down {
            App::select_post(o, n, o.next_row()) && r == Action::Continue
        } else if c == KeyCode::Char('k') || c == KeyCode::Up {
            App::select_post(o, n, o.prev_row()) && r == Action::Continue
        } else if c == KeyCode::Char('J') && !fa {
            App::select_post(o, n, clamp_row(o.selected, 5, o.filtered@.len())) && r == Action::Continue
        } else if c == KeyCode::Char('K') && !fa {
            App::select_post(o, n, clamp_row(o.selected, -5, o.filtered@.len())) && r == Action::Continue
        } else if (c == KeyCode::Char('g') || c == KeyCode::Home) && !fa {
            App::select_post(o, n, 0) && r == Action::Continue
        } else if (c == KeyCode::Char('G') || c == KeyCode::End) && !fa {
            App::select_post(o, n, (o.filtered@.len() - 1) as usize) && r == Action::Continue
        } else if (c == KeyCode::Char('d') && key.ctrl) || c == KeyCode::PageDown {
            App::page_down_post(o, n) && r == Action::Continue
        } else if (c == KeyCode::Char('u') && key.ctrl) || c == KeyCode::PageUp {
            App::page_up_post(o, n) && r == Action::Continue
        } else if c == KeyCode::Char('/') && !fa {
            &&& r == Action::Continue
            &&& n.filter_active
            &&& n.filter@.len() == 0
            &&& if o.filter@.len() > 0 {
                App::refilter_post(o, App { filter_active: false, ..n })
            } else {
                n == (App { filter_active: true, ..o })
            }
        } else if c == KeyCode::Backspace && fa {
            &&& r == Action::Continue
            &&& n.filter@ == (if o.filter@.len() > 0 {
                o.filter@.drop_last()
            } else {
                o.filter@
            })
            &&& App::refilter_post(o, n)
        } else if c == KeyCode::Char(',') && !fa {
            n == (App { pending_sort: true, ..o }) && r == Action::Continue
        } else if c == KeyCode::Char('i') && !fa {
            App::toggle_post(o, n) && r == Action::Continue
        } else if c == KeyCode::Char('q') && !fa {
            n == o && r == Action::Quit
        } else if c == KeyCode::Char('r') && !fa {
            n == o && r == Action::Refresh
        } else if fa && (exists|ch: char| c == KeyCode::Char(ch)) {
            let ch = choose|ch: char| c == KeyCode::Char(ch);
            &&& r == Action::Continue
            &&& n.filter@ == o.filter@.push(ch)
            &&& App::refilter_post(o, n)
        } else {
            n == o && r == Action::Continue
        }
    }

    /// Effect of asking for the selected tool's preview: nothing without a
    /// selection; a cached preview clears the loading state; otherwise the
    /// tool becomes the one awaited, and a fetch is requested unless one is
    /// already under way for it.
    pub open spec fn request_post(o: App, n: App) -> bool {
        match o.selected_tool() {
            None => n == o,
            Some(i) => {
                let nm = o.packages@[i].name@;
                if o.is_cached_spec(nm) {
                    &&& n.loading_name.is_none()
                    &&& n == (App { preview_loading: false, loading_name: n.loading_name, ..o })
                } else {
                    &&& n.loading_name.is_some()
                    &&& n.loading_name.unwrap()@ == nm
                    &&& if o.is_pending_spec(nm) {
                        n == (App { preview_loading: true, loading_name: n.loading_name, ..o })
                    } else {
                        &&& names_of(n.pending@) == names_of(o.pending@).push(nm)
                        &&& request_views(n.requests@) == request_views(o.requests@).push(
                            (nm, o.packages@[i].source@),
                        )
                        &&& n == (App {
                            preview_loading: true,
                            loading_name: n.loading_name,
                            pending: n.pending,
                            requests: n.requests,
                            ..o
                        })
                    }
                }
            },
        }
    }

    /// Effect of moving the selection to row `target`: nothing on an empty
    /// list; otherwise the preview scrolls to the top and, while it is shown,
    /// the new tool's preview is asked for.
    pub open spec fn select_post(o: App, n: App, target: usize) -> bool {
        if o.filtered@.len() == 0 {
            n == o
        } else {
            let m = App { selected: Some(target), preview_scroll: 0, ..o };
            if o.show_preview {
                App::request_post(m, n)
            } else {
                n == m
            }
        }
    }

    /// Effect of a result arriving for `name`: its fetch is no longer under
    /// way, the text is cached unless the name already has an entry, and if
    /// it is the awaited tool the loading state clears.
    pub open spec fn receive_post(o: App, n: App, name: Seq<char>, content: Seq<char>) -> bool {
        &&& names_of(n.pending@) == without(names_of(o.pending@), name)
        &&& if o.is_cached_spec(name) {
            n.help_cache == o.help_cache
        } else {
            &&& cache_keys(n.help_cache@) == cache_keys(o.help_cache@).push(name)
            &&& n.help_cache@.drop_last() == o.help_cache@
            &&& n.help_cache@.last().1@ == content
        }
        &&& if o.loading_name.is_some() && o.loading_name.unwrap()@ == name {
            &&& !n.preview_loading
            &&& n.loading_name.is_none()
            &&& n == (App {
                pending: n.pending,
                help_cache: n.help_cache,
                preview_loading: false,
                loading_name: n.loading_name,
                ..o
            })
        } else {
            n == (App { pending: n.pending, help_cache: n.help_cache, ..o })
        }
    }

    /// The rows of the current filter, in current order.
    pub open spec fn filtered_spec(&self) -> Seq<usize> {
        sort_seq(
            self.packages@,
            self.counts@,
            self.sort_by,
            self.sort_asc,
            matching(self.packages@, lower_of(self.filter@), self.packages@.len() as int),
        )
    }

    pub fn new(packages: Vec<Package>, counts: Vec<(String, usize)>, auditd_warning: bool) -> (r: App)
        ensures
            r.wf(),
            r.packages == packages,
            r.counts == counts,
            r.filtered@ == index_range(packages@.len()),
            r.selected == (if packages@.len() > 0 {
                Some(0usize)
            } else {
                None
            }),
            r.filter@.len() == 0,
            !r.filter_active,
            r.preview_scroll == 0,
            r.help_cache@.len() == 0,
            !r.show_scanning,
            !r.show_preview,
            !r.preview_loading,
            r.auditd_warning == auditd_warning,
            r.split_pct == 65,
            r.sort_by == SortBy::Date,
            !r.sort_asc,
            !r.pending_sort,
            r.loading_name.is_none(),
            r.pending@.len() == 0,
            r.requests@.len() == 0,
    {
        let mut filtered: Vec<usize> = Vec::new();
        for i in 0..packages.len()
            invariant
                filtered@ == index_range(i as nat),
        {
            filtered.push(i);
            assert(filtered@ =~= index_range((i + 1) as nat));
        }
        let selected = if packages.len() > 0 {
            Some(0)
        } else {
            None
        };
        App {
            packages,
            counts,
            filtered,
            selected,
            filter: String::new(),
            filter_active: false,
            preview_scroll: 0,
            help_cache: Vec::new(),
            show_scanning: false,
            show_preview: false,
            preview_loading: false,
            auditd_warning,
            split_pct: 65,
            sort_by: SortBy::Date,
            sort_asc: SortBy::Date.default_asc(),
            pending_sort: false,
            loading_name: None,
            pending: Vec::new(),
            requests: Vec::new(),
        }
    }

    /// Re-orders the rows by the current column and direction.
    pub fn apply_sort(&mut self)
        requires
            old(self).wf(),
        ensures
            final(self).wf(),
            final(self).filtered@ == sort_seq(
                old(self).packages@,
                old(self).counts@,
                old(self).sort_by,
                old(self).sort_asc,
                old(self).filtered@,
            ),
            *final(self) == (App { filtered: final(self).filtered, ..*old(self) }),
            App::sort_post(*old(self), *final(self)),
    {
        let sorted = sort_indices(&self.packages, &self.counts, self.sort_by, self.sort_asc, &self.filtered);
        proof {
            lemma_sort_permutes(self.packages@, self.counts@, self.sort_by, self.sort_asc, self.filtered@);
            lemma_sort_members(self.packages@, self.counts@, self.sort_by, self.sort_asc, self.filtered@);
        }
        self.filtered = sorted;
    }

    /// Recomputes the rows for the filter text: the tools whose name, source or
    /// description holds it, case-insensitively, in the current order. The
    /// selection is re-validated and the preview scrolled to the top.
    pub fn apply_filter(&mut self)
        requires
            old(self).wf(),
        ensures
            final(self).wf(),
            final(self).filtered@ == old(self).filtered_spec(),
            final(self).selected == reselect(old(self).selected, final(self).filtered@.len()),
            *final(self) == (App {
                filtered: final(self).filtered,
                selected: final(self).selected,
                preview_scroll: 0,
                ..*old(self)
            }),
            App::filter_post(*old(self), *final(self)),
            forall|k: int|
                0 <= k < final(self).filtered@.len() ==> pkg_matches(
                    old(self).packages@[#[trigger] final(self).filtered@[k] as int],
                    lower_of(old(self).filter@),
                ),
            old(self).filter@.len() == 0 ==> final(self).filtered@ == sort_seq(
                old(self).packages@,
                old(self).counts@,
                old(self).sort_by,
                old(self).sort_asc,
                index_range(old(self).packages@.len()),
            ),
    {
        let q = lowercase(self.filter.as_str());
        let ghost pk = self.packages@;
        let mut matches: Vec<usize> = Vec::new();
        for i in 0..self.packages.len()
            invariant
                pk == self.packages@,
                q@ == lower_of(self.filter@),
                matches@ == matching(pk, q@, i as int),
        {
            let p = &self.packages[i];
            let hit = q.as_str().is_empty() || contains_text(lowercase(p.name.as_str()).as_str(), q.as_str())
                || contains_text(lowercase(p.source.as_str()).as_str(), q.as_str())
                || contains_text(lowercase(p.description.as_str()).as_str(), q.as_str());
            if hit {
                matches.push(i);
            }
        }
        proof {
            lemma_matching_props(pk, q@, pk.len() as int);
        }
        self.filtered = matches;
        let sel = match self.selected {
            Some(i) => i,
            None => 0,
        };
        if self.filtered.len() == 0 {
            self.selected = None;
        } else if sel >= self.filtered.len() {
            self.selected = Some(0);
        }
        self.apply_sort();
        proof {
            lemma_sort_permutes(pk, self.counts@, self.sort_by, self.sort_asc, matches@);
            lemma_sort_members(pk, self.counts@, self.sort_by, self.sort_asc, matches@);
            assert forall|k: int| 0 <= k < self.filtered@.len() implies pkg_matches(
                pk[#[trigger] self.filtered@[k] as int],
                q@,
            ) by {
                assert(matches@.contains(self.filtered@[k]));
            }
        }
        self.preview_scroll = 0;
    }

    /// The selected tool, if any.
    pub fn selected_package(&self) -> (r: Option<&Package>)
        requires
            self.wf(),
        ensures
            match self.selected_tool() {
                Some(i) => r.is_some() && *r.unwrap() == self.packages@[i],
                None => r.is_none(),
            },
    {
        match self.selected {
            Some(i) => {
                if i < self.filtered.len() {
                    Some(&self.packages[self.filtered[i]])
                } else {
                    None
                }
            },
            None => None,
        }
    }

    fn is_cached(&self, name: &String) -> (r: bool)
        ensures
            r == self.is_cached_spec(name@),
    {
        let mut k: usize = 0;
        while k < self.help_cache.len()
            invariant
                k <= self.help_cache@.len(),
                forall|j: int| 0 <= j < k ==> self.help_cache@[j].0@ != name@,
            decreases self.help_cache@.len() - k,
        {
            if self.help_cache[k].0 == *name {
                assert(cache_keys(self.help_cache@)[k as int] == name@);
                return true;
            }
            k = k + 1;
        }
        assert forall|j: int| 0 <= j < self.help_cache@.len() implies cache_keys(self.help_cache@)[j]
            != name@ by {
            assert(self.help_cache@[j].0@ != name@);
        }
        false
    }

    fn is_pending(&self, name: &String) -> (r: bool)
        ensures
            r == self.is_pending_spec(name@),
    {
        let mut k: usize = 0;
        while k < self.pending.len()
            invariant
                k <= self.pending@.len(),
                forall|j: int| 0 <= j < k ==> self.pending@[j]@ != name@,
            decreases self.pending@.len() - k,
        {
            if self.pending[k] == *name {
                assert(names_of(self.pending@)[k as int] == name@);
                return true;
            }
            k = k + 1;
        }
        assert forall|j: int| 0 <= j < self.pending@.len() implies names_of(self.pending@)[j]
            != name@ by {
            assert(self.pending@[j]@ != name@);
        }
        false
    }

    /// Cached preview text of the selected tool; empty while it is loading or
    /// with no selection.
    pub fn get_preview(&self) -> (r: String)
        requires
            self.wf(),
        ensures
            r@ == match self.selected_tool() {
                Some(i) => cache_lookup_from(self.help_cache@, 0, self.packages@[i].name@),
                None => Seq::<char>::empty(),
            },
    {
        match self.selected_package() {
            Some(p) => {
                let mut k: usize = 0;
                while k < self.help_cache.len()
                    invariant
                        k <= self.help_cache@.len(),
                        self.selected_tool().is_some(),
                        *p == self.packages@[self.selected_tool().unwrap()],
                        cache_lookup_from(self.help_cache@, k as int, p.name@) == cache_lookup_from(
                            self.help_cache@,
                            0,
                            p.name@,
                        ),
                    decreases self.help_cache@.len() - k,
                {
                    if self.help_cache[k].0 == p.name {
                        let text = self.help_cache[k].1.clone();
                        assert(cache_lookup_from(self.help_cache@, k as int, p.name@)
                            == self.help_cache@[k as int].1@);
                        return text;
                    }
                    k = k + 1;
                }
                String::new()
            },
            None => String::new(),
        }
    }

    /// Asks for the selected tool's preview: served from the cache when
    /// present, otherwise awaited, with one fetch per tool at a time.
    pub fn request_preview(&mut self)
        requires
            old(self).wf(),
        ensures
            final(self).wf(),
            App::request_post(*old(self), *final(self)),
    {
        let idx = match self.selected {
            Some(i) => {
                if i < self.filtered.len() {
                    self.filtered[i]
                } else {
                    return;
                }
            },
            None => {
                return;
            },
        };
        let name = self.packages[idx].name.clone();
        if self.is_cached(&name) {
            self.preview_loading = false;
            self.loading_name = None;
            return;
        }
        self.preview_loading = true;
        if !self.is_pending(&name) {
            let ghost old_pending = self.pending@;
            let ghost old_requests = self.requests@;
            let source = self.packages[idx].source.clone();
            self.pending.push(name.clone());
            self.requests.push(FetchRequest { name: name.clone(), source });
            assert(names_of(self.pending@) =~= names_of(old_pending).push(name@));
            assert(request_views(self.requests@) =~= request_views(old_requests).push(
                (name@, source@),
            ));
            assert(names_of(self.pending@).no_duplicates()) by {
                assert(!names_of(old_pending).contains(name@));
            }
        }
        self.loading_name = Some(name);
    }

    /// Records a fetched preview for `name`.
    /// Returns true: the display has new content to show.
    pub fn receive_preview(&mut self, name: String, content: String) -> (r: bool)
        requires
            old(self).wf(),
        ensures
            final(self).wf(),
            App::receive_post(*old(self), *final(self), name@, content@),
            r,
    {
        let ghost old_names = names_of(self.pending@);
        let mut kept: Vec<String> = Vec::new();
        let mut k: usize = 0;
        while k < self.pending.len()
            invariant
                k <= self.pending@.len(),
                old_names == names_of(self.pending@),
                old_names.no_duplicates(),
                names_of(kept@) == without(old_names.subrange(0, k as int), name@),
                forall|x: Seq<char>| names_of(kept@).contains(x) ==> old_names.subrange(0, k as int).contains(x),
                names_of(kept@).no_duplicates(),
            decreases self.pending@.len() - k,
        {
            let ghost before = kept@;
            let ghost pre = old_names.subrange(0, k as int);
            assert(old_names.subrange(0, k + 1).drop_last() =~= pre);
            assert(old_names.subrange(0, k + 1).last() == self.pending@[k as int]@);
            if self.pending[k] != name {
                kept.push(self.pending[k].clone());
                assert(names_of(kept@) =~= names_of(before).push(self.pending@[k as int]@));
                assert(!pre.contains(self.pending@[k as int]@)) by {
                    if pre.contains(self.pending@[k as int]@) {
                        let j = choose|j: int| 0 <= j < pre.len() && pre[j] == self.pending@[k as int]@;
                        assert(old_names[j] == old_names[k as int]);
                    }
                }
                assert(!names_of(before).contains(self.pending@[k as int]@));
            }
            assert forall|x: Seq<char>| names_of(kept@).contains(x) implies old_names.subrange(
                0,
                k + 1,
            ).contains(x) by {
                if names_of(before).contains(x) {
                    let j = choose|j: int| 0 <= j < pre.len() && pre[j] == x;
                    assert(old_names.subrange(0, k + 1)[j] == x);
                } else {
                    assert(old_names.subrange(0, k + 1)[k as int] == x);
                }
            }
            k = k + 1;
        }
        assert(old_names.subrange(0, old_names.len() as int) =~= old_names);
        self.pending = kept;
        if !self.is_cached(&name) {
            let ghost old_cache = self.help_cache@;
            let key = name.clone();
            self.help_cache.push((key, content));
            assert(cache_keys(self.help_cache@) =~= cache_keys(old_cache).push(name@));
            assert(self.help_cache@.drop_last() =~= old_cache);
        }
        let awaited = match &self.loading_name {
            Some(n) => *n == name,
            None => false,
        };
        if awaited {
            self.preview_loading = false;
            self.loading_name = None;
        }
        true
    }

    /// Effect of receiving the fetched previews `rs` one after another.
    pub open spec fn receive_all(o: App, n: App, rs: Seq<(Seq<char>, Seq<char>)>) -> bool
        decreases rs.len(),
    {
        if rs.len() == 0 {
            n == o
        } else {
            exists|m: App|
                App::receive_all(o, m, rs.drop_last()) && #[trigger] App::receive_post(
                    m,
                    n,
                    rs.last().0,
                    rs.last().1,
                )
        }
    }

    /// Records every fetched preview in `results`, in order. Returns whether
    /// there was any, i.e. whether the display must be redrawn.
    pub fn poll_preview(&mut self, results: Vec<(String, String)>) -> (r: bool)
        requires
            old(self).wf(),
        ensures
            final(self).wf(),
            r == (results@.len() > 0),
            App::receive_all(
                *old(self),
                *final(self),
                result_views(results@),
            ),
    {
        let ghost all = result_views(results@);
        let mut rest = results;
        let n = rest.len();
        let mut k: usize = 0;
        assert(all.subrange(0, 0) =~= Seq::<(Seq<char>, Seq<char>)>::empty());
        while rest.len() > 0
            invariant
                self.wf(),
                all.len() == n,
                k + rest@.len() == n,
                result_views(rest@) == all.subrange(k as int, n as int),
                App::receive_all(*old(self), *self, all.subrange(0, k as int)),
            decreases rest@.len(),
        {
            let ghost before = *self;
            let ghost item = all[k as int];
            assert(result_views(rest@)[0] == item);
            let ghost old_rest = rest@;
            let (name, content) = rest.remove(0);
            assert(rest@ =~= old_rest.drop_first());
            assert forall|i: int| 0 <= i < rest@.len() implies #[trigger] result_views(rest@)[i]
                == all.subrange(k + 1, n as int)[i] by {
                assert(result_views(old_rest)[i + 1] == all[k + 1 + i]);
            }
            assert(result_views(rest@) =~= all.subrange(k + 1, n as int));
            self.receive_preview(name, content);
            assert(all.subrange(0, k + 1).drop_last() =~= all.subrange(0, k as int));
            assert(all.subrange(0, k + 1).last() == item);
            assert(App::receive_post(before, *self, item.0, item.1));
            k = k + 1;
        }
        assert(all.subrange(0, n as int) =~= all);
        n > 0
    }

    /// Hands the requested fetches to the caller, which starts them.
    pub fn take_requests(&mut self) -> (r: Vec<FetchRequest>)
        ensures
            r == old(self).requests,
            final(self).requests@.len() == 0,
            *final(self) == (App { requests: final(self).requests, ..*old(self) }),
    {
        let mut out: Vec<FetchRequest> = Vec::new();
        std::mem::swap(&mut out, &mut self.requests);
        out
    }

    fn select_row(&mut self, target: usize)
        requires
            old(self).wf(),
            target < old(self).filtered@.len(),
        ensures
            final(self).wf(),
            App::select_post(*old(self), *final(self), target),
    {
        self.selected = Some(target);
        self.on_selection_change();
    }

    fn on_selection_change(&mut self)
        requires
            old(self).wf(),
        ensures
            final(self).wf(),
            ({
                let m = App { preview_scroll: 0, ..*old(self) };
                if old(self).show_preview {
                    App::request_post(m, *final(self))
                } else {
                    *final(self) == m
                }
            }),
    {
        self.preview_scroll = 0;
        if self.show_preview {
            self.request_preview();
        }
    }

    /// Moves the selection by `delta` rows, clamped to the list.
    pub fn jump_by(&mut self, delta: i32)
        requires
            old(self).wf(),
        ensures
            final(self).wf(),
            App::select_post(*old(self), *final(self), clamp_row(old(self).selected, delta as int, old(self).filtered@.len())),
    {
        if self.filtered.len() == 0 {
            return;
        }
        let len = self.filtered.len();
        let cur = match self.selected {
            Some(i) => i,
            None => 0,
        };
        let target = if delta >= 0 {
            let d = delta as usize;
            if cur >= len - 1 || d >= len - 1 - cur {
                len - 1
            } else {
                cur + d
            }
        } else {
            let d = (-(delta as i64)) as usize;
            if d >= cur {
                0
            } else {
                cur - d
            }
        };
        self.select_row(target);
    }

    /// Selects the next row, wrapping to the first.
    pub fn next(&mut self)
        requires
            old(self).wf(),
        ensures
            final(self).wf(),
            App::select_post(*old(self), *final(self), match old(self).selected {
                Some(i) => ((i + 1) % old(self).filtered@.len() as int) as usize,
                None => 0,
            }),
    {
        if self.filtered.len() == 0 {
            return;
        }
        let i = match self.selected {
            Some(i) => (i + 1) % self.filtered.len(),
            None => 0,
        };
        self.select_row(i);
    }

    /// Selects the previous row, wrapping to the last.
    pub fn prev(&mut self)
        requires
            old(self).wf(),
        ensures
            final(self).wf(),
            App::select_post(*old(self), *final(self), match old(self).selected {
                Some(i) => if i == 0 {
                    (old(self).filtered@.len() - 1) as usize
                } else {
                    (i - 1) as usize
                },
                None => 0,
            }),
    {
        if self.filtered.len() == 0 {
            return;
        }
        let i = match self.selected {
            Some(i) => if i == 0 {
                self.filtered.len() - 1
            } else {
                i - 1
            },
            None => 0,
        };
        self.select_row(i);
    }

    /// Selects the first row.
    pub fn first(&mut self)
        requires
            old(self).wf(),
        ensures
            final(self).wf(),
            App::select_post(*old(self), *final(self), 0),
    {
        if self.filtered.len() > 0 {
            self.select_row(0);
        }
    }

    /// Selects the last row.
    pub fn last(&mut self)
        requires
            old(self).wf(),
        ensures
            final(self).wf(),
            App::select_post(*old(self), *final(self), (old(self).filtered@.len() - 1) as usize),
    {
        if self.filtered.len() > 0 {
            self.select_row(self.filtered.len() - 1);
        }
    }

    /// Opens or closes the preview pane.
    pub fn toggle_preview(&mut self)
        requires
            old(self).wf(),
        ensures
            final(self).wf(),
            App::toggle_post(*old(self), *final(self)),
    {
        if self.show_preview {
            self.show_preview = false;
        } else {
            self.show_preview = true;
            self.split_pct = 65;
            self.preview_scroll = 0;
            self.request_preview();
        }
    }

    fn scroll_preview_down(&mut self)
        requires
            old(self).wf(),
        ensures
            final(self).wf(),
            old(self).show_preview ==> *final(self) == (App {
                preview_scroll: add_sat(old(self).preview_scroll, 8),
                ..*old(self)
            }),
            !old(self).show_preview ==> *final(self) == *old(self),
    {
        if self.show_preview {
            self.preview_scroll = saturating_add_u16(self.preview_scroll, 8);
        }
    }

    fn scroll_preview_up(&mut self)
        requires
            old(self).wf(),
        ensures
            final(self).wf(),
            old(self).show_preview ==> *final(self) == (App {
                preview_scroll: sub_sat(old(self).preview_scroll, 8),
                ..*old(self)
            }),
            !old(self).show_preview ==> *final(self) == *old(self),
    {
        if self.show_preview {
            self.preview_scroll = saturating_sub_u16(self.preview_scroll, 8);
        }
    }

    /// Mouse wheel scrolls the preview by 3 lines while it is shown.
    pub fn handle_mouse(&mut self, kind: MouseKind)
        requires
            old(self).wf(),
        ensures
            final(self).wf(),
            *final(self) == (if !old(self).show_preview {
                *old(self)
            } else {
                match kind {
                    MouseKind::ScrollDown => App {
                        preview_scroll: add_sat(old(self).preview_scroll, 3),
                        ..*old(self)
                    },
                    MouseKind::ScrollUp => App {
                        preview_scroll: sub_sat(old(self).preview_scroll, 3),
                        ..*old(self)
                    },
                    MouseKind::Other => *old(self),
                }
            }),
    {
        if !self.show_preview {
            return;
        }
        match kind {
            MouseKind::ScrollDown => {
                self.preview_scroll = saturating_add_u16(self.preview_scroll, 3);
            },
            MouseKind::ScrollUp => {
                self.preview_scroll = saturating_sub_u16(self.preview_scroll, 3);
            },
            MouseKind::Other => {},
        }
    }

    /// Requests a background fetch for each of the first `count` rows whose
    /// tool is neither cached nor already being fetched.
    pub fn prefetch_previews(&mut self, count: usize)
        requires
            old(self).wf(),
        ensures
            final(self).wf(),
            ({
                let rows = old(self).filtered@.subrange(
                    0,
                    if count < old(self).filtered@.len() {
                        count as int
                    } else {
                        old(self).filtered@.len() as int
                    },
                );
                let st = prefetch_state(
                    old(self).packages@,
                    cache_keys(old(self).help_cache@),
                    names_of(old(self).pending@),
                    request_views(old(self).requests@),
                    rows,
                );
                &&& names_of(final(self).pending@) == st.0
                &&& request_views(final(self).requests@) == st.1
            }),
            *final(self) == (App {
                pending: final(self).pending,
                requests: final(self).requests,
                ..*old(self)
            }),
    {
        let n = if count < self.filtered.len() {
            count
        } else {
            self.filtered.len()
        };
        let ghost o = *self;
        for k in 0..n
            invariant
                n <= o.filtered@.len(),
                self.wf(),
                *self == (App { pending: self.pending, requests: self.requests, ..o }),
                ({
                    let st = prefetch_state(
                        o.packages@,
                        cache_keys(o.help_cache@),
                        names_of(o.pending@),
                        request_views(o.requests@),
                        o.filtered@.subrange(0, k as int),
                    );
                    &&& names_of(self.pending@) == st.0
                    &&& request_views(self.requests@) == st.1
                }),
        {
            let ghost rows = o.filtered@.subrange(0, k + 1);
            assert(rows.drop_last() =~= o.filtered@.subrange(0, k as int));
            let idx = self.filtered[k];
            let cached = self.is_cached(&self.packages[idx].name);
            let pend = self.is_pending(&self.packages[idx].name);
            if !cached && !pend {
                let ghost old_pending = self.pending@;
                let ghost old_requests = self.requests@;
                let name = self.packages[idx].name.clone();
                let source = self.packages[idx].source.clone();
                self.pending.push(name.clone());
                self.requests.push(FetchRequest { name, source });
                assert(names_of(self.pending@) =~= names_of(old_pending).push(name@));
                assert(request_views(self.requests@) =~= request_views(old_requests).push(
                    (name@, source@),
                ));
                assert(names_of(self.pending@).no_duplicates()) by {
                    assert(!names_of(old_pending).contains(name@));
                }
            }
        }
    }

    /// Interprets one key event; see `key_post`.
    pub fn handle_key(&mut self, key: KeyEvent) -> (r: Action)
        requires
            old(self).wf(),
        ensures
            final(self).wf(),
            App::key_post(*old(self), *final(self), key, r),
    {
        if !key.press {
            return Action::Continue;
        }
        let c = key.code;
        let fa = self.filter_active;
        if self.pending_sort {
            self.pending_sort = false;
            if !fa {
                let choice = if c == KeyCode::Char('d') {
                    Some(SortBy::Date)
                } else if c == KeyCode::Char('n') {
                    Some(SortBy::Name)
                } else if c == KeyCode::Char('s') {
                    Some(SortBy::Source)
                } else if c == KeyCode::Char('u') {
                    Some(SortBy::Uses)
                } else {
                    None
                };
                match choice {
                    Some(col) => {
                        if col == self.sort_by {
                            self.sort_asc = !self.sort_asc;
                        } else {
                            self.sort_by = col;
                            self.sort_asc = col.default_asc();
                        }
                        self.apply_sort();
                    },
                    None => {},
                }
            }
            return Action::Continue;
        }
        if c == KeyCode::Char('c') && key.ctrl {
            return Action::Quit;
        } else if c == KeyCode::Char('h') && key.alt {
            let w = saturating_sub_u16(self.split_pct, 5);
            self.split_pct = if w < 15 {
                15
            } else {
                w
            };
        } else if c == KeyCode::Char('l') && key.alt {
            self.split_pct = if self.split_pct >= 80 {
                85
            } else {
                self.split_pct + 5
            };
        } else if c == KeyCode::Esc {
            if fa {
                self.filter_active = false;
            } else if !self.filter.as_str().is_empty() {
                self.filter = String::new();
                self.apply_filter();
            } else {
                return Action::Quit;
            }
        } else if c == KeyCode::Enter {
            if fa {
                self.filter_active = false;
            } else {
                self.toggle_preview();
            }
        } else if c == KeyCode::Char('j') || c == KeyCode::Down {
            self.next();
        } else if c == KeyCode::Char('k') || c == KeyCode::Up {
            self.prev();
        } else if c == KeyCode::Char('J') && !fa {
            self.jump_by(5);
        } else if c == KeyCode::Char('K') && !fa {
            self.jump_by(-5);
        } else if (c == KeyCode::Char('g') || c == KeyCode::Home) && !fa {
            self.first();
        } else if (c == KeyCode::Char('G') || c == KeyCode::End) && !fa {
            self.last();
        } else if (c == KeyCode::Char('d') && key.ctrl) || c == KeyCode::PageDown {
            if self.show_preview {
                self.scroll_preview_down();
            } else {
                self.jump_by(10);
            }
        } else if (c == KeyCode::Char('u') && key.ctrl) || c == KeyCode::PageUp {
            if self.show_preview {
                self.scroll_preview_up();
            } else {
                self.jump_by(-10);
            }
        } else if c == KeyCode::Char('/') && !fa {
            if !self.filter.as_str().is_empty() {
                self.filter = String::new();
                self.apply_filter();
            }
            self.filter_active = true;
        } else if c == KeyCode::Backspace && fa {
            pop_char(&mut self.filter);
            self.apply_filter();
        } else if c == KeyCode::Char(',') && !fa {
            self.pending_sort = true;
        } else if c == KeyCode::Char('i') && !fa {
            self.toggle_preview();
        } else if c == KeyCode::Char('q') && !fa {
            return Action::Quit;
        } else if c == KeyCode::Char('r') && !fa {
            return Action::Refresh;
        } else if fa {
            match c {
                KeyCode::Char(ch) => {
                    push_char(&mut self.filter, ch);
                    self.apply_filter();
                },
                _ => {},
            }
        }
        Action::Continue
    }

    /// Replaces the tool list with a freshly collected one. The filter (when
    /// set or being entered), the column and direction, the preview pane and
    /// its width, and the preview cache with its fetches under way carry over;
    /// the rows are recomputed and the first one selected.
    pub fn refresh(&mut self, packages: Vec<Package>, counts: Vec<(String, usize)>, auditd_warning: bool)
        requires
            old(self).wf(),
        ensures
            final(self).wf(),
            final(self).packages == packages,
            final(self).counts == counts,
            final(self).auditd_warning == auditd_warning,
            final(self).show_preview == old(self).show_preview,
            final(self).split_pct == old(self).split_pct,
            final(self).sort_by == old(self).sort_by,
            final(self).sort_asc == old(self).sort_asc,
            final(self).filter_active == old(self).filter_active,
            final(self).help_cache == old(self).help_cache,
            final(self).pending == old(self).pending,
            final(self).requests == old(self).requests,
            old(self).filter@.len() > 0 || old(self).filter_active ==> {
                &&& final(self).filter == old(self).filter
                &&& final(self).filtered@ == final(self).filtered_spec()
            },
            !(old(self).filter@.len() > 0 || old(self).filter_active) ==> {
                &&& final(self).filter@.len() == 0
                &&& final(self).filtered@ == sort_seq(
                    packages@,
                    counts@,
                    old(self).sort_by,
                    old(self).sort_asc,
                    index_range(packages@.len()),
                )
            },
            final(self).selected == (if final(self).filtered@.len() > 0 {
                Some(0usize)
            } else {
                None
            }),
            final(self).preview_scroll == 0,
            !final(self).preview_loading,
            final(self).loading_name.is_none(),
            !final(self).pending_sort,
            !final(self).show_scanning,
    {
        let mut fresh = App::new(packages, counts, auditd_warning);
        std::mem::swap(&mut fresh.help_cache, &mut self.help_cache);
        std::mem::swap(&mut fresh.pending, &mut self.pending);
        std::mem::swap(&mut fresh.requests, &mut self.requests);
        fresh.show_preview = self.show_preview;
        fresh.split_pct = self.split_pct;
        fresh.sort_by = self.sort_by;
        fresh.sort_asc = self.sort_asc;
        fresh.apply_sort();
        proof {
            lemma_sort_permutes(
                fresh.packages@,
                fresh.counts@,
                fresh.sort_by,
                fresh.sort_asc,
                index_range(fresh.packages@.len()),
            );
        }
        if !self.filter.as_str().is_empty() || self.filter_active {
            std::mem::swap(&mut fresh.filter, &mut self.filter);
            fresh.filter_active = self.filter_active;
            fresh.apply_filter();
        }
        *self = fresh;
    }

}


/// Once a filter leaves no rows, nothing is selected, and moving the
/// selection changes nothing.
pub proof fn law_empty_rows_no_selection(o: App, n: App, m: App, target: usize)
    requires
        App::filter_post(o, n),
        n.filtered@.len() == 0,
        App::select_post(n, m, target),
    ensures
        n.selected.is_none(),
        m == n,
{
}

/// Asking twice for the same preview before any result arrives requests one
/// fetch at most: the second request adds no fetch.
pub proof fn law_request_once(a0: App, a1: App, a2: App)
    requires
        a0.wf(),
        App::request_post(a0, a1),
        App::request_post(a1, a2),
    ensures
        a2.requests == a1.requests,
        a2.pending == a1.pending,
        a2.selected_tool() == a0.selected_tool(),
{
    match a0.selected_tool() {
        None => {},
        Some(i) => {
            let nm = a0.packages@[i].name@;
            if !a0.is_cached_spec(nm) && !a0.is_pending_spec(nm) {
                assert(names_of(a1.pending@)[names_of(a0.pending@).len() as int] == nm);
                assert(a1.is_pending_spec(nm));
            }
        },
    }
}

/// A second result for a tool does not write the cache again: the first one
/// that arrives stays.
pub proof fn law_cache_written_once(
    a0: App,
    a1: App,
    a2: App,
    name: Seq<char>,
    c1: Seq<char>,
    c2: Seq<char>,
)
    requires
        App::receive_post(a0, a1, name, c1),
        App::receive_post(a1, a2, name, c2),
    ensures
        a1.is_cached_spec(name),
        a2.help_cache == a1.help_cache,
{
    if !a0.is_cached_spec(name) {
        assert(cache_keys(a1.help_cache@)[cache_keys(a0.help_cache@).len() as int] == name);
    }
}

} // verus!
