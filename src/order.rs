use vstd::prelude::*;
use crate::config::Config;
use crate::entry::{Entry, Stamp};
use crate::text::chars_of;

verus! {

/// The orderings that the sorter knows.
pub enum SortKey {
    /// By name, code point by code point, ascending.
    Name,
    /// By creation time, newest first.
    Newest,
    /// Directories before everything else.
    DirsFirst,
}

/// Comparing names from position `i` on: `a` may precede `b`.
pub open spec fn name_le_from(a: Seq<char>, b: Seq<char>, i: int) -> bool
    decreases a.len() - i,
{
    if i < 0 || i >= a.len() {
        true
    } else if i >= b.len() {
        false
    } else if a[i] != b[i] {
        (a[i] as int) < (b[i] as int)
    } else {
        name_le_from(a, b, i + 1)
    }
}

/// Lexicographic order on names by code point (the order of their UTF-8 bytes).
pub open spec fn name_le(a: Seq<char>, b: Seq<char>) -> bool {
    name_le_from(a, b, 0)
}

/// `a` is no older than `b`.
pub open spec fn newer_eq(a: Stamp, b: Stamp) -> bool {
    a.secs > b.secs || (a.secs == b.secs && a.nanos >= b.nanos)
}

/// Whether `a` may stand before `b` under the key.
pub open spec fn key_le(k: SortKey, a: Entry, b: Entry) -> bool {
    match k {
        SortKey::Name => name_le(a.name@, b.name@),
        SortKey::Newest => newer_eq(a.meta.created, b.meta.created),
        SortKey::DirsFirst => a.is_dir || !b.is_dir,
    }
}

/// Inserts `x` after the last element that may precede it, counted from the end.
pub open spec fn insert_by(k: SortKey, s: Seq<Entry>, x: Entry) -> Seq<Entry>
    decreases s.len(),
{
    if s.len() == 0 {
        seq![x]
    } else if key_le(k, s.last(), x) {
        s.push(x)
    } else {
        insert_by(k, s.drop_last(), x).push(s.last())
    }
}

/// The stable sort of `s` under the key.
pub open spec fn sort_by(k: SortKey, s: Seq<Entry>) -> Seq<Entry>
    decreases s.len(),
{
    if s.len() == 0 {
        s
    } else {
        insert_by(k, sort_by(k, s.drop_last()), s.last())
    }
}

/// The primary key: creation time when it is asked for and not overridden by
/// detailed mode, else the name.
pub open spec fn primary_key(cfg: Config) -> SortKey {
    if cfg.creation_time && (!cfg.detailed || cfg.time_sort) {
        SortKey::Newest
    } else {
        SortKey::Name
    }
}

/// The final order: unchanged with no-sort; else the primary order, reversed
/// when asked, and then directories first when asked.
pub open spec fn ordered(cfg: Config, s: Seq<Entry>) -> Seq<Entry> {
    if cfg.no_sort {
        s
    } else {
        let p = sort_by(primary_key(cfg), s);
        let q = if cfg.reverse { p.reverse() } else { p };
        if cfg.dirs_first { sort_by(SortKey::DirsFirst, q) } else { q }
    }
}

/// All pairs in order under the key.
pub open spec fn sorted(k: SortKey, s: Seq<Entry>) -> bool {
    forall|i: int, j: int| 0 <= i < j < s.len() ==> key_le(k, #[trigger] s[i], #[trigger] s[j])
}

/// Compares two names code point by code point.
pub fn name_le_exec(a: &String, b: &String) -> (r: bool)
    ensures
        r == name_le(a@, b@),
{
    let x = chars_of(a.as_str());
    let y = chars_of(b.as_str());
    let mut i: usize = 0;
    while i < x.len() && i < y.len() && x[i] == y[i]
        invariant
            i <= x@.len(),
            x@ == a@,
            y@ == b@,
            name_le_from(a@, b@, 0) == name_le_from(a@, b@, i as int),
        decreases x@.len() - i,
    {
        i = i + 1;
    }
    if i >= x.len() {
        true
    } else if i >= y.len() {
        false
    } else {
        x[i] < y[i]
    }
}

/// Decides `key_le`.
pub fn key_le_exec(k: &SortKey, a: &Entry, b: &Entry) -> (r: bool)
    ensures
        r == key_le(*k, *a, *b),
{
    match k {
        SortKey::Name => name_le_exec(&a.name, &b.name),
        SortKey::Newest => a.meta.created.secs > b.meta.created.secs || (a.meta.created.secs
            == b.meta.created.secs && a.meta.created.nanos >= b.meta.created.nanos),
        SortKey::DirsFirst => a.is_dir || !b.is_dir,
    }
}

/// Inserting after a tail that may not precede `x` and behind an element that may.
proof fn lemma_insert_at(k: SortKey, a: Seq<Entry>, b: Seq<Entry>, x: Entry)
    requires
        a.len() == 0 || key_le(k, a.last(), x),
        forall|i: int| 0 <= i < b.len() ==> !key_le(k, #[trigger] b[i], x),
    ensures
        insert_by(k, a + b, x) == a.push(x) + b,
    decreases b.len(),
{
    if b.len() == 0 {
        assert(a + b == a);
        assert(a.push(x) + b == a.push(x));
        if a.len() > 0 {
            assert(insert_by(k, a, x) == a.push(x));
        }
    } else {
        let b2 = b.drop_last();
        assert((a + b).drop_last() == a + b2);
        assert((a + b).last() == b.last());
        assert(!key_le(k, b[b.len() - 1], x));
        lemma_insert_at(k, a, b2, x);
        assert(a.push(x) + b == (a.push(x) + b2).push(b.last()));
    }
}

/// Sorts the entries in place under the key, stably.
pub fn sort_entries_by(k: &SortKey, v: &mut Vec<Entry>)
    ensures
        final(v)@ == sort_by(*k, old(v)@),
{
    let ghost orig = v@;
    let mut r: Vec<Entry> = Vec::new();
    let mut i: usize = 0;
    let n = v.len();
    while v.len() > 0
        invariant
            i <= n,
            n == orig.len(),
            v@ == orig.subrange(i as int, n as int),
            r@ == sort_by(*k, orig.subrange(0, i as int)),
        decreases v@.len(),
    {
        let x = v.remove(0);
        let mut j: usize = r.len();
        while j > 0 && !key_le_exec(k, &r[j - 1], &x)
            invariant
                j <= r@.len(),
                forall|t: int| j <= t < r@.len() ==> !key_le(*k, #[trigger] r@[t], x),
            decreases j,
        {
            j = j - 1;
        }
        proof {
            let a = r@.subrange(0, j as int);
            let b = r@.subrange(j as int, r@.len() as int);
            assert(a + b == r@);
            if j > 0 {
                assert(a.last() == r@[j - 1]);
            }
            lemma_insert_at(*k, a, b, x);
            assert(orig.subrange(0, i + 1 as int).drop_last() == orig.subrange(0, i as int));
            assert(orig.subrange(0, i + 1 as int).last() == x);
            assert(r@.insert(j as int, x) == a.push(x) + b);
        }
        r.insert(j, x);
        i = i + 1;
        assert(v@ == orig.subrange(i as int, n as int));
    }
    assert(orig.subrange(0, n as int) == orig);
    *v = r;
}

/// Reverses the entries in place.
pub fn reverse_entries(v: &mut Vec<Entry>)
    ensures
        final(v)@ == old(v)@.reverse(),
{
    let ghost orig = v@;
    let mut r: Vec<Entry> = Vec::new();
    while v.len() > 0
        invariant
            r@ + v@.reverse() == orig.reverse(),
        decreases v@.len(),
    {
        let ghost before = v@;
        let x = v.pop().unwrap();
        assert(before == v@.push(x));
        assert(before.reverse() == seq![x] + v@.reverse()) by {
            assert(before.reverse() =~= seq![x] + v@.reverse());
        }
        assert(r@.push(x) + v@.reverse() == r@ + before.reverse());
        r.push(x);
    }
    assert(v@.reverse() =~= Seq::<Entry>::empty());
    assert(r@ + v@.reverse() == r@);
    *v = r;
}

/// Puts the entries in their listing order.
pub fn order_entries(cfg: &Config, v: &mut Vec<Entry>)
    ensures
        final(v)@ == ordered(*cfg, old(v)@),
{
    if cfg.no_sort {
        return;
    }
    let k = if cfg.creation_time && (!cfg.detailed || cfg.time_sort) {
        SortKey::Newest
    } else {
        SortKey::Name
    };
    sort_entries_by(&k, v);
    if cfg.reverse {
        reverse_entries(v);
    }
    if cfg.dirs_first {
        sort_entries_by(&SortKey::DirsFirst, v);
    }
}

} // verus!

verus! {

/// Insertion adds exactly `x` to the elements.
pub proof fn lemma_insert_elements(k: SortKey, s: Seq<Entry>, x: Entry)
    ensures
        insert_by(k, s, x).len() == s.len() + 1,
        insert_by(k, s, x).to_multiset() == s.to_multiset().insert(x),
    decreases s.len(),
{
    if s.len() == 0 {
        assert(insert_by(k, s, x) == seq![x]);
        assert(seq![x] == s.push(x));
        s.to_multiset_ensures();
    } else if key_le(k, s.last(), x) {
        s.to_multiset_ensures();
    } else {
        let s2 = s.drop_last();
        lemma_insert_elements(k, s2, x);
        assert(s == s2.push(s.last()));
        s2.to_multiset_ensures();
        insert_by(k, s2, x).to_multiset_ensures();
        assert(insert_by(k, s, x).to_multiset() == insert_by(k, s2, x).to_multiset().insert(s.last()));
        assert(s.to_multiset() == s2.to_multiset().insert(s.last()));
        assert(insert_by(k, s, x).to_multiset() =~= s.to_multiset().insert(x));
    }
}

/// Sorting rearranges: the same elements, as often each.
pub proof fn lemma_sort_permutes(k: SortKey, s: Seq<Entry>)
    ensures
        sort_by(k, s).len() == s.len(),
        sort_by(k, s).to_multiset() == s.to_multiset(),
    decreases s.len(),
{
    if s.len() > 0 {
        let s2 = s.drop_last();
        lemma_sort_permutes(k, s2);
        lemma_insert_elements(k, sort_by(k, s2), s.last());
        assert(s == s2.push(s.last()));
        s2.to_multiset_ensures();
    }
}

/// The listing order rearranges: the same elements, as often each.
pub proof fn lemma_ordered_permutes(cfg: Config, s: Seq<Entry>)
    ensures
        ordered(cfg, s).len() == s.len(),
        ordered(cfg, s).to_multiset() == s.to_multiset(),
{
    if !cfg.no_sort {
        let p = sort_by(primary_key(cfg), s);
        lemma_sort_permutes(primary_key(cfg), s);
        let q = if cfg.reverse { p.reverse() } else { p };
        if cfg.reverse {
            p.lemma_reverse_to_multiset();
        }
        if cfg.dirs_first {
            lemma_sort_permutes(SortKey::DirsFirst, q);
        }
    }
}

} // verus!

verus! {

/// The directories of `s`, in order.
pub open spec fn dirs_of(s: Seq<Entry>) -> Seq<Entry>
    decreases s.len(),
{
    if s.len() == 0 {
        s
    } else if s.last().is_dir {
        dirs_of(s.drop_last()).push(s.last())
    } else {
        dirs_of(s.drop_last())
    }
}

/// The entries of `s` that are not directories, in order.
pub open spec fn files_of(s: Seq<Entry>) -> Seq<Entry>
    decreases s.len(),
{
    if s.len() == 0 {
        s
    } else if !s.last().is_dir {
        files_of(s.drop_last()).push(s.last())
    } else {
        files_of(s.drop_last())
    }
}

} // verus!

verus! {

proof fn lemma_name_total_from(a: Seq<char>, b: Seq<char>, i: int)
    requires
        0 <= i,
    ensures
        name_le_from(a, b, i) || name_le_from(b, a, i),
    decreases a.len() - i,
{
    if i < a.len() && i < b.len() {
        if a[i] == b[i] {
            lemma_name_total_from(a, b, i + 1);
        } else {
            assert((a[i] as int) != (b[i] as int));
        }
    }
}

proof fn lemma_name_trans_from(a: Seq<char>, b: Seq<char>, c: Seq<char>, i: int)
    requires
        0 <= i,
        name_le_from(a, b, i),
        name_le_from(b, c, i),
    ensures
        name_le_from(a, c, i),
    decreases a.len() - i,
{
    if i < a.len() && a[i] == b[i] && b[i] == c[i] {
        lemma_name_trans_from(a, b, c, i + 1);
    }
}

proof fn lemma_name_antisym_from(a: Seq<char>, b: Seq<char>, i: int)
    requires
        0 <= i <= a.len(),
        i <= b.len(),
        name_le_from(a, b, i),
        name_le_from(b, a, i),
    ensures
        a.len() == b.len(),
        forall|j: int| i <= j < a.len() ==> a[j] == b[j],
    decreases a.len() - i,
{
    if i < a.len() {
        lemma_name_antisym_from(a, b, i + 1);
    }
}

/// The name order is a total order: any two names compare, it is transitive,
/// and two names that precede each other are equal.
pub proof fn lemma_name_order(a: Seq<char>, b: Seq<char>, c: Seq<char>)
    ensures
        name_le(a, b) || name_le(b, a),
        name_le(a, b) && name_le(b, c) ==> name_le(a, c),
        name_le(a, b) && name_le(b, a) ==> a == b,
{
    lemma_name_total_from(a, b, 0);
    if name_le(a, b) && name_le(b, c) {
        lemma_name_trans_from(a, b, c, 0);
    }
    if name_le(a, b) && name_le(b, a) {
        lemma_name_antisym_from(a, b, 0);
        assert(a =~= b);
    }
}

proof fn lemma_key_preorder(k: SortKey, a: Entry, b: Entry, c: Entry)
    ensures
        key_le(k, a, b) || key_le(k, b, a),
        key_le(k, a, b) && key_le(k, b, c) ==> key_le(k, a, c),
{
    lemma_name_order(a.name@, b.name@, c.name@);
}

proof fn lemma_insert_sorted(k: SortKey, s: Seq<Entry>, x: Entry)
    requires
        sorted(k, s),
    ensures
        sorted(k, insert_by(k, s, x)),
    decreases s.len(),
{
    if s.len() == 0 {
    } else if key_le(k, s.last(), x) {
        let r = s.push(x);
        assert forall|i: int, j: int| 0 <= i < j < r.len() implies key_le(k, #[trigger] r[i], #[trigger] r[j]) by {
            if j == s.len() && i < s.len() - 1 {
                lemma_key_preorder(k, s[i], s.last(), x);
            }
        }
    } else {
        let s2 = s.drop_last();
        let last = s.last();
        assert(sorted(k, s2)) by {
            assert forall|i: int, j: int| 0 <= i < j < s2.len() implies key_le(k, #[trigger] s2[i], #[trigger] s2[j]) by {
                assert(s2[i] == s[i] && s2[j] == s[j]);
            }
        }
        lemma_insert_sorted(k, s2, x);
        let r2 = insert_by(k, s2, x);
        lemma_insert_elements(k, s2, x);
        r2.to_multiset_ensures();
        s2.to_multiset_ensures();
        lemma_key_preorder(k, last, x, last);
        let r = r2.push(last);
        assert forall|i: int, j: int| 0 <= i < j < r.len() implies key_le(k, #[trigger] r[i], #[trigger] r[j]) by {
            if j == r2.len() {
                let e = r2[i];
                assert(r2.contains(e));
                assert(r2.to_multiset().count(e) > 0);
                if e != x {
                    assert(s2.to_multiset().count(e) > 0);
                    assert(s2.contains(e));
                    let t = choose|t: int| 0 <= t < s2.len() && s2[t] == e;
                    assert(s[t] == e);
                    assert(key_le(k, s[t], s[s.len() - 1]));
                }
            } else {
                assert(r[i] == r2[i] && r[j] == r2[j]);
            }
        }
    }
}

/// The stable sort puts every pair in order.
pub proof fn lemma_sort_sorted(k: SortKey, s: Seq<Entry>)
    ensures
        sorted(k, sort_by(k, s)),
    decreases s.len(),
{
    if s.len() > 0 {
        lemma_sort_sorted(k, s.drop_last());
        lemma_insert_sorted(k, sort_by(k, s.drop_last()), s.last());
    }
}

/// A list already in order is left as it is.
pub proof fn lemma_sorted_fixed(k: SortKey, s: Seq<Entry>)
    requires
        sorted(k, s),
    ensures
        sort_by(k, s) == s,
    decreases s.len(),
{
    if s.len() > 0 {
        let s2 = s.drop_last();
        assert(sorted(k, s2)) by {
            assert forall|i: int, j: int| 0 <= i < j < s2.len() implies key_le(k, #[trigger] s2[i], #[trigger] s2[j]) by {
                assert(s2[i] == s[i] && s2[j] == s[j]);
            }
        }
        lemma_sorted_fixed(k, s2);
        if s2.len() > 0 {
            assert(key_le(k, s[s.len() - 2], s[s.len() - 1]));
        }
        assert(s2.push(s.last()) == s);
    }
}

/// Sorting by name yields names in non-decreasing order, and sorting the
/// result again changes nothing.
pub proof fn lemma_name_sort_idempotent(s: Seq<Entry>)
    ensures
        forall|i: int, j: int|
            0 <= i < j < sort_by(SortKey::Name, s).len() ==> name_le(
                (#[trigger] sort_by(SortKey::Name, s)[i]).name@,
                (#[trigger] sort_by(SortKey::Name, s)[j]).name@,
            ),
        sort_by(SortKey::Name, sort_by(SortKey::Name, s)) == sort_by(SortKey::Name, s),
{
    lemma_sort_sorted(SortKey::Name, s);
    lemma_sorted_fixed(SortKey::Name, sort_by(SortKey::Name, s));
}

proof fn lemma_split_kinds(s: Seq<Entry>)
    ensures
        forall|i: int| 0 <= i < dirs_of(s).len() ==> (#[trigger] dirs_of(s)[i]).is_dir,
        forall|i: int| 0 <= i < files_of(s).len() ==> !(#[trigger] files_of(s)[i]).is_dir,
    decreases s.len(),
{
    if s.len() > 0 {
        lemma_split_kinds(s.drop_last());
        let d = dirs_of(s.drop_last());
        let f = files_of(s.drop_last());
        assert forall|i: int| 0 <= i < dirs_of(s).len() implies (#[trigger] dirs_of(s)[i]).is_dir by {
            if i < d.len() {
                assert(dirs_of(s)[i] == d[i]);
            }
        }
        assert forall|i: int| 0 <= i < files_of(s).len() implies !(#[trigger] files_of(s)[i]).is_dir by {
            if i < f.len() {
                assert(files_of(s)[i] == f[i]);
            }
        }
    }
}

/// Sorting with directories first is the stable partition: the directories
/// in their order, then the other entries in theirs.
pub proof fn lemma_dirs_first_partition(s: Seq<Entry>)
    ensures
        sort_by(SortKey::DirsFirst, s) == dirs_of(s) + files_of(s),
    decreases s.len(),
{
    if s.len() > 0 {
        let s2 = s.drop_last();
        let x = s.last();
        lemma_dirs_first_partition(s2);
        lemma_split_kinds(s2);
        let a = dirs_of(s2);
        let b = files_of(s2);
        if x.is_dir {
            if a.len() > 0 {
                assert(a.last().is_dir);
            }
            assert forall|i: int| 0 <= i < b.len() implies !key_le(SortKey::DirsFirst, #[trigger] b[i], x) by {}
            lemma_insert_at(SortKey::DirsFirst, a, b, x);
        } else {
            if (a + b).len() > 0 {
                assert(key_le(SortKey::DirsFirst, (a + b).last(), x));
            }
            assert((a + b).push(x) == a + b.push(x));
        }
    }
}

/// With directories first (and sorting on), the listing order is the
/// primary order, reversed when asked, split stably into its directories
/// followed by the rest; so no directory follows a non-directory.
pub proof fn lemma_dirs_first_after_reverse(cfg: Config, s: Seq<Entry>)
    requires
        !cfg.no_sort,
        cfg.dirs_first,
    ensures
        ({
            let p = sort_by(primary_key(cfg), s);
            let q = if cfg.reverse { p.reverse() } else { p };
            ordered(cfg, s) == dirs_of(q) + files_of(q)
        }),
        forall|i: int, j: int|
            0 <= i < j < ordered(cfg, s).len() && (#[trigger] ordered(cfg, s)[j]).is_dir ==> (
            #[trigger] ordered(cfg, s)[i]).is_dir,
{
    let p = sort_by(primary_key(cfg), s);
    let q = if cfg.reverse { p.reverse() } else { p };
    lemma_dirs_first_partition(q);
    lemma_split_kinds(q);
    let o = ordered(cfg, s);
    let d = dirs_of(q);
    assert forall|i: int, j: int| 0 <= i < j < o.len() && (#[trigger] o[j]).is_dir implies (#[trigger] o[i]).is_dir by {
        if j >= d.len() {
            assert(o[j] == files_of(q)[j - d.len()]);
        }
        assert(o[i] == d[i]);
    }
}

/// With no-sort, the listing order is the input order, whatever else is set.
pub proof fn lemma_no_sort_keeps_order(cfg: Config, s: Seq<Entry>)
    requires
        cfg.no_sort,
    ensures
        ordered(cfg, s) == s,
{
}

} // verus!
