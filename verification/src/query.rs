//! Deterministic filter and sort over a process snapshot: a pure function
//! of (snapshot, filter text, sort field, sort order).
//!
//! Filtering is a case-insensitive substring match against the decimal form
//! of the pid or the command name. Sorting is stable (equal keys keep their
//! input order); descending order uses the exact reverse of the ascending
//! comparator, so ties stay grouped identically in both directions.

use vstd::prelude::*;

use crate::data_structures::ProcessInfo;
use crate::text::{
    chars_of, contains_chars, contains_seq, dec_rep, lemma_lex_le_total, lemma_lex_le_trans,
    lex_le, lex_le_chars, lower_of, lowercase, pid_chars,
};

verus! {

/// Direction of a sort.
#[derive(Debug, Clone, Copy, PartialEq, Eq, Structural)]
pub enum SortOrder {
    Ascending,
    Descending,
}

/// The key a snapshot is sorted by.
#[derive(Debug, Clone, Copy, PartialEq, Eq, Structural)]
pub enum SortField {
    PID,
    CPU,
    Memory,
    Command,
}

/// A sample matches a (lowercased) filter text when the text occurs in the
/// decimal form of its pid or, case-insensitively, in its command name.
pub open spec fn sample_matches(p: ProcessInfo, query_lower: Seq<char>) -> bool {
    contains_seq(dec_rep(p.pid as int), query_lower) || contains_seq(
        lower_of(p.command@),
        query_lower,
    )
}

/// The subsequence of samples that match the (lowercased) filter text, in
/// input order.
pub open spec fn filter_matching(s: Seq<ProcessInfo>, query_lower: Seq<char>) -> Seq<ProcessInfo>
    decreases s.len(),
{
    if s.len() == 0 {
        Seq::empty()
    } else {
        let rest = filter_matching(s.drop_last(), query_lower);
        if sample_matches(s.last(), query_lower) {
            rest.push(s.last())
        } else {
            rest
        }
    }
}

fn sample_matches_exec(p: &ProcessInfo, query_lower: &Vec<char>) -> (r: bool)
    ensures
        r == sample_matches(*p, query_lower@),
{
    let pid_form = pid_chars(p.pid);
    if contains_chars(&pid_form, query_lower) {
        true
    } else {
        let lowered = lowercase(p.command.as_str());
        let command_form = chars_of(lowered.as_str());
        contains_chars(&command_form, query_lower)
    }
}

/// Keeps exactly the samples matching the already-lowercased filter text,
/// in input order.
pub fn filter_processes(processes: Vec<ProcessInfo>, query_lower: &Vec<char>) -> (r: Vec<
    ProcessInfo,
>)
    ensures
        r@ == filter_matching(processes@, query_lower@),
{
    let ghost orig = processes@;
    let mut rest = processes;
    let mut kept: Vec<ProcessInfo> = Vec::new();
    proof {
        assert(rest@ =~= orig.subrange(orig.len() - rest@.len(), orig.len() as int));
        assert(orig.subrange(0, 0) =~= Seq::<ProcessInfo>::empty());
    }
    while rest.len() > 0
        invariant
            rest@.len() <= orig.len(),
            rest@ == orig.subrange(orig.len() - rest@.len(), orig.len() as int),
            kept@ == filter_matching(orig.subrange(0, orig.len() - rest@.len()), query_lower@),
        decreases rest@.len(),
    {
        let ghost c = orig.len() - rest@.len();
        let p = rest.remove(0);
        proof {
            assert(p == orig[c]);
            assert(rest@ =~= orig.subrange(c + 1, orig.len() as int));
            assert(orig.subrange(0, c + 1).drop_last() =~= orig.subrange(0, c));
            assert(orig.subrange(0, c + 1).last() == p);
        }
        if sample_matches_exec(&p, query_lower) {
            kept.push(p);
        }
    }
    proof {
        assert(orig.subrange(0, orig.len() as int) =~= orig);
    }
    kept
}

/// Every sample the filter keeps does match the filter text.
pub proof fn lemma_filter_sound(s: Seq<ProcessInfo>, query_lower: Seq<char>)
    ensures
        forall|i: int|
            0 <= i < filter_matching(s, query_lower).len() ==> sample_matches(
                #[trigger] filter_matching(s, query_lower)[i],
                query_lower,
            ),
    decreases s.len(),
{
    if s.len() > 0 {
        lemma_filter_sound(s.drop_last(), query_lower);
        let rest = filter_matching(s.drop_last(), query_lower);
        let whole = filter_matching(s, query_lower);
        assert forall|i: int| 0 <= i < whole.len() implies sample_matches(
            #[trigger] whole[i],
            query_lower,
        ) by {
            if sample_matches(s.last(), query_lower) {
                if i < rest.len() {
                    assert(whole[i] == rest[i]);
                } else {
                    assert(whole[i] == s.last());
                }
            } else {
                assert(whole[i] == rest[i]);
            }
        }
    }
}

/// An empty filter text keeps the whole snapshot, same length and order.
pub proof fn lemma_filter_empty_query(s: Seq<ProcessInfo>, query_lower: Seq<char>)
    requires
        query_lower.len() == 0,
    ensures
        filter_matching(s, query_lower) == s,
    decreases s.len(),
{
    if s.len() > 0 {
        lemma_filter_empty_query(s.drop_last(), query_lower);
        assert(dec_rep(s.last().pid as int).subrange(0, 0 + query_lower.len() as int)
            =~= query_lower);
        assert(sample_matches(s.last(), query_lower));
        assert(filter_matching(s, query_lower) =~= s);
    } else {
        assert(filter_matching(s, query_lower) =~= s);
    }
}

/// Ascending comparison of two samples on one field: numeric for pid, CPU
/// and memory; lexicographic by code point for the command name.
pub open spec fn field_le(field: SortField, a: ProcessInfo, b: ProcessInfo) -> bool {
    match field {
        SortField::PID => a.pid <= b.pid,
        SortField::CPU => a.cpu_usage <= b.cpu_usage,
        SortField::Memory => a.memory_usage <= b.memory_usage,
        SortField::Command => lex_le(a.command@, b.command@),
    }
}

/// The comparator actually used: descending is the exact reverse of the
/// ascending comparator.
pub open spec fn key_le(field: SortField, order: SortOrder, a: ProcessInfo, b: ProcessInfo) -> bool {
    match order {
        SortOrder::Ascending => field_le(field, a, b),
        SortOrder::Descending => field_le(field, b, a),
    }
}

/// `key_le` is total: any two samples compare one way or the other.
pub proof fn lemma_key_le_total(field: SortField, order: SortOrder, a: ProcessInfo, b: ProcessInfo)
    ensures
        key_le(field, order, a, b) || key_le(field, order, b, a),
{
    if field is Command {
        lemma_lex_le_total(a.command@, b.command@);
    }
}

/// `key_le` is transitive.
pub proof fn lemma_key_le_trans(
    field: SortField,
    order: SortOrder,
    a: ProcessInfo,
    b: ProcessInfo,
    c: ProcessInfo,
)
    requires
        key_le(field, order, a, b),
        key_le(field, order, b, c),
    ensures
        key_le(field, order, a, c),
{
    if field is Command {
        match order {
            SortOrder::Ascending => lemma_lex_le_trans(a.command@, b.command@, c.command@),
            SortOrder::Descending => lemma_lex_le_trans(c.command@, b.command@, a.command@),
        }
    }
}

/// The sequence is monotonic under the comparator.
pub open spec fn sorted_by(s: Seq<ProcessInfo>, field: SortField, order: SortOrder) -> bool {
    forall|i: int, j: int| 0 <= i < j < s.len() ==> #[trigger] key_le(field, order, s[i], s[j])
}

/// Stable insertion of `x` into `s`: `x` goes after every element that
/// compares at-or-before it, so an equal-key element already present keeps
/// its earlier position.
pub open spec fn insert_sorted(
    field: SortField,
    order: SortOrder,
    x: ProcessInfo,
    s: Seq<ProcessInfo>,
) -> Seq<ProcessInfo>
    decreases s.len(),
{
    if s.len() == 0 {
        seq![x]
    } else if key_le(field, order, s[0], x) {
        seq![s[0]] + insert_sorted(field, order, x, s.skip(1))
    } else {
        seq![x] + s
    }
}

/// Stable insertion sort: elements are inserted in input order, so equal
/// keys retain their relative input order.
pub open spec fn sort_by_key(field: SortField, order: SortOrder, s: Seq<ProcessInfo>) -> Seq<
    ProcessInfo,
>
    decreases s.len(),
{
    if s.len() == 0 {
        Seq::empty()
    } else {
        insert_sorted(field, order, s.last(), sort_by_key(field, order, s.drop_last()))
    }
}

/// Where the insertion lands: `x` is placed at the first position whose
/// element does not compare at-or-before `x`.
pub proof fn lemma_insert_sorted_split(
    field: SortField,
    order: SortOrder,
    x: ProcessInfo,
    s: Seq<ProcessInfo>,
    j: int,
)
    requires
        0 <= j <= s.len(),
        forall|k: int| 0 <= k < j ==> key_le(field, order, #[trigger] s[k], x),
        j < s.len() ==> !key_le(field, order, s[j], x),
    ensures
        insert_sorted(field, order, x, s) == s.subrange(0, j) + seq![x] + s.subrange(
            j,
            s.len() as int,
        ),
    decreases s.len(),
{
    if s.len() == 0 {
        assert(insert_sorted(field, order, x, s) =~= s.subrange(0, j) + seq![x] + s.subrange(
            j,
            s.len() as int,
        ));
    } else if j == 0 {
        assert(insert_sorted(field, order, x, s) =~= s.subrange(0, j) + seq![x] + s.subrange(
            j,
            s.len() as int,
        ));
    } else {
        let tail = s.skip(1);
        assert(forall|k: int| 0 <= k < j - 1 ==> key_le(field, order, #[trigger] tail[k], x));
        lemma_insert_sorted_split(field, order, x, tail, j - 1);
        assert(insert_sorted(field, order, x, s) =~= s.subrange(0, j) + seq![x] + s.subrange(
            j,
            s.len() as int,
        ));
    }
}

/// Spec-level position where the stable insertion places `x`: right after
/// the longest prefix whose elements all compare at-or-before `x`.
pub open spec fn insert_pos(
    field: SortField,
    order: SortOrder,
    x: ProcessInfo,
    s: Seq<ProcessInfo>,
) -> int
    decreases s.len(),
{
    if s.len() == 0 {
        0
    } else if key_le(field, order, s[0], x) {
        1 + insert_pos(field, order, x, s.skip(1))
    } else {
        0
    }
}

proof fn lemma_insert_pos_props(field: SortField, order: SortOrder, x: ProcessInfo, s: Seq<
    ProcessInfo,
>)
    ensures
        0 <= insert_pos(field, order, x, s) <= s.len(),
        forall|k: int|
            0 <= k < insert_pos(field, order, x, s) ==> key_le(field, order, #[trigger] s[k], x),
        insert_pos(field, order, x, s) < s.len() ==> !key_le(
            field,
            order,
            s[insert_pos(field, order, x, s)],
            x,
        ),
    decreases s.len(),
{
    if s.len() == 0 {
    } else if key_le(field, order, s[0], x) {
        lemma_insert_pos_props(field, order, x, s.skip(1));
        let tail = s.skip(1);
        let j = insert_pos(field, order, x, s);
        assert forall|k: int| 0 <= k < j implies key_le(field, order, #[trigger] s[k], x) by {
            if k > 0 {
                assert(key_le(field, order, tail[k - 1], x));
            }
        }
    }
}

/// Stable insertion into a sorted sequence leaves it sorted.
proof fn lemma_insert_sorted_sorted(
    field: SortField,
    order: SortOrder,
    x: ProcessInfo,
    s: Seq<ProcessInfo>,
)
    requires
        sorted_by(s, field, order),
    ensures
        sorted_by(insert_sorted(field, order, x, s), field, order),
{
    lemma_insert_pos_props(field, order, x, s);
    let j = insert_pos(field, order, x, s);
    lemma_insert_sorted_split(field, order, x, s, j);
    let t = insert_sorted(field, order, x, s);
    assert(t =~= s.subrange(0, j) + seq![x] + s.subrange(j, s.len() as int));
    assert forall|a: int, b: int| 0 <= a < b < t.len() implies #[trigger] key_le(
        field,
        order,
        t[a],
        t[b],
    ) by {
        if a < j && b == j {
            assert(key_le(field, order, s[a], x));
        } else if a == j && b > j {
            lemma_key_le_total(field, order, s[j], x);
            assert(key_le(field, order, x, s[j]));
            if b - 1 > j {
                assert(key_le(field, order, s[j], s[b - 1]));
                lemma_key_le_trans(field, order, x, s[j], s[b - 1]);
            }
        } else if a < j && b > j {
            assert(key_le(field, order, s[a], s[b - 1]));
        } else if a > j && b > j {
            assert(key_le(field, order, s[a - 1], s[b - 1]));
        } else {
            assert(key_le(field, order, s[a], s[b]));
        }
    }
}

/// The stable insertion sort always yields a sequence monotonic under the
/// comparator.
pub proof fn lemma_sort_sorted(field: SortField, order: SortOrder, s: Seq<ProcessInfo>)
    ensures
        sorted_by(sort_by_key(field, order, s), field, order),
    decreases s.len(),
{
    if s.len() > 0 {
        lemma_sort_sorted(field, order, s.drop_last());
        lemma_insert_sorted_sorted(field, order, s.last(), sort_by_key(field, order, s.drop_last()));
    }
}

/// A sequence already monotonic under the comparator is left exactly as it
/// is: the sort moves nothing it does not have to.
pub proof fn lemma_sort_of_sorted(field: SortField, order: SortOrder, s: Seq<ProcessInfo>)
    requires
        sorted_by(s, field, order),
    ensures
        sort_by_key(field, order, s) == s,
    decreases s.len(),
{
    if s.len() == 0 {
        assert(sort_by_key(field, order, s) =~= s);
    } else {
        let front = s.drop_last();
        assert forall|i: int, j: int| 0 <= i < j < front.len() implies #[trigger] key_le(
            field,
            order,
            front[i],
            front[j],
        ) by {
            assert(key_le(field, order, s[i], s[j]));
        }
        lemma_sort_of_sorted(field, order, front);
        assert forall|k: int| 0 <= k < front.len() implies key_le(
            field,
            order,
            #[trigger] front[k],
            s.last(),
        ) by {
            assert(key_le(field, order, s[k], s[s.len() - 1]));
        }
        lemma_insert_sorted_split(field, order, s.last(), front, front.len() as int);
        assert(sort_by_key(field, order, s) =~= s);
    }
}

/// Stability as observed across refreshes: applying the same sort twice
/// never reorders anything — in particular, equal-key duplicates keep the
/// relative order the first sort gave them.
pub proof fn lemma_sort_idempotent(field: SortField, order: SortOrder, s: Seq<ProcessInfo>)
    ensures
        sort_by_key(field, order, sort_by_key(field, order, s)) == sort_by_key(field, order, s),
{
    lemma_sort_sorted(field, order, s);
    lemma_sort_of_sorted(field, order, sort_by_key(field, order, s));
}

/// Two samples carry equal keys under the comparator.
pub open spec fn key_eq(field: SortField, order: SortOrder, a: ProcessInfo, b: ProcessInfo) -> bool {
    key_le(field, order, a, b) && key_le(field, order, b, a)
}

/// The samples of `s` whose key equals `w`'s position in the order, kept in
/// their order of appearance.
pub open spec fn key_class(
    field: SortField,
    order: SortOrder,
    w: ProcessInfo,
    s: Seq<ProcessInfo>,
) -> Seq<ProcessInfo>
    decreases s.len(),
{
    if s.len() == 0 {
        Seq::empty()
    } else {
        let rest = key_class(field, order, w, s.drop_last());
        if key_eq(field, order, s.last(), w) {
            rest.push(s.last())
        } else {
            rest
        }
    }
}

proof fn lemma_key_class_add(
    field: SortField,
    order: SortOrder,
    w: ProcessInfo,
    a: Seq<ProcessInfo>,
    b: Seq<ProcessInfo>,
)
    ensures
        key_class(field, order, w, a + b) == key_class(field, order, w, a) + key_class(
            field,
            order,
            w,
            b,
        ),
    decreases b.len(),
{
    if b.len() == 0 {
        assert(a + b =~= a);
        assert(key_class(field, order, w, a) + key_class(field, order, w, b) =~= key_class(
            field,
            order,
            w,
            a,
        ));
    } else {
        lemma_key_class_add(field, order, w, a, b.drop_last());
        assert((a + b).drop_last() =~= a + b.drop_last());
        assert((a + b).last() == b.last());
        if key_eq(field, order, b.last(), w) {
            assert(key_class(field, order, w, a) + key_class(field, order, w, b) =~= (key_class(
                field,
                order,
                w,
                a,
            ) + key_class(field, order, w, b.drop_last())).push(b.last()));
        }
    }
}

proof fn lemma_key_class_none(
    field: SortField,
    order: SortOrder,
    w: ProcessInfo,
    s: Seq<ProcessInfo>,
)
    requires
        forall|k: int| 0 <= k < s.len() ==> !key_eq(field, order, #[trigger] s[k], w),
    ensures
        key_class(field, order, w, s) == Seq::<ProcessInfo>::empty(),
    decreases s.len(),
{
    if s.len() > 0 {
        lemma_key_class_none(field, order, w, s.drop_last());
    }
}

/// Stable insertion appends `x` at the end of its own key class and leaves
/// every other class untouched.
proof fn lemma_insert_sorted_stable(
    field: SortField,
    order: SortOrder,
    x: ProcessInfo,
    s: Seq<ProcessInfo>,
    w: ProcessInfo,
)
    requires
        sorted_by(s, field, order),
    ensures
        key_eq(field, order, x, w) ==> key_class(field, order, w, insert_sorted(field, order, x, s))
            == key_class(field, order, w, s).push(x),
        !key_eq(field, order, x, w) ==> key_class(
            field,
            order,
            w,
            insert_sorted(field, order, x, s),
        ) == key_class(field, order, w, s),
{
    lemma_insert_pos_props(field, order, x, s);
    let j = insert_pos(field, order, x, s);
    lemma_insert_sorted_split(field, order, x, s, j);
    let pre = s.subrange(0, j);
    let suf = s.subrange(j, s.len() as int);
    assert(s =~= pre + suf);
    lemma_key_class_add(field, order, w, pre, suf);
    lemma_key_class_add(field, order, w, pre + seq![x], suf);
    lemma_key_class_add(field, order, w, pre, seq![x]);
    assert(seq![x].drop_last() =~= Seq::<ProcessInfo>::empty());
    assert(key_class(field, order, w, Seq::<ProcessInfo>::empty()) == Seq::<ProcessInfo>::empty());
    if key_eq(field, order, x, w) {
        assert(key_class(field, order, w, seq![x]) =~= seq![x]);
        // No class member can follow the insertion point: it would compare
        // at-or-before `x` while the sorted suffix sits strictly after it.
        assert forall|k: int| 0 <= k < suf.len() implies !key_eq(
            field,
            order,
            #[trigger] suf[k],
            w,
        ) by {
            if key_eq(field, order, suf[k], w) {
                lemma_key_le_trans(field, order, suf[k], w, x);
                if k > 0 {
                    assert(key_le(field, order, s[j], s[j + k]));
                    lemma_key_le_trans(field, order, s[j], s[j + k], x);
                }
                assert(false);
            }
        }
        lemma_key_class_none(field, order, w, suf);
        assert(key_class(field, order, w, insert_sorted(field, order, x, s)) =~= key_class(
            field,
            order,
            w,
            s,
        ).push(x));
    } else {
        assert(key_class(field, order, w, seq![x]) =~= Seq::<ProcessInfo>::empty());
        assert(key_class(field, order, w, insert_sorted(field, order, x, s)) =~= key_class(
            field,
            order,
            w,
            s,
        ));
    }
}

/// Stability of the sort: for every key, the samples carrying that key
/// appear in the sorted output in exactly their input order.
pub proof fn lemma_sort_stable(
    field: SortField,
    order: SortOrder,
    s: Seq<ProcessInfo>,
    w: ProcessInfo,
)
    ensures
        key_class(field, order, w, sort_by_key(field, order, s)) == key_class(field, order, w, s),
    decreases s.len(),
{
    if s.len() > 0 {
        let front = s.drop_last();
        lemma_sort_stable(field, order, front, w);
        lemma_sort_sorted(field, order, front);
        lemma_insert_sorted_stable(field, order, s.last(), sort_by_key(field, order, front), w);
    }
}

proof fn lemma_insert_sorted_multiset(
    field: SortField,
    order: SortOrder,
    x: ProcessInfo,
    s: Seq<ProcessInfo>,
)
    ensures
        insert_sorted(field, order, x, s).to_multiset() == s.to_multiset().insert(x),
    decreases s.len(),
{
    broadcast use vstd::seq_lib::group_to_multiset_ensures;

    if s.len() == 0 {
        assert(seq![x] =~= Seq::<ProcessInfo>::empty().push(x));
        assert(insert_sorted(field, order, x, s).to_multiset() =~= s.to_multiset().insert(x));
    } else if key_le(field, order, s[0], x) {
        let tail = s.skip(1);
        lemma_insert_sorted_multiset(field, order, x, tail);
        vstd::seq_lib::lemma_multiset_commutative(seq![s[0]], insert_sorted(field, order, x, tail));
        vstd::seq_lib::lemma_multiset_commutative(seq![s[0]], tail);
        assert(s =~= seq![s[0]] + tail);
        assert(insert_sorted(field, order, x, s).to_multiset() =~= s.to_multiset().insert(x));
    } else {
        vstd::seq_lib::lemma_multiset_commutative(seq![x], s);
        assert(seq![x] =~= Seq::<ProcessInfo>::empty().push(x));
        assert(insert_sorted(field, order, x, s).to_multiset() =~= s.to_multiset().insert(x));
    }
}

/// The sort is a permutation: it keeps exactly the input samples, with
/// multiplicity.
pub proof fn lemma_sort_permutes(field: SortField, order: SortOrder, s: Seq<ProcessInfo>)
    ensures
        sort_by_key(field, order, s).to_multiset() == s.to_multiset(),
    decreases s.len(),
{
    broadcast use vstd::seq_lib::group_to_multiset_ensures;

    if s.len() > 0 {
        lemma_sort_permutes(field, order, s.drop_last());
        lemma_insert_sorted_multiset(field, order, s.last(), sort_by_key(field, order, s.drop_last()));
        assert(s.drop_last().push(s.last()) =~= s);
    }
}

fn field_le_exec(field: SortField, a: &ProcessInfo, b: &ProcessInfo) -> (r: bool)
    ensures
        r == field_le(field, *a, *b),
{
    match field {
        SortField::PID => a.pid <= b.pid,
        SortField::CPU => a.cpu_usage <= b.cpu_usage,
        SortField::Memory => a.memory_usage <= b.memory_usage,
        SortField::Command => {
            let ca = chars_of(a.command.as_str());
            let cb = chars_of(b.command.as_str());
            lex_le_chars(&ca, &cb)
        },
    }
}

fn key_le_exec(field: SortField, order: SortOrder, a: &ProcessInfo, b: &ProcessInfo) -> (r: bool)
    ensures
        r == key_le(field, order, *a, *b),
{
    match order {
        SortOrder::Ascending => field_le_exec(field, a, b),
        SortOrder::Descending => field_le_exec(field, b, a),
    }
}

fn insert_by_key(
    sorted: Vec<ProcessInfo>,
    x: ProcessInfo,
    field: SortField,
    order: SortOrder,
) -> (r: Vec<ProcessInfo>)
    requires
        sorted_by(sorted@, field, order),
    ensures
        r@ == insert_sorted(field, order, x, sorted@),
        sorted_by(r@, field, order),
{
    let ghost s = sorted@;
    let mut out = sorted;
    let mut j: usize = 0;
    loop
        invariant
            j <= out@.len(),
            out@ == s,
            sorted_by(s, field, order),
            forall|k: int| 0 <= k < j ==> key_le(field, order, #[trigger] s[k], x),
        ensures
            j <= s.len(),
            out@ == s,
            forall|k: int| 0 <= k < j ==> key_le(field, order, #[trigger] s[k], x),
            j < s.len() ==> !key_le(field, order, s[j as int], x),
        decreases s.len() - j,
    {
        if j >= out.len() {
            break;
        }
        if !key_le_exec(field, order, &out[j], &x) {
            break;
        }
        j = j + 1;
    }
    out.insert(j, x);
    proof {
        lemma_insert_sorted_split(field, order, x, s, j as int);
        assert(out@ =~= s.subrange(0, j as int) + seq![x] + s.subrange(j as int, s.len() as int));
        assert forall|a: int, b: int| 0 <= a < b < out@.len() implies #[trigger] key_le(
            field,
            order,
            out@[a],
            out@[b],
        ) by {
            let ji = j as int;
            if a < ji && b < ji {
                assert(key_le(field, order, s[a], s[b]));
            } else if a < ji && b == ji {
                assert(key_le(field, order, s[a], x));
            } else if a < ji && b > ji {
                assert(key_le(field, order, s[a], s[b - 1]));
            } else if a == ji && b > ji {
                // x against the suffix: totality at position j, then
                // transitivity along the sorted tail.
                lemma_key_le_total(field, order, s[ji], x);
                assert(key_le(field, order, x, s[ji]));
                if b - 1 > ji {
                    assert(key_le(field, order, s[ji], s[b - 1]));
                    lemma_key_le_trans(field, order, x, s[ji], s[b - 1]);
                }
            } else {
                assert(a > ji && b > ji);
                assert(key_le(field, order, s[a - 1], s[b - 1]));
            }
        }
    }
    out
}

/// Stable sort of a snapshot by the given field and order; the result is
/// exactly the stable insertion sort of the input.
pub fn sort_processes(processes: Vec<ProcessInfo>, field: SortField, order: SortOrder) -> (r: Vec<
    ProcessInfo,
>)
    ensures
        r@ == sort_by_key(field, order, processes@),
        sorted_by(r@, field, order),
{
    let ghost orig = processes@;
    let mut rest = processes;
    let mut out: Vec<ProcessInfo> = Vec::new();
    proof {
        assert(rest@ =~= orig.subrange(orig.len() - rest@.len(), orig.len() as int));
        assert(orig.subrange(0, 0) =~= Seq::<ProcessInfo>::empty());
    }
    while rest.len() > 0
        invariant
            rest@.len() <= orig.len(),
            rest@ == orig.subrange(orig.len() - rest@.len(), orig.len() as int),
            out@ == sort_by_key(field, order, orig.subrange(0, orig.len() - rest@.len())),
            sorted_by(out@, field, order),
        decreases rest@.len(),
    {
        let ghost c = orig.len() - rest@.len();
        let p = rest.remove(0);
        proof {
            assert(p == orig[c]);
            assert(rest@ =~= orig.subrange(c + 1, orig.len() as int));
            assert(orig.subrange(0, c + 1).drop_last() =~= orig.subrange(0, c));
            assert(orig.subrange(0, c + 1).last() == p);
        }
        out = insert_by_key(out, p, field, order);
    }
    proof {
        assert(orig.subrange(0, orig.len() as int) =~= orig);
    }
    out
}

/// The snapshot a filter text leaves to be sorted: everything when the text
/// is empty, otherwise the matching subsequence under case folding.
pub open spec fn filtered_view(s: Seq<ProcessInfo>, query: Seq<char>) -> Seq<ProcessInfo> {
    if query.len() == 0 {
        s
    } else {
        filter_matching(s, lower_of(query))
    }
}

/// Filter, then stable-sort, a snapshot: the deterministic view handed to
/// any consumer.
pub fn apply_filter_and_sort(
    processes: Vec<ProcessInfo>,
    query: &str,
    field: SortField,
    order: SortOrder,
) -> (r: Vec<ProcessInfo>)
    ensures
        r@ == sort_by_key(field, order, filtered_view(processes@, query@)),
        sorted_by(r@, field, order),
{
    let filtered = if query.is_empty() {
        processes
    } else {
        let lowered = lowercase(query);
        let query_lower = chars_of(lowered.as_str());
        filter_processes(processes, &query_lower)
    };
    sort_processes(filtered, field, order)
}

/// What a click on a column header does to the sort: a click on the current
/// field flips the order; a click on another field selects it, ascending.
pub fn next_sort(field: SortField, order: SortOrder, clicked: SortField) -> (r: (
    SortField,
    SortOrder,
))
    ensures
        clicked == field ==> r.0 == field && r.1 == (if order is Ascending {
            SortOrder::Descending
        } else {
            SortOrder::Ascending
        }),
        clicked != field ==> r.0 == clicked && r.1 == SortOrder::Ascending,
{
    if clicked == field {
        let flipped = match order {
            SortOrder::Ascending => SortOrder::Descending,
            SortOrder::Descending => SortOrder::Ascending,
        };
        (field, flipped)
    } else {
        (clicked, SortOrder::Ascending)
    }
}

} // verus!
