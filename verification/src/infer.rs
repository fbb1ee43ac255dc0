//! Inferring a schema from sample records by majority vote over the kinds of
//! their values.
use vstd::prelude::*;

use crate::parse::{is_float, is_float_text, parse_bool, parse_i64, spec_parse_bool, spec_parse_i64};
use crate::record::{distinct_names, entries_map, has_name, lemma_entry_lookup, name_index, Record};
use crate::schema::{same_field, Field, Schema};
use crate::text::{
    lemma_seq_less_irreflexive, lemma_seq_less_total, lemma_seq_less_transitive, seq_less,
    str_eq, str_less,
};
use crate::value::{DataType, Value};

verus! {

/// What a value counts as when inferring a type.
#[derive(Debug, Clone, Copy, PartialEq, Eq, Structural)]
pub enum ValueKind {
    /// Null, or an empty string: the field may be null.
    Nullish,
    Int,
    Float,
    Bool,
    Text,
}

/// Strings count as the first kind whose text they are: integer, float,
/// boolean; other strings are text.
pub open spec fn classify(v: Value) -> ValueKind {
    match v {
        Value::Null => ValueKind::Nullish,
        Value::Int64(_) => ValueKind::Int,
        Value::Float64(_) => ValueKind::Float,
        Value::Boolean(_) => ValueKind::Bool,
        Value::String(s) => if s@.len() == 0 {
            ValueKind::Nullish
        } else if spec_parse_i64(s@) is Ok {
            ValueKind::Int
        } else if is_float_text(s@) {
            ValueKind::Float
        } else if spec_parse_bool(s@) is Some {
            ValueKind::Bool
        } else {
            ValueKind::Text
        },
    }
}

/// How often a field was seen, and as what.
pub struct Tally {
    pub ints: nat,
    pub floats: nat,
    pub bools: nat,
    pub texts: nat,
    /// Some value of the field was null or empty.
    pub nullish: bool,
    /// The number of records that have the field.
    pub present: nat,
}

pub open spec fn empty_tally() -> Tally {
    Tally { ints: 0, floats: 0, bools: 0, texts: 0, nullish: false, present: 0 }
}

/// `t` with one more value of kind `kind`.
pub open spec fn count_kind(t: Tally, kind: ValueKind) -> Tally {
    match kind {
        ValueKind::Nullish => Tally { nullish: true, present: t.present + 1, ..t },
        ValueKind::Int => Tally { ints: t.ints + 1, present: t.present + 1, ..t },
        ValueKind::Float => Tally { floats: t.floats + 1, present: t.present + 1, ..t },
        ValueKind::Bool => Tally { bools: t.bools + 1, present: t.present + 1, ..t },
        ValueKind::Text => Tally { texts: t.texts + 1, present: t.present + 1, ..t },
    }
}

/// `t` after seeing record `m`, for field `k`.
pub open spec fn add_record_tally(t: Tally, m: Map<Seq<char>, Value>, k: Seq<char>) -> Tally {
    if m.dom().contains(k) {
        count_kind(t, classify(m[k]))
    } else {
        t
    }
}

/// The tally of field `k` over `records`.
pub open spec fn tally(records: Seq<Map<Seq<char>, Value>>, k: Seq<char>) -> Tally
    decreases records.len(),
{
    if records.len() == 0 {
        empty_tally()
    } else {
        add_record_tally(tally(records.drop_last(), k), records.last(), k)
    }
}

/// Every field name of some record.
pub open spec fn all_names(records: Seq<Map<Seq<char>, Value>>) -> Set<Seq<char>> {
    Set::new(
        |k: Seq<char>| exists|i: int| 0 <= i < records.len() && #[trigger] records[i].dom().contains(k),
    )
}

/// The type most of the non-null values have: integers if more than half
/// are integers, floats if more than half are numbers, booleans if more
/// than half are booleans, and strings otherwise or when there are none.
pub open spec fn majority_type(t: Tally) -> DataType {
    let total = t.ints + t.floats + t.bools + t.texts;
    if total == 0 {
        DataType::String
    } else if t.ints * 2 > total {
        DataType::Int64
    } else if (t.ints + t.floats) * 2 > total {
        DataType::Float64
    } else if t.bools * 2 > total {
        DataType::Boolean
    } else {
        DataType::String
    }
}

/// A field may be null when some record lacks it or holds null or an empty
/// string in it.
pub open spec fn inferred_nullable(records: Seq<Map<Seq<char>, Value>>, k: Seq<char>) -> bool {
    tally(records, k).nullish || tally(records, k).present < records.len()
}

pub open spec fn record_views(records: Seq<Record>) -> Seq<Map<Seq<char>, Value>> {
    records.map_values(|r: Record| r@)
}

/// The names of `fields` strictly increase.
pub open spec fn sorted_by_name(fields: Seq<Field>) -> bool {
    forall|a: int, b: int|
        0 <= a < b < fields.len() ==> seq_less(
            #[trigger] fields[a].spec_name(),
            #[trigger] fields[b].spec_name(),
        )
}

/// The names of `fields`.
pub open spec fn field_names(fields: Seq<Field>) -> Set<Seq<char>> {
    Set::new(
        |k: Seq<char>| exists|i: int| 0 <= i < fields.len() && #[trigger] fields[i].spec_name() == k,
    )
}

/// `fields` is the schema inferred from `records`: one field per name any
/// record has, in name order, each typed by majority and nullable as
/// `inferred_nullable` says.
pub open spec fn inferred_from(fields: Seq<Field>, records: Seq<Map<Seq<char>, Value>>) -> bool {
    &&& sorted_by_name(fields)
    &&& field_names(fields) == all_names(records)
    &&& forall|i: int|
        0 <= i < fields.len() ==> {
            let f = #[trigger] fields[i];
            &&& f.spec_data_type() == majority_type(tally(records, f.spec_name()))
            &&& f.spec_nullable() == inferred_nullable(records, f.spec_name())
        }
}

/// Two tallies added together.
pub open spec fn combine_tally(x: Tally, y: Tally) -> Tally {
    Tally {
        ints: x.ints + y.ints,
        floats: x.floats + y.floats,
        bools: x.bools + y.bools,
        texts: x.texts + y.texts,
        nullish: x.nullish || y.nullish,
        present: x.present + y.present,
    }
}

/// The tally of two samples one after the other is the sum of their tallies.
pub proof fn lemma_tally_concat(a: Seq<Map<Seq<char>, Value>>, b: Seq<Map<Seq<char>, Value>>, k: Seq<char>)
    ensures
        tally(a + b, k) == combine_tally(tally(a, k), tally(b, k)),
    decreases b.len(),
{
    if b.len() == 0 {
        assert(a + b =~= a);
    } else {
        lemma_tally_concat(a, b.drop_last(), k);
        assert((a + b).drop_last() =~= a + b.drop_last());
        assert((a + b).last() == b.last());
    }
}

/// Samples with the same records, each as often, have the same tally.
pub proof fn lemma_tally_permutation(
    a: Seq<Map<Seq<char>, Value>>,
    b: Seq<Map<Seq<char>, Value>>,
    k: Seq<char>,
)
    requires
        a.to_multiset() == b.to_multiset(),
    ensures
        tally(a, k) == tally(b, k),
    decreases a.len(),
{
    broadcast use vstd::seq_lib::group_to_multiset_ensures;

    if a.len() == 0 {
        assert(b.to_multiset().len() == 0);
        assert(b.len() == 0);
    } else {
        let x = a.last();
        let a1 = a.drop_last();
        assert(a =~= a1.push(x));
        assert(a.to_multiset().count(x) > 0);
        assert(b.to_multiset().count(x) > 0);
        assert(b.contains(x));
        let j = choose|j: int| 0 <= j < b.len() && b[j] == x;
        let b1 = b.remove(j);
        assert(b1.to_multiset() == b.to_multiset().remove(x));
        assert(a1.to_multiset() =~= a.to_multiset().remove(x));
        lemma_tally_permutation(a1, b1, k);
        let b0 = b.subrange(0, j);
        let b2 = b.subrange(j + 1, b.len() as int);
        let one = seq![x];
        assert(b =~= (b0 + one) + b2);
        assert(b1 =~= b0 + b2);
        lemma_tally_concat(b0 + one, b2, k);
        lemma_tally_concat(b0, one, k);
        lemma_tally_concat(b0, b2, k);
        assert(one.drop_last() =~= Seq::<Map<Seq<char>, Value>>::empty());
        assert(tally(one.drop_last(), k) == empty_tally());
        assert(one.last() == x);
        assert(tally(one, k) == add_record_tally(empty_tally(), x, k));
    }
}

/// Samples with the same records, each as often, have the same field names.
pub proof fn lemma_names_permutation(a: Seq<Map<Seq<char>, Value>>, b: Seq<Map<Seq<char>, Value>>)
    requires
        a.to_multiset() == b.to_multiset(),
    ensures
        all_names(a) == all_names(b),
{
    broadcast use vstd::seq_lib::group_to_multiset_ensures;

    assert forall|k: Seq<char>| all_names(a).contains(k) implies all_names(b).contains(k) by {
        let i = choose|i: int| 0 <= i < a.len() && #[trigger] a[i].dom().contains(k);
        assert(a.contains(a[i]));
        assert(a.to_multiset().count(a[i]) > 0);
        assert(b.contains(a[i]));
        let j = choose|j: int| 0 <= j < b.len() && b[j] == a[i];
        assert(b[j].dom().contains(k));
    }
    assert forall|k: Seq<char>| all_names(b).contains(k) implies all_names(a).contains(k) by {
        let i = choose|i: int| 0 <= i < b.len() && #[trigger] b[i].dom().contains(k);
        assert(b.contains(b[i]));
        assert(b.to_multiset().count(b[i]) > 0);
        assert(a.contains(b[i]));
        let j = choose|j: int| 0 <= j < a.len() && a[j] == b[i];
        assert(a[j].dom().contains(k));
    }
    assert(all_names(a) =~= all_names(b));
}

/// Two field lists sorted by name with the same names hold the same names
/// at every position.
pub proof fn lemma_sorted_names_unique(f1: Seq<Field>, f2: Seq<Field>)
    requires
        sorted_by_name(f1),
        sorted_by_name(f2),
        field_names(f1) == field_names(f2),
    ensures
        f1.len() == f2.len(),
        forall|i: int| 0 <= i < f1.len() ==> #[trigger] f1[i].spec_name() == f2[i].spec_name(),
    decreases f1.len() + f2.len(),
{
    if f1.len() == 0 {
        if f2.len() > 0 {
            assert(field_names(f2).contains(f2[0].spec_name()));
        }
    } else if f2.len() == 0 {
        assert(field_names(f1).contains(f1[0].spec_name()));
    } else {
        let x = f1[0].spec_name();
        let y = f2[0].spec_name();
        assert(field_names(f1).contains(x));
        assert(field_names(f2).contains(y));
        let j = choose|j: int| 0 <= j < f2.len() && #[trigger] f2[j].spec_name() == x;
        let k = choose|k: int| 0 <= k < f1.len() && #[trigger] f1[k].spec_name() == y;
        if j > 0 {
            assert(seq_less(y, x));
            if k == 0 {
                lemma_seq_less_irreflexive(x);
            } else {
                assert(seq_less(x, y));
                lemma_seq_less_transitive(x, y, x);
                lemma_seq_less_irreflexive(x);
            }
        }
        assert(x == y);
        let r1 = f1.drop_first();
        let r2 = f2.drop_first();
        assert(sorted_by_name(r1)) by {
            assert forall|a: int, b: int| 0 <= a < b < r1.len() implies seq_less(
                #[trigger] r1[a].spec_name(),
                #[trigger] r1[b].spec_name(),
            ) by {
                assert(r1[a] == f1[a + 1] && r1[b] == f1[b + 1]);
            }
        }
        assert(sorted_by_name(r2)) by {
            assert forall|a: int, b: int| 0 <= a < b < r2.len() implies seq_less(
                #[trigger] r2[a].spec_name(),
                #[trigger] r2[b].spec_name(),
            ) by {
                assert(r2[a] == f2[a + 1] && r2[b] == f2[b + 1]);
            }
        }
        assert(field_names(r1) =~= field_names(r2)) by {
            assert forall|n: Seq<char>| field_names(r1).contains(n) implies field_names(r2).contains(n) by {
                let a = choose|a: int| 0 <= a < r1.len() && #[trigger] r1[a].spec_name() == n;
                assert(f1[a + 1].spec_name() == n);
                assert(seq_less(x, n));
                assert(field_names(f2).contains(n));
                let b = choose|b: int| 0 <= b < f2.len() && #[trigger] f2[b].spec_name() == n;
                if b == 0 {
                    lemma_seq_less_irreflexive(x);
                }
                assert(r2[b - 1] == f2[b]);
            }
            assert forall|n: Seq<char>| field_names(r2).contains(n) implies field_names(r1).contains(n) by {
                let a = choose|a: int| 0 <= a < r2.len() && #[trigger] r2[a].spec_name() == n;
                assert(f2[a + 1].spec_name() == n);
                assert(seq_less(y, n));
                assert(field_names(f1).contains(n));
                let b = choose|b: int| 0 <= b < f1.len() && #[trigger] f1[b].spec_name() == n;
                if b == 0 {
                    lemma_seq_less_irreflexive(y);
                }
                assert(r1[b - 1] == f1[b]);
            }
        }
        lemma_sorted_names_unique(r1, r2);
        assert forall|i: int| 0 <= i < f1.len() implies #[trigger] f1[i].spec_name() == f2[i].spec_name() by {
            if i > 0 {
                assert(r1[i - 1] == f1[i] && r2[i - 1] == f2[i]);
            }
        }
    }
}

/// The schema inferred from a sample is unique: any two field lists that fit
/// it hold the same fields, with the same types and nullability, in the
/// same order.
pub proof fn lemma_inferred_unique(f1: Seq<Field>, f2: Seq<Field>, records: Seq<Map<Seq<char>, Value>>)
    requires
        inferred_from(f1, records),
        inferred_from(f2, records),
    ensures
        f1.len() == f2.len(),
        forall|i: int| 0 <= i < f1.len() ==> same_field(#[trigger] f1[i], f2[i]),
{
    lemma_sorted_names_unique(f1, f2);
    assert forall|i: int| 0 <= i < f1.len() implies same_field(#[trigger] f1[i], f2[i]) by {
        assert(f1[i].spec_name() == f2[i].spec_name());
    }
}

/// The tally of a field no record has is empty.
proof fn lemma_tally_absent(records: Seq<Map<Seq<char>, Value>>, k: Seq<char>)
    requires
        !all_names(records).contains(k),
    ensures
        tally(records, k) == empty_tally(),
    decreases records.len(),
{
    if records.len() > 0 {
        let t = records.drop_last();
        assert(!all_names(t).contains(k)) by {
            if all_names(t).contains(k) {
                let i = choose|i: int| 0 <= i < t.len() && #[trigger] t[i].dom().contains(k);
                assert(records[i] == t[i]);
            }
        }
        lemma_tally_absent(t, k);
        assert(!records[records.len() - 1].dom().contains(k));
    }
}

/// Counts never exceed the number of records that have the field, nor that
/// the number of records.
proof fn lemma_tally_bounds(records: Seq<Map<Seq<char>, Value>>, k: Seq<char>)
    ensures
        tally(records, k).present <= records.len(),
        tally(records, k).ints + tally(records, k).floats + tally(records, k).bools + tally(
            records,
            k,
        ).texts <= tally(records, k).present,
    decreases records.len(),
{
    if records.len() > 0 {
        lemma_tally_bounds(records.drop_last(), k);
    }
}

/// Exec counterpart of a tally.
#[derive(Clone, Copy)]
struct TypeStats {
    int_count: usize,
    float_count: usize,
    bool_count: usize,
    string_count: usize,
    nullable: bool,
    present: usize,
}

spec fn stats_view(s: TypeStats) -> Tally {
    Tally {
        ints: s.int_count as nat,
        floats: s.float_count as nat,
        bools: s.bool_count as nat,
        texts: s.string_count as nat,
        nullish: s.nullable,
        present: s.present as nat,
    }
}

fn classify_value(v: &Value) -> (r: ValueKind)
    ensures
        r == classify(*v),
{
    match v {
        Value::Null => ValueKind::Nullish,
        Value::Int64(_) => ValueKind::Int,
        Value::Float64(_) => ValueKind::Float,
        Value::Boolean(_) => ValueKind::Bool,
        Value::String(s) => {
            if s.as_str().is_empty() {
                ValueKind::Nullish
            } else if parse_i64(s.as_str()).is_ok() {
                ValueKind::Int
            } else if is_float(s.as_str()) {
                ValueKind::Float
            } else if parse_bool(s.as_str()).is_some() {
                ValueKind::Bool
            } else {
                ValueKind::Text
            }
        },
    }
}

fn count_value(s: TypeStats, kind: ValueKind) -> (r: TypeStats)
    requires
        s.present < usize::MAX,
        s.int_count + s.float_count + s.bool_count + s.string_count <= s.present,
    ensures
        stats_view(r) == count_kind(stats_view(s), kind),
{
    match kind {
        ValueKind::Nullish => TypeStats { nullable: true, present: s.present + 1, ..s },
        ValueKind::Int => TypeStats { int_count: s.int_count + 1, present: s.present + 1, ..s },
        ValueKind::Float => TypeStats { float_count: s.float_count + 1, present: s.present + 1, ..s },
        ValueKind::Bool => TypeStats { bool_count: s.bool_count + 1, present: s.present + 1, ..s },
        ValueKind::Text => TypeStats { string_count: s.string_count + 1, present: s.present + 1, ..s },
    }
}

/// The names of stats entries.
spec fn stat_names(stats: Seq<(String, TypeStats)>) -> Set<Seq<char>> {
    Set::new(
        |k: Seq<char>| exists|i: int| 0 <= i < stats.len() && #[trigger] stats[i].0@ == k,
    )
}

spec fn stats_distinct(stats: Seq<(String, TypeStats)>) -> bool {
    forall|a: int, b: int|
        0 <= a < stats.len() && 0 <= b < stats.len() && a != b ==> #[trigger] stats[a].0@
            != #[trigger] stats[b].0@
}

/// The stats are those of `records`: one entry per name, each its tally.
spec fn stats_match(stats: Seq<(String, TypeStats)>, records: Seq<Map<Seq<char>, Value>>) -> bool {
    &&& stats_distinct(stats)
    &&& stat_names(stats) == all_names(records)
    &&& forall|i: int|
        0 <= i < stats.len() ==> stats_view(#[trigger] stats[i].1) == tally(records, stats[i].0@)
}

fn find_stats(stats: &Vec<(String, TypeStats)>, key: &str) -> (r: Option<usize>)
    ensures
        match r {
            Some(i) => i < stats@.len() && stats@[i as int].0@ == key@,
            None => !stat_names(stats@).contains(key@),
        },
{
    let mut i: usize = 0;
    while i < stats.len()
        invariant
            i <= stats@.len(),
            forall|j: int| 0 <= j < i ==> #[trigger] stats@[j].0@ != key@,
        decreases stats@.len() - i,
    {
        if str_eq(stats[i].0.as_str(), key) {
            return Some(i);
        }
        i = i + 1;
    }
    None
}

/// Adds the values of one record to the stats of the records before it.
fn add_record(
    stats: &mut Vec<(String, TypeStats)>,
    record: &Record,
    Ghost(prefix): Ghost<Seq<Map<Seq<char>, Value>>>,
)
    requires
        stats_match(old(stats)@, prefix),
        prefix.len() < usize::MAX,
    ensures
        stats_match(final(stats)@, prefix.push(record@)),
{
    let entries = record.fields();
    let ghost m = record@;
    let ghost next = prefix.push(m);
    proof {
        assert(next.drop_last() =~= prefix);
        assert(m == entries_map(entries@));
    }
    let mut j: usize = 0;
    while j < entries.len()
        invariant
            j <= entries@.len(),
            m == entries_map(entries@),
            distinct_names(entries@),
            next.drop_last() == prefix,
            next.last() == m,
            next.len() == prefix.len() + 1,
            prefix.len() < usize::MAX,
            stats_distinct(stats@),
            forall|k: Seq<char>| #[trigger]
                stat_names(stats@).contains(k) <==> (all_names(prefix).contains(k) || has_name(
                    entries@.take(j as int),
                    k,
                )),
            forall|i: int|
                0 <= i < stats@.len() ==> stats_view(#[trigger] stats@[i].1) == if has_name(
                    entries@.take(j as int),
                    stats@[i].0@,
                ) {
                    add_record_tally(tally(prefix, stats@[i].0@), m, stats@[i].0@)
                } else {
                    tally(prefix, stats@[i].0@)
                },
        decreases entries@.len() - j,
    {
        let name = entries[j].0.as_str();
        let kind = classify_value(&entries[j].1);
        let ghost key = name@;
        proof {
            lemma_entry_lookup(entries@, j as int);
            assert(m.dom().contains(key) && m[key] == entries@[j as int].1);
            assert(!has_name(entries@.take(j as int), key)) by {
                if has_name(entries@.take(j as int), key) {
                    let q = name_index(entries@.take(j as int), key);
                    assert(entries@[q].0@ == entries@[j as int].0@);
                }
            }
            assert forall|k: Seq<char>| k != key implies has_name(entries@.take(j + 1), k)
                == has_name(entries@.take(j as int), k) by {
                if has_name(entries@.take(j + 1), k) {
                    let q = name_index(entries@.take(j + 1), k);
                    assert(entries@.take(j as int)[q] == entries@.take(j + 1)[q]);
                }
                if has_name(entries@.take(j as int), k) {
                    let q = name_index(entries@.take(j as int), k);
                    assert(entries@.take(j + 1)[q] == entries@.take(j as int)[q]);
                }
            }
            assert(has_name(entries@.take(j + 1), key)) by {
                assert(entries@.take(j + 1)[j as int].0@ == key);
            }
            lemma_tally_bounds(prefix, key);
        }
        let ghost before = stats@;
        match find_stats(stats, name) {
            Some(i) => {
                let stat_name = stats[i].0.clone();
                let old_stats = stats[i].1;
                proof {
                    assert(stats_view(old_stats) == tally(prefix, key));
                }
                let updated = count_value(old_stats, kind);
                stats.set(i, (stat_name, updated));
                proof {
                    assert forall|a: int, b: int|
                        0 <= a < stats@.len() && 0 <= b < stats@.len() && a != b implies #[trigger] stats@[a].0@
                        != #[trigger] stats@[b].0@ by {
                        assert(stats@[a].0@ == before[a].0@);
                        assert(stats@[b].0@ == before[b].0@);
                    }
                    assert forall|k: Seq<char>| #[trigger]
                        stat_names(stats@).contains(k) <==> stat_names(before).contains(k) by {
                        if stat_names(stats@).contains(k) {
                            let q = choose|q: int| 0 <= q < stats@.len() && #[trigger] stats@[q].0@ == k;
                            assert(before[q].0@ == k);
                        }
                        if stat_names(before).contains(k) {
                            let q = choose|q: int| 0 <= q < before.len() && #[trigger] before[q].0@ == k;
                            assert(stats@[q].0@ == k);
                        }
                    }
                }
            },
            None => {
                proof {
                    assert(!all_names(prefix).contains(key));
                    lemma_tally_absent(prefix, key);
                }
                let fresh = TypeStats {
                    int_count: 0,
                    float_count: 0,
                    bool_count: 0,
                    string_count: 0,
                    nullable: false,
                    present: 0,
                };
                let updated = count_value(fresh, kind);
                stats.push((crate::text::owned(name), updated));
                proof {
                    let n = before.len() as int;
                    assert forall|a: int, b: int|
                        0 <= a < stats@.len() && 0 <= b < stats@.len() && a != b implies #[trigger] stats@[a].0@
                        != #[trigger] stats@[b].0@ by {
                        if a == n {
                            assert(stat_names(before).contains(before[b].0@));
                        } else if b == n {
                            assert(stat_names(before).contains(before[a].0@));
                        } else {
                            assert(stats@[a] == before[a] && stats@[b] == before[b]);
                        }
                    }
                    assert forall|k: Seq<char>| #[trigger]
                        stat_names(stats@).contains(k) <==> (stat_names(before).contains(k) || k
                        == key) by {
                        if stat_names(stats@).contains(k) {
                            let q = choose|q: int| 0 <= q < stats@.len() && #[trigger] stats@[q].0@ == k;
                            if q < n {
                                assert(before[q].0@ == k);
                            }
                        }
                        if stat_names(before).contains(k) {
                            let q = choose|q: int| 0 <= q < before.len() && #[trigger] before[q].0@ == k;
                            assert(stats@[q].0@ == k);
                        }
                        if k == key {
                            assert(stats@[n].0@ == k);
                        }
                    }
                }
            },
        }
        j = j + 1;
    }
    proof {
        assert(entries@.take(entries@.len() as int) =~= entries@);
        assert forall|k: Seq<char>| has_name(entries@, k) == m.dom().contains(k) by {}
        assert forall|k: Seq<char>| #[trigger]
            all_names(next).contains(k) <==> (all_names(prefix).contains(k) || m.dom().contains(k)) by {
            if all_names(next).contains(k) {
                let q = choose|q: int| 0 <= q < next.len() && #[trigger] next[q].dom().contains(k);
                if q < prefix.len() {
                    assert(prefix[q] == next[q]);
                }
            }
            if all_names(prefix).contains(k) {
                let q = choose|q: int| 0 <= q < prefix.len() && #[trigger] prefix[q].dom().contains(k);
                assert(next[q] == prefix[q]);
            }
            if m.dom().contains(k) {
                assert(next[next.len() - 1] == m);
            }
        }
        assert(stat_names(stats@) =~= all_names(next));
        assert forall|i: int| 0 <= i < stats@.len() implies stats_view(#[trigger] stats@[i].1) == tally(
            next,
            stats@[i].0@,
        ) by {
            assert(tally(next, stats@[i].0@) == add_record_tally(
                tally(prefix, stats@[i].0@),
                m,
                stats@[i].0@,
            ));
        }
    }
}

/// Inserts `f` among `fields`, keeping the names in order.
fn insert_sorted(fields: &mut Vec<Field>, f: Field)
    requires
        sorted_by_name(old(fields)@),
        !field_names(old(fields)@).contains(f.spec_name()),
    ensures
        sorted_by_name(final(fields)@),
        exists|p: int| 0 <= p <= old(fields)@.len() && final(fields)@ == old(fields)@.insert(p, f),
        field_names(final(fields)@) == field_names(old(fields)@).insert(f.spec_name()),
{
    let ghost before = fields@;
    let mut p: usize = 0;
    while p < fields.len() && str_less(fields[p].name(), f.name())
        invariant
            p <= fields@.len(),
            fields@ == before,
            forall|q: int| 0 <= q < p ==> seq_less(#[trigger] before[q].spec_name(), f.spec_name()),
        decreases fields@.len() - p,
    {
        p = p + 1;
    }
    proof {
        if p < before.len() {
            assert(before[p as int].spec_name() != f.spec_name()) by {
                assert(field_names(before).contains(before[p as int].spec_name()));
            }
            lemma_seq_less_total(before[p as int].spec_name(), f.spec_name());
        }
    }
    fields.insert(p, f);
    proof {
        let after = fields@;
        assert(after =~= before.insert(p as int, f));
        before.insert_ensures(p as int, f);
        assert forall|a: int, b: int| 0 <= a < b < after.len() implies seq_less(
            #[trigger] after[a].spec_name(),
            #[trigger] after[b].spec_name(),
        ) by {
            if b < p {
                assert(after[a] == before[a] && after[b] == before[b]);
            } else if b == p {
                assert(after[a] == before[a]);
            } else if a == p {
                assert(after[b] == before[b - 1]);
                if b - 1 > p {
                    lemma_seq_less_transitive(f.spec_name(), before[p as int].spec_name(), before[b - 1].spec_name());
                }
            } else if a < p {
                assert(after[a] == before[a] && after[b] == before[b - 1]);
            } else {
                assert(after[a] == before[a - 1] && after[b] == before[b - 1]);
            }
        }
        assert forall|k: Seq<char>| #[trigger] field_names(after).contains(k) <==> (field_names(before).contains(k)
            || k == f.spec_name()) by {
            if field_names(after).contains(k) {
                let q = choose|q: int| 0 <= q < after.len() && #[trigger] after[q].spec_name() == k;
                if q < p {
                    assert(before[q] == after[q]);
                } else if q > p {
                    assert(before[q - 1] == after[q]);
                }
            }
            if field_names(before).contains(k) {
                let q = choose|q: int| 0 <= q < before.len() && #[trigger] before[q].spec_name() == k;
                if q < p {
                    assert(after[q] == before[q]);
                } else {
                    assert(after[q + 1] == before[q]);
                }
            }
            if k == f.spec_name() {
                assert(after[p as int] == f);
            }
        }
        assert(field_names(after) =~= field_names(before).insert(f.spec_name()));
    }
}

impl Schema {
    /// Infers the schema from a slice of records by inspecting their values.
    /// It counts type occurrences and selects the most common type for each field
    /// (majority voting), making it robust against dirty or corrupted cells.
    /// The fields come sorted by name.
    pub fn infer(records: &[Record]) -> (r: Schema)
        ensures
            inferred_from(r.spec_fields(), record_views(records@)),
            sorted_by_name(r.spec_fields()),
            field_names(r.spec_fields()) == all_names(record_views(records@)),
            forall|i: int|
                0 <= i < r.spec_fields().len() ==> {
                    let f = #[trigger] r.spec_fields()[i];
                    &&& f.spec_data_type() == majority_type(
                        tally(record_views(records@), f.spec_name()),
                    )
                    &&& f.spec_nullable() == inferred_nullable(
                        record_views(records@),
                        f.spec_name(),
                    )
                },
    {
        let ghost views = record_views(records@);
        let mut stats: Vec<(String, TypeStats)> = Vec::new();
        let mut i: usize = 0;
        proof {
            assert(views.take(0) =~= Seq::<Map<Seq<char>, Value>>::empty());
            assert(stat_names(stats@) =~= all_names(views.take(0)));
        }
        while i < records.len()
            invariant
                i <= records@.len(),
                views == record_views(records@),
                stats_match(stats@, views.take(i as int)),
            decreases records@.len() - i,
        {
            add_record(&mut stats, &records[i], Ghost(views.take(i as int)));
            proof {
                assert(views.take(i as int).push(records@[i as int]@) =~= views.take(i + 1));
            }
            i = i + 1;
        }
        proof {
            assert(views.take(records@.len() as int) =~= views);
        }
        let total = records.len();
        let mut fields: Vec<Field> = Vec::new();
        let mut m: usize = 0;
        while m < stats.len()
            invariant
                m <= stats@.len(),
                total == views.len(),
                stats_match(stats@, views),
                sorted_by_name(fields@),
                field_names(fields@) == stat_names(stats@.take(m as int)),
                forall|q: int|
                    0 <= q < fields@.len() ==> {
                        let f = #[trigger] fields@[q];
                        &&& f.spec_data_type() == majority_type(tally(views, f.spec_name()))
                        &&& f.spec_nullable() == inferred_nullable(views, f.spec_name())
                    },
            decreases stats@.len() - m,
        {
            let name = stats[m].0.clone();
            let s = stats[m].1;
            proof {
                assert(stats_view(s) == tally(views, name@));
            }
            proof {
                lemma_tally_bounds(views, name@);
            }
            let total_non_null = s.int_count + s.float_count + s.bool_count + s.string_count;
            let numbers = s.int_count + s.float_count;
            let data_type = if total_non_null == 0 {
                DataType::String
            } else if s.int_count > total_non_null - s.int_count {
                DataType::Int64
            } else if numbers > total_non_null - numbers {
                DataType::Float64
            } else if s.bool_count > total_non_null - s.bool_count {
                DataType::Boolean
            } else {
                DataType::String
            };
            let nullable = s.nullable || s.present < total;
            let field = Field::new(name.as_str(), data_type, nullable);
            proof {
                assert(!field_names(fields@).contains(name@)) by {
                    if stat_names(stats@.take(m as int)).contains(name@) {
                        let q = choose|q: int|
                            0 <= q < m && #[trigger] stats@.take(m as int)[q].0@ == name@;
                        assert(stats@[q].0@ == stats@[m as int].0@);
                    }
                }
            }
            let ghost before = fields@;
            insert_sorted(&mut fields, field);
            proof {
                assert forall|q: int| 0 <= q < fields@.len() implies {
                    let f = #[trigger] fields@[q];
                    &&& f.spec_data_type() == majority_type(tally(views, f.spec_name()))
                    &&& f.spec_nullable() == inferred_nullable(views, f.spec_name())
                } by {
                    let p = choose|p: int| 0 <= p <= before.len() && fields@ == before.insert(p, field);
                    before.insert_ensures(p, field);
                    if q < p {
                        assert(fields@[q] == before[q]);
                    } else if q > p {
                        assert(fields@[q] == before[q - 1]);
                    }
                }
                assert forall|k: Seq<char>| #[trigger] stat_names(stats@.take(m + 1)).contains(k) <==> (
                stat_names(stats@.take(m as int)).contains(k) || k == name@) by {
                    if stat_names(stats@.take(m + 1)).contains(k) {
                        let q = choose|q: int| 0 <= q < m + 1 && #[trigger] stats@.take(m + 1)[q].0@ == k;
                        if q < m {
                            assert(stats@.take(m as int)[q] == stats@.take(m + 1)[q]);
                        }
                    }
                    if stat_names(stats@.take(m as int)).contains(k) {
                        let q = choose|q: int| 0 <= q < m && #[trigger] stats@.take(m as int)[q].0@ == k;
                        assert(stats@.take(m + 1)[q] == stats@.take(m as int)[q]);
                    }
                    if k == name@ {
                        assert(stats@.take(m + 1)[m as int].0@ == k);
                    }
                }
                assert(field_names(fields@) =~= stat_names(stats@.take(m + 1)));
            }
            m = m + 1;
        }
        proof {
            assert(stats@.take(stats@.len() as int) =~= stats@);
        }
        Schema::new(fields)
    }
}

} // verus!
