//! The schedule normalizer: sorts raw pickup records by (date, kind),
//! splits them into contiguous same-date groups, and completes each
//! one-record group with the weekly pickups the scraped page leaves
//! implicit. This is the one inference the engine performs.

use vstd::prelude::*;
use vstd::relations::{antisymmetric, reflexive, sorted_by, strongly_connected, total_ordering, transitive};
use vstd::seq_lib::lemma_sorted_unique;

use crate::date::{date_lt, Date};
use crate::pickup::{kind_rank, Pickup, PickupType};

verus! {

/// Non-strict order on pickup records: by date ascending, then by the fixed
/// kind order Recyclables < Organics < Trash.
pub open spec fn pickup_le(a: Pickup, b: Pickup) -> bool {
    date_lt(a.date, b.date) || (a.date == b.date && kind_rank(a.name) <= kind_rank(b.name))
}

/// The record order as a value, for the sorting machinery.
pub open spec fn pickup_leq() -> spec_fn(Pickup, Pickup) -> bool {
    |a: Pickup, b: Pickup| pickup_le(a, b)
}

/// The record order is total: records sort into exactly one arrangement.
pub proof fn lemma_pickup_order_total()
    ensures
        total_ordering(pickup_leq()),
{
    let leq = pickup_leq();
    assert forall|a: Pickup, b: Pickup| #[trigger] leq(a, b) && #[trigger] leq(b, a) implies a
        == b by {
        assert(a.date == b.date);
        assert(kind_rank(a.name) == kind_rank(b.name));
        assert(a.name == b.name);
    }
    assert(reflexive(leq));
    assert(antisymmetric(leq));
    assert(transitive(leq));
    assert(strongly_connected(leq));
}

/// How many records at the front of `s` fall on date `d`.
pub open spec fn run_len(s: Seq<Pickup>, d: Date) -> nat
    decreases s.len(),
{
    if s.len() == 0 || s[0].date != d {
        0
    } else {
        (1 + run_len(s.drop_first(), d)) as nat
    }
}

/// The defining properties of `run_len`: it measures the maximal prefix of
/// records on date `d`.
proof fn lemma_run_len_props(s: Seq<Pickup>, d: Date)
    ensures
        run_len(s, d) <= s.len(),
        forall|i: int| 0 <= i < run_len(s, d) ==> s[i].date == d,
        run_len(s, d) < s.len() ==> s[run_len(s, d) as int].date != d,
    decreases s.len(),
{
    if s.len() == 0 || s[0].date != d {
    } else {
        lemma_run_len_props(s.drop_first(), d);
        assert forall|i: int| 0 <= i < run_len(s, d) implies s[i].date == d by {
            if i > 0 {
                assert(s.drop_first()[i - 1].date == d);
            }
        }
        if run_len(s, d) < s.len() {
            assert(s.drop_first()[run_len(s.drop_first(), d) as int].date != d);
        }
    }
}

/// Appending records that do not fall on `d` does not change the length of
/// the front run on `d`.
proof fn lemma_run_len_concat(a: Seq<Pickup>, b: Seq<Pickup>, d: Date)
    requires
        b.len() > 0 ==> b[0].date != d,
    ensures
        run_len(a + b, d) == run_len(a, d),
    decreases a.len(),
{
    if a.len() == 0 {
        assert(a + b =~= b);
    } else {
        assert((a + b)[0] == a[0]);
        if a[0].date == d {
            assert((a + b).drop_first() =~= a.drop_first() + b);
            lemma_run_len_concat(a.drop_first(), b, d);
        }
    }
}

/// What a one-record date group becomes. Trash collection always implies
/// Organics collection the same week, so a lone record is completed with
/// the records the page left implicit; only Recyclables is never invented
/// for a record that does not already name it. The completion looks only
/// at the group's size, never at the lone record's kind, exactly as the
/// observed municipal convention has it.
pub open spec fn lone_emit(p: Pickup) -> Seq<Pickup> {
    match p.name {
        PickupType::Trash => seq![
            Pickup { date: p.date, name: PickupType::Organics },
            Pickup { date: p.date, name: PickupType::Trash },
        ],
        PickupType::Recyclables => seq![
            Pickup { date: p.date, name: PickupType::Recyclables },
            Pickup { date: p.date, name: PickupType::Organics },
            Pickup { date: p.date, name: PickupType::Trash },
        ],
        PickupType::Organics => seq![
            Pickup { date: p.date, name: PickupType::Organics },
            Pickup { date: p.date, name: PickupType::Organics },
            Pickup { date: p.date, name: PickupType::Trash },
        ],
    }
}

/// What a whole date group becomes: a one-record group is completed, any
/// larger group is emitted unchanged.
pub open spec fn emit_group(g: Seq<Pickup>) -> Seq<Pickup> {
    if g.len() == 1 {
        lone_emit(g[0])
    } else {
        g
    }
}

/// Normalization of an already-sorted record sequence: emit each contiguous
/// same-date group in order, completing the one-record groups.
pub open spec fn norm_sorted(s: Seq<Pickup>) -> Seq<Pickup>
    decreases s.len(),
    via norm_sorted_dec
{
    if s.len() == 0 {
        Seq::empty()
    } else {
        let n = run_len(s, s[0].date) as int;
        emit_group(s.take(n)) + norm_sorted(s.skip(n))
    }
}

#[via_fn]
proof fn norm_sorted_dec(s: Seq<Pickup>) {
    if s.len() > 0 {
        lemma_run_len_props(s, s[0].date);
        assert(run_len(s, s[0].date) >= 1);
    }
}

/// Normalization of an arbitrary record sequence: sort by (date, kind),
/// then complete the one-record date groups.
pub open spec fn spec_normalize(s: Seq<Pickup>) -> Seq<Pickup> {
    norm_sorted(s.sort_by(pickup_leq()))
}

/// A run covers the whole sequence when every record falls on `d`.
proof fn lemma_run_len_all(s: Seq<Pickup>, d: Date)
    requires
        forall|i: int| 0 <= i < s.len() ==> s[i].date == d,
    ensures
        run_len(s, d) == s.len(),
    decreases s.len(),
{
    if s.len() > 0 {
        assert(s[0].date == d);
        assert forall|i: int| 0 <= i < s.drop_first().len() implies s.drop_first()[i].date
            == d by {
            assert(s.drop_first()[i] == s[i + 1]);
        }
        lemma_run_len_all(s.drop_first(), d);
    }
}

/// Normalizing a sorted sequence followed by one further date group emits
/// the group after the normalization of the prefix.
proof fn lemma_norm_append_group(s: Seq<Pickup>, g: Seq<Pickup>)
    requires
        sorted_by(s + g, pickup_leq()),
        g.len() > 0,
        forall|i: int| 0 <= i < g.len() ==> (#[trigger] g[i]).date == g[0].date,
        forall|i: int| 0 <= i < s.len() ==> (#[trigger] s[i]).date != g[0].date,
    ensures
        norm_sorted(s + g) == norm_sorted(s) + emit_group(g),
    decreases s.len(),
{
    let leq = pickup_leq();
    let d = g[0].date;
    if s.len() == 0 {
        assert(s + g =~= g);
        lemma_run_len_all(g, d);
        assert(g.take(g.len() as int) =~= g);
        assert(g.skip(g.len() as int) =~= Seq::<Pickup>::empty());
        assert(norm_sorted(s) =~= Seq::<Pickup>::empty());
        assert(norm_sorted(g) == emit_group(g) + norm_sorted(Seq::<Pickup>::empty()));
        assert(emit_group(g) + Seq::<Pickup>::empty() =~= emit_group(g));
        assert(Seq::<Pickup>::empty() + emit_group(g) =~= emit_group(g));
    } else {
        let d0 = s[0].date;
        assert((s + g)[0] == s[0]);
        lemma_run_len_concat(s, g, d0);
        lemma_run_len_props(s, d0);
        let n = run_len(s, d0) as int;
        assert((s + g).take(n) =~= s.take(n));
        assert((s + g).skip(n) =~= s.skip(n) + g);
        // the tail with the group appended is itself sorted
        assert forall|a: int, b: int| 0 <= a < b < (s.skip(n) + g).len() implies #[trigger] leq(
            (s.skip(n) + g)[a],
            (s.skip(n) + g)[b],
        ) by {
            assert((s.skip(n) + g)[a] == (s + g)[n + a]);
            assert((s.skip(n) + g)[b] == (s + g)[n + b]);
            assert(leq((s + g)[n + a], (s + g)[n + b]));
        }
        assert forall|i: int| 0 <= i < s.skip(n).len() implies s.skip(n)[i].date != d by {
            assert(s.skip(n)[i] == s[n + i]);
        }
        lemma_norm_append_group(s.skip(n), g);
        assert(norm_sorted(s + g) == emit_group(s.take(n)) + (norm_sorted(s.skip(n)) + emit_group(
            g,
        )));
        assert(norm_sorted(s) == emit_group(s.take(n)) + norm_sorted(s.skip(n)));
        assert(emit_group(s.take(n)) + (norm_sorted(s.skip(n)) + emit_group(g)) =~= (emit_group(
            s.take(n),
        ) + norm_sorted(s.skip(n))) + emit_group(g));
    }
}

/// What a date group emits: at least two records, all on the group's date,
/// still in (date, kind) order.
proof fn lemma_emit_group_props(g: Seq<Pickup>)
    requires
        g.len() > 0,
        forall|i: int| 0 <= i < g.len() ==> (#[trigger] g[i]).date == g[0].date,
        sorted_by(g, pickup_leq()),
    ensures
        emit_group(g).len() >= 2,
        forall|i: int|
            0 <= i < emit_group(g).len() ==> (#[trigger] emit_group(g)[i]).date == g[0].date,
        sorted_by(emit_group(g), pickup_leq()),
{
    let leq = pickup_leq();
    let e = emit_group(g);
    if g.len() == 1 {
        assert forall|a: int, b: int| 0 <= a < b < e.len() implies #[trigger] leq(e[a], e[b]) by {
            assert(e[a].date == e[b].date);
        }
    }
}

/// Normalizing a sorted sequence keeps it sorted, and every emitted record
/// stays on or after the first input date.
proof fn lemma_norm_sorted_sorted(s: Seq<Pickup>)
    requires
        sorted_by(s, pickup_leq()),
    ensures
        sorted_by(norm_sorted(s), pickup_leq()),
        norm_sorted(s).len() == 0 <==> s.len() == 0,
        forall|i: int|
            0 <= i < norm_sorted(s).len() && s.len() > 0 ==> crate::date::date_le(
                s[0].date,
                (#[trigger] norm_sorted(s)[i]).date,
            ),
    decreases s.len(),
{
    let leq = pickup_leq();
    if s.len() > 0 {
        let d0 = s[0].date;
        lemma_run_len_props(s, d0);
        let n = run_len(s, d0) as int;
        let g = s.take(n);
        let rest = s.skip(n);
        let nm = norm_sorted(s);
        assert(nm == emit_group(g) + norm_sorted(rest));
        assert forall|k: int| 0 <= k < g.len() implies (#[trigger] g[k]).date == g[0].date by {
            assert(g[k] == s[k]);
        }
        assert forall|a: int, b: int| 0 <= a < b < g.len() implies #[trigger] leq(g[a], g[b]) by {
            assert(g[a] == s[a]);
            assert(g[b] == s[b]);
            assert(leq(s[a], s[b]));
        }
        lemma_emit_group_props(g);
        assert forall|a: int, b: int| 0 <= a < b < rest.len() implies #[trigger] leq(
            rest[a],
            rest[b],
        ) by {
            assert(rest[a] == s[n + a]);
            assert(rest[b] == s[n + b]);
            assert(leq(s[n + a], s[n + b]));
        }
        lemma_norm_sorted_sorted(rest);
        let ee = emit_group(g);
        let nn = norm_sorted(rest);
        if rest.len() > 0 {
            assert(rest[0] == s[n]);
            assert(s[n].date != d0);
            assert(leq(s[0], s[n]));
            assert(date_lt(d0, rest[0].date));
        }
        assert forall|a: int, b: int| 0 <= a < b < nm.len() implies #[trigger] leq(
            nm[a],
            nm[b],
        ) by {
            if b < ee.len() {
                assert(nm[a] == ee[a]);
                assert(nm[b] == ee[b]);
                assert(leq(ee[a], ee[b]));
            } else if a >= ee.len() {
                assert(nm[a] == nn[a - ee.len()]);
                assert(nm[b] == nn[b - ee.len()]);
                assert(leq(nn[a - ee.len()], nn[b - ee.len()]));
            } else {
                assert(nm[a] == ee[a]);
                assert(nm[b] == nn[b - ee.len()]);
                assert(ee[a].date == d0);
                assert(rest.len() > 0);
                assert(crate::date::date_le(rest[0].date, nn[b - ee.len()].date));
                assert(date_lt(d0, nn[b - ee.len()].date));
            }
        }
        assert forall|i: int| 0 <= i < nm.len() && s.len() > 0 implies crate::date::date_le(
            d0,
            (#[trigger] nm[i]).date,
        ) by {
            if i < ee.len() {
                assert(nm[i] == ee[i]);
                assert(nm[i].date == d0);
            } else {
                assert(nm[i] == nn[i - ee.len()]);
                assert(rest.len() > 0);
                assert(crate::date::date_le(rest[0].date, nn[i - ee.len()].date));
                assert(date_lt(d0, rest[0].date));
            }
        }
    }
}

/// Normalization changes nothing the second time: every date group it
/// emits already has two or more records.
proof fn lemma_norm_sorted_idempotent(s: Seq<Pickup>)
    requires
        sorted_by(s, pickup_leq()),
    ensures
        norm_sorted(norm_sorted(s)) == norm_sorted(s),
    decreases s.len(),
{
    let leq = pickup_leq();
    if s.len() > 0 {
        let d0 = s[0].date;
        lemma_run_len_props(s, d0);
        let n = run_len(s, d0) as int;
        let g = s.take(n);
        let rest = s.skip(n);
        assert forall|k: int| 0 <= k < g.len() implies (#[trigger] g[k]).date == g[0].date by {
            assert(g[k] == s[k]);
        }
        assert forall|a: int, b: int| 0 <= a < b < g.len() implies #[trigger] leq(g[a], g[b]) by {
            assert(g[a] == s[a]);
            assert(g[b] == s[b]);
            assert(leq(s[a], s[b]));
        }
        lemma_emit_group_props(g);
        assert forall|a: int, b: int| 0 <= a < b < rest.len() implies #[trigger] leq(
            rest[a],
            rest[b],
        ) by {
            assert(rest[a] == s[n + a]);
            assert(rest[b] == s[n + b]);
            assert(leq(s[n + a], s[n + b]));
        }
        lemma_norm_sorted_sorted(rest);
        let ee = emit_group(g);
        let nn = norm_sorted(rest);
        assert(norm_sorted(s) == ee + nn);
        assert(ee[0].date == d0);
        if nn.len() > 0 {
            assert(rest.len() > 0);
            assert(rest[0] == s[n]);
            assert(leq(s[0], s[n]));
            assert(date_lt(d0, rest[0].date));
            assert(crate::date::date_le(rest[0].date, nn[0].date));
            assert(nn[0].date != d0);
        }
        lemma_run_len_all(ee, d0);
        lemma_run_len_concat(ee, nn, d0);
        assert((ee + nn)[0] == ee[0]);
        assert(run_len(ee + nn, d0) == ee.len());
        assert((ee + nn).take(ee.len() as int) =~= ee);
        assert((ee + nn).skip(ee.len() as int) =~= nn);
        lemma_norm_sorted_idempotent(rest);
        assert(norm_sorted(ee + nn) == emit_group(ee) + norm_sorted(nn));
        assert(emit_group(ee) == ee);
        assert(norm_sorted(nn) == nn);
    }
}

/// The record order handed to `filter`: falling on the one date `d`.
pub open spec fn on_date(d: Date) -> spec_fn(Pickup) -> bool {
    |p: Pickup| p.date == d
}

/// Filtering keeps everything when every record passes.
proof fn lemma_filter_all(s: Seq<Pickup>, pred: spec_fn(Pickup) -> bool)
    requires
        forall|i: int| 0 <= i < s.len() ==> pred(#[trigger] s[i]),
    ensures
        s.filter(pred) == s,
    decreases s.len(),
{
    reveal(Seq::filter);
    if s.len() > 0 {
        assert forall|i: int| 0 <= i < s.drop_last().len() implies pred(
            #[trigger] s.drop_last()[i],
        ) by {
            assert(s.drop_last()[i] == s[i]);
        }
        lemma_filter_all(s.drop_last(), pred);
        assert(pred(s.last()));
        assert(s.drop_last().push(s.last()) =~= s);
    }
}

/// Filtering keeps nothing when no record passes.
proof fn lemma_filter_none(s: Seq<Pickup>, pred: spec_fn(Pickup) -> bool)
    requires
        forall|i: int| 0 <= i < s.len() ==> !pred(#[trigger] s[i]),
    ensures
        s.filter(pred) == Seq::<Pickup>::empty(),
    decreases s.len(),
{
    reveal(Seq::filter);
    if s.len() > 0 {
        assert forall|i: int| 0 <= i < s.drop_last().len() implies !pred(
            #[trigger] s.drop_last()[i],
        ) by {
            assert(s.drop_last()[i] == s[i]);
        }
        lemma_filter_none(s.drop_last(), pred);
        assert(!pred(s.last()));
    }
}

/// In a sorted sequence whose only record on date `d` stands at index `i`,
/// the normalized entries on `d` are exactly what that lone group emits.
proof fn lemma_norm_lone_date(s: Seq<Pickup>, d: Date, i: int)
    requires
        sorted_by(s, pickup_leq()),
        0 <= i < s.len(),
        s[i].date == d,
        forall|k: int| 0 <= k < s.len() && k != i ==> (#[trigger] s[k]).date != d,
    ensures
        norm_sorted(s).filter(on_date(d)) == lone_emit(s[i]),
    decreases s.len(),
{
    let leq = pickup_leq();
    let pd = on_date(d);
    let d0 = s[0].date;
    lemma_run_len_props(s, d0);
    let n = run_len(s, d0) as int;
    let g = s.take(n);
    let rest = s.skip(n);
    assert forall|k: int| 0 <= k < g.len() implies (#[trigger] g[k]).date == g[0].date by {
        assert(g[k] == s[k]);
    }
    assert forall|a: int, b: int| 0 <= a < b < g.len() implies #[trigger] leq(g[a], g[b]) by {
        assert(g[a] == s[a]);
        assert(g[b] == s[b]);
        assert(leq(s[a], s[b]));
    }
    lemma_emit_group_props(g);
    assert forall|a: int, b: int| 0 <= a < b < rest.len() implies #[trigger] leq(
        rest[a],
        rest[b],
    ) by {
        assert(rest[a] == s[n + a]);
        assert(rest[b] == s[n + b]);
        assert(leq(s[n + a], s[n + b]));
    }
    lemma_norm_sorted_sorted(rest);
    let ee = emit_group(g);
    let nn = norm_sorted(rest);
    assert(norm_sorted(s) == ee + nn);
    Seq::filter_distributes_over_add(ee, nn, pd);
    if rest.len() > 0 {
        assert(rest[0] == s[n]);
        assert(s[n].date != d0);
        assert(leq(s[0], s[n]));
        assert(date_lt(d0, rest[0].date));
    }
    if i < n {
        assert(s[i].date == d0);
        assert(d == d0);
        if n >= 2 {
            if i == 0 {
                assert(s[1].date == d0);
                assert(false);
            } else {
                assert(s[0].date == d0);
                assert(false);
            }
        }
        assert(n == 1);
        assert(i == 0);
        assert(g =~= seq![s[0]]);
        assert(ee == lone_emit(s[0]));
        assert forall|k: int| 0 <= k < ee.len() implies pd(#[trigger] ee[k]) by {
            assert(ee[k].date == g[0].date);
        }
        lemma_filter_all(ee, pd);
        assert forall|k: int| 0 <= k < nn.len() implies !pd(#[trigger] nn[k]) by {
            assert(rest.len() > 0);
            assert(crate::date::date_le(rest[0].date, nn[k].date));
            assert(date_lt(d, nn[k].date));
        }
        lemma_filter_none(nn, pd);
        assert(ee + Seq::<Pickup>::empty() =~= ee);
    } else {
        // the lone date-`d` record lies beyond this first group
        assert(s[i].date != d0) by {
            if s[i].date == d0 {
                assert(leq(s[n], s[i]));
                assert(s[n].date != d0);
                assert(leq(s[0], s[n]));
                assert(date_lt(d0, s[n].date));
                assert(crate::date::date_le(s[n].date, s[i].date));
            }
        }
        assert(d != d0);
        assert forall|k: int| 0 <= k < ee.len() implies !pd(#[trigger] ee[k]) by {
            assert(ee[k].date == g[0].date);
        }
        lemma_filter_none(ee, pd);
        assert(rest[i - n] == s[i]);
        assert forall|k: int| 0 <= k < rest.len() && k != i - n implies (
        #[trigger] rest[k]).date != d by {
            assert(rest[k] == s[n + k]);
        }
        lemma_norm_lone_date(rest, d, i - n);
        assert(Seq::<Pickup>::empty() + lone_emit(s[i]) =~= lone_emit(s[i]));
    }
}

/// Normalizing a sorted sequence emits records only on dates the input
/// already has.
proof fn lemma_norm_sorted_dates(s: Seq<Pickup>)
    ensures
        forall|i: int|
            0 <= i < norm_sorted(s).len() ==> exists|j: int|
                0 <= j < s.len() && (#[trigger] norm_sorted(s)[i]).date == s[j].date,
    decreases s.len(),
{
    if s.len() > 0 {
        let d0 = s[0].date;
        lemma_run_len_props(s, d0);
        let n = run_len(s, d0) as int;
        let g = s.take(n);
        let rest = s.skip(n);
        let ee = emit_group(g);
        let nn = norm_sorted(rest);
        lemma_norm_sorted_dates(rest);
        assert forall|i: int| 0 <= i < norm_sorted(s).len() implies exists|j: int|
            0 <= j < s.len() && (#[trigger] norm_sorted(s)[i]).date == s[j].date by {
            if i < ee.len() {
                if g.len() == 1 {
                    assert(g[0] == s[0]);
                    assert(norm_sorted(s)[i] == ee[i]);
                    assert(ee[i].date == s[0].date);
                } else {
                    assert(norm_sorted(s)[i] == g[i]);
                    assert(g[i] == s[i]);
                }
            } else {
                assert(norm_sorted(s)[i] == nn[i - ee.len()]);
                let j = choose|j: int|
                    0 <= j < rest.len() && nn[i - ee.len()].date == rest[j].date;
                assert(rest[j] == s[n + j]);
            }
        }
    }
}

/// Law: normalization emits records only on dates the raw input already
/// observes; in particular every emitted date is a real calendar day
/// whenever every input date is.
pub proof fn lemma_normalize_dates(s: Seq<Pickup>)
    ensures
        forall|i: int|
            0 <= i < spec_normalize(s).len() ==> exists|j: int|
                0 <= j < s.len() && (#[trigger] spec_normalize(s)[i]).date == s[j].date,
{
    broadcast use vstd::multiset::group_multiset_axioms;
    broadcast use vstd::seq_lib::group_to_multiset_ensures;

    let leq = pickup_leq();
    let t = s.sort_by(leq);
    lemma_pickup_order_total();
    s.lemma_sort_by_ensures(leq);
    lemma_norm_sorted_dates(t);
    assert forall|i: int| 0 <= i < spec_normalize(s).len() implies exists|j: int|
        0 <= j < s.len() && (#[trigger] spec_normalize(s)[i]).date == s[j].date by {
        let k = choose|k: int| 0 <= k < t.len() && spec_normalize(s)[i].date == t[k].date;
        assert(t.contains(t[k]));
        assert(t.to_multiset().count(t[k]) > 0);
        assert(s.to_multiset().count(t[k]) > 0);
        assert(s.contains(t[k]));
        let j = choose|j: int| 0 <= j < s.len() && s[j] == t[k];
        assert(spec_normalize(s)[i].date == s[j].date);
    }
}

/// Law: whatever the input, the normalized entries are sorted by
/// (date, kind) ascending.
pub proof fn lemma_normalize_sorted(s: Seq<Pickup>)
    ensures
        sorted_by(spec_normalize(s), pickup_leq()),
{
    lemma_pickup_order_total();
    s.lemma_sort_by_ensures(pickup_leq());
    lemma_norm_sorted_sorted(s.sort_by(pickup_leq()));
}

/// Law: normalization is idempotent. Feeding a normalized schedule's
/// entries back through normalization returns them unchanged.
pub proof fn lemma_normalize_idempotent(s: Seq<Pickup>)
    ensures
        spec_normalize(spec_normalize(s)) == spec_normalize(s),
{
    let leq = pickup_leq();
    let t = s.sort_by(leq);
    lemma_pickup_order_total();
    s.lemma_sort_by_ensures(leq);
    lemma_norm_sorted_sorted(t);
    let u = norm_sorted(t);
    u.lemma_sort_by_ensures(leq);
    lemma_sorted_unique(u.sort_by(leq), u, leq);
    lemma_norm_sorted_idempotent(t);
}

/// Law: when exactly one input record falls on date `d` and that record is
/// Trash, the normalized entries on `d` are exactly Organics then Trash —
/// the schedule never invents Recyclables, and Trash always brings
/// Organics with it.
pub proof fn lemma_lone_trash_completion(s: Seq<Pickup>, d: Date, i: int)
    requires
        0 <= i < s.len(),
        s[i] == (Pickup { date: d, name: PickupType::Trash }),
        forall|k: int| 0 <= k < s.len() && k != i ==> (#[trigger] s[k]).date != d,
    ensures
        spec_normalize(s).filter(on_date(d)) == seq![
            Pickup { date: d, name: PickupType::Organics },
            Pickup { date: d, name: PickupType::Trash },
        ],
{
    lemma_lone_group_completion(s, d, i);
}

/// Law: when exactly one input record falls on date `d`, whatever its
/// kind, the normalized entries on `d` are exactly what `lone_emit` says
/// of it — the completion looks at the group's size alone.
pub proof fn lemma_lone_group_completion(s: Seq<Pickup>, d: Date, i: int)
    requires
        0 <= i < s.len(),
        s[i].date == d,
        forall|k: int| 0 <= k < s.len() && k != i ==> (#[trigger] s[k]).date != d,
    ensures
        spec_normalize(s).filter(on_date(d)) == lone_emit(s[i]),
{
    broadcast use vstd::multiset::group_multiset_axioms;
    broadcast use vstd::seq_lib::group_to_multiset_ensures;

    let leq = pickup_leq();
    let x = s[i];
    let t = s.sort_by(leq);
    lemma_pickup_order_total();
    s.lemma_sort_by_ensures(leq);
    assert(s.contains(x));
    assert(s.to_multiset().count(x) > 0);
    assert(t.to_multiset().count(x) > 0);
    assert(t.contains(x));
    let j = choose|j: int| 0 <= j < t.len() && t[j] == x;
    // no other record of `t` falls on `d`
    assert forall|k: int| 0 <= k < t.len() && k != j implies (#[trigger] t[k]).date != d by {
        if t[k].date == d {
            if t[k] == x {
                // two copies of the record would mean two in the input
                let (lo, hi): (int, int) = if j < k {
                    (j, k)
                } else {
                    (k, j)
                };
                assert(t.remove(lo).to_multiset() =~= t.to_multiset().remove(t[lo]));
                assert(t.remove(lo)[hi - 1] == t[hi]);
                assert(t.remove(lo).contains(x));
                assert(t.remove(lo).to_multiset().count(x) > 0);
                assert(t.to_multiset().count(x) >= 2);
                assert(s.to_multiset().count(x) >= 2);
                assert(s.remove(i).to_multiset() =~= s.to_multiset().remove(s[i]));
                assert(s.remove(i).to_multiset().count(x) > 0);
                assert(s.remove(i).contains(x));
                let m = choose|m: int| 0 <= m < s.remove(i).len() && s.remove(i)[m] == x;
                if m < i {
                    assert(s.remove(i)[m] == s[m]);
                    assert(s[m].date == d);
                } else {
                    assert(s.remove(i)[m] == s[m + 1]);
                    assert(s[m + 1].date == d);
                }
                assert(false);
            } else {
                // a different record on `d` would also come from the input
                assert(t.contains(t[k]));
                assert(t.to_multiset().count(t[k]) > 0);
                assert(s.to_multiset().count(t[k]) > 0);
                assert(s.contains(t[k]));
                let m = choose|m: int| 0 <= m < s.len() && s[m] == t[k];
                assert(s[m].date == d);
                assert(m == i);
                assert(false);
            }
        }
    }
    lemma_norm_lone_date(t, d, j);
}

/// The sort rank of a kind, as executable code.
fn kind_rank_exec(k: PickupType) -> (r: u8)
    ensures
        r as int == kind_rank(k),
{
    match k {
        PickupType::Recyclables => 0,
        PickupType::Organics => 1,
        PickupType::Trash => 2,
    }
}

/// Compares two records in (date, kind) order.
fn pickup_le_exec(a: &Pickup, b: &Pickup) -> (r: bool)
    ensures
        r == pickup_le(*a, *b),
{
    if a.date == b.date {
        kind_rank_exec(a.name) <= kind_rank_exec(b.name)
    } else {
        a.date.lt(&b.date)
    }
}

/// Sorts records by (date, kind) ascending, by insertion into an already
/// sorted prefix.
fn sorted_records(v: &Vec<Pickup>) -> (r: Vec<Pickup>)
    ensures
        r@ == v@.sort_by(pickup_leq()),
        sorted_by(r@, pickup_leq()),
{
    broadcast use vstd::seq_lib::group_to_multiset_ensures;

    let mut out: Vec<Pickup> = Vec::new();
    let mut idx: usize = 0;
    while idx < v.len()
        invariant
            idx <= v.len(),
            sorted_by(out@, pickup_leq()),
            out@.to_multiset() == v@.take(idx as int).to_multiset(),
        decreases v.len() - idx,
    {
        let x = v[idx];
        let ghost pre = out@;
        let mut p: usize = 0;
        while p < out.len() && pickup_le_exec(&out[p], &x)
            invariant
                p <= out.len(),
                out@ == pre,
                forall|k: int| 0 <= k < p ==> pickup_le(out@[k], x),
            decreases out.len() - p,
        {
            p = p + 1;
        }
        out.insert(p, x);
        proof {
            broadcast use vstd::multiset::group_multiset_axioms;

            lemma_pickup_order_total();
            let leq = pickup_leq();
            pre.insert_ensures(p as int, x);
            assert(out@ == pre.insert(p as int, x));
            // the new prefix stays sorted: everything before p admits x,
            // everything from p on is at least x
            assert forall|a: int, b: int| 0 <= a < b < out@.len() implies #[trigger] leq(
                out@[a],
                out@[b],
            ) by {
                if a < p && b == p {
                    assert(pickup_le(pre[a], x));
                } else if a == p && b > p {
                    assert(!pickup_le(pre[p as int], x));
                    assert(leq(pre[p as int], x) == pickup_le(pre[p as int], x));
                    assert(leq(x, pre[p as int]));
                    if b - 1 > p {
                        assert(leq(pre[p as int], pre[b - 1]));
                    }
                    assert(leq(x, pre[b - 1]));
                } else if a < p && b > p {
                    assert(leq(pre[a], pre[b - 1]));
                } else if a > p && b > p {
                    assert(leq(pre[a - 1], pre[b - 1]));
                }
            }
            // the new prefix holds exactly the records seen so far
            let sub0 = pre.subrange(0, p as int);
            let sub1 = pre.subrange(p as int, pre.len() as int);
            assert(sub0 + sub1 =~= pre);
            vstd::seq_lib::lemma_multiset_commutative(sub0, sub1);
            vstd::seq_lib::lemma_multiset_commutative(sub0.push(x), sub1);
            vstd::seq_lib::to_multiset_build(sub0, x);
            vstd::seq_lib::to_multiset_build(v@.take(idx as int), x);
            assert(out@.to_multiset() =~= pre.to_multiset().insert(x));
            assert(v@.take(idx as int + 1) =~= v@.take(idx as int).push(x));
        }
        idx = idx + 1;
    }
    proof {
        lemma_pickup_order_total();
        v@.lemma_sort_by_ensures(pickup_leq());
        assert(v@.take(v@.len() as int) =~= v@);
        lemma_sorted_unique(out@, v@.sort_by(pickup_leq()), pickup_leq());
    }
    out
}

/// Sorts the raw records by (date, kind) and completes every one-record
/// date group, returning the canonical entry sequence.
pub fn normalize_records(v: &Vec<Pickup>) -> (r: Vec<Pickup>)
    ensures
        r@ == spec_normalize(v@),
{
    let sorted = sorted_records(v);
    let ghost sv = sorted@;
    let mut out: Vec<Pickup> = Vec::new();
    let mut i: usize = 0;
    while i < sorted.len()
        invariant
            0 <= i <= sv.len(),
            sorted@ == sv,
            sorted_by(sv, pickup_leq()),
            forall|k: int|
                0 <= k < i && i < sv.len() ==> (#[trigger] sv[k]).date != sv[i as int].date,
            out@ == norm_sorted(sv.take(i as int)),
        decreases sv.len() - i,
    {
        let d = sorted[i].date;
        let mut j: usize = i + 1;
        while j < sorted.len() && sorted[j].date == d
            invariant
                i < j <= sv.len(),
                i < sv.len(),
                sorted@ == sv,
                d == sv[i as int].date,
                forall|k: int| i <= k < j ==> (#[trigger] sv[k]).date == d,
            decreases sv.len() - j,
        {
            j = j + 1;
        }
        let ghost base = out@;
        let ghost g = sv.subrange(i as int, j as int);
        if j - i == 1 {
            let p = sorted[i];
            match p.name {
                PickupType::Trash => {
                    out.push(Pickup::new(PickupType::Organics, d));
                    out.push(Pickup::new(PickupType::Trash, d));
                },
                PickupType::Recyclables => {
                    out.push(Pickup::new(PickupType::Recyclables, d));
                    out.push(Pickup::new(PickupType::Organics, d));
                    out.push(Pickup::new(PickupType::Trash, d));
                },
                PickupType::Organics => {
                    out.push(Pickup::new(PickupType::Organics, d));
                    out.push(Pickup::new(PickupType::Organics, d));
                    out.push(Pickup::new(PickupType::Trash, d));
                },
            }
            proof {
                assert(g.len() == 1);
                assert(g[0] == sv[i as int]);
                assert(out@ =~= base + lone_emit(sv[i as int]));
                assert(out@ == base + emit_group(g));
            }
        } else {
            let mut k: usize = i;
            while k < j
                invariant
                    i <= k <= j <= sv.len(),
                    sorted@ == sv,
                    out@ == base + sv.subrange(i as int, k as int),
                decreases j - k,
            {
                out.push(sorted[k]);
                proof {
                    assert(sv.subrange(i as int, k + 1 as int) =~= sv.subrange(
                        i as int,
                        k as int,
                    ).push(sv[k as int]));
                    assert(out@ =~= base + sv.subrange(i as int, k + 1 as int));
                }
                k = k + 1;
            }
            proof {
                assert(g.len() >= 2);
                assert(out@ == base + emit_group(g));
            }
        }
        proof {
            let leq = pickup_leq();
            let pre = sv.take(i as int);
            // the prefix followed by this group is exactly the longer prefix
            assert(pre + g =~= sv.take(j as int));
            assert forall|a: int, b: int| 0 <= a < b < (pre + g).len() implies #[trigger] leq(
                (pre + g)[a],
                (pre + g)[b],
            ) by {
                assert((pre + g)[a] == sv[a]);
                assert((pre + g)[b] == sv[b]);
            }
            assert(g.len() > 0);
            assert(forall|k: int| 0 <= k < g.len() ==> (#[trigger] g[k]).date == g[0].date);
            assert forall|k: int| 0 <= k < pre.len() implies (#[trigger] pre[k]).date
                != g[0].date by {
                assert(pre[k] == sv[k]);
                assert(sv[k].date != d);
            }
            lemma_norm_append_group(pre, g);
            assert(out@ == norm_sorted(sv.take(j as int)));
            // the next index starts a new date group
            if j < sv.len() {
                assert(sv[j as int].date != d);
                assert forall|k: int| 0 <= k < j implies (#[trigger] sv[k]).date
                    != sv[j as int].date by {
                    if k < i {
                        // dates before this group lie strictly before it
                        assert(leq(sv[k], sv[i as int]));
                        assert(leq(sv[i as int], sv[j as int]));
                        assert(date_lt(sv[k].date, sv[i as int].date));
                    } else {
                        assert(sv[k].date == d);
                    }
                }
            }
        }
        i = j;
    }
    proof {
        assert(sv.take(sv.len() as int) =~= sv);
    }
    out
}

} // verus!
