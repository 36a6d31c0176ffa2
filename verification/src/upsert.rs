//! Planning the writes that store crawled rows and drop rows by age.
use vstd::prelude::*;

use crate::isp::ISP;
use crate::model::{model_views, Model, ModelView};

verus! {

/// How many rows one insert statement carries at most.
pub const DB_CHUNK_SIZE: usize = 16;

/// A row to insert, or to write over the row with the same number.
#[derive(Debug)]
pub struct UpsertRow {
    pub updated_at: i64,
    pub number: String,
    pub name: String,
    pub isp: ISP,
}

/// The mathematical value of an [`UpsertRow`].
pub struct UpsertRowView {
    pub updated_at: i64,
    pub number: Seq<char>,
    pub name: Seq<char>,
    pub isp: ISP,
}

impl View for UpsertRow {
    type V = UpsertRowView;

    open spec fn view(&self) -> UpsertRowView {
        UpsertRowView {
            updated_at: self.updated_at,
            number: self.number@,
            name: self.name@,
            isp: self.isp,
        }
    }
}

impl Clone for UpsertRow {
    fn clone(&self) -> (r: UpsertRow)
        ensures
            r == *self,
    {
        UpsertRow {
            updated_at: self.updated_at,
            number: self.number.clone(),
            name: self.name.clone(),
            isp: self.isp,
        }
    }
}

/// The views of a sequence of upsert rows.
pub open spec fn upsert_views(s: Seq<UpsertRow>) -> Seq<UpsertRowView> {
    s.map_values(|r: UpsertRow| r@)
}

/// The row written for a crawled row at time `now`: its number, name and
/// ISP, stamped with `now`.
pub open spec fn stamped(m: ModelView, now: i64) -> UpsertRowView {
    UpsertRowView { updated_at: now, number: m.number, name: m.name, isp: m.isp }
}

/// The rows written for crawled rows at time `now`, in order.
pub open spec fn stamped_all(s: Seq<ModelView>, now: i64) -> Seq<UpsertRowView> {
    s.map_values(|m: ModelView| stamped(m, now))
}

/// Stamps every crawled row with `now`, keeping order.
pub fn stamp_rows(asns: Vec<Model>, now: i64) -> (r: Vec<UpsertRow>)
    ensures
        upsert_views(r@) == stamped_all(model_views(asns@), now),
{
    let mut out: Vec<UpsertRow> = Vec::new();
    let mut i: usize = 0;
    while i < asns.len()
        invariant
            i <= asns.len(),
            out.len() == i,
            upsert_views(out@) =~= stamped_all(model_views(asns@), now).take(i as int),
        decreases asns.len() - i,
    {
        let m = &asns[i];
        out.push(
            UpsertRow { updated_at: now, number: m.number.clone(), name: m.name.clone(), isp: m.isp },
        );
        assert(upsert_views(out@)[i as int] == stamped(asns@[i as int]@, now));
        assert(upsert_views(out@) =~= stamped_all(model_views(asns@), now).take(i + 1));
        i = i + 1;
    }
    out
}

/// `s` cut into consecutive pieces of `size` items, the last piece holding
/// what is left (no piece when `s` is empty).
pub open spec fn chunks_of<A>(s: Seq<A>, size: nat) -> Seq<Seq<A>>
    decreases s.len(),
{
    if s.len() == 0 || size == 0 {
        Seq::empty()
    } else if s.len() <= size {
        seq![s]
    } else {
        seq![s.take(size as int)] + chunks_of(s.skip(size as int), size)
    }
}

/// Cutting into pieces loses and reorders nothing: the pieces, joined, are
/// the sequence; every piece holds between one and `size` items, and all
/// pieces but the last hold exactly `size`.
pub proof fn lemma_chunks_of<A>(s: Seq<A>, size: nat)
    requires
        size > 0,
    ensures
        chunks_of(s, size).flatten() == s,
        forall|k: int|
            0 <= k < chunks_of(s, size).len() ==> 1 <= (#[trigger] chunks_of(s, size)[k]).len()
                <= size,
        forall|k: int|
            0 <= k < chunks_of(s, size).len() - 1 ==> (#[trigger] chunks_of(s, size)[k]).len()
                == size,
    decreases s.len(),
{
    let c = chunks_of(s, size);
    if s.len() == 0 {
        assert(c.flatten() =~= s);
    } else if s.len() <= size {
        assert(c.drop_first() =~= Seq::<Seq<A>>::empty());
        assert(c.drop_first().flatten() =~= Seq::<A>::empty());
        assert(c.flatten() =~= s + Seq::<A>::empty());
        assert(c.flatten() =~= s);
    } else {
        let rest = s.skip(size as int);
        lemma_chunks_of(rest, size);
        assert(c.drop_first() =~= chunks_of(rest, size));
        assert(c.flatten() =~= s.take(size as int) + rest);
        assert(s.take(size as int) + rest =~= s);
        assert forall|k: int| 0 <= k < c.len() implies 1 <= (#[trigger] c[k]).len() <= size by {
            if k > 0 {
                assert(c[k] == chunks_of(rest, size)[k - 1]);
            }
        }
        assert forall|k: int| 0 <= k < c.len() - 1 implies (#[trigger] c[k]).len() == size by {
            if k > 0 {
                assert(c[k] == chunks_of(rest, size)[k - 1]);
            }
        }
    }
}

/// Copies `rows[from..to]`.
fn copy_range(rows: &Vec<UpsertRow>, from: usize, to: usize) -> (r: Vec<UpsertRow>)
    requires
        from <= to <= rows.len(),
    ensures
        r@ == rows@.subrange(from as int, to as int),
{
    let mut out: Vec<UpsertRow> = Vec::new();
    let mut i = from;
    while i < to
        invariant
            from <= i <= to <= rows.len(),
            out@ =~= rows@.subrange(from as int, i as int),
        decreases to - i,
    {
        out.push(rows[i].clone());
        i = i + 1;
    }
    out
}

/// Cuts `rows` into consecutive pieces of `size` rows, the last piece
/// holding what is left.
pub fn chunk_rows(rows: Vec<UpsertRow>, size: usize) -> (r: Vec<Vec<UpsertRow>>)
    requires
        size > 0,
    ensures
        r@.map_values(|c: Vec<UpsertRow>| c@) == chunks_of(rows@, size as nat),
{
    let mut out: Vec<Vec<UpsertRow>> = Vec::new();
    let mut i: usize = 0;
    assert(rows@.skip(0) =~= rows@);
    assert(out@.map_values(|c: Vec<UpsertRow>| c@) + chunks_of(rows@, size as nat) =~= chunks_of(
        rows@,
        size as nat,
    ));
    while i < rows.len()
        invariant
            size > 0,
            i <= rows.len(),
            out@.map_values(|c: Vec<UpsertRow>| c@) + chunks_of(rows@.skip(i as int), size as nat)
                == chunks_of(rows@, size as nat),
        decreases rows.len() - i,
    {
        let ghost rest = rows@.skip(i as int);
        let end = if rows.len() - i <= size {
            rows.len()
        } else {
            i + size
        };
        let piece = copy_range(&rows, i, end);
        let ghost before = out@.map_values(|c: Vec<UpsertRow>| c@);
        out.push(piece);
        proof {
            assert(out@.map_values(|c: Vec<UpsertRow>| c@) =~= before.push(piece@));
            if rest.len() <= size {
                assert(piece@ =~= rest);
                assert(rows@.skip(end as int).len() == 0);
                assert(before.push(piece@) + chunks_of(rows@.skip(end as int), size as nat)
                    =~= before + chunks_of(rest, size as nat));
            } else {
                assert(piece@ =~= rest.take(size as int));
                assert(rest.skip(size as int) =~= rows@.skip(end as int));
                assert(before.push(piece@) + chunks_of(rows@.skip(end as int), size as nat)
                    =~= before + chunks_of(rest, size as nat));
            }
        }
        i = end;
    }
    assert(chunks_of(rows@.skip(i as int), size as nat) =~= Seq::<Seq<UpsertRow>>::empty());
    assert(out@.map_values(|c: Vec<UpsertRow>| c@) + Seq::<Seq<UpsertRow>>::empty()
        =~= out@.map_values(|c: Vec<UpsertRow>| c@));
    out
}

/// The statements' rows for storing crawled rows at time `now`: each row
/// stamped with `now`, in pieces of [`DB_CHUNK_SIZE`].
pub fn plan_upsert_at(asns: Vec<Model>, now: i64) -> (r: Vec<Vec<UpsertRow>>)
    ensures
        r@.map_values(|c: Vec<UpsertRow>| upsert_views(c@)) == chunks_of(
            stamped_all(model_views(asns@), now),
            DB_CHUNK_SIZE as nat,
        ),
{
    let rows = stamp_rows(asns, now);
    let r = chunk_rows(rows, DB_CHUNK_SIZE);
    proof {
        lemma_chunks_map_views(rows@, DB_CHUNK_SIZE as nat);
        assert(r@.map_values(|c: Vec<UpsertRow>| upsert_views(c@)) =~= chunks_of(
            rows@,
            DB_CHUNK_SIZE as nat,
        ).map_values(|c: Seq<UpsertRow>| upsert_views(c)));
    }
    r
}

proof fn lemma_chunks_map_views(s: Seq<UpsertRow>, size: nat)
    ensures
        chunks_of(s, size).map_values(|c: Seq<UpsertRow>| upsert_views(c)) == chunks_of(
            upsert_views(s),
            size,
        ),
    decreases s.len(),
{
    let lhs = chunks_of(s, size).map_values(|c: Seq<UpsertRow>| upsert_views(c));
    if s.len() == 0 || size == 0 {
        assert(lhs =~= chunks_of(upsert_views(s), size));
    } else if s.len() <= size {
        assert(lhs =~= chunks_of(upsert_views(s), size));
    } else {
        lemma_chunks_map_views(s.skip(size as int), size);
        assert(upsert_views(s.skip(size as int)) =~= upsert_views(s).skip(size as int));
        assert(upsert_views(s.take(size as int)) =~= upsert_views(s).take(size as int));
        assert(lhs =~= chunks_of(upsert_views(s), size));
    }
}

/// The planned statements, joined, write every crawled row once and in
/// order, each with its number, name and ISP and stamped with `now`; no
/// statement is empty or carries more than [`DB_CHUNK_SIZE`] rows.
pub proof fn lemma_plan_upsert(asns: Seq<ModelView>, now: i64)
    ensures
        chunks_of(stamped_all(asns, now), DB_CHUNK_SIZE as nat).flatten().len() == asns.len(),
        forall|i: int|
            0 <= i < asns.len() ==> #[trigger] chunks_of(
                stamped_all(asns, now),
                DB_CHUNK_SIZE as nat,
            ).flatten()[i] == (UpsertRowView {
                updated_at: now,
                number: asns[i].number,
                name: asns[i].name,
                isp: asns[i].isp,
            }),
        forall|k: int|
            0 <= k < chunks_of(stamped_all(asns, now), DB_CHUNK_SIZE as nat).len() ==> 1 <= (
            #[trigger] chunks_of(stamped_all(asns, now), DB_CHUNK_SIZE as nat)[k]).len()
                <= DB_CHUNK_SIZE,
{
    lemma_chunks_of(stamped_all(asns, now), DB_CHUNK_SIZE as nat);
}

/// The cutoff of a deletion, at time `now`, of the rows updated within
/// `expired_in_ms` milliseconds: `now - expired_in_ms`, or `None` when that
/// difference does not fit in an `i64`.
pub fn plan_delete_expired_at(now: i64, expired_in_ms: i64) -> (r: Option<i64>)
    ensures
        r is Some <==> i64::MIN <= now - expired_in_ms <= i64::MAX,
        r matches Some(c) ==> c == now - expired_in_ms,
{
    now.checked_sub(expired_in_ms)
}

/// Whether the deletion with cutoff `cutoff` removes a row last updated at
/// `updated_at`: it removes every row updated at or after the cutoff.
pub fn removed_by_cutoff(updated_at: i64, cutoff: i64) -> (r: bool)
    ensures
        r == (updated_at >= cutoff),
{
    updated_at >= cutoff
}

} // verus!
