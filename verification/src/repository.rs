//! The content repository: create, read, update, delete and paginated
//! listing over one kind of content record, modelled as the table the
//! relational store holds for that kind.
//!
//! Rows carry store-assigned, strictly increasing ids, so a table is kept
//! sorted by id; a listing returns rows by id descending (newest first).
//! Updating or deleting a missing id is a silent no-op, inherited behaviour
//! that callers may rely on.

use vstd::prelude::*;
use crate::errors::CmsError;
use crate::pagination::spec_window;
use crate::records::{Announcement, RecordView};
use vstd::math::min;

verus! {

/// The mathematical value of a content table: its rows in insertion order
/// and the id the next insert will be assigned.
pub struct TableView {
    pub rows: Seq<RecordView>,
    pub next_id: int,
}

/// The record views of a row sequence, in order.
pub open spec fn views_of(rows: Seq<Announcement>) -> Seq<RecordView> {
    rows.map_values(|a: Announcement| a@)
}

/// A table is well formed when ids are at least 1, strictly increase along
/// the rows (so every id is unique), and all sit below `next_id`.
pub open spec fn table_wf(t: TableView) -> bool {
    &&& 1 <= t.next_id <= i32::MAX
    &&& forall|i: int| 0 <= i < t.rows.len() ==> 1 <= (#[trigger] t.rows[i].id) < t.next_id
    &&& forall|i: int, j: int|
        #![trigger t.rows[i].id, t.rows[j].id]
        0 <= i < j < t.rows.len() ==> t.rows[i].id < t.rows[j].id
}

/// The first row carrying `id`, scanning from the front, if any.
pub open spec fn spec_lookup(rows: Seq<RecordView>, id: int) -> Option<RecordView>
    decreases rows.len(),
{
    if rows.len() == 0 {
        None
    } else if rows[0].id == id {
        Some(rows[0])
    } else {
        spec_lookup(rows.drop_first(), id)
    }
}

/// `rows` with every row carrying `id` removed.
pub open spec fn spec_remove_id(rows: Seq<RecordView>, id: int) -> Seq<RecordView>
    decreases rows.len(),
{
    if rows.len() == 0 {
        Seq::empty()
    } else if rows[0].id == id {
        spec_remove_id(rows.drop_first(), id)
    } else {
        seq![rows[0]] + spec_remove_id(rows.drop_first(), id)
    }
}

/// `rows` with every row carrying `id` given the new field values; its id
/// and every other row are untouched.
pub open spec fn spec_update_id(
    rows: Seq<RecordView>,
    id: int,
    image: Seq<char>,
    title: Seq<char>,
    content: Seq<char>,
    date: Seq<char>,
    author: Seq<char>,
) -> Seq<RecordView> {
    rows.map_values(
        |r: RecordView|
            if r.id == id {
                RecordView { id: r.id, image, title, content, date, author }
            } else {
                r
            },
    )
}

/// A lookup misses exactly when no row carries the id.
pub proof fn lemma_lookup_none_iff(rows: Seq<RecordView>, id: int)
    ensures
        spec_lookup(rows, id) is None <==> (forall|k: int|
            0 <= k < rows.len() ==> (#[trigger] rows[k].id) != id),
    decreases rows.len(),
{
    if rows.len() > 0 {
        lemma_lookup_none_iff(rows.drop_first(), id);
        if rows[0].id != id {
            assert forall|k: int| 0 <= k < rows.len() && (#[trigger] rows[k].id) == id implies
                spec_lookup(rows, id) is Some by {
                assert(rows.drop_first()[k - 1] == rows[k]);
            }
        }
    }
}

/// A lookup returns the row at `i` when it carries `id` and no earlier row
/// does.
pub proof fn lemma_lookup_finds(rows: Seq<RecordView>, id: int, i: int)
    requires
        0 <= i < rows.len(),
        rows[i].id == id,
        forall|k: int| 0 <= k < i ==> (#[trigger] rows[k].id) != id,
    ensures
        spec_lookup(rows, id) == Some(rows[i]),
    decreases rows.len(),
{
    if i > 0 {
        assert forall|k: int| 0 <= k < i - 1 implies (#[trigger] rows.drop_first()[k].id) != id by {
            assert(rows.drop_first()[k] == rows[k + 1]);
        }
        assert(rows.drop_first()[i - 1] == rows[i]);
        lemma_lookup_finds(rows.drop_first(), id, i - 1);
    }
}

/// Removing an id no row carries leaves the rows unchanged.
pub proof fn lemma_remove_id_absent(rows: Seq<RecordView>, id: int)
    requires
        forall|k: int| 0 <= k < rows.len() ==> (#[trigger] rows[k].id) != id,
    ensures
        spec_remove_id(rows, id) == rows,
    decreases rows.len(),
{
    if rows.len() > 0 {
        assert forall|k: int| 0 <= k < rows.drop_first().len() implies (
        #[trigger] rows.drop_first()[k].id) != id by {
            assert(rows.drop_first()[k] == rows[k + 1]);
        }
        lemma_remove_id_absent(rows.drop_first(), id);
        assert(spec_remove_id(rows, id) =~= rows);
    }
}

/// When exactly the row at `i` carries `id`, removing the id removes that
/// row alone.
pub proof fn lemma_remove_id_unique(rows: Seq<RecordView>, id: int, i: int)
    requires
        0 <= i < rows.len(),
        rows[i].id == id,
        forall|k: int| 0 <= k < rows.len() && k != i ==> (#[trigger] rows[k].id) != id,
    ensures
        spec_remove_id(rows, id) == rows.remove(i),
    decreases rows.len(),
{
    if i == 0 {
        assert forall|k: int| 0 <= k < rows.drop_first().len() implies (
        #[trigger] rows.drop_first()[k].id) != id by {
            assert(rows.drop_first()[k] == rows[k + 1]);
        }
        lemma_remove_id_absent(rows.drop_first(), id);
        assert(spec_remove_id(rows, id) =~= rows.remove(0));
    } else {
        assert(rows.drop_first()[i - 1] == rows[i]);
        assert forall|k: int| 0 <= k < rows.drop_first().len() && k != i - 1 implies (
        #[trigger] rows.drop_first()[k].id) != id by {
            assert(rows.drop_first()[k] == rows[k + 1]);
        }
        lemma_remove_id_unique(rows.drop_first(), id, i - 1);
        assert(spec_remove_id(rows, id) =~= rows.remove(i));
    }
}

/// Law: after a delete, a lookup of the deleted id misses.
pub proof fn lemma_delete_then_get_not_found(rows: Seq<RecordView>, id: int)
    ensures
        spec_lookup(spec_remove_id(rows, id), id) is None,
    decreases rows.len(),
{
    lemma_delete_leaves_no_id(rows, id);
    lemma_lookup_none_iff(spec_remove_id(rows, id), id);
}

/// No row of the result of a removal carries the removed id.
pub proof fn lemma_delete_leaves_no_id(rows: Seq<RecordView>, id: int)
    ensures
        forall|k: int|
            0 <= k < spec_remove_id(rows, id).len() ==> (#[trigger] spec_remove_id(rows, id)[k].id)
                != id,
    decreases rows.len(),
{
    if rows.len() > 0 {
        lemma_delete_leaves_no_id(rows.drop_first(), id);
        let rest = spec_remove_id(rows.drop_first(), id);
        if rows[0].id != id {
            assert(spec_remove_id(rows, id) == seq![rows[0]] + rest);
            assert forall|k: int| 0 <= k < spec_remove_id(rows, id).len() implies (
            #[trigger] spec_remove_id(rows, id)[k].id) != id by {
                if k == 0 {
                    assert(spec_remove_id(rows, id)[0] == rows[0]);
                } else {
                    assert(spec_remove_id(rows, id)[k] == rest[k - 1]);
                    assert(rest[k - 1].id != id);
                }
            }
        } else {
            assert(spec_remove_id(rows, id) == rest);
        }
    }
}

/// Law: deleting an id twice equals deleting it once; the second delete is
/// a no-op.
pub proof fn lemma_delete_idempotent(rows: Seq<RecordView>, id: int)
    ensures
        spec_remove_id(spec_remove_id(rows, id), id) == spec_remove_id(rows, id),
{
    lemma_delete_leaves_no_id(rows, id);
    lemma_remove_id_absent(spec_remove_id(rows, id), id);
}

/// Law: a freshly added record is returned whole by a lookup of the id the
/// table assigned it; only the id is the store's choice.
pub proof fn lemma_add_then_get(
    t: TableView,
    image: Seq<char>,
    title: Seq<char>,
    content: Seq<char>,
    date: Seq<char>,
    author: Seq<char>,
)
    requires
        table_wf(t),
    ensures
        ({
            let rec = RecordView { id: t.next_id, image, title, content, date, author };
            spec_lookup(t.rows.push(rec), t.next_id) == Some(rec)
        }),
{
    let rec = RecordView { id: t.next_id, image, title, content, date, author };
    let rows = t.rows.push(rec);
    assert forall|k: int| 0 <= k < t.rows.len() implies (#[trigger] rows[k].id) != t.next_id by {
        assert(rows[k] == t.rows[k]);
    }
    lemma_lookup_finds(rows, t.next_id, t.rows.len() as int);
}

/// Law: after an update of `id`, a lookup of `id` returns the row with the
/// new field values and its id unchanged; in particular an update that
/// carries a row's old image path over leaves the image a later read sees
/// unchanged.
pub proof fn lemma_edit_then_get(
    rows: Seq<RecordView>,
    id: int,
    image: Seq<char>,
    title: Seq<char>,
    content: Seq<char>,
    date: Seq<char>,
    author: Seq<char>,
)
    requires
        spec_lookup(rows, id) is Some,
    ensures
        spec_lookup(spec_update_id(rows, id, image, title, content, date, author), id) == Some(
            RecordView { id, image, title, content, date, author },
        ),
    decreases rows.len(),
{
    let updated = spec_update_id(rows, id, image, title, content, date, author);
    if rows[0].id == id {
        assert(updated[0] == RecordView { id, image, title, content, date, author });
    } else {
        assert(updated.drop_first() =~= spec_update_id(
            rows.drop_first(),
            id,
            image,
            title,
            content,
            date,
            author,
        ));
        lemma_edit_then_get(rows.drop_first(), id, image, title, content, date, author);
        assert(updated[0].id != id);
    }
}

/// In a well-formed table the row at `j` has id at least `j + 1`, so a
/// table can never hold more rows than `next_id - 1`.
proof fn lemma_ids_lower_bound(t: TableView, j: int)
    requires
        table_wf(t),
        0 <= j < t.rows.len(),
    ensures
        t.rows[j].id >= 1 + j,
    decreases j,
{
    if j > 0 {
        lemma_ids_lower_bound(t, j - 1);
    }
}

/// One kind's table: announcement rows (or, identically, article rows) in
/// insertion order, plus the next id the store will assign.
pub struct ContentTable {
    rows: Vec<Announcement>,
    next_id: i32,
}

impl View for ContentTable {
    type V = TableView;

    closed spec fn view(&self) -> TableView {
        TableView { rows: views_of(self.rows@), next_id: self.next_id as int }
    }
}

impl ContentTable {
    /// Whether this table satisfies the table invariant.
    pub open spec fn wf(self) -> bool {
        table_wf(self@)
    }

    /// An empty table whose first insert will be assigned id 1.
    pub fn new() -> (t: ContentTable)
        ensures
            t.wf(),
            t@.rows.len() == 0,
            t@.next_id == 1,
    {
        let t = ContentTable { rows: Vec::new(), next_id: 1 };
        proof {
            assert(t@.rows =~= Seq::<RecordView>::empty());
        }
        t
    }

    /// Inserts one record; the table assigns and returns its id. The caller
    /// never supplies an id.
    pub fn add(
        &mut self,
        image: String,
        title: String,
        content: String,
        date: String,
        author: String,
    ) -> (id: i32)
        requires
            old(self).wf(),
            old(self)@.next_id < i32::MAX,
        ensures
            final(self).wf(),
            id as int == old(self)@.next_id,
            final(self)@.next_id == old(self)@.next_id + 1,
            final(self)@.rows == old(self)@.rows.push(
                RecordView {
                    id: id as int,
                    image: image@,
                    title: title@,
                    content: content@,
                    date: date@,
                    author: author@,
                },
            ),
    {
        let id = self.next_id;
        let rec = Announcement { id, image, title, content, date, author };
        let ghost prev = self@.rows;
        self.rows.push(rec);
        self.next_id = id + 1;
        proof {
            assert(self@.rows =~= prev.push(rec@));
        }
        id
    }

    /// Returns the record carrying `id`, or `NotFound` when no row matches.
    /// At most one row can match; a lookup takes the first.
    pub fn get(&self, id: i32) -> (r: Result<Announcement, CmsError>)
        requires
            self.wf(),
        ensures
            match r {
                Ok(rec) => spec_lookup(self@.rows, id as int) == Some(rec@),
                Err(e) => e == CmsError::NotFound && spec_lookup(self@.rows, id as int) is None,
            },
    {
        let n = self.rows.len();
        let mut i: usize = 0;
        while i < n
            invariant
                self.wf(),
                0 <= i <= n,
                n == self@.rows.len(),
                forall|k: int| 0 <= k < i ==> (#[trigger] self@.rows[k].id) != id as int,
            decreases n - i,
        {
            if self.rows[i].id == id {
                let rec = self.rows[i].duplicate();
                proof {
                    lemma_lookup_finds(self@.rows, id as int, i as int);
                }
                return Ok(rec);
            }
            i = i + 1;
        }
        proof {
            lemma_lookup_none_iff(self@.rows, id as int);
        }
        Err(CmsError::NotFound)
    }

    /// Updates every field of the row carrying `id`, keeping its id.
    /// Updating a missing id is a silent no-op at the store level; callers
    /// that need an existence check must make it themselves.
    pub fn edit(
        &mut self,
        id: i32,
        image: String,
        title: String,
        content: String,
        date: String,
        author: String,
    )
        requires
            old(self).wf(),
        ensures
            final(self).wf(),
            final(self)@.next_id == old(self)@.next_id,
            final(self)@.rows == spec_update_id(
                old(self)@.rows,
                id as int,
                image@,
                title@,
                content@,
                date@,
                author@,
            ),
    {
        let ghost target = spec_update_id(
            old(self)@.rows,
            id as int,
            image@,
            title@,
            content@,
            date@,
            author@,
        );
        let n = self.rows.len();
        let mut i: usize = 0;
        while i < n
            invariant
                self.wf(),
                self == old(self),
                0 <= i <= n,
                n == self@.rows.len(),
                forall|k: int| 0 <= k < i ==> (#[trigger] self@.rows[k].id) != id as int,
            decreases n - i,
        {
            if self.rows[i].id == id {
                proof {
                    assert(old(self)@.rows[i as int].id == id as int);
                    assert forall|k: int|
                        0 <= k < old(self)@.rows.len() && k != i implies (
                    #[trigger] old(self)@.rows[k].id) != id as int by {
                        if k < i as int {
                            assert(old(self)@.rows[k].id < old(self)@.rows[i as int].id);
                        } else {
                            assert(old(self)@.rows[i as int].id < old(self)@.rows[k].id);
                        }
                    }
                }
                let rec = Announcement { id, image, title, content, date, author };
                self.rows.set(i, rec);
                proof {
                    assert forall|k: int| 0 <= k < target.len() implies self@.rows[k]
                        == target[k] by {
                        assert(self@.rows[k] == self.rows@[k]@);
                        if k != i as int {
                            assert(self.rows@[k] == old(self).rows@[k]);
                        }
                    }
                    assert(self@.rows =~= target);
                }
                return ;
            }
            i = i + 1;
        }
        proof {
            assert(self@.rows =~= target);
        }
    }

    /// Deletes the row carrying `id`. Deleting a missing id is a silent
    /// no-op, so a repeated delete succeeds: delete is idempotent.
    pub fn delete(&mut self, id: i32)
        requires
            old(self).wf(),
        ensures
            final(self).wf(),
            final(self)@.next_id == old(self)@.next_id,
            final(self)@.rows == spec_remove_id(old(self)@.rows, id as int),
    {
        let n = self.rows.len();
        let mut i: usize = 0;
        while i < n
            invariant
                self.wf(),
                self == old(self),
                0 <= i <= n,
                n == self@.rows.len(),
                forall|k: int| 0 <= k < i ==> (#[trigger] self@.rows[k].id) != id as int,
            decreases n - i,
        {
            if self.rows[i].id == id {
                proof {
                    assert(old(self)@.rows[i as int].id == id as int);
                    assert forall|k: int|
                        0 <= k < old(self)@.rows.len() && k != i implies (
                    #[trigger] old(self)@.rows[k].id) != id as int by {
                        if k < i as int {
                            assert(old(self)@.rows[k].id < old(self)@.rows[i as int].id);
                        } else {
                            assert(old(self)@.rows[i as int].id < old(self)@.rows[k].id);
                        }
                    }
                    lemma_remove_id_unique(old(self)@.rows, id as int, i as int);
                }
                self.rows.remove(i);
                proof {
                    let removed = old(self)@.rows.remove(i as int);
                    assert forall|k: int| 0 <= k < removed.len() implies self@.rows[k]
                        == removed[k] by {
                        assert(self@.rows[k] == self.rows@[k]@);
                        if k < i as int {
                            assert(self.rows@[k] == old(self).rows@[k]);
                        } else {
                            assert(self.rows@[k] == old(self).rows@[k + 1]);
                        }
                    }
                    assert(self@.rows =~= removed);
                }
                return ;
            }
            i = i + 1;
        }
        proof {
            lemma_remove_id_absent(self@.rows, id as int);
        }
    }

    /// The id the next insert will be assigned. A host can test it for
    /// id-space room before asking for a create.
    pub fn next_id(&self) -> (id: i32)
        ensures
            id as int == self@.next_id,
    {
        self.next_id
    }

    /// Every row in insertion order, oldest first: what a host persists.
    pub fn rows(&self) -> (r: Vec<Announcement>)
        ensures
            views_of(r@) == self@.rows,
    {
        let n = self.rows.len();
        let mut out: Vec<Announcement> = Vec::new();
        let mut i: usize = 0;
        while i < n
            invariant
                0 <= i <= n,
                n == self@.rows.len(),
                out@.len() == i,
                forall|k: int| 0 <= k < i ==> (#[trigger] out@[k]@) == self@.rows[k],
            decreases n - i,
        {
            let ghost prev = out@;
            let rec = self.rows[i].duplicate();
            out.push(rec);
            proof {
                assert forall|k: int| 0 <= k < i + 1 implies (#[trigger] out@[k]@)
                    == self@.rows[k] by {
                    assert(self@.rows[k] == self.rows@[k]@);
                    if k < i as int {
                        assert(out@[k] == prev[k]);
                    }
                }
            }
            i = i + 1;
        }
        proof {
            assert(views_of(out@) =~= self@.rows);
        }
        out
    }

    /// One page of rows, newest first, together with the full row count.
    /// Rows are ordered strictly by id descending; the count is of every
    /// row, independent of the page requested.
    pub fn list(&self, page: i32, page_size: i32) -> (r: (Vec<Announcement>, i32))
        requires
            self.wf(),
            page >= 1,
            page_size >= 1,
        ensures
            r.1 as int == self@.rows.len(),
            views_of(r.0@) == spec_window(self@.rows.reverse(), page as int, page_size as int),
    {
        proof {
            if self@.rows.len() > 0 {
                lemma_ids_lower_bound(self@, self@.rows.len() - 1);
            }
        }
        let total: usize = self.rows.len();
        let total_i32: i32 = total as i32;
        let p64: i64 = page as i64;
        let s64: i64 = page_size as i64;
        assert(0 <= (p64 - 1) * s64 <= i64::MAX) by (nonlinear_arith)
            requires
                1 <= p64 <= 0x7fff_ffff,
                1 <= s64 <= 0x7fff_ffff,
        ;
        let off64: i64 = (p64 - 1) * s64;
        let ghost rev = self@.rows.reverse();
        let ghost w = spec_window(rev, page as int, page_size as int);
        let mut out: Vec<Announcement> = Vec::new();
        if off64 >= total as i64 {
            proof {
                assert(views_of(out@) =~= w);
            }
            return (out, total_i32);
        }
        let start: usize = off64 as usize;
        let avail: usize = total - start;
        let take: usize = if page_size as usize <= avail {
            page_size as usize
        } else {
            avail
        };
        let mut k: usize = 0;
        while k < take
            invariant
                self.wf(),
                0 <= k <= take,
                total == self@.rows.len(),
                start < total,
                take <= avail,
                avail == total - start,
                out@.len() == k,
                forall|j: int|
                    0 <= j < k ==> #[trigger] views_of(out@)[j] == self@.rows[total - 1 - start
                        - j],
            decreases take - k,
        {
            let ghost prev = out@;
            let rec = self.rows[total - 1 - start - k].duplicate();
            out.push(rec);
            proof {
                assert forall|j: int| 0 <= j < k + 1 implies #[trigger] views_of(out@)[j]
                    == self@.rows[total - 1 - start - j] by {
                    assert(views_of(out@)[j] == out@[j]@);
                    if j < k {
                        assert(out@[j] == prev[j]);
                        assert(views_of(prev)[j] == prev[j]@);
                    } else {
                        assert(out@[j] == rec);
                        assert(self@.rows[total - 1 - start - j] == self.rows@[total - 1 - start
                            - j]@);
                    }
                }
            }
            k = k + 1;
        }
        proof {
            assert(w.len() == take) by {
                assert(min(off64 as int, rev.len() as int) == start);
                assert(min(off64 + page_size, rev.len() as int) == start + take);
            }
            assert forall|j: int| 0 <= j < take implies views_of(out@)[j] == w[j] by {
                assert(w[j] == rev[start + j]);
                assert(rev[start + j] == self@.rows[total - 1 - start - j]);
            }
            assert(views_of(out@) =~= w);
        }
        (out, total_i32)
    }
}

} // verus!
