//! An in-memory model of the posts table.
//!
//! Rows are kept ordered by date, newest first, which is the order every
//! listing query returns.  The table enforces what the relational schema
//! enforces — unique ids and unique slugs — and additionally the blob
//! invariant the system owns: at most one live row holds a given blob.

use vstd::prelude::*;

use crate::sluggen::max_suffix;
use crate::sluggen::next_slug_spec;
use crate::sluggen::lemma_next_slug_fresh;
use crate::textutil::starts_with_spec;

verus! {

/// A persisted row.
#[derive(Debug)]
pub struct PostRecord {
    pub id: String,
    pub slug: String,
    pub title: String,
    pub date: i64,
    pub blob: String,
}

/// The mathematical shadow of a row.
pub struct RowV {
    pub id: Seq<char>,
    pub slug: Seq<char>,
    pub title: Seq<char>,
    pub date: i64,
    pub blob: Seq<char>,
}

impl View for PostRecord {
    type V = RowV;

    open spec fn view(&self) -> RowV {
        RowV {
            id: self.id@,
            slug: self.slug@,
            title: self.title@,
            date: self.date,
            blob: self.blob@,
        }
    }
}

impl PostRecord {
    /// A field-for-field copy.
    pub fn duplicate(&self) -> (r: PostRecord)
        ensures
            r@ == self@,
    {
        PostRecord {
            id: self.id.clone(),
            slug: self.slug.clone(),
            title: self.title.clone(),
            date: self.date,
            blob: self.blob.clone(),
        }
    }
}

/// Table consistency: ordered by date newest first; ids, slugs and blobs
/// each unique.
pub open spec fn rows_wf(rows: Seq<RowV>) -> bool {
    &&& forall|i: int, j: int| 0 <= i < j < rows.len() ==> rows[i].date >= rows[j].date
    &&& forall|i: int, j: int| 0 <= i < j < rows.len() ==> rows[i].id != rows[j].id
    &&& forall|i: int, j: int| 0 <= i < j < rows.len() ==> rows[i].slug != rows[j].slug
    &&& forall|i: int, j: int| 0 <= i < j < rows.len() ==> rows[i].blob != rows[j].blob
}

/// Index of the row with `id`, defined by recursion over the prefix.
pub open spec fn id_index(rows: Seq<RowV>, id: Seq<char>) -> Option<int>
    decreases rows.len(),
{
    if rows.len() == 0 {
        None
    } else if rows.first().id == id {
        Some(0)
    } else {
        match id_index(rows.drop_first(), id) {
            Some(i) => Some(i + 1),
            None => None,
        }
    }
}

/// Index of the row with `slug`.
pub open spec fn slug_index(rows: Seq<RowV>, slug: Seq<char>) -> Option<int>
    decreases rows.len(),
{
    if rows.len() == 0 {
        None
    } else if rows.first().slug == slug {
        Some(0)
    } else {
        match slug_index(rows.drop_first(), slug) {
            Some(i) => Some(i + 1),
            None => None,
        }
    }
}

/// A stored slug collides with the base candidate `base`: it equals the
/// base or extends it with a dash.
pub open spec fn slug_matches(slug: Seq<char>, base: Seq<char>) -> bool {
    slug == base || starts_with_spec(slug, base + seq!['-'])
}

/// The stored slugs that collide with `base`, in table order.
pub open spec fn matching_slugs(rows: Seq<RowV>, base: Seq<char>) -> Seq<Seq<char>>
    decreases rows.len(),
{
    if rows.len() == 0 {
        Seq::empty()
    } else {
        let rest = matching_slugs(rows.drop_last(), base);
        if slug_matches(rows.last().slug, base) {
            rest.push(rows.last().slug)
        } else {
            rest
        }
    }
}

/// Where a row of date `date` is inserted: after every row at least as
/// recent.
pub open spec fn insert_pos(rows: Seq<RowV>, date: i64) -> int
    decreases rows.len(),
{
    if rows.len() == 0 {
        0
    } else if rows.first().date >= date {
        1 + insert_pos(rows.drop_first(), date)
    } else {
        0
    }
}

/// The bounds of the requested page: a non-positive page or page size
/// requests everything.
pub open spec fn page_range(len: int, page: i64, page_size: i64) -> (int, int) {
    if page > 0 && page_size > 0 {
        let off = (page - 1) * page_size;
        let lo = if off > len {
            len
        } else {
            off as int
        };
        let hi = if off + page_size > len {
            len
        } else {
            (off + page_size) as int
        };
        (lo, hi)
    } else {
        (0, len)
    }
}

/// The in-memory posts table.
pub struct PostStore {
    rows: Vec<PostRecord>,
}

/// A listing entry: everything of a row but its blob.
#[derive(Debug)]
pub struct PostSummary {
    pub id: String,
    pub slug: String,
    pub title: String,
    pub date: i64,
}

impl View for PostStore {
    type V = Seq<RowV>;

    closed spec fn view(&self) -> Seq<RowV> {
        self.rows@.map_values(|r: PostRecord| r@)
    }
}

proof fn lemma_id_index_found(rows: Seq<RowV>, id: Seq<char>, p: int)
    requires
        0 <= p < rows.len(),
        rows[p].id == id,
        forall|j: int| 0 <= j < p ==> rows[j].id != id,
    ensures
        id_index(rows, id) == Some(p),
    decreases p,
{
    if p > 0 {
        assert forall|j: int| 0 <= j < p - 1 implies rows.drop_first()[j].id != id by {
            assert(rows[j + 1].id != id);
        }
        assert(rows.drop_first()[p - 1] == rows[p]);
        lemma_id_index_found(rows.drop_first(), id, p - 1);
    }
}

proof fn lemma_id_index_none(rows: Seq<RowV>, id: Seq<char>)
    requires
        forall|j: int| 0 <= j < rows.len() ==> rows[j].id != id,
    ensures
        id_index(rows, id) is None,
    decreases rows.len(),
{
    if rows.len() > 0 {
        assert forall|j: int| 0 <= j < rows.len() - 1 implies rows.drop_first()[j].id != id by {
            assert(rows[j + 1].id != id);
        }
        lemma_id_index_none(rows.drop_first(), id);
    }
}

proof fn lemma_slug_index_found(rows: Seq<RowV>, slug: Seq<char>, p: int)
    requires
        0 <= p < rows.len(),
        rows[p].slug == slug,
        forall|j: int| 0 <= j < p ==> rows[j].slug != slug,
    ensures
        slug_index(rows, slug) == Some(p),
    decreases p,
{
    if p > 0 {
        assert forall|j: int| 0 <= j < p - 1 implies rows.drop_first()[j].slug != slug by {
            assert(rows[j + 1].slug != slug);
        }
        assert(rows.drop_first()[p - 1] == rows[p]);
        lemma_slug_index_found(rows.drop_first(), slug, p - 1);
    }
}

proof fn lemma_slug_index_none(rows: Seq<RowV>, slug: Seq<char>)
    requires
        forall|j: int| 0 <= j < rows.len() ==> rows[j].slug != slug,
    ensures
        slug_index(rows, slug) is None,
    decreases rows.len(),
{
    if rows.len() > 0 {
        assert forall|j: int| 0 <= j < rows.len() - 1 implies rows.drop_first()[j].slug != slug by {
            assert(rows[j + 1].slug != slug);
        }
        lemma_slug_index_none(rows.drop_first(), slug);
    }
}

/// `id_index` finds a row exactly when one carries the id, and that row.
pub proof fn lemma_id_index_props(rows: Seq<RowV>, id: Seq<char>)
    ensures
        match id_index(rows, id) {
            Some(p) => 0 <= p < rows.len() && rows[p].id == id,
            None => forall|j: int| 0 <= j < rows.len() ==> rows[j].id != id,
        },
    decreases rows.len(),
{
    if rows.len() > 0 && rows.first().id != id {
        lemma_id_index_props(rows.drop_first(), id);
        match id_index(rows.drop_first(), id) {
            Some(p) => {
                assert(rows.drop_first()[p] == rows[p + 1]);
            },
            None => {
                assert forall|j: int| 0 <= j < rows.len() implies rows[j].id != id by {
                    if j > 0 {
                        assert(rows.drop_first()[j - 1].id != id);
                    }
                }
            },
        }
    }
}

/// `slug_index` finds a row exactly when one carries the slug, and that row.
pub proof fn lemma_slug_index_props(rows: Seq<RowV>, slug: Seq<char>)
    ensures
        match slug_index(rows, slug) {
            Some(p) => 0 <= p < rows.len() && rows[p].slug == slug,
            None => forall|j: int| 0 <= j < rows.len() ==> rows[j].slug != slug,
        },
    decreases rows.len(),
{
    if rows.len() > 0 && rows.first().slug != slug {
        lemma_slug_index_props(rows.drop_first(), slug);
        match slug_index(rows.drop_first(), slug) {
            Some(p) => {
                assert(rows.drop_first()[p] == rows[p + 1]);
            },
            None => {
                assert forall|j: int| 0 <= j < rows.len() implies rows[j].slug != slug by {
                    if j > 0 {
                        assert(rows.drop_first()[j - 1].slug != slug);
                    }
                }
            },
        }
    }
}

proof fn lemma_insert_pos_val(rows: Seq<RowV>, date: i64, p: int)
    requires
        0 <= p <= rows.len(),
        forall|j: int| 0 <= j < p ==> rows[j].date >= date,
        p == rows.len() || rows[p].date < date,
    ensures
        insert_pos(rows, date) == p,
    decreases p,
{
    if rows.len() > 0 {
        if p == 0 {
        } else {
            assert(rows[0].date >= date);
            assert forall|j: int| 0 <= j < p - 1 implies rows.drop_first()[j].date >= date by {
                assert(rows[j + 1].date >= date);
            }
            if p < rows.len() {
                assert(rows.drop_first()[p - 1] == rows[p]);
            }
            lemma_insert_pos_val(rows.drop_first(), date, p - 1);
        }
    }
}

/// A slug that collides with `base` is among the matching slugs.
proof fn lemma_matching_slugs_contains(rows: Seq<RowV>, base: Seq<char>, i: int)
    requires
        0 <= i < rows.len(),
        slug_matches(rows[i].slug, base),
    ensures
        exists|j: int|
            0 <= j < matching_slugs(rows, base).len() && #[trigger] matching_slugs(rows, base)[j]
                == rows[i].slug,
    decreases rows.len(),
{
    if i == rows.len() - 1 {
        let m = matching_slugs(rows, base);
        assert(m[m.len() - 1] == rows[i].slug);
    } else {
        lemma_matching_slugs_contains(rows.drop_last(), base, i);
        let mrest = matching_slugs(rows.drop_last(), base);
        let j = choose|j: int| 0 <= j < mrest.len() && #[trigger] mrest[j] == rows.drop_last()[i].slug;
        assert(matching_slugs(rows, base)[j] == rows[i].slug);
    }
}

/// Slug uniqueness against the whole table: the slug generated for `base`
/// from the colliding slugs differs from every stored slug, as long as the
/// suffixes in use have not exhausted `u32`.
pub proof fn lemma_generated_slug_unique(rows: Seq<RowV>, base: Seq<char>)
    requires
        max_suffix(matching_slugs(rows, base), base) < u32::MAX,
    ensures
        forall|i: int|
            0 <= i < rows.len() ==> (#[trigger] rows[i].slug) != next_slug_spec(
                base,
                matching_slugs(rows, base),
            ),
{
    let m = matching_slugs(rows, base);
    let r = next_slug_spec(base, m);
    lemma_next_slug_fresh(base, m);
    assert forall|i: int| 0 <= i < rows.len() implies (#[trigger] rows[i].slug) != r by {
        if rows[i].slug == r {
            if m.len() == 0 {
                assert(slug_matches(rows[i].slug, base));
                lemma_matching_slugs_contains(rows, base, i);
            } else {
                assert(r.take((base.len() + 1) as int) =~= base + seq!['-']);
                assert(starts_with_spec(r, base + seq!['-']));
                assert(slug_matches(rows[i].slug, base));
                lemma_matching_slugs_contains(rows, base, i);
                let j = choose|j: int| 0 <= j < m.len() && #[trigger] m[j] == rows[i].slug;
                assert(m[j] != r);
            }
        }
    }
}

impl PostStore {
    /// Table consistency; see [`rows_wf`].
    pub open spec fn wf(&self) -> bool {
        rows_wf(self@)
    }

    /// An empty table.
    pub fn new() -> (s: PostStore)
        ensures
            s.wf(),
            s@ =~= Seq::<RowV>::empty(),
    {
        PostStore { rows: Vec::new() }
    }

    /// How many rows the table holds.
    pub fn count(&self) -> (n: usize)
        ensures
            n == self@.len(),
    {
        self.rows.len()
    }

    /// Index of the row with `id`, if any.
    fn find_index_by_id(&self, id: &String) -> (r: Option<usize>)
        ensures
            match r {
                Some(p) => id_index(self@, id@) == Some(p as int) && p < self@.len()
                    && self@[p as int].id == id@,
                None => id_index(self@, id@) is None,
            },
    {
        let n = self.rows.len();
        let mut i: usize = 0;
        while i < n
            invariant
                i <= n,
                n == self.rows@.len(),
                self@.len() == n,
                forall|j: int| 0 <= j < i ==> (#[trigger] self@[j].id) != id@,
                forall|j: int| 0 <= j < n ==> (#[trigger] self@[j]) == self.rows@[j]@,
            decreases n - i,
        {
            if self.rows[i].id == *id {
                proof {
                    lemma_id_index_found(self@, id@, i as int);
                }
                return Some(i);
            }
            i = i + 1;
        }
        proof {
            lemma_id_index_none(self@, id@);
        }
        None
    }

    /// Index of the row with `slug`, if any.
    fn find_index_by_slug(&self, slug: &String) -> (r: Option<usize>)
        ensures
            match r {
                Some(p) => slug_index(self@, slug@) == Some(p as int) && p < self@.len()
                    && self@[p as int].slug == slug@,
                None => slug_index(self@, slug@) is None,
            },
    {
        let n = self.rows.len();
        let mut i: usize = 0;
        while i < n
            invariant
                i <= n,
                n == self.rows@.len(),
                self@.len() == n,
                forall|j: int| 0 <= j < i ==> (#[trigger] self@[j].slug) != slug@,
                forall|j: int| 0 <= j < n ==> (#[trigger] self@[j]) == self.rows@[j]@,
            decreases n - i,
        {
            if self.rows[i].slug == *slug {
                proof {
                    lemma_slug_index_found(self@, slug@, i as int);
                }
                return Some(i);
            }
            i = i + 1;
        }
        proof {
            lemma_slug_index_none(self@, slug@);
        }
        None
    }

    /// The row with `id`, copied out, if any.
    pub fn find_by_id(&self, id: &String) -> (r: Option<PostRecord>)
        ensures
            match r {
                Some(rec) => id_index(self@, id@) matches Some(p) && rec@ == self@[p],
                None => id_index(self@, id@) is None,
            },
    {
        match self.find_index_by_id(id) {
            Some(i) => Some(self.rows[i].duplicate()),
            None => None,
        }
    }

    /// The row with `slug`, copied out, if any.
    pub fn find_by_slug(&self, slug: &String) -> (r: Option<PostRecord>)
        ensures
            match r {
                Some(rec) => slug_index(self@, slug@) matches Some(p) && rec@ == self@[p],
                None => slug_index(self@, slug@) is None,
            },
    {
        match self.find_index_by_slug(slug) {
            Some(i) => Some(self.rows[i].duplicate()),
            None => None,
        }
    }

    /// Whether some row holds `blob`.
    pub fn contains_blob(&self, blob: &String) -> (r: bool)
        ensures
            r == exists|j: int| 0 <= j < self@.len() && (#[trigger] self@[j].blob) == blob@,
    {
        let n = self.rows.len();
        let mut i: usize = 0;
        while i < n
            invariant
                i <= n,
                n == self.rows@.len(),
                self@.len() == n,
                forall|j: int| 0 <= j < i ==> (#[trigger] self@[j].blob) != blob@,
                forall|j: int| 0 <= j < n ==> (#[trigger] self@[j]) == self.rows@[j]@,
            decreases n - i,
        {
            if self.rows[i].blob == *blob {
                proof {
                    assert(self@[i as int].blob == blob@);
                }
                return true;
            }
            i = i + 1;
        }
        false
    }

    /// The stored slugs that collide with `base`, in table order.
    pub fn slugs_matching(&self, base: &String) -> (r: Vec<String>)
        ensures
            r.deep_view() == matching_slugs(self@, base@),
    {
        proof {
            reveal_strlit("-");
        }
        let dash = {
            let mut d = base.clone();
            d.append("-");
            d
        };
        let dash_chars = crate::textutil::str_chars(dash.as_str());
        proof {
            assert(("-")@ =~= seq!['-']);
            assert(dash_chars@ =~= base@ + seq!['-']);
        }
        let n = self.rows.len();
        let mut out: Vec<String> = Vec::new();
        let mut i: usize = 0;
        while i < n
            invariant
                i <= n,
                n == self.rows@.len(),
                self@.len() == n,
                dash_chars@ == base@ + seq!['-'],
                out.deep_view() == matching_slugs(self@.take(i as int), base@),
                forall|j: int| 0 <= j < n ==> (#[trigger] self@[j]) == self.rows@[j]@,
            decreases n - i,
        {
            proof {
                assert(self@.take(i + 1).drop_last() =~= self@.take(i as int));
                assert(self@.take(i + 1).last() == self@[i as int]);
            }
            let slug = &self.rows[i].slug;
            let slug_chars = crate::textutil::str_chars(slug.as_str());
            let hit = *slug == *base || crate::textutil::chars_start_with(&slug_chars, &dash_chars);
            if hit {
                out.push(slug.clone());
                proof {
                    assert(out.deep_view() =~= matching_slugs(self@.take(i + 1), base@));
                }
            } else {
                proof {
                    assert(out.deep_view() =~= matching_slugs(self@.take(i + 1), base@));
                }
            }
            i = i + 1;
        }
        proof {
            assert(self@.take(n as int) =~= self@);
        }
        out
    }

    /// Insert a row at its date position; rejected when its id, slug or
    /// blob is already taken.
    pub fn insert(&mut self, rec: PostRecord) -> (r: Result<(), String>)
        requires
            old(self).wf(),
        ensures
            final(self).wf(),
            ({
                let taken = (exists|j: int|
                    0 <= j < old(self)@.len() && (#[trigger] old(self)@[j].id) == rec@.id) || (
                exists|j: int|
                    0 <= j < old(self)@.len() && (#[trigger] old(self)@[j].slug) == rec@.slug) || (
                exists|j: int|
                    0 <= j < old(self)@.len() && (#[trigger] old(self)@[j].blob) == rec@.blob);
                if taken {
                    r is Err && final(self)@ == old(self)@
                } else {
                    r is Ok && final(self)@ == old(self)@.insert(
                        insert_pos(old(self)@, rec@.date),
                        rec@,
                    )
                }
            }),
    {
        let clash = self.has_id(&rec.id) || self.has_slug(&rec.slug) || self.contains_blob(
            &rec.blob,
        );
        if clash {
            return Err("post row conflicts with an existing row".to_owned());
        }
        let p = self.find_insert_pos(rec.date);
        let ghost rows0 = self@;
        let ghost recv = rec@;
        self.rows.insert(p, rec);
        proof {
            assert(self@ =~= rows0.insert(p as int, recv));
            lemma_insert_pos_bounds(rows0, recv.date);
            let newv = self@;
            assert forall|i: int, j: int| 0 <= i < j < newv.len() implies newv[i].date
                >= newv[j].date && newv[i].id != newv[j].id && newv[i].slug != newv[j].slug
                && newv[i].blob != newv[j].blob by {
                if i < p {
                    assert(newv[i] == rows0[i]);
                } else if i == p {
                    assert(newv[i] == recv);
                } else {
                    assert(newv[i] == rows0[i - 1]);
                }
                if j < p {
                    assert(newv[j] == rows0[j]);
                } else if j == p {
                    assert(newv[j] == recv);
                } else {
                    assert(newv[j] == rows0[j - 1]);
                }
            }
        }
        Ok(())
    }

    /// Whether some row holds `id`.
    fn has_id(&self, id: &String) -> (r: bool)
        ensures
            r == exists|j: int| 0 <= j < self@.len() && (#[trigger] self@[j].id) == id@,
    {
        let n = self.rows.len();
        let mut i: usize = 0;
        while i < n
            invariant
                i <= n,
                n == self.rows@.len(),
                self@.len() == n,
                forall|j: int| 0 <= j < i ==> (#[trigger] self@[j].id) != id@,
                forall|j: int| 0 <= j < n ==> (#[trigger] self@[j]) == self.rows@[j]@,
            decreases n - i,
        {
            if self.rows[i].id == *id {
                proof {
                    assert(self@[i as int].id == id@);
                }
                return true;
            }
            i = i + 1;
        }
        false
    }

    /// Whether some row holds `slug`.
    fn has_slug(&self, slug: &String) -> (r: bool)
        ensures
            r == exists|j: int| 0 <= j < self@.len() && (#[trigger] self@[j].slug) == slug@,
    {
        let n = self.rows.len();
        let mut i: usize = 0;
        while i < n
            invariant
                i <= n,
                n == self.rows@.len(),
                self@.len() == n,
                forall|j: int| 0 <= j < i ==> (#[trigger] self@[j].slug) != slug@,
                forall|j: int| 0 <= j < n ==> (#[trigger] self@[j]) == self.rows@[j]@,
            decreases n - i,
        {
            if self.rows[i].slug == *slug {
                proof {
                    assert(self@[i as int].slug == slug@);
                }
                return true;
            }
            i = i + 1;
        }
        false
    }

    /// Whether a row other than the one at `at` holds `slug` or `blob`.
    fn has_conflict_excluding(&self, at: usize, slug: &String, blob: &String) -> (r: bool)
        ensures
            r == exists|k: int|
                0 <= k < self@.len() && k != at && ((#[trigger] self@[k].slug) == slug@
                    || self@[k].blob == blob@),
    {
        let n = self.rows.len();
        let mut i: usize = 0;
        while i < n
            invariant
                i <= n,
                n == self.rows@.len(),
                self@.len() == n,
                forall|k: int| 0 <= k < i && k != at ==> (#[trigger] self@[k].slug) != slug@,
                forall|k: int| 0 <= k < i && k != at ==> (#[trigger] self@[k].blob) != blob@,
                forall|j: int| 0 <= j < n ==> (#[trigger] self@[j]) == self.rows@[j]@,
            decreases n - i,
        {
            proof {
                assert(self@[i as int].slug == self.rows@[i as int]@.slug);
                assert(self@[i as int].blob == self.rows@[i as int]@.blob);
            }
            if i != at {
                if self.rows[i].slug == *slug || self.rows[i].blob == *blob {
                    proof {
                        assert(i as int != at as int);
                        assert(self@[i as int].slug == slug@ || self@[i as int].blob == blob@);
                    }
                    return true;
                }
                proof {
                    assert(self@[i as int].slug != slug@ && self@[i as int].blob != blob@);
                }
            }
            i = i + 1;
        }
        false
    }

    /// Where a row of `date` is inserted: after every row at least as
    /// recent.
    fn find_insert_pos(&self, date: i64) -> (p: usize)
        ensures
            p <= self@.len(),
            insert_pos(self@, date) == p as int,
    {
        let n = self.rows.len();
        let mut i: usize = 0;
        while i < n
            invariant
                i <= n,
                n == self.rows@.len(),
                self@.len() == n,
                forall|j: int| 0 <= j < n ==> (#[trigger] self@[j]) == self.rows@[j]@,
                forall|j: int| 0 <= j < i ==> (#[trigger] self@[j].date) >= date,
            decreases n - i,
        {
            if self.rows[i].date < date {
                proof {
                    lemma_insert_pos_val(self@, date, i as int);
                }
                return i;
            }
            i = i + 1;
        }
        proof {
            lemma_insert_pos_val(self@, date, n as int);
        }
        n
    }

    /// Delete the row with `id`, returning it, or `None` with the table
    /// untouched when no row has that id.
    pub fn delete_by_id(&mut self, id: &String) -> (r: Option<PostRecord>)
        requires
            old(self).wf(),
        ensures
            final(self).wf(),
            match r {
                Some(rec) => id_index(old(self)@, id@) matches Some(p) && rec@ == old(self)@[p]
                    && final(self)@ == old(self)@.remove(p),
                None => id_index(old(self)@, id@) is None && final(self)@ == old(self)@,
            },
    {
        match self.find_index_by_id(id) {
            Some(i) => {
                let ghost rows0 = self@;
                let rec = self.rows.remove(i);
                proof {
                    assert(self@ =~= rows0.remove(i as int));
                    let newv = self@;
                    assert forall|x: int, y: int| 0 <= x < y < newv.len() implies newv[x].date
                        >= newv[y].date && newv[x].id != newv[y].id && newv[x].slug != newv[y].slug
                        && newv[x].blob != newv[y].blob by {
                        let xo = if x < i { x } else { x + 1 };
                        let yo = if y < i { y } else { y + 1 };
                        assert(newv[x] == rows0[xo]);
                        assert(newv[y] == rows0[yo]);
                    }
                }
                Some(rec)
            },
            None => None,
        }
    }

    /// Set the title, slug and blob of the row with `id` (its date keeps
    /// its place in the ordering).  Rejected when no row has that id, or
    /// when the new slug or blob collides with another row.
    pub fn update_row(&mut self, id: &String, title: &String, slug: &String, blob: &String) -> (r:
        Result<(), String>)
        requires
            old(self).wf(),
        ensures
            final(self).wf(),
            id_index(old(self)@, id@) is None ==> r is Err && final(self)@ == old(self)@,
            id_index(old(self)@, id@) matches Some(p) ==> ({
                let conflict = exists|j: int|
                    0 <= j < old(self)@.len() && j != p && ((#[trigger] old(self)@[j].slug)
                        == slug@ || old(self)@[j].blob == blob@);
                if conflict {
                    r is Err && final(self)@ == old(self)@
                } else {
                    r is Ok && final(self)@ == old(self)@.update(
                        p,
                        RowV {
                            id: id@,
                            slug: slug@,
                            title: title@,
                            date: old(self)@[p].date,
                            blob: blob@,
                        },
                    )
                }
            }),
    {
        let i = match self.find_index_by_id(id) {
            Some(i) => i,
            None => {
                return Err("post row not found".to_owned());
            },
        };
        if self.has_conflict_excluding(i, slug, blob) {
            return Err("post row conflicts with an existing row".to_owned());
        }
        let date = self.rows[i].date;
        let newrec = PostRecord {
            id: id.clone(),
            slug: slug.clone(),
            title: title.clone(),
            date,
            blob: blob.clone(),
        };
        let ghost rows0 = self@;
        let ghost newv_rec = newrec@;
        self.rows.remove(i);
        self.rows.insert(i, newrec);
        proof {
            assert(self@ =~= rows0.update(i as int, newv_rec));
            let newv = self@;
            assert forall|x: int, y: int| 0 <= x < y < newv.len() implies newv[x].date
                >= newv[y].date && newv[x].id != newv[y].id && newv[x].slug != newv[y].slug
                && newv[x].blob != newv[y].blob by {
                if x != i {
                    assert(newv[x] == rows0[x]);
                }
                if y != i {
                    assert(newv[y] == rows0[y]);
                }
            }
        }
        Ok(())
    }

    /// The requested page of the table, newest first: row `lo + k` of the
    /// table becomes entry `k`, for the page bounds `(lo, hi)`.
    pub fn page(&self, page: i64, page_size: i64) -> (r: Vec<PostSummary>)
        ensures
            ({
                let bounds = page_range(self@.len() as int, page, page_size);
                &&& r@.len() == bounds.1 - bounds.0
                &&& forall|k: int|
                    0 <= k < r@.len() ==> ((#[trigger] r@[k]).id@ == self@[bounds.0 + k].id && r@[k].slug@ == self@[bounds.0 + k].slug && r@[k].title@ == self@[bounds.0 + k].title
                        && r@[k].date == self@[bounds.0 + k].date)
            }),
    {
        let n = self.rows.len();
        let (lo, hi): (usize, usize) = if page > 0 && page_size > 0 {
            let pa: u128 = (page as u128) - 1;
            let pb: u128 = page_size as u128;
            proof {
                assert(pa * pb <= 0x7ffffffffffffffe * 0x7fffffffffffffff) by (nonlinear_arith)
                    requires
                        pa <= 0x7ffffffffffffffe,
                        pb <= 0x7fffffffffffffff,
                ;
            }
            let off: u128 = pa * pb;
            let lo = if off > (n as u128) {
                n
            } else {
                off as usize
            };
            let hi = if off + (page_size as u128) > (n as u128) {
                n
            } else {
                (off + (page_size as u128)) as usize
            };
            (lo, hi)
        } else {
            (0, n)
        };
        let mut out: Vec<PostSummary> = Vec::new();
        let mut k: usize = lo;
        while k < hi
            invariant
                lo <= k <= hi <= n,
                n == self.rows@.len(),
                self@.len() == n,
                forall|j: int| 0 <= j < n ==> (#[trigger] self@[j]) == self.rows@[j]@,
                out@.len() == k - lo,
                forall|j: int|
                    0 <= j < out@.len() ==> ((#[trigger] out@[j]).id@ == self@[lo + j].id && out@[j].slug@ == self@[lo + j].slug && out@[j].title@ == self@[lo + j].title && out@[j].date == self@[lo + j].date),
            decreases hi - k,
        {
            let row = &self.rows[k];
            out.push(
                PostSummary {
                    id: row.id.clone(),
                    slug: row.slug.clone(),
                    title: row.title.clone(),
                    date: row.date,
                },
            );
            k = k + 1;
        }
        out
    }
}

proof fn lemma_insert_pos_bounds(rows: Seq<RowV>, date: i64)
    requires
        forall|i: int, j: int| 0 <= i < j < rows.len() ==> rows[i].date >= rows[j].date,
    ensures
        0 <= insert_pos(rows, date) <= rows.len(),
        forall|j: int| 0 <= j < insert_pos(rows, date) ==> rows[j].date >= date,
        forall|j: int| insert_pos(rows, date) <= j < rows.len() ==> rows[j].date < date,
    decreases rows.len(),
{
    if rows.len() > 0 {
        let rest = rows.drop_first();
        assert forall|i: int, j: int| 0 <= i < j < rest.len() implies rest[i].date
            >= rest[j].date by {
            assert(rest[i] == rows[i + 1]);
            assert(rest[j] == rows[j + 1]);
        }
        lemma_insert_pos_bounds(rest, date);
        let p = insert_pos(rows, date);
        if rows.first().date >= date {
            assert forall|j: int| 0 <= j < p implies rows[j].date >= date by {
                if j > 0 {
                    assert(rest[j - 1].date >= date);
                }
            }
            assert forall|j: int| p <= j < rows.len() implies rows[j].date < date by {
                assert(rest[j - 1].date < date);
            }
        } else {
            assert forall|j: int| 0 <= j < rows.len() implies rows[j].date < date by {
                if j > 0 {
                    assert(rows[0].date >= rows[j].date);
                }
            }
        }
    }
}

} // verus!
