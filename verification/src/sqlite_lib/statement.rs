//! Prepared statements of the high-level interface: the values that are bound,
//! the columns, and the rows that were fetched and not handed out yet.

use crate::sqlite_lib::values::{hl_of, hl_value_to_db, DbValue, HlValue};
use crate::tables::reversed;
use crate::text::{copy_texts, texts};
use std::collections::VecDeque;
use vstd::prelude::*;
use vstd::string::*;

verus! {

/// `s` with at least `n` values: what is missing is null.
pub open spec fn padded(s: Seq<DbValue>, n: nat) -> Seq<DbValue> {
    if s.len() < n {
        s + Seq::new((n - s.len()) as nat, |i: int| DbValue::Null)
    } else {
        s
    }
}

/// The place of the parameter at the position `index`, which starts at 1; 0
/// counts as 1.
pub open spec fn place(index: i32) -> int {
    if index == 0 {
        0
    } else {
        index - 1
    }
}

/// A prepared statement. `R` is a row.
pub struct HlStatement<R> {
    sql: String,
    bindings: Vec<DbValue>,
    column_names: Vec<String>,
    buffered: Option<VecDeque<R>>,
}

impl<R> HlStatement<R> {
    /// The statement's text.
    pub closed spec fn sql(&self) -> Seq<char> {
        self.sql@
    }

    /// The values that are bound, from the first position on.
    pub closed spec fn bindings(&self) -> Seq<DbValue> {
        self.bindings@
    }

    /// The names of the columns, as far as they are known.
    pub closed spec fn column_names(&self) -> Seq<Seq<char>> {
        texts(self.column_names@)
    }

    /// The rows that were fetched and not handed out yet; `None` before any were
    /// fetched.
    pub closed spec fn buffered(&self) -> Option<Seq<R>> {
        match self.buffered {
            Some(v) => Some(v@),
            None => None,
        }
    }

    /// A statement without bound values and without rows.
    pub fn new(sql: String) -> (r: Self)
        ensures
            r.sql() == sql@,
            r.bindings() == Seq::<DbValue>::empty(),
            r.column_names() == Seq::<Seq<char>>::empty(),
            r.buffered() is None,
    {
        let r = HlStatement {
            sql,
            bindings: Vec::new(),
            column_names: Vec::new(),
            buffered: None,
        };
        assert(r.column_names() =~= Seq::<Seq<char>>::empty());
        r
    }

    /// The statement's text.
    pub fn text(&self) -> (r: &str)
        ensures
            r@ == self.sql(),
    {
        self.sql.as_str()
    }

    /// Binds a value at the position `index`. Positions before it that are not
    /// bound are null.
    pub fn bind(&mut self, index: i32, value: HlValue)
        requires
            index >= 0,
        ensures
            final(self).sql() == old(self).sql(),
            final(self).column_names() == old(self).column_names(),
            final(self).buffered() == old(self).buffered(),
            exists|v: DbValue|
                hl_of(v) == value && final(self).bindings() == #[trigger] padded(
                    old(self).bindings(),
                    (place(index) + 1) as nat,
                ).update(place(index), v),
    {
        let idx: usize = if index == 0 {
            0
        } else {
            (index - 1) as usize
        };
        let v: DbValue = hl_value_to_db(value);
        let ghost w = v;
        while self.bindings.len() <= idx
            invariant
                self.sql == old(self).sql,
                self.column_names == old(self).column_names,
                self.buffered == old(self).buffered,
                self.bindings@ == padded(old(self).bindings@, self.bindings@.len()),
                self.bindings@.len() >= old(self).bindings@.len(),
                self.bindings@.len() <= idx + 1 || self.bindings@ == old(self).bindings@,
            decreases idx + 1 - self.bindings.len(),
        {
            let ghost before = self.bindings@;
            self.bindings.push(DbValue::Null);
            assert(self.bindings@ =~= padded(old(self).bindings@, self.bindings@.len()));
        }
        assert(self.bindings@ =~= padded(old(self).bindings@, (idx + 1) as nat));
        self.bindings.set(idx, v);
        assert(self.bindings() == padded(
            old(self).bindings(),
            (place(index) + 1) as nat,
        ).update(place(index), w));
    }

    /// Binds exactly the values `params`, from the first position on.
    pub fn bind_all(&mut self, params: Vec<HlValue>)
        ensures
            final(self).sql() == old(self).sql(),
            final(self).column_names() == old(self).column_names(),
            final(self).buffered() == old(self).buffered(),
            final(self).bindings().map_values(|v: DbValue| hl_of(v)) == params@,
    {
        let mut params = params;
        let ghost all = params@;
        let n: usize = params.len();
        let mut back: Vec<DbValue> = Vec::new();
        while params.len() > 0
            invariant
                n == all.len(),
                params@.len() + back@.len() == n,
                params@ == all.take(params@.len() as int),
                forall|j: int| 0 <= j < back@.len() ==> hl_of(#[trigger] back@[j]) == all[n - 1 - j],
            decreases params.len(),
        {
            match params.pop() {
                Some(v) => {
                    back.push(hl_value_to_db(v));
                },
                None => {},
            }
            assert(params@ =~= all.take(params@.len() as int));
        }
        let values: Vec<DbValue> = reversed(back);
        self.bindings = values;
        assert(self.bindings().map_values(|v: DbValue| hl_of(v)) =~= all);
    }

    /// The values that are bound, from the first position on.
    pub fn bound_params(&self) -> (r: &Vec<DbValue>)
        ensures
            r@ == self.bindings(),
    {
        &self.bindings
    }

    /// Nothing is bound any more.
    pub fn clear_bindings(&mut self)
        ensures
            final(self).sql() == old(self).sql(),
            final(self).column_names() == old(self).column_names(),
            final(self).buffered() == old(self).buffered(),
            final(self).bindings() == Seq::<DbValue>::empty(),
    {
        self.bindings.clear();
    }

    /// The rows that were fetched are dropped: the next step fetches them anew.
    pub fn reset(&mut self)
        ensures
            final(self).sql() == old(self).sql(),
            final(self).column_names() == old(self).column_names(),
            final(self).bindings() == old(self).bindings(),
            final(self).buffered() is None,
    {
        self.buffered = None;
    }

    /// Notes the names of the columns.
    pub fn note_columns(&mut self, names: Vec<String>)
        ensures
            final(self).sql() == old(self).sql(),
            final(self).bindings() == old(self).bindings(),
            final(self).buffered() == old(self).buffered(),
            final(self).column_names() == texts(names@),
    {
        self.column_names = names;
    }

    /// Whether rows have to be fetched before a step.
    pub fn needs_rows(&self) -> (r: bool)
        ensures
            r == (self.buffered() is None),
    {
        self.buffered.is_none()
    }

    /// Takes the rows that were fetched.
    pub fn fetched(&mut self, rows: Vec<R>)
        ensures
            final(self).sql() == old(self).sql(),
            final(self).column_names() == old(self).column_names(),
            final(self).bindings() == old(self).bindings(),
            final(self).buffered() == Some(rows@),
    {
        let mut rows = rows;
        let ghost all = rows@;
        let mut queue: VecDeque<R> = VecDeque::new();
        while rows.len() > 0
            invariant
                rows@ == all.take(rows@.len() as int),
                queue@ == all.skip(rows@.len() as int),
                rows@.len() <= all.len(),
            decreases rows.len(),
        {
            let ghost k = rows@.len() as int;
            match rows.pop() {
                Some(row) => {
                    queue.push_front(row);
                },
                None => {},
            }
            assert(rows@ =~= all.take(k - 1));
            assert(queue@ =~= all.skip(k - 1));
        }
        assert(queue@ =~= all);
        self.buffered = Some(queue);
    }

    /// Hands out the next of the rows that were fetched; `None` at their end.
    pub fn step(&mut self) -> (r: Option<R>)
        requires
            old(self).buffered() is Some,
        ensures
            final(self).sql() == old(self).sql(),
            final(self).column_names() == old(self).column_names(),
            final(self).bindings() == old(self).bindings(),
            final(self).buffered() is Some,
            ({
                let rows = old(self).buffered()->0;
                if rows.len() == 0 {
                    r is None && final(self).buffered()->0 == rows
                } else {
                    r == Some(rows[0]) && final(self).buffered()->0 == rows.skip(1)
                }
            }),
    {
        match &mut self.buffered {
            Some(v) => v.pop_front(),
            None => None,
        }
    }

    /// The number of columns, where their names are known.
    pub fn known_column_count(&self) -> (r: Option<i32>)
        ensures
            r == if self.column_names().len() == 0 {
                None
            } else {
                Some(self.column_names().len() as usize as i32)
            },
    {
        if self.column_names.len() > 0 {
            Some(self.column_names.len() as i32)
        } else {
            None
        }
    }

    /// The names of the columns, where they are known.
    pub fn known_column_names(&self) -> (r: Option<Vec<String>>)
        ensures
            match r {
                Some(v) => self.column_names().len() > 0 && texts(v@) == self.column_names(),
                None => self.column_names().len() == 0,
            },
    {
        if self.column_names.len() > 0 {
            Some(copy_texts(&self.column_names))
        } else {
            None
        }
    }
}

} // verus!
