//! Dense component columns with parallel added/changed tick arrays.
use vstd::prelude::*;

use crate::time::ChangeTick;

verus! {

/// Dense component column inside one archetype table.
pub struct TypedTableColumn<T> {
    data: Vec<T>,
    added: Vec<u64>,
    changed: Vec<u64>,
}

impl<T> TypedTableColumn<T> {
    /// The value and tick columns have one entry per row.
    pub closed spec fn wf(&self) -> bool {
        &&& self.data@.len() == self.added@.len()
        &&& self.data@.len() == self.changed@.len()
    }

    /// Values by row.
    pub closed spec fn values(&self) -> Seq<T> {
        self.data@
    }

    /// Added ticks by row.
    pub closed spec fn added_ticks(&self) -> Seq<u64> {
        self.added@
    }

    /// Changed ticks by row.
    pub closed spec fn changed_ticks(&self) -> Seq<u64> {
        self.changed@
    }

    /// A well-formed column has one tick pair per value.
    pub proof fn lemma_lengths(&self)
        requires
            self.wf(),
        ensures
            self.added_ticks().len() == self.values().len(),
            self.changed_ticks().len() == self.values().len(),
    {
    }

    /// An empty column.
    pub fn new() -> (r: TypedTableColumn<T>)
        ensures
            r.wf(),
            r.values() == Seq::<T>::empty(),
            r.added_ticks() == Seq::<u64>::empty(),
            r.changed_ticks() == Seq::<u64>::empty(),
    {
        TypedTableColumn { data: Vec::new(), added: Vec::new(), changed: Vec::new() }
    }

    /// Number of rows.
    pub fn len(&self) -> (r: usize)
        ensures
            r == self.values().len(),
    {
        self.data.len()
    }

    /// Type identity of the column's values.
    pub fn type_id(&self) -> core::any::TypeId
        where T: 'static,
    {
        crate::typeid::type_id_of::<T>()
    }

    fn stamp_row(&mut self, row: usize, tick: ChangeTick, is_new: bool)
        requires
            old(self).wf(),
            row < old(self).values().len(),
        ensures
            final(self).wf(),
            final(self).values() == old(self).values(),
            final(self).added_ticks() == if is_new {
                old(self).added_ticks().update(row as int, tick@)
            } else {
                old(self).added_ticks()
            },
            final(self).changed_ticks() == old(self).changed_ticks().update(row as int, tick@),
    {
        let raw = tick.raw();
        if is_new {
            self.added.set(row, raw);
        }
        self.changed.set(row, raw);
    }

    /// Removes a row by swapping the last row into its place and returns its value.
    pub fn take_row(&mut self, row: usize) -> (r: T)
        requires
            old(self).wf(),
            row < old(self).values().len(),
        ensures
            final(self).wf(),
            r == old(self).values()[row as int],
            final(self).values() == swap_removed(old(self).values(), row as int),
            final(self).added_ticks() == swap_removed(old(self).added_ticks(), row as int),
            final(self).changed_ticks() == swap_removed(old(self).changed_ticks(), row as int),
    {
        let value = self.data.swap_remove(row);
        let _ = self.added.swap_remove(row);
        let _ = self.changed.swap_remove(row);
        value
    }

    /// Removes a row like [`TypedTableColumn::take_row`] and also returns its ticks.
    pub fn take_row_with_ticks(&mut self, row: usize) -> (r: (T, u64, u64))
        requires
            old(self).wf(),
            row < old(self).values().len(),
        ensures
            final(self).wf(),
            r.0 == old(self).values()[row as int],
            r.1 == old(self).added_ticks()[row as int],
            r.2 == old(self).changed_ticks()[row as int],
            final(self).values() == swap_removed(old(self).values(), row as int),
            final(self).added_ticks() == swap_removed(old(self).added_ticks(), row as int),
            final(self).changed_ticks() == swap_removed(old(self).changed_ticks(), row as int),
    {
        let value = self.data.swap_remove(row);
        let added = self.added.swap_remove(row);
        let changed = self.changed.swap_remove(row);
        (value, added, changed)
    }

    /// Appends a row carrying the given ticks.
    pub fn push_row(&mut self, value: T, added: u64, changed: u64)
        requires
            old(self).wf(),
        ensures
            final(self).wf(),
            final(self).values() == old(self).values().push(value),
            final(self).added_ticks() == old(self).added_ticks().push(added),
            final(self).changed_ticks() == old(self).changed_ticks().push(changed),
    {
        self.data.push(value);
        self.added.push(added);
        self.changed.push(changed);
    }

    /// Moves a row, with its ticks, to the end of `destination`.
    pub fn move_row_to(&mut self, row: usize, destination: &mut TypedTableColumn<T>)
        requires
            old(self).wf(),
            old(destination).wf(),
            row < old(self).values().len(),
        ensures
            final(self).wf(),
            final(destination).wf(),
            final(self).values() == swap_removed(old(self).values(), row as int),
            final(self).added_ticks() == swap_removed(old(self).added_ticks(), row as int),
            final(self).changed_ticks() == swap_removed(old(self).changed_ticks(), row as int),
            final(destination).values() == old(destination).values().push(old(self).values()[row as int]),
            final(destination).added_ticks() == old(destination).added_ticks().push(old(self).added_ticks()[row as int]),
            final(destination).changed_ticks() == old(destination).changed_ticks().push(old(self).changed_ticks()[row as int]),
    {
        let value = self.data.swap_remove(row);
        let added = self.added.swap_remove(row);
        let changed = self.changed.swap_remove(row);
        destination.data.push(value);
        destination.added.push(added);
        destination.changed.push(changed);
    }

    /// Appends a value stamped added and changed at `tick`; returns its row.
    pub fn append_value(&mut self, value: T, tick: ChangeTick) -> (r: usize)
        requires
            old(self).wf(),
            old(self).values().len() < usize::MAX,
        ensures
            final(self).wf(),
            r == old(self).values().len(),
            final(self).values() == old(self).values().push(value),
            final(self).added_ticks() == old(self).added_ticks().push(tick@),
            final(self).changed_ticks() == old(self).changed_ticks().push(tick@),
    {
        let row = self.data.len();
        let raw = tick.raw();
        self.data.push(value);
        self.added.push(raw);
        self.changed.push(raw);
        row
    }

    /// Replaces the value at `row`, or appends it when `row` is past the end.
    /// A replaced row whose ticks are both zero is stamped as newly added.
    pub fn replace_value(&mut self, row: usize, value: T, tick: ChangeTick) -> (r: Option<T>)
        requires
            old(self).wf(),
            old(self).values().len() < usize::MAX,
        ensures
            final(self).wf(),
            row >= old(self).values().len() ==> {
                &&& r is None
                &&& final(self).values() == old(self).values().push(value)
                &&& final(self).added_ticks() == old(self).added_ticks().push(tick@)
                &&& final(self).changed_ticks() == old(self).changed_ticks().push(tick@)
            },
            row < old(self).values().len() ==> {
                let fresh = old(self).added_ticks()[row as int] == 0 && old(self).changed_ticks()[row as int] == 0;
                &&& r == Some(old(self).values()[row as int])
                &&& final(self).values() == old(self).values().update(row as int, value)
                &&& final(self).added_ticks() == if fresh {
                    old(self).added_ticks().update(row as int, tick@)
                } else {
                    old(self).added_ticks()
                }
                &&& final(self).changed_ticks() == old(self).changed_ticks().update(row as int, tick@)
            },
    {
        if row >= self.data.len() {
            self.append_value(value, tick);
            return None;
        }
        let mut replaced = value;
        std::mem::swap(&mut self.data[row], &mut replaced);
        let fresh = self.added[row] == 0 && self.changed[row] == 0;
        self.stamp_row(row, tick, fresh);
        Some(replaced)
    }

    /// Value at `row`.
    pub fn get_value(&self, row: usize) -> (r: Option<&T>)
        ensures
            r == if row < self.values().len() { Some(&self.values()[row as int]) } else { None::<&T> },
    {
        if row < self.data.len() {
            Some(&self.data[row])
        } else {
            None
        }
    }

    /// Mutable access to the value at `row`, recording `tick` as its changed tick.
    pub fn get_value_mut(&mut self, row: usize, tick: ChangeTick) -> (r: Option<&mut T>)
        requires
            old(self).wf(),
        ensures
            final(self).wf(),
            final(self).added_ticks() == old(self).added_ticks(),
            row < old(self).values().len() ==> {
                &&& r matches Some(v) && *v == old(self).values()[row as int]
                    && final(self).values() == old(self).values().update(row as int, *final(v))
                &&& final(self).changed_ticks() == old(self).changed_ticks().update(row as int, tick@)
            },
            row >= old(self).values().len() ==> {
                &&& r is None
                &&& final(self).values() == old(self).values()
                &&& final(self).changed_ticks() == old(self).changed_ticks()
            },
    {
        if row >= self.data.len() {
            return None;
        }
        self.changed.set(row, tick.raw());
        Some(&mut self.data[row])
    }

    /// Added tick at `row`.
    pub fn added_tick(&self, row: usize) -> (r: Option<ChangeTick>)
        ensures
            r matches Some(t) ==> row < self.added_ticks().len() && t@ == self.added_ticks()[row as int],
            r is None <==> row >= self.added_ticks().len(),
    {
        if row < self.added.len() {
            Some(ChangeTick::from_raw(self.added[row]))
        } else {
            None
        }
    }

    /// Changed tick at `row`.
    pub fn changed_tick(&self, row: usize) -> (r: Option<ChangeTick>)
        ensures
            r matches Some(t) ==> row < self.changed_ticks().len() && t@ == self.changed_ticks()[row as int],
            r is None <==> row >= self.changed_ticks().len(),
    {
        if row < self.changed.len() {
            Some(ChangeTick::from_raw(self.changed[row]))
        } else {
            None
        }
    }

    /// Overwrites both ticks of an existing row.
    pub fn overwrite_ticks(&mut self, row: usize, added: ChangeTick, changed: ChangeTick)
        requires
            old(self).wf(),
            row < old(self).values().len(),
        ensures
            final(self).wf(),
            final(self).values() == old(self).values(),
            final(self).added_ticks() == old(self).added_ticks().update(row as int, added@),
            final(self).changed_ticks() == old(self).changed_ticks().update(row as int, changed@),
    {
        self.added.set(row, added.raw());
        self.changed.set(row, changed.raw());
    }
}

/// The sequence after `Vec::swap_remove(i)`: the last element takes position `i`.
pub open spec fn swap_removed<A>(s: Seq<A>, i: int) -> Seq<A> {
    s.update(i, s.last()).drop_last()
}

} // verus!
