//! Structural query selection and filter authoring.
use vstd::prelude::*;

use core::any::TypeId;

use crate::component::ComponentId;
use crate::entity::EntityId;
use crate::query::exact_id::ExactIdPolicy;

verus! {

/// Immutable description of which entities a query should visit and how to filter them.
pub struct QuerySpec {
    pub required: Vec<TypeId>,
    pub required_ids: Vec<ComponentId>,
    pub without: Vec<TypeId>,
    pub without_ids: Vec<ComponentId>,
    pub with_tags: Vec<TypeId>,
    pub with_tag_ids: Vec<ComponentId>,
    pub without_tags: Vec<TypeId>,
    pub without_tag_ids: Vec<ComponentId>,
    pub added: Vec<TypeId>,
    pub added_ids: Vec<ComponentId>,
    pub changed: Vec<TypeId>,
    pub changed_ids: Vec<ComponentId>,
    pub exact_ids: Option<Vec<EntityId>>,
    pub exact_id_policy: Option<ExactIdPolicy>,
}

impl QuerySpec {
    /// Every selector group of `self` but the one named by `group` equals that of `other`;
    /// the exact-id parts are compared unless `group` is 12.
    pub open spec fn same_except(&self, other: &Self, group: int) -> bool {
        &&& (group != 0 ==> self.required@ == other.required@)
        &&& (group != 1 ==> self.required_ids@ == other.required_ids@)
        &&& (group != 2 ==> self.without@ == other.without@)
        &&& (group != 3 ==> self.without_ids@ == other.without_ids@)
        &&& (group != 4 ==> self.with_tags@ == other.with_tags@)
        &&& (group != 5 ==> self.with_tag_ids@ == other.with_tag_ids@)
        &&& (group != 6 ==> self.without_tags@ == other.without_tags@)
        &&& (group != 7 ==> self.without_tag_ids@ == other.without_tag_ids@)
        &&& (group != 8 ==> self.added@ == other.added@)
        &&& (group != 9 ==> self.added_ids@ == other.added_ids@)
        &&& (group != 10 ==> self.changed@ == other.changed@)
        &&& (group != 11 ==> self.changed_ids@ == other.changed_ids@)
        &&& (group != 12 ==> self.exact_ids == other.exact_ids && self.exact_id_policy == other.exact_id_policy)
    }

    /// Empty spec that matches entities with no additional structural constraints.
    pub fn new() -> (r: QuerySpec)
        ensures
            r.required@ == Seq::<TypeId>::empty(),
            r.required_ids@ == Seq::<ComponentId>::empty(),
            r.without@ == Seq::<TypeId>::empty(),
            r.without_ids@ == Seq::<ComponentId>::empty(),
            r.with_tags@ == Seq::<TypeId>::empty(),
            r.with_tag_ids@ == Seq::<ComponentId>::empty(),
            r.without_tags@ == Seq::<TypeId>::empty(),
            r.without_tag_ids@ == Seq::<ComponentId>::empty(),
            r.added@ == Seq::<TypeId>::empty(),
            r.added_ids@ == Seq::<ComponentId>::empty(),
            r.changed@ == Seq::<TypeId>::empty(),
            r.changed_ids@ == Seq::<ComponentId>::empty(),
            r.exact_ids is None,
            r.exact_id_policy is None,
    {
        QuerySpec {
            required: Vec::new(),
            required_ids: Vec::new(),
            without: Vec::new(),
            without_ids: Vec::new(),
            with_tags: Vec::new(),
            with_tag_ids: Vec::new(),
            without_tags: Vec::new(),
            without_tag_ids: Vec::new(),
            added: Vec::new(),
            added_ids: Vec::new(),
            changed: Vec::new(),
            changed_ids: Vec::new(),
            exact_ids: None,
            exact_id_policy: None,
        }
    }

    /// Require a registered data component type.
    pub fn with(self, type_id: TypeId) -> (r: QuerySpec)
        ensures
            r.required@ == self.required@.push(type_id),
            r.same_except(&self, 0),
    {
        let mut s = self;
        s.required.push(type_id);
        s
    }

    /// Require a registered data component by id.
    pub fn with_id(self, id: ComponentId) -> (r: QuerySpec)
        ensures
            r.required_ids@ == self.required_ids@.push(id),
            r.same_except(&self, 1),
    {
        let mut s = self;
        s.required_ids.push(id);
        s
    }

    /// Exclude entities that have the component type.
    pub fn without(self, type_id: TypeId) -> (r: QuerySpec)
        ensures
            r.without@ == self.without@.push(type_id),
            r.same_except(&self, 2),
    {
        let mut s = self;
        s.without.push(type_id);
        s
    }

    /// Exclude entities that have the component id.
    pub fn without_id(self, id: ComponentId) -> (r: QuerySpec)
        ensures
            r.without_ids@ == self.without_ids@.push(id),
            r.same_except(&self, 3),
    {
        let mut s = self;
        s.without_ids.push(id);
        s
    }

    /// Require a zero-sized tag marker type.
    pub fn with_tag(self, type_id: TypeId) -> (r: QuerySpec)
        ensures
            r.with_tags@ == self.with_tags@.push(type_id),
            r.same_except(&self, 4),
    {
        let mut s = self;
        s.with_tags.push(type_id);
        s
    }

    /// Require a registered tag marker by id.
    pub fn with_tag_id(self, id: ComponentId) -> (r: QuerySpec)
        ensures
            r.with_tag_ids@ == self.with_tag_ids@.push(id),
            r.same_except(&self, 5),
    {
        let mut s = self;
        s.with_tag_ids.push(id);
        s
    }

    /// Exclude entities that carry the tag marker type.
    pub fn without_tag(self, type_id: TypeId) -> (r: QuerySpec)
        ensures
            r.without_tags@ == self.without_tags@.push(type_id),
            r.same_except(&self, 6),
    {
        let mut s = self;
        s.without_tags.push(type_id);
        s
    }

    /// Exclude entities that carry the tag marker id.
    pub fn without_tag_id(self, id: ComponentId) -> (r: QuerySpec)
        ensures
            r.without_tag_ids@ == self.without_tag_ids@.push(id),
            r.same_except(&self, 7),
    {
        let mut s = self;
        s.without_tag_ids.push(id);
        s
    }

    /// Require the component to be added inside the active change window.
    pub fn added(self, type_id: TypeId) -> (r: QuerySpec)
        ensures
            r.added@ == self.added@.push(type_id),
            r.same_except(&self, 8),
    {
        let mut s = self;
        s.added.push(type_id);
        s
    }

    /// Require the component id to be added inside the active change window.
    pub fn added_id(self, id: ComponentId) -> (r: QuerySpec)
        ensures
            r.added_ids@ == self.added_ids@.push(id),
            r.same_except(&self, 9),
    {
        let mut s = self;
        s.added_ids.push(id);
        s
    }

    /// Require the component to change inside the active change window.
    pub fn changed(self, type_id: TypeId) -> (r: QuerySpec)
        ensures
            r.changed@ == self.changed@.push(type_id),
            r.same_except(&self, 10),
    {
        let mut s = self;
        s.changed.push(type_id);
        s
    }

    /// Require the component id to change inside the active change window.
    pub fn changed_id(self, id: ComponentId) -> (r: QuerySpec)
        ensures
            r.changed_ids@ == self.changed_ids@.push(id),
            r.same_except(&self, 11),
    {
        let mut s = self;
        s.changed_ids.push(id);
        s
    }

    /// Visit only the listed entity ids, in the caller's order, under `policy`.
    pub fn exact_ids(self, ids: Vec<EntityId>, policy: ExactIdPolicy) -> (r: QuerySpec)
        ensures
            r.exact_ids == Some(ids),
            r.exact_id_policy == Some(policy),
            r.same_except(&self, 12),
    {
        let mut s = self;
        s.exact_ids = Some(ids);
        s.exact_id_policy = Some(policy);
        s
    }
}

impl Default for QuerySpec {
    /// The empty spec.
    fn default() -> (r: QuerySpec)
        ensures
            r.required@ == Seq::<TypeId>::empty(),
            r.required_ids@ == Seq::<ComponentId>::empty(),
            r.without@ == Seq::<TypeId>::empty(),
            r.without_ids@ == Seq::<ComponentId>::empty(),
            r.with_tags@ == Seq::<TypeId>::empty(),
            r.with_tag_ids@ == Seq::<ComponentId>::empty(),
            r.without_tags@ == Seq::<TypeId>::empty(),
            r.without_tag_ids@ == Seq::<ComponentId>::empty(),
            r.added@ == Seq::<TypeId>::empty(),
            r.added_ids@ == Seq::<ComponentId>::empty(),
            r.changed@ == Seq::<TypeId>::empty(),
            r.changed_ids@ == Seq::<ComponentId>::empty(),
            r.exact_ids is None,
            r.exact_id_policy is None,
    {
        QuerySpec::new()
    }
}

} // verus!
