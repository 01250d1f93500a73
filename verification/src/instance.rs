//! The environment: everything that has been declared, under its names.

use crate::data::{well_formed, well_formed_entity, 
    AmbiguousItem, Data, DataModel, Entity, EntityClass, EntityClassId, EntityModel, MetaData,
    MetaModel,
};
use crate::error::Error;
use crate::expression::names_view;
use crate::many_to_one::{position_of, ManyToOneMap};
use crate::storage::StoragePool;
use crate::units::{
    copy_names, first_prefix, metric_prefix_exponent, single, units_view, variants, Composite,
    Unit, UnitClass, UnitClassId, UnitId, UnitModel, UnitPrefixType,
};
use vstd::prelude::*;

verus! {

/// Everything that has been declared: the unit classes, units and entity
/// classes, and three kinds of names that do not get in each other's way:
/// names of those three, names of values, and labels.
#[derive(Debug)]
pub struct Instance {
    unit_classes: StoragePool<UnitClass>,
    units: StoragePool<Unit>,
    entity_classes: StoragePool<EntityClass>,
    meta_items: ManyToOneMap<MetaData>,
    values: ManyToOneMap<Entity>,
    labels: ManyToOneMap<Data>,
}

/// The model of an optional meta item.
pub open spec fn meta_view(item: Option<MetaData>) -> Option<MetaModel> {
    match item {
        Some(m) => Some(m@),
        None => None,
    }
}

/// The model of an optional entity.
pub open spec fn entity_view(item: Option<Entity>) -> Option<EntityModel> {
    match item {
        Some(e) => Some(e.model()),
        None => None,
    }
}

/// The model of optional data.
pub open spec fn data_view(item: Option<Data>) -> Option<DataModel> {
    match item {
        Some(d) => Some(d.model()),
        None => None,
    }
}

/// Whether no name of `a` is a name of `b`.
pub open spec fn apart(a: Seq<Seq<char>>, b: Seq<Seq<char>>) -> bool {
    forall|i: int, j: int| 0 <= i < a.len() && 0 <= j < b.len() ==> #[trigger] a[i] != #[trigger] b[j]
}

/// The units that declaring `unit` as a unit of the given kind declares:
/// the unit itself, then its variants.
pub open spec fn declared(unit: UnitModel, prefix_type: UnitPrefixType) -> Seq<UnitModel> {
    seq![unit] + variants(unit, prefix_type)
}

/// What `name` stands for after the units of `list` were declared one after
/// the other, the first of them getting the identifier `base`, where it
/// stood for `before`.
pub open spec fn after_units(
    before: Option<MetaModel>,
    list: Seq<UnitModel>,
    base: nat,
    name: Seq<char>,
) -> Option<MetaModel>
    decreases list.len(),
{
    if list.len() == 0 {
        before
    } else if list.last().names.contains(name) {
        Some(MetaModel::Unit(single((base + list.len() - 1) as nat)))
    } else {
        after_units(before, list.drop_last(), base, name)
    }
}

/// Whether no name of one list of strings is a name of the other.
pub fn names_apart(a: &Vec<String>, b: &Vec<String>) -> (result: bool)
    ensures
        result == apart(names_view(a@), names_view(b@)),
{
    let mut i: usize = 0;
    while i < a.len()
        invariant
            i <= a@.len(),
            forall|k: int, j: int|
                0 <= k < i && 0 <= j < b@.len() ==> #[trigger] names_view(a@)[k]
                    != #[trigger] names_view(b@)[j],
        decreases a@.len() - i,
    {
        match position_of(b, &a[i]) {
            Some(j) => {
                assert(names_view(a@)[i as int] == names_view(b@)[j as int]);
                return false;
            },
            None => {
                assert forall|j: int| 0 <= j < b@.len() implies names_view(a@)[i as int]
                    != #[trigger] names_view(b@)[j] by {
                    assert(names_view(b@).contains(names_view(b@)[j]));
                }
            },
        }
        i = i + 1;
    }
    true
}

impl Instance {
    /// The unit classes declared, in the order of their identifiers.
    pub closed spec fn unit_classes(&self) -> Seq<UnitClass> {
        self.unit_classes@
    }

    /// The units declared, in the order of their identifiers.
    pub closed spec fn units(&self) -> Seq<Unit> {
        self.units@
    }

    /// The entity classes declared, in the order of their identifiers.
    pub closed spec fn entity_classes(&self) -> Seq<EntityClass> {
        self.entity_classes@
    }

    /// What `name` stands for as a unit class, unit or entity class.
    pub closed spec fn meta(&self, name: Seq<char>) -> Option<MetaData> {
        self.meta_items.lookup(name)
    }

    /// What `name` stands for as a value.
    pub closed spec fn value(&self, name: Seq<char>) -> Option<Entity> {
        self.values.lookup(name)
    }

    /// What `name` stands for as a label.
    pub closed spec fn label(&self, name: Seq<char>) -> Option<Data> {
        self.labels.lookup(name)
    }

    /// Whether one of `names` is taken as the name of a unit class, unit or
    /// entity class.
    pub open spec fn any_meta(&self, names: Seq<Seq<char>>) -> bool {
        exists|i: int| 0 <= i < names.len() && self.meta(#[trigger] names[i]).is_some()
    }

    /// Whether one of `names` is taken as the name of a value.
    pub open spec fn any_value(&self, names: Seq<Seq<char>>) -> bool {
        exists|i: int| 0 <= i < names.len() && self.value(#[trigger] names[i]).is_some()
    }

    /// Whether one of `names` is taken as a label.
    pub open spec fn any_label(&self, names: Seq<Seq<char>>) -> bool {
        exists|i: int| 0 <= i < names.len() && self.label(#[trigger] names[i]).is_some()
    }

    /// Whether the two instances have the same unit classes, units and
    /// entity classes.
    pub open spec fn same_pools(&self, other: &Instance) -> bool {
        &&& self.unit_classes() == other.unit_classes()
        &&& self.units() == other.units()
        &&& self.entity_classes() == other.entity_classes()
    }

    /// Whether the two instances have the same names of unit classes, units
    /// and entity classes.
    pub open spec fn same_meta(&self, other: &Instance) -> bool {
        forall|name: Seq<char>| #[trigger] self.meta(name) == other.meta(name)
    }

    /// Whether the two instances have the same names of values.
    pub open spec fn same_values(&self, other: &Instance) -> bool {
        forall|name: Seq<char>| #[trigger] self.value(name) == other.value(name)
    }

    /// Whether the two instances have the same labels.
    pub open spec fn same_labels(&self, other: &Instance) -> bool {
        forall|name: Seq<char>| #[trigger] self.label(name) == other.label(name)
    }

    /// Whether every label and every value that the instance holds is well
    /// formed: in no entity in them does a property name or a class occur
    /// twice. The instance in which nothing is declared is sound, and
    /// executing statements keeps an instance sound.
    pub open spec fn sound(&self) -> bool {
        &&& forall|name: Seq<char>|
            (#[trigger] data_view(self.label(name))).is_some() ==> well_formed(
                data_view(self.label(name)).unwrap(),
            )
        &&& forall|name: Seq<char>|
            (#[trigger] entity_view(self.value(name))).is_some() ==> well_formed_entity(
                entity_view(self.value(name)).unwrap(),
            )
    }

    /// The instance in which nothing is declared.
    pub fn new() -> (instance: Instance)
        ensures
            instance.sound(),
            instance.unit_classes().len() == 0,
            instance.units().len() == 0,
            instance.entity_classes().len() == 0,
            forall|name: Seq<char>| instance.meta(name).is_none(),
            forall|name: Seq<char>| instance.value(name).is_none(),
            forall|name: Seq<char>| instance.label(name).is_none(),
    {
        Instance {
            unit_classes: StoragePool::new(),
            units: StoragePool::new(),
            entity_classes: StoragePool::new(),
            meta_items: ManyToOneMap::new(),
            values: ManyToOneMap::new(),
            labels: ManyToOneMap::new(),
        }
    }

    /// The unit class that `id` names, if it is one of this instance.
    pub fn unit_class(&self, id: UnitClassId) -> (found: Option<&UnitClass>)
        ensures
            match found {
                Some(class) => id@ < self.unit_classes().len() && *class == self.unit_classes()[id@ as int],
                None => id@ >= self.unit_classes().len(),
            },
    {
        if id.index() < self.unit_classes.len() {
            Some(self.unit_classes.index(id))
        } else {
            None
        }
    }

    /// The unit that `id` names, if it is one of this instance.
    pub fn unit(&self, id: UnitId) -> (found: Option<&Unit>)
        ensures
            match found {
                Some(unit) => id@ < self.units().len() && *unit == self.units()[id@ as int],
                None => id@ >= self.units().len(),
            },
    {
        if id.index() < self.units.len() {
            Some(self.units.index(id))
        } else {
            None
        }
    }

    /// The entity class that `id` names, if it is one of this instance.
    pub fn entity_class(&self, id: EntityClassId) -> (found: Option<&EntityClass>)
        ensures
            match found {
                Some(class) => id@ < self.entity_classes().len() && *class
                    == self.entity_classes()[id@ as int],
                None => id@ >= self.entity_classes().len(),
            },
    {
        if id.index() < self.entity_classes.len() {
            Some(self.entity_classes.index(id))
        } else {
            None
        }
    }

    /// Declares `data` under `names`, all of them or none: where one of the
    /// names is taken, nothing changes.
    fn declare_meta_item(&mut self, names: Vec<String>, data: MetaData) -> (done: Result<(), Error>)
        ensures
            match done {
                Ok(_) => {
                    &&& !old(self).any_meta(names_view(names@))
                    &&& final(self).same_pools(old(self))
                    &&& final(self).same_values(old(self))
                    &&& final(self).same_labels(old(self))
                    &&& forall|name: Seq<char>| #[trigger]
                        final(self).meta(name) == if names_view(names@).contains(name) {
                            Some(data)
                        } else {
                            old(self).meta(name)
                        }
                },
                Err(e) => e == Error::NameCollision && old(self).any_meta(names_view(names@))
                    && *final(self) == *old(self),
            },
    {
        if self.meta_items.contains_any_key(&names) {
            return Err(Error::NameCollision);
        }
        self.meta_items.insert(names, data);
        Ok(())
    }

    /// Declares the value `data` under `names`, all of them or none.
    pub fn declare_value(&mut self, names: Vec<String>, data: Entity) -> (done: Result<(), Error>)
        ensures
            match done {
                Ok(_) => {
                    &&& !old(self).any_value(names_view(names@))
                    &&& final(self).same_pools(old(self))
                    &&& final(self).same_meta(old(self))
                    &&& final(self).same_labels(old(self))
                    &&& forall|name: Seq<char>| #[trigger]
                        final(self).value(name) == if names_view(names@).contains(name) {
                            Some(data)
                        } else {
                            old(self).value(name)
                        }
                    &&& old(self).sound() && well_formed_entity(data.model()) ==> final(self).sound()
                },
                Err(e) => e == Error::NameCollision && old(self).any_value(names_view(names@))
                    && *final(self) == *old(self),
            },
    {
        if self.values.contains_any_key(&names) {
            return Err(Error::NameCollision);
        }
        self.values.insert(names, data);
        proof {
            if old(self).sound() && well_formed_entity(data.model()) {
                assert forall|name: Seq<char>|
                    (#[trigger] entity_view(self.value(name))).is_some() implies well_formed_entity(
                    entity_view(self.value(name)).unwrap(),
                ) by {
                    if !names_view(names@).contains(name) {
                        assert(entity_view(old(self).value(name)).is_some());
                    }
                }
                assert forall|name: Seq<char>|
                    (#[trigger] data_view(self.label(name))).is_some() implies well_formed(
                    data_view(self.label(name)).unwrap(),
                ) by {
                    assert(data_view(old(self).label(name)).is_some());
                }
            }
        }
        Ok(())
    }

    /// Declares the label `data` under `names`, all of them or none.
    pub fn declare_label(&mut self, names: Vec<String>, data: Data) -> (done: Result<(), Error>)
        ensures
            match done {
                Ok(_) => {
                    &&& !old(self).any_label(names_view(names@))
                    &&& final(self).same_pools(old(self))
                    &&& final(self).same_meta(old(self))
                    &&& final(self).same_values(old(self))
                    &&& forall|name: Seq<char>| #[trigger]
                        final(self).label(name) == if names_view(names@).contains(name) {
                            Some(data)
                        } else {
                            old(self).label(name)
                        }
                    &&& old(self).sound() && well_formed(data.model()) ==> final(self).sound()
                },
                Err(e) => e == Error::NameCollision && old(self).any_label(names_view(names@))
                    && *final(self) == *old(self),
            },
    {
        if self.labels.contains_any_key(&names) {
            return Err(Error::NameCollision);
        }
        self.labels.insert(names, data);
        proof {
            if old(self).sound() && well_formed(data.model()) {
                assert forall|name: Seq<char>|
                    (#[trigger] data_view(self.label(name))).is_some() implies well_formed(
                    data_view(self.label(name)).unwrap(),
                ) by {
                    if !names_view(names@).contains(name) {
                        assert(data_view(old(self).label(name)).is_some());
                    }
                }
                assert forall|name: Seq<char>|
                    (#[trigger] entity_view(self.value(name))).is_some() implies well_formed_entity(
                    entity_view(self.value(name)).unwrap(),
                ) by {
                    assert(entity_view(old(self).value(name)).is_some());
                }
            }
        }
        Ok(())
    }

    /// Declares a unit class under its names, all of them or none.
    pub fn add_unit_class(&mut self, unit_class: UnitClass) -> (done: Result<UnitClassId, Error>)
        ensures
            match done {
                Ok(id) => {
                    &&& !old(self).any_meta(names_view(unit_class.names@))
                    &&& id@ == old(self).unit_classes().len()
                    &&& final(self).unit_classes() == old(self).unit_classes().push(unit_class)
                    &&& final(self).units() == old(self).units()
                    &&& final(self).entity_classes() == old(self).entity_classes()
                    &&& final(self).same_values(old(self))
                    &&& final(self).same_labels(old(self))
                    &&& forall|name: Seq<char>| #[trigger]
                        meta_view(final(self).meta(name)) == if names_view(
                            unit_class.names@,
                        ).contains(name) {
                            Some(MetaModel::UnitClass(single(id@)))
                        } else {
                            meta_view(old(self).meta(name))
                        }
                },
                Err(e) => e == Error::NameCollision && old(self).any_meta(
                    names_view(unit_class.names@),
                ) && *final(self) == *old(self),
            },
    {
        let id = self.unit_classes.next_id();
        let names = copy_names(&unit_class.names);
        match self.declare_meta_item(names, MetaData::UnitClass(Composite::from(id))) {
            Ok(_) => {},
            Err(e) => {
                return Err(e);
            },
        }
        let ghost declared = *self;
        self.unit_classes.push(unit_class);
        proof {
            assert forall|name: Seq<char>| #[trigger]
                meta_view(self.meta(name)) == if names_view(unit_class.names@).contains(name) {
                    Some(MetaModel::UnitClass(single(id@)))
                } else {
                    meta_view(old(self).meta(name))
                } by {
                assert(self.meta(name) == declared.meta(name));
            }
            assert forall|name: Seq<char>| #[trigger] self.value(name) == old(self).value(name) by {
                assert(declared.value(name) == old(self).value(name));
            }
            assert forall|name: Seq<char>| #[trigger] self.label(name) == old(self).label(name) by {
                assert(declared.label(name) == old(self).label(name));
            }
        }
        Ok(id)
    }

    /// Declares an entity class under its names, all of them or none.
    pub fn add_entity_class(&mut self, entity_class: EntityClass) -> (done: Result<
        EntityClassId,
        Error,
    >)
        ensures
            match done {
                Ok(id) => {
                    &&& !old(self).any_meta(names_view(entity_class.names@))
                    &&& id@ == old(self).entity_classes().len()
                    &&& final(self).entity_classes() == old(self).entity_classes().push(
                        entity_class,
                    )
                    &&& final(self).units() == old(self).units()
                    &&& final(self).unit_classes() == old(self).unit_classes()
                    &&& final(self).same_values(old(self))
                    &&& final(self).same_labels(old(self))
                    &&& forall|name: Seq<char>| #[trigger]
                        meta_view(final(self).meta(name)) == if names_view(
                            entity_class.names@,
                        ).contains(name) {
                            Some(MetaModel::EntityClass(id@))
                        } else {
                            meta_view(old(self).meta(name))
                        }
                },
                Err(e) => e == Error::NameCollision && old(self).any_meta(
                    names_view(entity_class.names@),
                ) && *final(self) == *old(self),
            },
    {
        let id = self.entity_classes.next_id();
        let names = copy_names(&entity_class.names);
        match self.declare_meta_item(names, MetaData::EntityClass(id)) {
            Ok(_) => {},
            Err(e) => {
                return Err(e);
            },
        }
        let ghost declared = *self;
        self.entity_classes.push(entity_class);
        proof {
            assert forall|name: Seq<char>| #[trigger]
                meta_view(self.meta(name)) == if names_view(entity_class.names@).contains(name) {
                    Some(MetaModel::EntityClass(id@))
                } else {
                    meta_view(old(self).meta(name))
                } by {
                assert(self.meta(name) == declared.meta(name));
            }
            assert forall|name: Seq<char>| #[trigger] self.value(name) == old(self).value(name) by {
                assert(declared.value(name) == old(self).value(name));
            }
            assert forall|name: Seq<char>| #[trigger] self.label(name) == old(self).label(name) by {
                assert(declared.label(name) == old(self).label(name));
            }
        }
        Ok(id)
    }

    /// Whether the units of `list` can be declared: none of their names is
    /// taken, and no two of them share a name.
    pub open spec fn can_declare(&self, list: Seq<UnitModel>) -> bool {
        &&& forall|g: int| 0 <= g < list.len() ==> !self.any_meta((#[trigger] list[g]).names)
        &&& forall|h: int, g: int|
            0 <= h < g < list.len() ==> apart((#[trigger] list[h]).names, (#[trigger] list[g]).names)
    }

    /// Whether `unit` and then the units of `rest` can be declared.
    fn check_units(&self, unit: &Unit, rest: &Vec<Unit>) -> (free: bool)
        requires
            rest@.len() < usize::MAX,
        ensures
            free == self.can_declare(seq![unit@] + units_view(rest@)),
    {
        let ghost list = seq![unit@] + units_view(rest@);
        let mut g: usize = 0;
        while g <= rest.len()
            invariant
                g <= rest@.len() + 1,
                rest@.len() < usize::MAX,
                list == seq![unit@] + units_view(rest@),
                forall|k: int| 0 <= k < g ==> !self.any_meta((#[trigger] list[k]).names),
                forall|h: int, k: int|
                    0 <= h < k < g ==> apart((#[trigger] list[h]).names, (#[trigger] list[k]).names),
            decreases rest@.len() + 1 - g,
        {
            let names: &Vec<String> = if g == 0 {
                &unit.names
            } else {
                &rest[g - 1].names
            };
            assert(names_view(names@) == list[g as int].names);
            if self.meta_items.contains_any_key(names) {
                assert(self.any_meta(list[g as int].names));
                return false;
            }
            let mut h: usize = 0;
            while h < g
                invariant
                    h <= g <= rest@.len(),
                    list == seq![unit@] + units_view(rest@),
                    names_view(names@) == list[g as int].names,
                    forall|k: int| 0 <= k < h ==> apart((#[trigger] list[k]).names, list[g as int].names),
                decreases g - h,
            {
                let earlier: &Vec<String> = if h == 0 {
                    &unit.names
                } else {
                    &rest[h - 1].names
                };
                assert(names_view(earlier@) == list[h as int].names);
                if !names_apart(earlier, names) {
                    assert(!apart(list[h as int].names, list[g as int].names));
                    return false;
                }
                h = h + 1;
            }
            g = g + 1;
        }
        true
    }

    /// Declares one unit under its names, whether they are taken or not.
    fn put_unit(&mut self, unit: Unit)
        ensures
            final(self).units() == old(self).units().push(unit),
            final(self).unit_classes() == old(self).unit_classes(),
            final(self).entity_classes() == old(self).entity_classes(),
            final(self).same_values(old(self)),
            final(self).same_labels(old(self)),
            forall|name: Seq<char>| #[trigger]
                meta_view(final(self).meta(name)) == if unit@.names.contains(name) {
                    Some(MetaModel::Unit(single(old(self).units().len())))
                } else {
                    meta_view(old(self).meta(name))
                },
    {
        let id = self.units.next_id();
        let names = copy_names(&unit.names);
        self.meta_items.insert(names, MetaData::Unit(Composite::from(id)));
        self.units.push(unit);
    }

    /// Declares a unit under its names, and with it the variants that a unit
    /// of the given kind gets, each under its own names: all of them or
    /// none. Where one of all these names is taken, or two of the units
    /// share a name, nothing changes.
    pub fn add_unit(&mut self, unit: Unit, prefix_type: UnitPrefixType) -> (done: Result<
        UnitId,
        Error,
    >)
        ensures
            match done {
                Ok(id) => {
                    &&& old(self).can_declare(declared(unit@, prefix_type))
                    &&& id@ == old(self).units().len()
                    &&& units_view(final(self).units()) == units_view(old(self).units())
                        + declared(unit@, prefix_type)
                    &&& final(self).unit_classes() == old(self).unit_classes()
                    &&& final(self).entity_classes() == old(self).entity_classes()
                    &&& final(self).same_values(old(self))
                    &&& final(self).same_labels(old(self))
                    &&& forall|name: Seq<char>| #[trigger]
                        meta_view(final(self).meta(name)) == after_units(
                            meta_view(old(self).meta(name)),
                            declared(unit@, prefix_type),
                            id@,
                            name,
                        )
                },
                Err(e) => e == Error::NameCollision && !old(self).can_declare(
                    declared(unit@, prefix_type),
                ) && *final(self) == *old(self),
            },
    {
        let mut rest: Vec<Unit> = unit.variants(prefix_type);
        let ghost list = declared(unit@, prefix_type);
        assert(list == seq![unit@] + units_view(rest@));
        assert(rest@.len() == units_view(rest@).len());
        if !self.check_units(&unit, &rest) {
            return Err(Error::NameCollision);
        }
        let id = self.units.next_id();
        let ghost base = id@;
        self.put_unit(unit);
        proof {
            assert(list.take(1) =~= seq![unit@]);
            assert(list.take(1).drop_last() =~= Seq::<UnitModel>::empty());
            assert(units_view(self.units()) =~= units_view(old(self).units()) + list.take(1));
            assert forall|name: Seq<char>| #[trigger]
                meta_view(self.meta(name)) == after_units(
                    meta_view(old(self).meta(name)),
                    list.take(1),
                    base,
                    name,
                ) by {
                assert(after_units(
                    meta_view(old(self).meta(name)),
                    list.take(1).drop_last(),
                    base,
                    name,
                ) == meta_view(old(self).meta(name)));
            }
        }
        let ghost mut done: int = 1;
        while rest.len() > 0
            invariant
                1 <= done <= list.len(),
                base == old(self).units().len(),
                list.len() == done + rest@.len(),
                forall|k: int| 0 <= k < rest@.len() ==> (#[trigger] rest@[k])@ == list[done + k],
                units_view(self.units()) == units_view(old(self).units()) + list.take(done),
                self.unit_classes() == old(self).unit_classes(),
                self.entity_classes() == old(self).entity_classes(),
                self.same_values(old(self)),
                self.same_labels(old(self)),
                forall|name: Seq<char>| #[trigger]
                    meta_view(self.meta(name)) == after_units(
                        meta_view(old(self).meta(name)),
                        list.take(done),
                        base,
                        name,
                    ),
            decreases rest@.len(),
        {
            let ghost before = *self;
            let next: Unit = rest.remove(0);
            self.put_unit(next);
            proof {
                assert(list.take(done + 1).drop_last() =~= list.take(done));
                assert(list.take(done + 1).last() == next@);
                assert(list.take(done + 1) =~= list.take(done).push(next@));
                assert(units_view(before.units().push(next)) =~= units_view(before.units()).push(
                    next@,
                ));
                assert(units_view(self.units()) =~= units_view(old(self).units()) + list.take(
                    done + 1,
                ));
                assert forall|name: Seq<char>| #[trigger]
                    meta_view(self.meta(name)) == after_units(
                        meta_view(old(self).meta(name)),
                        list.take(done + 1),
                        base,
                        name,
                    ) by {
                    assert(meta_view(before.meta(name)) == after_units(
                        meta_view(old(self).meta(name)),
                        list.take(done),
                        base,
                        name,
                    ));
                }
                assert forall|name: Seq<char>| #[trigger] self.value(name) == old(self).value(
                    name,
                ) by {
                    assert(before.value(name) == old(self).value(name));
                }
                assert forall|name: Seq<char>| #[trigger] self.label(name) == old(self).label(
                    name,
                ) by {
                    assert(before.label(name) == old(self).label(name));
                }
                done = done + 1;
            }
        }
        proof {
            assert(list.take(done) =~= list);
        }
        Ok(id)
    }

    /// What `name` stands for, in each of the three kinds of names.
    pub fn lookup_item<'a>(&'a self, name: &String) -> (item: AmbiguousItem<'a>)
        ensures
            match item.as_meta {
                Some(m) => self.meta(name@) == Some(*m),
                None => self.meta(name@).is_none(),
            },
            match item.as_value {
                Some(e) => self.value(name@) == Some(*e),
                None => self.value(name@).is_none(),
            },
            match item.as_label {
                Some((stored, d)) => self.label(name@) == Some(*d) && stored@ == name@,
                None => self.label(name@).is_none(),
            },
    {
        AmbiguousItem {
            as_meta: self.meta_items.get(name),
            as_value: self.values.get(name),
            as_label: self.labels.get_key_value(name),
        }
    }
}

/// An instance with the labels and values of a sound instance is sound.
pub proof fn lemma_sound_kept(before: &Instance, after: &Instance)
    requires
        before.sound(),
        after.same_values(before),
        after.same_labels(before),
    ensures
        after.sound(),
{
    assert forall|name: Seq<char>|
        (#[trigger] data_view(after.label(name))).is_some() implies well_formed(
        data_view(after.label(name)).unwrap(),
    ) by {
        assert(after.label(name) == before.label(name));
        assert(data_view(before.label(name)).is_some());
    }
    assert forall|name: Seq<char>|
        (#[trigger] entity_view(after.value(name))).is_some() implies well_formed_entity(
        entity_view(after.value(name)).unwrap(),
    ) by {
        assert(after.value(name) == before.value(name));
        assert(entity_view(before.value(name)).is_some());
    }
}

/// After units that share no names were declared, every name of every one
/// of them stands for that unit.
pub proof fn lemma_declared_names(
    before: Option<MetaModel>,
    list: Seq<UnitModel>,
    base: nat,
    g: int,
    n: int,
)
    requires
        forall|h: int, k: int|
            0 <= h < k < list.len() ==> apart((#[trigger] list[h]).names, (#[trigger] list[k]).names),
        0 <= g < list.len(),
        0 <= n < list[g].names.len(),
    ensures
        after_units(before, list, base, list[g].names[n]) == Some(
            MetaModel::Unit(single((base + g) as nat)),
        ),
    decreases list.len(),
{
    let name = list[g].names[n];
    if g == list.len() - 1 {
        assert(list.last().names.contains(name));
    } else {
        assert(apart(list[g].names, list.last().names));
        assert(!list.last().names.contains(name)) by {
            if list.last().names.contains(name) {
                let m = choose|m: int| 0 <= m < list.last().names.len() && list.last().names[m] == name;
                assert(list[g].names[n] != list[list.len() - 1].names[m]);
            }
        }
        let rest = list.drop_last();
        assert forall|h: int, k: int| 0 <= h < k < rest.len() implies apart(
            (#[trigger] rest[h]).names,
            (#[trigger] rest[k]).names,
        ) by {
            assert(rest[h] == list[h] && rest[k] == list[k]);
        }
        assert(rest[g] == list[g]);
        lemma_declared_names(before, rest, base, g, n);
    }
}

/// A name that none of the declared units has stands for what it stood for
/// before.
pub proof fn lemma_other_names(before: Option<MetaModel>, list: Seq<UnitModel>, base: nat, name: Seq<char>)
    requires
        forall|g: int| 0 <= g < list.len() ==> !(#[trigger] list[g]).names.contains(name),
    ensures
        after_units(before, list, base, name) == before,
    decreases list.len(),
{
    if list.len() > 0 {
        assert(!list[list.len() - 1].names.contains(name));
        let rest = list.drop_last();
        assert forall|g: int| 0 <= g < rest.len() implies !(#[trigger] rest[g]).names.contains(
            name,
        ) by {
            assert(rest[g] == list[g]);
        }
        lemma_other_names(before, rest, base, name);
    }
}

/// A unit declared with all the metric prefixes brings twenty variants, one
/// declared with the small ones brings ten, and a plain unit brings none.
/// Each variant has a name for every name of the unit, the ratio of the
/// unit, and for a unit without a prefix of its own the power of ten of its
/// prefix.
pub proof fn lemma_metric_expansion(unit: UnitModel, prefix_type: UnitPrefixType, k: int)
    requires
        0 <= k < variants(unit, prefix_type).len(),
    ensures
        variants(unit, UnitPrefixType::Metric).len() == 20,
        variants(unit, UnitPrefixType::PartialMetric).len() == 10,
        variants(unit, UnitPrefixType::Plain).len() == 0,
        declared(unit, prefix_type).len() == 1 + variants(unit, prefix_type).len(),
        declared(unit, prefix_type)[0] == unit,
        declared(unit, prefix_type)[1 + k] == variants(unit, prefix_type)[k],
        variants(unit, prefix_type)[k].names.len() == unit.names.len(),
        variants(unit, prefix_type)[k].base_ratio == unit.base_ratio,
        variants(unit, prefix_type)[k].class == unit.class,
        unit.prefix_exponent == 0 ==> variants(unit, prefix_type)[k].prefix_exponent
            == metric_prefix_exponent(first_prefix(prefix_type) + k),
        prefix_type == UnitPrefixType::PartialMetric ==> metric_prefix_exponent(
            first_prefix(prefix_type) + k,
        ) < 0,
{
}

} // verus!
