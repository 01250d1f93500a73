//! What names stand for and what expressions evaluate to.

use crate::scalar::{Scalar, ScalarModel};
use crate::storage::StorageId;
use crate::units::{CompositeUnit, CompositeUnitClass};
use vstd::prelude::*;

verus! {

/// A class of entities. The first name is the one shown.
#[derive(Debug)]
pub struct EntityClass {
    pub names: Vec<String>,
}

/// The identity of a declared entity class.
pub type EntityClassId = StorageId<EntityClass>;

/// A record: named properties, and the classes it is tagged with. In a
/// well-formed entity no name and no class occurs twice; see `well_formed`.
#[derive(Debug)]
pub struct Entity {
    pub properties: Vec<(String, Data)>,
    pub classes: Vec<EntityClassId>,
}

/// What a name for a thing of the language itself stands for.
#[derive(Debug)]
pub enum MetaData {
    UnitClass(CompositeUnitClass),
    Unit(CompositeUnit),
    EntityClass(EntityClassId),
}

/// A value.
#[derive(Debug)]
pub enum ValueData {
    Scalar(Scalar),
    Entity(Entity),
    String(String),
}

/// Anything an expression can evaluate to.
#[derive(Debug)]
pub enum Data {
    Meta(MetaData),
    Value(ValueData),
}

/// What a `MetaData` holds.
#[verifier::ext_equal]
pub enum MetaModel {
    UnitClass(Map<nat, int>),
    Unit(Map<nat, int>),
    EntityClass(nat),
}

/// What an `Entity` holds.
#[verifier::ext_equal]
pub struct EntityModel {
    pub properties: Seq<(Seq<char>, DataModel)>,
    pub classes: Seq<nat>,
}

/// What a `ValueData` holds.
#[verifier::ext_equal]
pub enum ValueModel {
    Scalar(ScalarModel),
    Entity(EntityModel),
    String(Seq<char>),
}

/// What a `Data` holds.
#[verifier::ext_equal]
pub enum DataModel {
    Meta(MetaModel),
    Value(ValueModel),
}

/// Whether no two properties have the same name.
pub open spec fn names_distinct(properties: Seq<(Seq<char>, DataModel)>) -> bool {
    forall|i: int, j: int|
        0 <= i < j < properties.len() ==> (#[trigger] properties[i]).0 != (#[trigger] properties[j]).0
}

/// Whether data is well formed: in every entity in it, at whatever depth, no
/// property name and no class occurs twice.
pub open spec fn well_formed(data: DataModel) -> bool
    decreases data,
{
    match data {
        DataModel::Value(ValueModel::Entity(entity)) => {
            &&& names_distinct(entity.properties)
            &&& entity.classes.no_duplicates()
            &&& forall|i: int|
                0 <= i < entity.properties.len() ==> well_formed(
                    (#[trigger] entity.properties[i]).1,
                )
        },
        _ => true,
    }
}

/// Whether an entity is well formed.
pub open spec fn well_formed_entity(entity: EntityModel) -> bool {
    well_formed(DataModel::Value(ValueModel::Entity(entity)))
}

/// The positions that a list of identifiers stands for.
pub open spec fn classes_view(list: Seq<EntityClassId>) -> Seq<nat> {
    Seq::new(list.len(), |i: int| list[i]@)
}

/// What a list of properties holds.
pub open spec fn properties_model(list: Seq<(String, Data)>) -> Seq<(Seq<char>, DataModel)>
    decreases list,
{
    if list.len() == 0 {
        Seq::empty()
    } else {
        properties_model(list.drop_last()).push((list.last().0@, list.last().1.model()))
    }
}

/// The model of a list of properties has the models of its items, in order.
pub proof fn lemma_properties_model(list: Seq<(String, Data)>)
    ensures
        properties_model(list).len() == list.len(),
        forall|i: int|
            0 <= i < list.len() ==> (#[trigger] properties_model(list)[i]) == (
                list[i].0@,
                list[i].1.model(),
            ),
    decreases list.len(),
{
    if list.len() > 0 {
        lemma_properties_model(list.drop_last());
    }
}

impl View for MetaData {
    type V = MetaModel;

    open spec fn view(&self) -> MetaModel {
        match self {
            MetaData::UnitClass(c) => MetaModel::UnitClass(c@),
            MetaData::Unit(c) => MetaModel::Unit(c@),
            MetaData::EntityClass(id) => MetaModel::EntityClass(id@),
        }
    }
}

impl Clone for MetaData {
    fn clone(&self) -> (copy: Self)
        ensures
            copy@ == self@,
    {
        match self {
            MetaData::UnitClass(c) => MetaData::UnitClass(c.clone()),
            MetaData::Unit(c) => MetaData::Unit(c.clone()),
            MetaData::EntityClass(id) => MetaData::EntityClass(*id),
        }
    }
}

impl Entity {
    /// What this entity holds.
    pub open spec fn model(&self) -> EntityModel
        decreases self,
    {
        EntityModel {
            properties: properties_model(self.properties@),
            classes: classes_view(self.classes@),
        }
    }

    /// A copy of this entity.
    pub fn duplicate(&self) -> (copy: Entity)
        ensures
            copy.model() == self.model(),
        decreases self,
    {
        let mut properties: Vec<(String, Data)> = Vec::new();
        let mut i: usize = 0;
        while i < self.properties.len()
            invariant
                i <= self.properties@.len(),
                properties_model(properties@) == properties_model(self.properties@.take(i as int)),
            decreases self.properties@.len() - i,
        {
            let name: String = self.properties[i].0.clone();
            let value: Data = self.properties[i].1.duplicate();
            proof {
                let before = self.properties@.take(i as int);
                let after = self.properties@.take(i + 1);
                assert(after.drop_last() =~= before);
                assert(properties@.push((name, value)).drop_last() =~= properties@);
            }
            properties.push((name, value));
            i = i + 1;
        }
        assert(self.properties@.take(i as int) =~= self.properties@);
        let mut classes: Vec<EntityClassId> = Vec::new();
        let mut j: usize = 0;
        while j < self.classes.len()
            invariant
                j <= self.classes@.len(),
                classes@ == self.classes@.take(j as int),
            decreases self.classes@.len() - j,
        {
            classes.push(self.classes[j]);
            assert(self.classes@.take(j + 1) =~= self.classes@.take(j as int).push(
                self.classes@[j as int],
            ));
            j = j + 1;
        }
        assert(self.classes@.take(j as int) =~= self.classes@);
        Entity { properties, classes }
    }
}

impl ValueData {
    /// What this value holds.
    pub open spec fn model(&self) -> ValueModel
        decreases self,
    {
        match self {
            ValueData::Scalar(s) => ValueModel::Scalar(s@),
            ValueData::Entity(e) => ValueModel::Entity(e.model()),
            ValueData::String(text) => ValueModel::String(text@),
        }
    }

    /// A copy of this value.
    pub fn duplicate(&self) -> (copy: ValueData)
        ensures
            copy.model() == self.model(),
        decreases self,
    {
        match self {
            ValueData::Scalar(s) => ValueData::Scalar(s.clone()),
            ValueData::Entity(e) => ValueData::Entity(e.duplicate()),
            ValueData::String(text) => ValueData::String(text.clone()),
        }
    }
}

impl Data {
    /// What this data holds.
    pub open spec fn model(&self) -> DataModel
        decreases self,
    {
        match self {
            Data::Meta(m) => DataModel::Meta(m@),
            Data::Value(v) => DataModel::Value(v.model()),
        }
    }

    /// A copy of this data.
    pub fn duplicate(&self) -> (copy: Data)
        ensures
            copy.model() == self.model(),
        decreases self,
    {
        match self {
            Data::Meta(m) => Data::Meta(m.clone()),
            Data::Value(v) => Data::Value(v.duplicate()),
        }
    }
}

impl Clone for Entity {
    fn clone(&self) -> (copy: Self)
        ensures
            copy.model() == self.model(),
    {
        self.duplicate()
    }
}

impl Clone for ValueData {
    fn clone(&self) -> (copy: Self)
        ensures
            copy.model() == self.model(),
    {
        self.duplicate()
    }
}

impl Clone for Data {
    fn clone(&self) -> (copy: Self)
        ensures
            copy.model() == self.model(),
    {
        self.duplicate()
    }
}

/// What one name stands for in each of the three kinds of names.
#[derive(Debug)]
pub struct AmbiguousItem<'a> {
    /// What the name stands for as a unit class, unit or entity class.
    pub as_meta: Option<&'a MetaData>,
    /// What the name stands for as a value.
    pub as_value: Option<&'a Entity>,
    /// What the name stands for as a label, with the name as it was
    /// declared.
    pub as_label: Option<(&'a String, &'a Data)>,
}

} // verus!
