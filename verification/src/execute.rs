//! Execution of statements.
//!
//! A statement is executed in two steps. The first looks at the instance and
//! decides what is to be done: it evaluates the expression of the statement
//! and reads out of its value what the declaration needs. The second does
//! it. Nothing is changed before the first step has come to its end, so a
//! statement that fails, or that waits for an answer of the arithmetic,
//! leaves the instance as it was.

use crate::data::{Data, DataModel, Entity, EntityClass, EntityClassId, EntityModel, MetaData, MetaModel, ValueData, ValueModel};
use crate::error::Error;
use crate::data::{
    classes_view, lemma_properties_model, properties_model, well_formed, well_formed_entity,
};
use crate::evaluate::{
    evaluation, lemma_evaluation_well_formed, lemma_property_at, property_at,
    AmbiguityResolutionContext, Request, Stage, Step,
};
use crate::expression::names_view;
use crate::instance::{
    after_units, data_view, declared, entity_view, lemma_sound_kept, meta_view, Instance,
};
use crate::magnitude::Magnitude;
use crate::scalar::Answer;
use crate::statement::{Statement, StatementModel};
use crate::units::{copy_names, units_view, Unit, UnitClass, UnitModel, UnitPrefixType};
use vstd::prelude::*;

verus! {

/// What executing a statement does to the instance.
#[derive(Debug)]
pub enum Action {
    AddUnitClass(Vec<String>),
    AddUnit(Unit, UnitPrefixType),
    AddEntityClass(Vec<String>),
    AddLabel(Vec<String>, Data),
    AddValue(Vec<String>, Entity),
    Show(Data),
}

/// What an `Action` holds.
pub enum ActionModel {
    AddUnitClass(Seq<Seq<char>>),
    AddUnit(UnitModel, UnitPrefixType),
    AddEntityClass(Seq<Seq<char>>),
    AddLabel(Seq<Seq<char>>, DataModel),
    AddValue(Seq<Seq<char>>, EntityModel),
    Show(DataModel),
}

impl View for Action {
    type V = ActionModel;

    open spec fn view(&self) -> ActionModel {
        match self {
            Action::AddUnitClass(names) => ActionModel::AddUnitClass(names_view(names@)),
            Action::AddUnit(unit, prefix_type) => ActionModel::AddUnit(unit@, *prefix_type),
            Action::AddEntityClass(names) => ActionModel::AddEntityClass(names_view(names@)),
            Action::AddLabel(names, data) => ActionModel::AddLabel(names_view(names@), data.model()),
            Action::AddValue(names, entity) => ActionModel::AddValue(
                names_view(names@),
                entity.model(),
            ),
            Action::Show(data) => ActionModel::Show(data.model()),
        }
    }
}

/// How the execution of a statement ended.
#[derive(Debug)]
pub enum Execution {
    /// The declaration was made.
    Done,
    /// The statement asks for this value to be shown.
    Shown(Data),
    /// The statement failed, and nothing was changed.
    Failed(Error),
    /// The arithmetic has to answer this request first; nothing was changed.
    Pending(Request),
}

/// The value of the first property of `entity` called `name`.
pub open spec fn property(entity: EntityModel, name: Seq<char>) -> Option<DataModel> {
    match property_at(entity.properties, name) {
        Some(i) => Some(entity.properties[i].1),
        None => None,
    }
}

/// The entity class that `name` stands for.
pub open spec fn tag(instance: &Instance, name: Seq<char>) -> Result<nat, Error> {
    match meta_view(instance.meta(name)) {
        Some(MetaModel::EntityClass(id)) => Ok(id),
        Some(_) => Err(Error::TypeMismatch),
        None => Err(Error::UndefinedName),
    }
}

/// The kind of prefixes that the classes of an entity ask for, where
/// `metric` and `partial` are the classes that ask for all prefixes and for
/// the small ones. Any other class is one too many, and so are both of
/// these together.
pub open spec fn prefix_kind(classes: Seq<nat>, metric: nat, partial: nat) -> Result<
    UnitPrefixType,
    Error,
> {
    let has_metric = classes.contains(metric);
    let has_partial = partial != metric && classes.contains(partial);
    if exists|i: int| 0 <= i < classes.len() && #[trigger] classes[i] != metric && classes[i] != partial {
        Err(Error::TypeMismatch)
    } else if has_metric && has_partial {
        Err(Error::TypeMismatch)
    } else if has_metric {
        Ok(UnitPrefixType::Metric)
    } else if has_partial {
        Ok(UnitPrefixType::PartialMetric)
    } else {
        Ok(UnitPrefixType::Plain)
    }
}

/// The kind of prefixes that `entity` asks for, if it has `count`
/// properties and no class but the two that ask for prefixes.
pub open spec fn prefixes_asked(instance: &Instance, entity: EntityModel, count: nat) -> Result<
    UnitPrefixType,
    Error,
> {
    match tag(instance, "metric"@) {
        Ok(metric) => match tag(instance, "partial_metric"@) {
            Ok(partial) => if entity.properties.len() != count {
                Err(Error::TypeMismatch)
            } else {
                prefix_kind(entity.classes, metric, partial)
            },
            Err(e) => Err(e),
        },
        Err(e) => Err(e),
    }
}

/// The base unit that `data` describes: an entity with the dimension as
/// `class` and the symbol as `symbol` and nothing else, that may be tagged
/// `metric` or `partial_metric`. A base unit has the ratio one.
pub open spec fn base_unit(instance: &Instance, names: Seq<Seq<char>>, data: DataModel) -> Result<
    (UnitModel, UnitPrefixType),
    Error,
> {
    match data {
        DataModel::Value(ValueModel::Entity(entity)) => match property(entity, "class"@) {
            Some(DataModel::Meta(MetaModel::UnitClass(class))) => match property(
                entity,
                "symbol"@,
            ) {
                Some(DataModel::Value(ValueModel::String(symbol))) => match prefixes_asked(
                    instance,
                    entity,
                    2,
                ) {
                    Ok(prefix_type) => Ok(
                        (
                            UnitModel {
                                names,
                                class,
                                symbol,
                                base_ratio: Magnitude::unity(),
                                prefix_exponent: 0,
                            },
                            prefix_type,
                        ),
                    ),
                    Err(e) => Err(e),
                },
                _ => Err(Error::TypeMismatch),
            },
            _ => Err(Error::TypeMismatch),
        },
        _ => Err(Error::TypeMismatch),
    }
}

/// The derived unit that `data` describes: an entity with the symbol as
/// `symbol` and one of the unit as the quantity `value` and nothing else,
/// that may be tagged `metric` or `partial_metric`. The unit has the
/// dimension and the magnitude of that quantity.
pub open spec fn derived_unit(instance: &Instance, names: Seq<Seq<char>>, data: DataModel) -> Result<
    (UnitModel, UnitPrefixType),
    Error,
> {
    match data {
        DataModel::Value(ValueModel::Entity(entity)) => match property(entity, "symbol"@) {
            Some(DataModel::Value(ValueModel::String(symbol))) => match property(
                entity,
                "value"@,
            ) {
                Some(DataModel::Value(ValueModel::Scalar(value))) => match prefixes_asked(
                    instance,
                    entity,
                    2,
                ) {
                    Ok(prefix_type) => Ok(
                        (
                            UnitModel {
                                names,
                                class: value.unit,
                                symbol,
                                base_ratio: value.value,
                                prefix_exponent: 0,
                            },
                            prefix_type,
                        ),
                    ),
                    Err(e) => Err(e),
                },
                _ => Err(Error::TypeMismatch),
            },
            _ => Err(Error::TypeMismatch),
        },
        _ => Err(Error::TypeMismatch),
    }
}

/// What a declaration does with the value `data` of its expression.
pub open spec fn action_with(instance: &Instance, statement: StatementModel, data: DataModel) -> Result<
    ActionModel,
    Error,
> {
    match statement {
        StatementModel::MakeBaseUnit(names, _) => match base_unit(instance, names, data) {
            Ok((unit, prefix_type)) => Ok(ActionModel::AddUnit(unit, prefix_type)),
            Err(e) => Err(e),
        },
        StatementModel::MakeDerivedUnit(names, _) => match derived_unit(instance, names, data) {
            Ok((unit, prefix_type)) => Ok(ActionModel::AddUnit(unit, prefix_type)),
            Err(e) => Err(e),
        },
        StatementModel::MakeLabel(names, _) => Ok(ActionModel::AddLabel(names, data)),
        StatementModel::MakeValue(names, _) => match data {
            DataModel::Value(ValueModel::Entity(entity)) => Ok(ActionModel::AddValue(names, entity)),
            _ => Err(Error::TypeMismatch),
        },
        StatementModel::Show(_) => Ok(ActionModel::Show(data)),
        StatementModel::MakeUnitClass(names) => Ok(ActionModel::AddUnitClass(names)),
        StatementModel::MakeEntityClass(names, _) => Ok(ActionModel::AddEntityClass(names)),
    }
}

/// Whether the data that an action declares or shows is well formed.
pub open spec fn action_well_formed(action: ActionModel) -> bool {
    match action {
        ActionModel::AddLabel(_, data) => well_formed(data),
        ActionModel::AddValue(_, entity) => well_formed_entity(entity),
        ActionModel::Show(data) => well_formed(data),
        _ => true,
    }
}

/// What executing a statement in a sound instance is to do declares and
/// shows well-formed data only.
pub proof fn lemma_plan_well_formed(instance: &Instance, statement: StatementModel, answers: Seq<Answer>)
    requires
        instance.sound(),
    ensures
        plan(instance, statement, answers) matches Step::Ready(action, _) ==> action_well_formed(
            action,
        ),
{
    match statement {
        StatementModel::MakeBaseUnit(_, e)
        | StatementModel::MakeDerivedUnit(_, e)
        | StatementModel::MakeLabel(_, e)
        | StatementModel::MakeValue(_, e)
        | StatementModel::Show(e) => {
            lemma_evaluation_well_formed(
                instance,
                e,
                AmbiguityResolutionContext::PreferValues,
                answers,
                0,
            );
        },
        _ => {},
    }
}

/// What executing `statement` in `instance` is to do. A unit class and an
/// entity class are declared as they stand. Every other statement has its
/// expression evaluated, with values going before meta items, and the
/// action is made of the value.
pub open spec fn plan(instance: &Instance, statement: StatementModel, answers: Seq<Answer>) -> Step<
    ActionModel,
> {
    match statement {
        StatementModel::MakeUnitClass(names) => Step::Ready(ActionModel::AddUnitClass(names), 0),
        StatementModel::MakeEntityClass(names, _) => Step::Ready(
            ActionModel::AddEntityClass(names),
            0,
        ),
        StatementModel::MakeBaseUnit(_, e)
        | StatementModel::MakeDerivedUnit(_, e)
        | StatementModel::MakeLabel(_, e)
        | StatementModel::MakeValue(_, e)
        | StatementModel::Show(e) => match evaluation(
            instance,
            e,
            AmbiguityResolutionContext::PreferValues,
            answers,
            0,
        ) {
            Step::Ready(data, used) => match action_with(instance, statement, data) {
                Ok(action) => Step::Ready(action, used),
                Err(e) => Step::Failed(e),
            },
            Step::Failed(e) => Step::Failed(e),
            Step::Pending(r) => Step::Pending(r),
        },
    }
}

/// Whether `after` is `before` with one more unit class, declared under
/// `names`.
pub open spec fn unit_class_added(before: &Instance, after: &Instance, names: Seq<Seq<char>>) -> bool {
    &&& after.unit_classes().len() == before.unit_classes().len() + 1
    &&& after.unit_classes().drop_last() == before.unit_classes()
    &&& names_view(after.unit_classes().last().names@) == names
    &&& after.units() == before.units()
    &&& after.entity_classes() == before.entity_classes()
    &&& after.same_values(before)
    &&& after.same_labels(before)
    &&& forall|name: Seq<char>| #[trigger]
        meta_view(after.meta(name)) == if names.contains(name) {
            Some(MetaModel::UnitClass(crate::units::single(before.unit_classes().len())))
        } else {
            meta_view(before.meta(name))
        }
}

/// Whether `after` is `before` with one more entity class, declared under
/// `names`.
pub open spec fn entity_class_added(before: &Instance, after: &Instance, names: Seq<Seq<char>>) -> bool {
    &&& after.entity_classes().len() == before.entity_classes().len() + 1
    &&& after.entity_classes().drop_last() == before.entity_classes()
    &&& names_view(after.entity_classes().last().names@) == names
    &&& after.units() == before.units()
    &&& after.unit_classes() == before.unit_classes()
    &&& after.same_values(before)
    &&& after.same_labels(before)
    &&& forall|name: Seq<char>| #[trigger]
        meta_view(after.meta(name)) == if names.contains(name) {
            Some(MetaModel::EntityClass(before.entity_classes().len()))
        } else {
            meta_view(before.meta(name))
        }
}

/// Whether `after` is `before` with `unit` and its variants declared, each
/// under its names.
pub open spec fn units_added(
    before: &Instance,
    after: &Instance,
    unit: UnitModel,
    prefix_type: UnitPrefixType,
) -> bool {
    &&& units_view(after.units()) == units_view(before.units()) + declared(unit, prefix_type)
    &&& after.unit_classes() == before.unit_classes()
    &&& after.entity_classes() == before.entity_classes()
    &&& after.same_values(before)
    &&& after.same_labels(before)
    &&& forall|name: Seq<char>| #[trigger]
        meta_view(after.meta(name)) == after_units(
            meta_view(before.meta(name)),
            declared(unit, prefix_type),
            before.units().len(),
            name,
        )
}

/// Whether `after` is `before` with the label `data` declared under
/// `names`.
pub open spec fn label_added(
    before: &Instance,
    after: &Instance,
    names: Seq<Seq<char>>,
    data: DataModel,
) -> bool {
    &&& after.same_pools(before)
    &&& after.same_meta(before)
    &&& after.same_values(before)
    &&& forall|name: Seq<char>| #[trigger]
        data_view(after.label(name)) == if names.contains(name) {
            Some(data)
        } else {
            data_view(before.label(name))
        }
}

/// Whether `after` is `before` with the value `entity` declared under
/// `names`.
pub open spec fn value_added(
    before: &Instance,
    after: &Instance,
    names: Seq<Seq<char>>,
    entity: EntityModel,
) -> bool {
    &&& after.same_pools(before)
    &&& after.same_meta(before)
    &&& after.same_labels(before)
    &&& forall|name: Seq<char>| #[trigger]
        entity_view(after.value(name)) == if names.contains(name) {
            Some(entity)
        } else {
            entity_view(before.value(name))
        }
}

/// Whether performing `action` on `before` ends as `execution` and leaves
/// `after`. A declaration is made under all its names or, where it cannot
/// be, not at all.
pub open spec fn performed(
    before: &Instance,
    after: &Instance,
    action: ActionModel,
    execution: Execution,
) -> bool {
    match action {
        ActionModel::AddUnitClass(names) => if before.any_meta(names) {
            execution == Execution::Failed(Error::NameCollision) && *after == *before
        } else {
            execution is Done && unit_class_added(before, after, names)
        },
        ActionModel::AddEntityClass(names) => if before.any_meta(names) {
            execution == Execution::Failed(Error::NameCollision) && *after == *before
        } else {
            execution is Done && entity_class_added(before, after, names)
        },
        ActionModel::AddUnit(unit, prefix_type) => if !before.can_declare(
            declared(unit, prefix_type),
        ) {
            execution == Execution::Failed(Error::NameCollision) && *after == *before
        } else {
            execution is Done && units_added(before, after, unit, prefix_type)
        },
        ActionModel::AddLabel(names, data) => if before.any_label(names) {
            execution == Execution::Failed(Error::NameCollision) && *after == *before
        } else {
            execution is Done && label_added(before, after, names, data)
        },
        ActionModel::AddValue(names, entity) => if before.any_value(names) {
            execution == Execution::Failed(Error::NameCollision) && *after == *before
        } else {
            execution is Done && value_added(before, after, names, entity)
        },
        ActionModel::Show(data) => {
            &&& execution matches Execution::Shown(shown)
            &&& shown.model() == data
            &&& *after == *before
        },
    }
}

/// The stage that a stage of actions stands for.
pub open spec fn action_stage(stage: Stage<Action>) -> Step<ActionModel> {
    match stage {
        Stage::Ready(a, n) => Step::Ready(a@, n as nat),
        Stage::Failed(e) => Step::Failed(e),
        Stage::Pending(r) => Step::Pending(r@),
    }
}

/// The value of the first property of `entity` called `name`.
pub fn find_property<'a>(entity: &'a Entity, name: &str) -> (found: Option<&'a Data>)
    ensures
        match found {
            Some(data) => property(entity.model(), name@) == Some(data.model()),
            None => property(entity.model(), name@).is_none(),
        },
{
    let key: String = name.to_owned();
    let ghost model = properties_model(entity.properties@);
    proof {
        lemma_properties_model(entity.properties@);
        lemma_property_at(model, name@);
    }
    let mut i: usize = 0;
    while i < entity.properties.len()
        invariant
            i <= entity.properties@.len(),
            key@ == name@,
            model == properties_model(entity.properties@),
            model.len() == entity.properties@.len(),
            forall|j: int|
                0 <= j < model.len() ==> (#[trigger] model[j]) == (
                    entity.properties@[j].0@,
                    entity.properties@[j].1.model(),
                ),
            forall|j: int| 0 <= j < i ==> (#[trigger] model[j]).0 != name@,
        decreases entity.properties@.len() - i,
    {
        if entity.properties[i].0 == key {
            proof {
                assert(model[i as int].0 == name@);
                lemma_property_at(model, name@);
            }
            return Some(&entity.properties[i].1);
        }
        assert(model[i as int].0 != name@);
        i = i + 1;
    }
    proof {
        lemma_property_at(model, name@);
    }
    None
}

/// The kind of prefixes that the classes ask for.
pub(crate) fn read_prefix_kind(classes: &Vec<EntityClassId>, metric: EntityClassId, partial: EntityClassId) -> (kind: Result<
    UnitPrefixType,
    Error,
>)
    ensures
        kind == prefix_kind(classes_view(classes@), metric@, partial@),
{
    let ghost list = classes_view(classes@);
    let same: bool = metric.index() == partial.index();
    let mut has_metric: bool = false;
    let mut has_partial: bool = false;
    let mut i: usize = 0;
    while i < classes.len()
        invariant
            i <= classes@.len(),
            list == classes_view(classes@),
            same == (metric@ == partial@),
            forall|j: int| 0 <= j < i ==> (#[trigger] list[j]) == metric@ || list[j] == partial@,
            has_metric == exists|j: int| 0 <= j < i && #[trigger] list[j] == metric@,
            has_partial == (!same && exists|j: int| 0 <= j < i && #[trigger] list[j] == partial@),
        decreases classes@.len() - i,
    {
        let index: usize = classes[i].index();
        assert(list[i as int] == index);
        if index == metric.index() {
            has_metric = true;
        } else if index == partial.index() {
            has_partial = true;
        } else {
            return Err(Error::TypeMismatch);
        }
        i = i + 1;
    }
    assert(has_metric == list.contains(metric@));
    assert(has_partial == (partial@ != metric@ && list.contains(partial@)));
    if has_metric && has_partial {
        Err(Error::TypeMismatch)
    } else if has_metric {
        Ok(UnitPrefixType::Metric)
    } else if has_partial {
        Ok(UnitPrefixType::PartialMetric)
    } else {
        Ok(UnitPrefixType::Plain)
    }
}

impl Instance {
    /// The entity class that `name` stands for.
    pub fn find_tag(&self, name: &str) -> (found: Result<EntityClassId, Error>)
        ensures
            match found {
                Ok(id) => tag(self, name@) == Ok::<nat, Error>(id@),
                Err(e) => tag(self, name@) == Err::<nat, Error>(e),
            },
    {
        let key: String = name.to_owned();
        let item = self.lookup_item(&key);
        match item.as_meta {
            Some(MetaData::EntityClass(id)) => Ok(*id),
            Some(_) => Err(Error::TypeMismatch),
            None => Err(Error::UndefinedName),
        }
    }

    /// The kind of prefixes that `entity` asks for.
    fn read_prefixes(&self, entity: &Entity, count: usize) -> (kind: Result<UnitPrefixType, Error>)
        ensures
            kind == prefixes_asked(self, entity.model(), count as nat),
    {
        let metric = match self.find_tag("metric") {
            Ok(id) => id,
            Err(e) => {
                return Err(e);
            },
        };
        let partial = match self.find_tag("partial_metric") {
            Ok(id) => id,
            Err(e) => {
                return Err(e);
            },
        };
        proof {
            lemma_properties_model(entity.properties@);
        }
        if entity.properties.len() != count {
            return Err(Error::TypeMismatch);
        }
        read_prefix_kind(&entity.classes, metric, partial)
    }

    /// The base unit that `data` describes.
    fn read_base_unit(&self, names: &Vec<String>, data: &Data) -> (unit: Result<
        (Unit, UnitPrefixType),
        Error,
    >)
        ensures
            match unit {
                Ok((unit, prefix_type)) => base_unit(self, names_view(names@), data.model()) == Ok::<
                    (UnitModel, UnitPrefixType),
                    Error,
                >((unit@, prefix_type)),
                Err(e) => base_unit(self, names_view(names@), data.model()) == Err::<
                    (UnitModel, UnitPrefixType),
                    Error,
                >(e),
            },
    {
        let entity: &Entity = match data {
            Data::Value(ValueData::Entity(entity)) => entity,
            _ => {
                return Err(Error::TypeMismatch);
            },
        };
        let class = match find_property(entity, "class") {
            Some(Data::Meta(MetaData::UnitClass(class))) => class,
            _ => {
                return Err(Error::TypeMismatch);
            },
        };
        let symbol = match find_property(entity, "symbol") {
            Some(Data::Value(ValueData::String(symbol))) => symbol,
            _ => {
                return Err(Error::TypeMismatch);
            },
        };
        let prefix_type = match self.read_prefixes(entity, 2) {
            Ok(prefix_type) => prefix_type,
            Err(e) => {
                return Err(e);
            },
        };
        Ok(
            (
                Unit {
                    names: copy_names(names),
                    class: class.clone(),
                    symbol: symbol.clone(),
                    base_ratio: Magnitude::one(),
                    prefix_exponent: 0,
                },
                prefix_type,
            ),
        )
    }

    /// The derived unit that `data` describes.
    fn read_derived_unit(&self, names: &Vec<String>, data: &Data) -> (unit: Result<
        (Unit, UnitPrefixType),
        Error,
    >)
        ensures
            match unit {
                Ok((unit, prefix_type)) => derived_unit(self, names_view(names@), data.model())
                    == Ok::<(UnitModel, UnitPrefixType), Error>((unit@, prefix_type)),
                Err(e) => derived_unit(self, names_view(names@), data.model()) == Err::<
                    (UnitModel, UnitPrefixType),
                    Error,
                >(e),
            },
    {
        let entity: &Entity = match data {
            Data::Value(ValueData::Entity(entity)) => entity,
            _ => {
                return Err(Error::TypeMismatch);
            },
        };
        let symbol = match find_property(entity, "symbol") {
            Some(Data::Value(ValueData::String(symbol))) => symbol,
            _ => {
                return Err(Error::TypeMismatch);
            },
        };
        let value = match find_property(entity, "value") {
            Some(Data::Value(ValueData::Scalar(value))) => value,
            _ => {
                return Err(Error::TypeMismatch);
            },
        };
        let prefix_type = match self.read_prefixes(entity, 2) {
            Ok(prefix_type) => prefix_type,
            Err(e) => {
                return Err(e);
            },
        };
        Ok(
            (
                Unit {
                    names: copy_names(names),
                    class: value.unit().clone(),
                    symbol: symbol.clone(),
                    base_ratio: value.raw_value(),
                    prefix_exponent: 0,
                },
                prefix_type,
            ),
        )
    }

    /// Decides what executing `statement` is to do, as far as `answers`
    /// reach.
    pub fn plan_statement(&self, statement: &Statement, answers: &Vec<Answer>) -> (stage: Stage<
        Action,
    >)
        ensures
            action_stage(stage) == plan(self, statement@, answers@),
            self.sound() ==> (stage matches Stage::Ready(action, _) ==> action_well_formed(action@)),
    {
        proof {
            if self.sound() {
                lemma_plan_well_formed(self, statement@, answers@);
            }
        }
        let expression = match statement {
            Statement::MakeUnitClass(names) => {
                return Stage::Ready(Action::AddUnitClass(copy_names(names)), 0);
            },
            Statement::MakeEntityClass(names, _) => {
                return Stage::Ready(Action::AddEntityClass(copy_names(names)), 0);
            },
            Statement::MakeBaseUnit(_, e) => e,
            Statement::MakeDerivedUnit(_, e) => e,
            Statement::MakeLabel(_, e) => e,
            Statement::MakeValue(_, e) => e,
            Statement::Show(e) => e,
        };
        let (data, used) = match self.resolve_at(
            expression,
            AmbiguityResolutionContext::PreferValues,
            answers,
            0,
        ) {
            Stage::Ready(data, used) => (data, used),
            Stage::Failed(e) => {
                return Stage::Failed(e);
            },
            Stage::Pending(r) => {
                return Stage::Pending(r);
            },
        };
        match statement {
            Statement::MakeBaseUnit(names, _) => match self.read_base_unit(names, &data) {
                Ok((unit, prefix_type)) => Stage::Ready(Action::AddUnit(unit, prefix_type), used),
                Err(e) => Stage::Failed(e),
            },
            Statement::MakeDerivedUnit(names, _) => match self.read_derived_unit(names, &data) {
                Ok((unit, prefix_type)) => Stage::Ready(Action::AddUnit(unit, prefix_type), used),
                Err(e) => Stage::Failed(e),
            },
            Statement::MakeLabel(names, _) => Stage::Ready(
                Action::AddLabel(copy_names(names), data),
                used,
            ),
            Statement::MakeValue(names, _) => match data {
                Data::Value(ValueData::Entity(entity)) => Stage::Ready(
                    Action::AddValue(copy_names(names), entity),
                    used,
                ),
                _ => Stage::Failed(Error::TypeMismatch),
            },
            Statement::Show(_) => Stage::Ready(Action::Show(data), used),
            Statement::MakeUnitClass(names) => Stage::Ready(
                Action::AddUnitClass(copy_names(names)),
                used,
            ),
            Statement::MakeEntityClass(names, _) => Stage::Ready(
                Action::AddEntityClass(copy_names(names)),
                used,
            ),
        }
    }

    /// Does what `action` says.
    pub fn perform(&mut self, action: Action) -> (execution: Execution)
        ensures
            performed(old(self), final(self), action@, execution),
            old(self).sound() && action_well_formed(action@) ==> final(self).sound(),
            action_well_formed(action@) ==> (execution matches Execution::Shown(data)
                ==> well_formed(data.model())),
    {
        match action {
            Action::AddUnitClass(names) => match self.add_unit_class(UnitClass { names }) {
                Ok(_) => {
                    proof {
                        assert(self.unit_classes().drop_last() =~= old(self).unit_classes());
                        if old(self).sound() {
                            lemma_sound_kept(old(self), self);
                        }
                    }
                    Execution::Done
                },
                Err(e) => Execution::Failed(e),
            },
            Action::AddEntityClass(names) => match self.add_entity_class(EntityClass { names }) {
                Ok(_) => {
                    proof {
                        assert(self.entity_classes().drop_last() =~= old(self).entity_classes());
                        if old(self).sound() {
                            lemma_sound_kept(old(self), self);
                        }
                    }
                    Execution::Done
                },
                Err(e) => Execution::Failed(e),
            },
            Action::AddUnit(unit, prefix_type) => match self.add_unit(unit, prefix_type) {
                Ok(_) => {
                    proof {
                        if old(self).sound() {
                            lemma_sound_kept(old(self), self);
                        }
                    }
                    Execution::Done
                },
                Err(e) => Execution::Failed(e),
            },
            Action::AddLabel(names, data) => match self.declare_label(names, data) {
                Ok(_) => Execution::Done,
                Err(e) => Execution::Failed(e),
            },
            Action::AddValue(names, entity) => match self.declare_value(names, entity) {
                Ok(_) => Execution::Done,
                Err(e) => Execution::Failed(e),
            },
            Action::Show(data) => Execution::Shown(data),
        }
    }

    /// Executes `statement` as far as `answers` reach. Where the arithmetic
    /// has to answer a request first, or the statement fails, the instance
    /// stays as it was; otherwise the statement is executed to its end.
    pub fn execute_statement(&mut self, statement: &Statement, answers: &Vec<Answer>) -> (execution: Execution)
        ensures
            match plan(old(self), statement@, answers@) {
                Step::Ready(action, _) => performed(old(self), final(self), action, execution),
                Step::Failed(e) => execution == Execution::Failed(e) && *final(self) == *old(self),
                Step::Pending(r) => {
                    &&& execution matches Execution::Pending(request)
                    &&& request@ == r
                    &&& *final(self) == *old(self)
                },
            },
            old(self).sound() ==> final(self).sound(),
            old(self).sound() ==> (execution matches Execution::Shown(data) ==> well_formed(
                data.model(),
            )),
    {
        match self.plan_statement(statement, answers) {
            Stage::Ready(action, _) => self.perform(action),
            Stage::Failed(e) => Execution::Failed(e),
            Stage::Pending(r) => Execution::Pending(r),
        }
    }
}

} // verus!
